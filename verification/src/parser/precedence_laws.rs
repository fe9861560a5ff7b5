//! How operators group their operands.

use crate::ast::ExprV;
use crate::lexer::{KindV, TokenKind, TokenV};
use crate::parser::cursor;
use crate::parser::cursor::ParseErrorV;
use crate::parser::expr_syntax;
use crate::parser::reading_laws;
use crate::parser::spelling;
use crate::text::Text;
use crate::types::{BinaryOp, Sigil, Spanned};
use vstd::prelude::*;

verus! {

/// How tightly operators bind: a disjunction least, a conjunction more, comparisons more than
/// these, sums more than comparisons, products more than sums, and shifts most.
pub open spec fn tightness(op: BinaryOp) -> nat {
    match op {
        BinaryOp::Or => 0,
        BinaryOp::And => 10,
        BinaryOp::Eq => 20,
        BinaryOp::Ne => 20,
        BinaryOp::Lt => 20,
        BinaryOp::Le => 20,
        BinaryOp::Gt => 20,
        BinaryOp::Ge => 20,
        BinaryOp::FEq => 20,
        BinaryOp::FNe => 20,
        BinaryOp::FLt => 20,
        BinaryOp::FLe => 20,
        BinaryOp::FGt => 20,
        BinaryOp::FGe => 20,
        BinaryOp::Add => 30,
        BinaryOp::Sub => 30,
        BinaryOp::Concat => 30,
        BinaryOp::FAdd => 30,
        BinaryOp::FSub => 30,
        BinaryOp::BitOr => 30,
        BinaryOp::BitXor => 30,
        BinaryOp::Mul => 40,
        BinaryOp::Div => 40,
        BinaryOp::Mod => 40,
        BinaryOp::FMul => 40,
        BinaryOp::FDiv => 40,
        BinaryOp::BitAnd => 40,
        BinaryOp::Shl => 50,
        BinaryOp::Shr => 50,
    }
}

/// A variable without places.
pub open spec fn bare_variable(name: Text) -> ExprV {
    ExprV::Variable(name, Sigil::Immutable)
}

/// An operator and its operands without places.
pub open spec fn bare_operator(l: ExprV, op: BinaryOp, r: ExprV) -> ExprV {
    ExprV::BinaryOp(
        Box::new(Spanned { node: l, span: spelling::nowhere() }),
        op,
        Box::new(Spanned { node: r, span: spelling::nowhere() }),
    )
}

/// A name before an operator reads as a variable.
proof fn lemma_operand_reads(toks: Seq<TokenV>, p: nat, name: Text, op: BinaryOp)
    requires
        spelling::variable_name(name),
        p + 1 < toks.len(),
        toks[p as int].kind == KindV::Ident(name),
        toks[p as int + 1].kind == KindV::Plain(spelling::operator_token(op)),
    ensures
        expr_syntax::postfix_expr_at(toks, p) matches Ok((v, q)) && q == p + 1 && v.node == bare_variable(name),
        expr_syntax::binop_at(toks, p + 1) == Some(op),
        !cursor::is_at(toks, p + 1, TokenKind::ColonColon),
{
    reveal(cursor::kind_is);
    reveal(cursor::is_literal);
    spelling::lemma_operator(op);
    assert(expr_syntax::path_rest_at(toks, p + 1, name, 1) == Ok::<((Text, nat), nat), ParseErrorV>(
        ((name, 1), p + 1),
    ));
    assert(expr_syntax::atom_at(toks, p) == expr_syntax::name_expr_at(toks, p));
    let e = expr_syntax::name_expr_at(toks, p)->Ok_0.0;
    assert(expr_syntax::postfix_rest_at(toks, p + 1, e) == Ok::<(Spanned<ExprV>, nat), ParseErrorV>((e, p + 1)));
}

/// What follows two operands and a last one, where the second operator binds more tightly.
#[verifier::spinoff_prover]
#[verifier::rlimit(40)]
proof fn lemma_groups_right(
    toks: Seq<TokenV>,
    p: nat,
    x: Spanned<ExprV>,
    first: BinaryOp,
    y: Spanned<ExprV>,
    second: BinaryOp,
    z: Spanned<ExprV>,
)
    requires
        expr_syntax::postfix_expr_at(toks, p) == Ok::<(Spanned<ExprV>, nat), ParseErrorV>((x, p + 1)),
        expr_syntax::postfix_expr_at(toks, p + 2) == Ok::<(Spanned<ExprV>, nat), ParseErrorV>((y, p + 3)),
        expr_syntax::prec_expr_at(toks, p + 4, expr_syntax::precedence(second) + 1) == Ok::<
            (Spanned<ExprV>, nat),
            ParseErrorV,
        >((z, p + 5)),
        expr_syntax::binop_at(toks, p + 1) == Some(first),
        expr_syntax::binop_at(toks, p + 3) == Some(second),
        !cursor::is_at(toks, p + 1, TokenKind::ColonColon),
        !cursor::is_at(toks, p + 3, TokenKind::ColonColon),
        spelling::ends_at(toks, p + 5),
        expr_syntax::precedence(second) >= expr_syntax::precedence(first) + 1,
    ensures
        expr_syntax::expr_at(toks, p) matches Ok((v, q)) && q == p + 5 && (v.node matches ExprV::BinaryOp(l, o, r)
            && *l == x && o == first && (r.node matches ExprV::BinaryOp(l2, o2, r2) && *l2 == y
            && o2 == second && *r2 == z)),
{
    let q = p + 5;
    let n1 = expr_syntax::precedence(first);
    let inner = Spanned {
        node: ExprV::BinaryOp(Box::new(y), second, Box::new(z)),
        span: cursor::span_between(y.span.start, z.span.end),
    };
    let outer = Spanned {
        node: ExprV::BinaryOp(Box::new(x), first, Box::new(inner)),
        span: cursor::span_between(x.span.start, inner.span.end),
    };
    reading_laws::lemma_operand_ends(toks, q, inner);
    reading_laws::lemma_operand_ends(toks, q, outer);
    assert(expr_syntax::prec_rest_at(toks, p + 3, y, n1 + 1) == expr_syntax::prec_rest_at(toks, q, inner, n1 + 1));
    assert(expr_syntax::prec_expr_at(toks, p + 2, n1 + 1) == Ok::<(Spanned<ExprV>, nat), ParseErrorV>(
        (inner, q),
    ));
    assert(expr_syntax::prec_rest_at(toks, p + 1, x, 0) == expr_syntax::prec_rest_at(toks, q, outer, 0));
    assert(expr_syntax::prec_expr_at(toks, p, 0) == Ok::<(Spanned<ExprV>, nat), ParseErrorV>((outer, q)));
}

/// What follows two operands and a last one, where the second operator does not bind more
/// tightly.
#[verifier::spinoff_prover]
#[verifier::rlimit(40)]
proof fn lemma_groups_left(
    toks: Seq<TokenV>,
    p: nat,
    x: Spanned<ExprV>,
    first: BinaryOp,
    y: Spanned<ExprV>,
    second: BinaryOp,
    z: Spanned<ExprV>,
)
    requires
        expr_syntax::postfix_expr_at(toks, p) == Ok::<(Spanned<ExprV>, nat), ParseErrorV>((x, p + 1)),
        expr_syntax::postfix_expr_at(toks, p + 2) == Ok::<(Spanned<ExprV>, nat), ParseErrorV>((y, p + 3)),
        expr_syntax::prec_expr_at(toks, p + 4, expr_syntax::precedence(second) + 1) == Ok::<
            (Spanned<ExprV>, nat),
            ParseErrorV,
        >((z, p + 5)),
        expr_syntax::binop_at(toks, p + 1) == Some(first),
        expr_syntax::binop_at(toks, p + 3) == Some(second),
        !cursor::is_at(toks, p + 1, TokenKind::ColonColon),
        !cursor::is_at(toks, p + 3, TokenKind::ColonColon),
        spelling::ends_at(toks, p + 5),
        expr_syntax::precedence(second) <= expr_syntax::precedence(first),
    ensures
        expr_syntax::expr_at(toks, p) matches Ok((v, q)) && q == p + 5 && (v.node matches ExprV::BinaryOp(l, o, r)
            && *r == z && o == second && (l.node matches ExprV::BinaryOp(l2, o2, r2) && *l2 == x
            && o2 == first && *r2 == y)),
{
    let q = p + 5;
    let n1 = expr_syntax::precedence(first);
    let inner = Spanned {
        node: ExprV::BinaryOp(Box::new(x), first, Box::new(y)),
        span: cursor::span_between(x.span.start, y.span.end),
    };
    let outer = Spanned {
        node: ExprV::BinaryOp(Box::new(inner), second, Box::new(z)),
        span: cursor::span_between(inner.span.start, z.span.end),
    };
    reading_laws::lemma_operand_ends(toks, q, outer);
    assert(expr_syntax::prec_rest_at(toks, p + 3, y, n1 + 1) == Ok::<(Spanned<ExprV>, nat), ParseErrorV>(
        (y, p + 3),
    ));
    assert(expr_syntax::prec_expr_at(toks, p + 2, n1 + 1) == Ok::<(Spanned<ExprV>, nat), ParseErrorV>(
        (y, p + 3),
    ));
    assert(expr_syntax::prec_rest_at(toks, p + 3, inner, 0) == expr_syntax::prec_rest_at(toks, q, outer, 0));
    assert(expr_syntax::prec_rest_at(toks, p + 1, x, 0) == expr_syntax::prec_rest_at(toks, p + 3, inner, 0));
    assert(expr_syntax::prec_expr_at(toks, p, 0) == Ok::<(Spanned<ExprV>, nat), ParseErrorV>((outer, q)));
}

/// Of two operators between three names the one that binds more tightly takes the middle name,
/// and the first where both bind alike.
#[verifier::spinoff_prover]
#[verifier::rlimit(60)]
pub proof fn law_tighter_operators_take_the_operand(
    toks: Seq<TokenV>,
    p: nat,
    a: Text,
    first: BinaryOp,
    b: Text,
    second: BinaryOp,
    c: Text,
)
    requires
        spelling::variable_name(a),
        spelling::variable_name(b),
        spelling::variable_name(c),
        spelling::spells(
            toks,
            p,
            seq![
                KindV::Ident(a),
                KindV::Plain(spelling::operator_token(first)),
                KindV::Ident(b),
                KindV::Plain(spelling::operator_token(second)),
                KindV::Ident(c),
            ],
        ),
        spelling::ends_at(toks, p + 5),
    ensures
        expr_syntax::expr_at(toks, p) matches Ok((v, q)) && q == p + 5 && spelling::bare_expr(v.node) == if tightness(
            second,
        ) > tightness(first) {
            bare_operator(
                bare_variable(a),
                first,
                bare_operator(bare_variable(b), second, bare_variable(c)),
            )
        } else {
            bare_operator(
                bare_operator(bare_variable(a), first, bare_variable(b)),
                second,
                bare_variable(c),
            )
        },
{
    let ks = seq![
        KindV::Ident(a),
        KindV::Plain(spelling::operator_token(first)),
        KindV::Ident(b),
        KindV::Plain(spelling::operator_token(second)),
        KindV::Ident(c),
    ];
    assert(toks[p + 0int].kind == ks[0]);
    assert(toks[p + 1int].kind == ks[1]);
    assert(toks[p + 2int].kind == ks[2]);
    assert(toks[p + 3int].kind == ks[3]);
    assert(toks[p + 4int].kind == ks[4]);
    lemma_operand_reads(toks, p, a, first);
    lemma_operand_reads(toks, p + 2, b, second);
    let x = expr_syntax::postfix_expr_at(toks, p)->Ok_0.0;
    let y = expr_syntax::postfix_expr_at(toks, p + 2)->Ok_0.0;
    let end = ExprV::Variable(c, Sigil::Immutable);
    assert(spelling::spell_expr(end) =~= seq![KindV::Ident(c)]);
    assert(spelling::spells(toks, p + 4, spelling::spell_expr(end))) by {
        assert forall|i: int| 0 <= i < spelling::spell_expr(end).len() implies toks[p + 4 + i].kind
            == #[trigger] spelling::spell_expr(end)[i] by {}
    }
    reading_laws::lemma_atom_reads(toks, p + 4, end);
    spelling::lemma_atom_is_expr(toks, p + 4);
    let z = expr_syntax::atom_at(toks, p + 4)->Ok_0.0;
    assert(expr_syntax::atom_at(toks, p + 4)->Ok_0.1 == p + 5);
    assert(expr_syntax::prec_expr_at(toks, p + 4, expr_syntax::precedence(second) + 1) == expr_syntax::atom_at(toks, p + 4));
    assert((expr_syntax::precedence(second) >= expr_syntax::precedence(first) + 1) == (tightness(second) > tightness(first)));
    assert(spelling::bare_expr(x.node) == bare_variable(a));
    assert(spelling::bare_expr(y.node) == bare_variable(b));
    assert(spelling::bare_expr(z.node) == bare_variable(c));
    if expr_syntax::precedence(second) >= expr_syntax::precedence(first) + 1 {
        lemma_groups_right(toks, p, x, first, y, second, z);
        let inner = expr_syntax::expr_at(toks, p)->Ok_0.0.node->BinaryOp_2.node;
        assert(spelling::bare_expr(inner) == bare_operator(bare_variable(b), second, bare_variable(c)));
    } else {
        lemma_groups_left(toks, p, x, first, y, second, z);
        let inner = expr_syntax::expr_at(toks, p)->Ok_0.0.node->BinaryOp_0.node;
        assert(spelling::bare_expr(inner) == bare_operator(bare_variable(a), first, bare_variable(b)));
    }
}

} // verus!
