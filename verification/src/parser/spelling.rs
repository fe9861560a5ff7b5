//! The text of a syntax tree, and that reading it gives the tree back.

use crate::ast::{ExprV, FunctionV, MatchCaseV, PatternV, StmtV};
use crate::lexer::{KindV, TokenKind, TokenV};
use crate::parser::cursor;
use crate::parser::cursor::ParseErrorV;
use crate::parser::expr_syntax;
use crate::parser::type_reading;
use crate::text;
use crate::text::Text;
use crate::typecheck::helpers;
use crate::types::{BinaryOp, LiteralV, Sigil, Span, Spanned, TypeV};
use vstd::prelude::*;

verus! {

// ---------------------------------------------------------------------------
// Trees without places
// ---------------------------------------------------------------------------

/// The place in a tree from which the places are taken out.
pub open spec fn nowhere() -> Span {
    Span { start: 0, end: 0 }
}

/// A pattern without its places.
pub open spec fn bare_pattern(p: PatternV) -> PatternV
    decreases p, 0nat,
{
    match p {
        PatternV::Constructor(c, args) => PatternV::Constructor(c, bare_pattern_args(args)),
        PatternV::Record(fs, more) => PatternV::Record(bare_pattern_fields(fs), more),
        _ => p,
    }
}

/// The arguments of a constructor pattern without their places.
pub open spec fn bare_pattern_args(args: Seq<(Option<Text>, Spanned<PatternV>)>) -> Seq<
    (Option<Text>, Spanned<PatternV>),
>
    decreases args, 0nat,
{
    Seq::new(
        args.len(),
        |i: int|
            if 0 <= i < args.len() {
                (args[i].0, Spanned { node: bare_pattern(args[i].1.node), span: nowhere() })
            } else {
                arbitrary()
            },
    )
}

/// The fields of a record pattern without their places.
pub open spec fn bare_pattern_fields(fs: Seq<(Text, Spanned<PatternV>)>) -> Seq<
    (Text, Spanned<PatternV>),
>
    decreases fs, 0nat,
{
    Seq::new(
        fs.len(),
        |i: int|
            if 0 <= i < fs.len() {
                (fs[i].0, Spanned { node: bare_pattern(fs[i].1.node), span: nowhere() })
            } else {
                arbitrary()
            },
    )
}

/// An expression without its places, and without those of the expressions in it.
pub open spec fn bare_expr(e: ExprV) -> ExprV
    decreases e, 0nat,
{
    match e {
        ExprV::BinaryOp(l, op, r) => ExprV::BinaryOp(
            Box::new(Spanned { node: bare_expr(l.node), span: nowhere() }),
            op,
            Box::new(Spanned { node: bare_expr(r.node), span: nowhere() }),
        ),
        ExprV::Index(l, r) => ExprV::Index(
            Box::new(Spanned { node: bare_expr(l.node), span: nowhere() }),
            Box::new(Spanned { node: bare_expr(r.node), span: nowhere() }),
        ),
        ExprV::FieldAccess(x, name) => ExprV::FieldAccess(
            Box::new(Spanned { node: bare_expr(x.node), span: nowhere() }),
            name,
        ),
        ExprV::Raise(x) => ExprV::Raise(
            Box::new(Spanned { node: bare_expr(x.node), span: nowhere() }),
        ),
        ExprV::Call { func, args } => ExprV::Call { func, args: bare_labelled(args) },
        ExprV::Constructor(c, args) => ExprV::Constructor(c, bare_ctor_args(args)),
        ExprV::Record(fs) => ExprV::Record(bare_labelled(fs)),
        ExprV::Array(es) => ExprV::Array(bare_exprs(es)),
        ExprV::List(es) => ExprV::List(bare_exprs(es)),
        ExprV::If { cond, then_branch, else_branch } => ExprV::If {
            cond: Box::new(Spanned { node: bare_expr(cond.node), span: nowhere() }),
            then_branch: bare_stmts(then_branch),
            else_branch: match else_branch {
                Some(b) => Some(bare_stmts(b)),
                None => None,
            },
        },
        ExprV::Match { target, cases } => ExprV::Match {
            target: Box::new(Spanned { node: bare_expr(target.node), span: nowhere() }),
            cases: bare_cases(cases),
        },
        ExprV::While { cond, body } => ExprV::While {
            cond: Box::new(Spanned { node: bare_expr(cond.node), span: nowhere() }),
            body: bare_stmts(body),
        },
        ExprV::For { var, start, end_expr, body } => ExprV::For {
            var,
            start: Box::new(Spanned { node: bare_expr(start.node), span: nowhere() }),
            end_expr: Box::new(Spanned { node: bare_expr(end_expr.node), span: nowhere() }),
            body: bare_stmts(body),
        },
        ExprV::Lambda { type_params, params, ret_type, requires: reqs, throws, body } => {
            ExprV::Lambda {
                type_params,
                params,
                ret_type,
                requires: reqs,
                throws,
                body: bare_stmts(body),
            }
        },
        ExprV::Handler { coeffect_name, requires: reqs, functions } => ExprV::Handler {
            coeffect_name,
            requires: reqs,
            functions: bare_functions(functions),
        },
        _ => e,
    }
}

/// Functions without their places.
pub open spec fn bare_functions(fs: Seq<FunctionV>) -> Seq<FunctionV>
    decreases fs, 0nat,
{
    Seq::new(
        fs.len(),
        |i: int|
            if 0 <= i < fs.len() {
                (FunctionV { body: bare_stmts(fs[i].body), ..fs[i] })
            } else {
                arbitrary()
            },
    )
}

/// Expressions without their places.
pub open spec fn bare_exprs(es: Seq<Spanned<ExprV>>) -> Seq<Spanned<ExprV>>
    decreases es, 0nat,
{
    Seq::new(
        es.len(),
        |i: int|
            if 0 <= i < es.len() {
                Spanned { node: bare_expr(es[i].node), span: nowhere() }
            } else {
                arbitrary()
            },
    )
}

/// Labelled expressions without their places.
pub open spec fn bare_labelled(es: Seq<(Text, Spanned<ExprV>)>) -> Seq<(Text, Spanned<ExprV>)>
    decreases es, 0nat,
{
    Seq::new(
        es.len(),
        |i: int|
            if 0 <= i < es.len() {
                (es[i].0, Spanned { node: bare_expr(es[i].1.node), span: nowhere() })
            } else {
                arbitrary()
            },
    )
}

/// The arguments of a constructor without their places.
pub open spec fn bare_ctor_args(es: Seq<(Option<Text>, Spanned<ExprV>)>) -> Seq<
    (Option<Text>, Spanned<ExprV>),
>
    decreases es, 0nat,
{
    Seq::new(
        es.len(),
        |i: int|
            if 0 <= i < es.len() {
                (es[i].0, Spanned { node: bare_expr(es[i].1.node), span: nowhere() })
            } else {
                arbitrary()
            },
    )
}

/// The cases of a match without their places.
pub open spec fn bare_cases(cs: Seq<MatchCaseV>) -> Seq<MatchCaseV>
    decreases cs, 0nat,
{
    Seq::new(
        cs.len(),
        |i: int|
            if 0 <= i < cs.len() {
                MatchCaseV {
                    pattern: Spanned {
                        node: bare_pattern(cs[i].pattern.node),
                        span: nowhere(),
                    },
                    body: bare_stmts(cs[i].body),
                }
            } else {
                arbitrary()
            },
    )
}

/// A statement without its places.
pub open spec fn bare_stmt(s: Spanned<StmtV>) -> Spanned<StmtV>
    decreases s, 0nat,
{
    let node = match s.node {
        StmtV::Let { name, sigil, typ, value } => StmtV::Let {
            name,
            sigil,
            typ,
            value: Spanned { node: bare_expr(value.node), span: nowhere() },
        },
        StmtV::LetPattern { pattern, value } => StmtV::LetPattern {
            pattern: Spanned { node: bare_pattern(pattern.node), span: nowhere() },
            value: Spanned { node: bare_expr(value.node), span: nowhere() },
        },
        StmtV::Expr(value) => StmtV::Expr(
            Spanned { node: bare_expr(value.node), span: nowhere() },
        ),
        StmtV::Return(value) => StmtV::Return(
            Spanned { node: bare_expr(value.node), span: nowhere() },
        ),
        StmtV::Assign { target, value } => StmtV::Assign {
            target: Spanned { node: bare_expr(target.node), span: nowhere() },
            value: Spanned { node: bare_expr(value.node), span: nowhere() },
        },
        StmtV::Try { body, catch_param, catch_body } => StmtV::Try {
            body: bare_stmts(body),
            catch_param,
            catch_body: bare_stmts(catch_body),
        },
        StmtV::Inject { handlers, body } => StmtV::Inject { handlers, body: bare_stmts(body) },
        StmtV::Conc(tasks) => StmtV::Conc(bare_functions(tasks)),
    };
    Spanned { node, span: nowhere() }
}

/// Statements without their places.
pub open spec fn bare_stmts(ss: Seq<Spanned<StmtV>>) -> Seq<Spanned<StmtV>>
    decreases ss, 0nat,
{
    Seq::new(
        ss.len(),
        |i: int|
            if 0 <= i < ss.len() {
                bare_stmt(ss[i])
            } else {
                arbitrary()
            },
    )
}

// ---------------------------------------------------------------------------
// The text of a tree
// ---------------------------------------------------------------------------

/// A token that carries nothing.
pub open spec fn mark(k: TokenKind) -> Seq<KindV> {
    seq![KindV::Plain(k)]
}

/// A word.
pub open spec fn word(s: Text) -> Seq<KindV> {
    seq![KindV::Ident(s)]
}

/// The token of an operator.
pub open spec fn operator_token(op: BinaryOp) -> TokenKind {
    match op {
        BinaryOp::Add => TokenKind::Plus,
        BinaryOp::Sub => TokenKind::Minus,
        BinaryOp::Mul => TokenKind::Star,
        BinaryOp::Div => TokenKind::Slash,
        BinaryOp::Mod => TokenKind::Percent,
        BinaryOp::Concat => TokenKind::PlusPlus,
        BinaryOp::FAdd => TokenKind::PlusDot,
        BinaryOp::FSub => TokenKind::MinusDot,
        BinaryOp::FMul => TokenKind::StarDot,
        BinaryOp::FDiv => TokenKind::SlashDot,
        BinaryOp::Eq => TokenKind::EqEq,
        BinaryOp::Ne => TokenKind::Ne,
        BinaryOp::Lt => TokenKind::Lt,
        BinaryOp::Le => TokenKind::Le,
        BinaryOp::Gt => TokenKind::Gt,
        BinaryOp::Ge => TokenKind::Ge,
        BinaryOp::FEq => TokenKind::EqDot,
        BinaryOp::FNe => TokenKind::NeDot,
        BinaryOp::FLt => TokenKind::LtDot,
        BinaryOp::FLe => TokenKind::LeDot,
        BinaryOp::FGt => TokenKind::GtDot,
        BinaryOp::FGe => TokenKind::GeDot,
        BinaryOp::And => TokenKind::AndAnd,
        BinaryOp::Or => TokenKind::OrOr,
        BinaryOp::BitAnd => TokenKind::Ampersand,
        BinaryOp::BitOr => TokenKind::Pipe,
        BinaryOp::BitXor => TokenKind::Caret,
        BinaryOp::Shl => TokenKind::Shl,
        BinaryOp::Shr => TokenKind::Shr,
    }
}

/// The text of a sigil.
pub open spec fn spell_sigil(s: Sigil) -> Seq<KindV> {
    match s {
        Sigil::Immutable => Seq::empty(),
        Sigil::Mutable => mark(TokenKind::Tilde),
        Sigil::Linear => mark(TokenKind::Percent),
        Sigil::Borrow => mark(TokenKind::Ampersand),
    }
}

/// The text of a literal. A negative number has a minus before it.
pub open spec fn spell_literal(l: LiteralV) -> Seq<KindV> {
    match l {
        LiteralV::Int(n) => if n >= 0 {
            seq![KindV::Int(n as int)]
        } else {
            mark(TokenKind::Minus) + seq![KindV::Int(-(n as int))]
        },
        LiteralV::Float(s) => if text::begins_with_char(s, '-') {
            mark(TokenKind::Minus) + seq![KindV::Float(s.skip(1))]
        } else {
            seq![KindV::Float(s)]
        },
        LiteralV::Bool(b) => if b {
            mark(TokenKind::True)
        } else {
            mark(TokenKind::False)
        },
        LiteralV::Char(c) => seq![KindV::CharLit(c)],
        LiteralV::String(s) => seq![KindV::StringLit(s)],
        LiteralV::Unit => mark(TokenKind::LParen) + mark(TokenKind::RParen),
    }
}

/// A comma before each item but the first.
pub open spec fn comma_before(i: nat) -> Seq<KindV> {
    if i > 0 {
        mark(TokenKind::Comma)
    } else {
        Seq::empty()
    }
}

/// A label and its colon, if there is a label.
pub open spec fn spell_label(l: Option<Text>) -> Seq<KindV> {
    match l {
        Some(name) => word(name) + mark(TokenKind::Colon),
        None => Seq::empty(),
    }
}

/// The text of a pattern.
pub open spec fn spell_pattern(p: PatternV) -> Seq<KindV>
    decreases p, 0nat,
{
    match p {
        PatternV::Wildcard => word("_"@),
        PatternV::Variable(name, sigil) => spell_sigil(sigil) + word(name),
        PatternV::Literal(l) => spell_literal(l),
        PatternV::Constructor(c, args) => if args.len() == 0 {
            word(c)
        } else {
            word(c) + (mark(TokenKind::LParen) + (spell_pattern_args(args, 0) + mark(
                TokenKind::RParen,
            )))
        },
        PatternV::Record(fs, more) => mark(TokenKind::LBrace) + (spell_pattern_fields(fs, more, 0)
            + mark(TokenKind::RBrace)),
    }
}

/// The text of the arguments of a constructor pattern from index `i` on.
pub open spec fn spell_pattern_args(args: Seq<(Option<Text>, Spanned<PatternV>)>, i: nat) -> Seq<
    KindV,
>
    decreases args, args.len() - i,
{
    if i >= args.len() {
        Seq::empty()
    } else {
        comma_before(i) + (spell_label(args[i as int].0) + (spell_pattern(args[i as int].1.node)
            + spell_pattern_args(args, i + 1)))
    }
}

/// The text of the fields of a record pattern from index `i` on. An underscore stands at the end
/// where there may be more fields.
pub open spec fn spell_pattern_fields(
    fs: Seq<(Text, Spanned<PatternV>)>,
    more: bool,
    i: nat,
) -> Seq<KindV>
    decreases fs, fs.len() - i,
{
    if i >= fs.len() {
        if more {
            comma_before(i) + word("_"@)
        } else {
            Seq::empty()
        }
    } else {
        comma_before(i) + (word(fs[i as int].0) + (mark(TokenKind::Colon) + (spell_pattern(
            fs[i as int].1.node,
        ) + spell_pattern_fields(fs, more, i + 1))))
    }
}

/// Whether cases are those of a branch: one for true and one for false.
pub open spec fn are_branches(cases: Seq<MatchCaseV>) -> bool {
    &&& cases.len() == 2
    &&& cases[0].pattern.node == PatternV::Literal(LiteralV::Bool(true))
    &&& cases[1].pattern.node == PatternV::Literal(LiteralV::Bool(false))
}

/// An expression in parentheses.
pub open spec fn in_parens(e: Seq<KindV>) -> Seq<KindV> {
    mark(TokenKind::LParen) + (e + mark(TokenKind::RParen))
}

/// The text of an expression. Operands stand in parentheses, and a match on a truth value is
/// written as a branch: what holds where it is true behind `then`, the other behind `else`.
pub open spec fn spell_expr(e: ExprV) -> Seq<KindV>
    decreases e, 0nat,
{
    match e {
        ExprV::Literal(l) => spell_literal(l),
        ExprV::Variable(name, sigil) => spell_sigil(sigil) + word(name),
        ExprV::Borrow(name, sigil) => mark(TokenKind::Ampersand) + (spell_sigil(sigil) + word(
            name,
        )),
        ExprV::BinaryOp(l, op, r) => in_parens(spell_expr(l.node)) + (mark(operator_token(op))
            + in_parens(spell_expr(r.node))),
        ExprV::Index(l, r) => in_parens(spell_expr(l.node)) + (mark(TokenKind::LBracket) + (
        spell_expr(r.node) + mark(TokenKind::RBracket))),
        ExprV::FieldAccess(x, name) => in_parens(spell_expr(x.node)) + (mark(TokenKind::Dot) + word(
            name,
        )),
        ExprV::Raise(x) => mark(TokenKind::Raise) + spell_expr(x.node),
        ExprV::Call { func, args } => word(func) + (mark(TokenKind::LParen) + (spell_labelled(
            args,
            0,
        ) + mark(TokenKind::RParen))),
        ExprV::Constructor(c, args) => if args.len() == 0 {
            word(c)
        } else {
            word(c) + (mark(TokenKind::LParen) + (spell_ctor_args(args, 0) + mark(
                TokenKind::RParen,
            )))
        },
        ExprV::Record(fs) => mark(TokenKind::LBrace) + (spell_labelled(fs, 0) + mark(
            TokenKind::RBrace,
        )),
        ExprV::Array(es) => mark(TokenKind::LBracketPipe) + (spell_exprs(es, 0) + mark(
            TokenKind::RBracketPipe,
        )),
        ExprV::List(es) => mark(TokenKind::LBracket) + (spell_exprs(es, 0) + mark(
            TokenKind::RBracket,
        )),
        ExprV::If { cond, then_branch, else_branch: _ } => mark(TokenKind::If) + (spell_expr(
            cond.node,
        ) + (word("then"@) + (spell_stmts(then_branch, 0) + mark(TokenKind::End)))),
        ExprV::Match { target, cases } => if are_branches(cases) {
            mark(TokenKind::If) + (spell_expr(target.node) + (word("then"@) + (spell_stmts(
                cases[0].body,
                0,
            ) + (mark(TokenKind::Else) + (spell_stmts(cases[1].body, 0) + mark(
                TokenKind::End,
            ))))))
        } else {
            mark(TokenKind::Match) + (spell_expr(target.node) + (mark(TokenKind::Do) + (
            spell_cases(cases, 0) + mark(TokenKind::End))))
        },
        ExprV::While { cond, body } => mark(TokenKind::While) + (spell_expr(cond.node) + (mark(
            TokenKind::Do,
        ) + (spell_stmts(body, 0) + mark(TokenKind::End)))),
        ExprV::For { var, start, end_expr, body } => mark(TokenKind::For) + (word(var) + (mark(
            TokenKind::Eq,
        ) + (spell_expr(start.node) + (word("to"@) + (spell_expr(end_expr.node) + (mark(
            TokenKind::Do,
        ) + (spell_stmts(body, 0) + mark(TokenKind::End)))))))),
        ExprV::Lambda { type_params, params, ret_type, requires: reqs, throws, body } => mark(
            TokenKind::Fn,
        ) + (type_reading::spell_type_params(type_params) + (type_reading::spell_signature(params, ret_type, reqs, throws) + (
        mark(TokenKind::Do) + (spell_stmts(body, 0) + mark(TokenKind::End))))),
        ExprV::Handler { coeffect_name, requires: reqs, functions } => mark(TokenKind::Handler) + (
        word(coeffect_name) + (type_reading::spell_clause(TokenKind::Require, reqs) + (mark(TokenKind::Do) + (
        spell_functions(functions, 0) + mark(TokenKind::End))))),
        _ => Seq::empty(),
    }
}

/// The text of the functions of a handler from index `i` on.
pub open spec fn spell_functions(fs: Seq<FunctionV>, i: nat) -> Seq<KindV>
    decreases fs, fs.len() - i,
{
    if i >= fs.len() {
        Seq::empty()
    } else {
        let f = fs[i as int];
        mark(TokenKind::Fn) + (word(f.name) + (type_reading::spell_type_params(f.type_params) + (type_reading::spell_signature(
            f.params,
            f.ret_type,
            f.requires,
            f.throws,
        ) + (mark(TokenKind::Do) + (spell_stmts(fs[i as int].body, 0) + (mark(TokenKind::End)
            + spell_functions(fs, i + 1)))))))
    }
}

/// The text of the tasks of a `conc` from index `i` on.
pub open spec fn spell_tasks(fs: Seq<FunctionV>, i: nat) -> Seq<KindV>
    decreases fs, fs.len() - i,
{
    if i >= fs.len() {
        Seq::empty()
    } else {
        mark(TokenKind::Task) + (word(fs[i as int].name) + (mark(TokenKind::Do) + (spell_stmts(
            fs[i as int].body,
            0,
        ) + (mark(TokenKind::End) + spell_tasks(fs, i + 1)))))
    }
}

/// The text of expressions from index `i` on.
pub open spec fn spell_exprs(es: Seq<Spanned<ExprV>>, i: nat) -> Seq<KindV>
    decreases es, es.len() - i,
{
    if i >= es.len() {
        Seq::empty()
    } else {
        comma_before(i) + (spell_expr(es[i as int].node) + spell_exprs(es, i + 1))
    }
}

/// The text of labelled expressions from index `i` on.
pub open spec fn spell_labelled(es: Seq<(Text, Spanned<ExprV>)>, i: nat) -> Seq<KindV>
    decreases es, es.len() - i,
{
    if i >= es.len() {
        Seq::empty()
    } else {
        comma_before(i) + (spell_label(Some(es[i as int].0)) + (spell_expr(es[i as int].1.node)
            + spell_labelled(es, i + 1)))
    }
}

/// The text of the arguments of a constructor from index `i` on.
pub open spec fn spell_ctor_args(es: Seq<(Option<Text>, Spanned<ExprV>)>, i: nat) -> Seq<KindV>
    decreases es, es.len() - i,
{
    if i >= es.len() {
        Seq::empty()
    } else {
        comma_before(i) + (spell_label(es[i as int].0) + (spell_expr(es[i as int].1.node)
            + spell_ctor_args(es, i + 1)))
    }
}

/// The text of the cases of a match from index `i` on.
pub open spec fn spell_cases(cs: Seq<MatchCaseV>, i: nat) -> Seq<KindV>
    decreases cs, cs.len() - i,
{
    if i >= cs.len() {
        Seq::empty()
    } else {
        mark(TokenKind::Case) + (spell_pattern(cs[i as int].pattern.node) + (mark(
            TokenKind::Arrow,
        ) + (spell_stmts(cs[i as int].body, 0) + spell_cases(cs, i + 1))))
    }
}

/// The text of names from index `i` on.
pub open spec fn spell_names(ns: Seq<Text>, i: nat) -> Seq<KindV>
    decreases ns.len() - i,
{
    if i >= ns.len() {
        Seq::empty()
    } else {
        comma_before(i) + (word(ns[i as int]) + spell_names(ns, i + 1))
    }
}

/// The text of a statement.
pub open spec fn spell_stmt(s: Spanned<StmtV>) -> Seq<KindV>
    decreases s, 0nat,
{
    match s.node {
        StmtV::Let { name, sigil, typ, value } => mark(TokenKind::Let) + (spell_sigil(sigil) + (
        word(name) + (spell_annotation(typ) + (mark(TokenKind::Eq) + spell_expr(value.node))))),
        StmtV::Conc(tasks) => mark(TokenKind::Conc) + (mark(TokenKind::Do) + (spell_tasks(tasks, 0)
            + mark(TokenKind::End))),
        StmtV::LetPattern { pattern, value } => mark(TokenKind::Let) + (spell_pattern(pattern.node)
            + (mark(TokenKind::Eq) + spell_expr(value.node))),
        StmtV::Expr(value) => spell_expr(value.node),
        StmtV::Return(value) => mark(TokenKind::Return) + spell_expr(value.node),
        StmtV::Assign { target, value } => spell_expr(target.node) + (mark(TokenKind::Assign)
            + spell_expr(value.node)),
        StmtV::Try { body, catch_param, catch_body } => mark(TokenKind::Try) + (spell_stmts(body, 0)
            + (mark(TokenKind::Catch) + (word(catch_param) + (mark(TokenKind::Arrow) + (spell_stmts(
            catch_body,
            0,
        ) + mark(TokenKind::End)))))),
        StmtV::Inject { handlers, body } => mark(TokenKind::Inject) + (spell_names(handlers, 0) + (
        mark(TokenKind::Do) + (spell_stmts(body, 0) + mark(TokenKind::End)))),
    }
}

/// The text of the type behind the name of a `let`.
pub open spec fn spell_annotation(t: Option<TypeV>) -> Seq<KindV> {
    match t {
        Some(t) => mark(TokenKind::Colon) + type_reading::spell_type(t),
        None => Seq::empty(),
    }
}

/// The text of statements from index `i` on.
pub open spec fn spell_stmts(ss: Seq<Spanned<StmtV>>, i: nat) -> Seq<KindV>
    decreases ss, ss.len() - i,
{
    if i >= ss.len() {
        Seq::empty()
    } else {
        spell_stmt(ss[i as int]) + spell_stmts(ss, i + 1)
    }
}

// ---------------------------------------------------------------------------
// Trees that have a text
// ---------------------------------------------------------------------------

/// Whether a token ends the expression before it: it is no operator, and nothing that can follow
/// an operand.
pub open spec fn ends_kind(k: KindV) -> bool {
    match k {
        KindV::Plain(m) => {
            &&& !(m is Dot || m is LBracket || m is LParen || m is ColonColon)
            &&& forall|op: BinaryOp| m != #[trigger] operator_token(op)
        },
        _ => true,
    }
}

/// Whether a statement ends in a token of its own.
pub open spec fn closed_stmt(s: StmtV) -> bool {
    match s {
        StmtV::Expr(e) => e.node is If || e.node is Match || e.node is While || e.node is For,
        StmtV::Try { body: _, catch_param: _, catch_body: _ } => true,
        StmtV::Inject { handlers: _, body: _ } => true,
        StmtV::Conc(_) => true,
        _ => false,
    }
}

/// Whether a literal can be written: the text of a number has one minus at most.
pub open spec fn literal_written(l: LiteralV) -> bool {
    match l {
        LiteralV::Float(s) => text::begins_with_char(s, '-') ==> !text::begins_with_char(s.skip(1), '-'),
        _ => true,
    }
}

/// Whether a name can be that of a variable.
pub open spec fn variable_name(n: Text) -> bool {
    !cursor::reserved(n) && !cursor::begins_uppercase(n)
}

/// Whether a label can be written.
pub open spec fn label_written(l: Option<Text>) -> bool {
    match l {
        Some(name) => !cursor::reserved(name),
        None => true,
    }
}

/// Whether a pattern can be written.
pub open spec fn pattern_written(p: PatternV) -> bool
    decreases p,
{
    match p {
        PatternV::Wildcard => true,
        PatternV::Variable(name, sigil) => !cursor::reserved(name) && (sigil is Immutable ==> name != "_"@
            && !cursor::begins_uppercase(name)),
        PatternV::Literal(l) => !(l is Unit) && literal_written(l),
        PatternV::Constructor(c, args) => cursor::begins_uppercase(c) && !cursor::reserved(c) && c != "_"@ && forall|
            i: int,
        |
            0 <= i < args.len() ==> label_written((#[trigger] args[i]).0) && pattern_written(
                args[i].1.node,
            ),
        PatternV::Record(fs, more) => forall|i: int|
            0 <= i < fs.len() ==> !cursor::reserved((#[trigger] fs[i]).0) && fs[i].0 != "_"@
                && pattern_written(fs[i].1.node),
    }
}

/// Whether an expression can be written as an operand or alone: loops cannot, which are
/// statements, and of branches without an `else` only those that have none. Of calls it asks
/// for a plain name. Bindings of foreign functions are left out.
pub open spec fn expr_written(e: ExprV) -> bool
    decreases e, 0nat,
{
    match e {
        ExprV::Literal(l) => literal_written(l),
        ExprV::Variable(name, sigil) => !cursor::reserved(name) && !(sigil is Borrow) && (sigil is Immutable
            ==> !cursor::begins_uppercase(name)),
        ExprV::Borrow(name, sigil) => !cursor::reserved(name),
        ExprV::BinaryOp(l, op, r) => expr_written(l.node) && expr_written(r.node),
        ExprV::Index(l, r) => expr_written(l.node) && expr_written(r.node),
        ExprV::FieldAccess(x, name) => expr_written(x.node) && !cursor::reserved(name),
        ExprV::Raise(x) => expr_written(x.node),
        ExprV::Call { func, args } => variable_name(func) && labelled_written(args),
        ExprV::Constructor(c, args) => cursor::begins_uppercase(c) && !cursor::reserved(c) && ctor_args_written(
            args,
        ),
        ExprV::Record(fs) => labelled_written(fs),
        ExprV::Array(es) => exprs_written(es),
        ExprV::List(es) => exprs_written(es),
        ExprV::If { cond, then_branch, else_branch } => else_branch is None && expr_written(
            cond.node,
        ) && stmts_written(then_branch),
        ExprV::Match { target, cases } => expr_written(target.node) && cases_written(cases),
        ExprV::Lambda { type_params, params, ret_type, requires: reqs, throws, body } => {
            type_reading::names_written(type_params) && type_reading::signature_written(params, ret_type, reqs, throws)
                && body.len() > 0 && stmts_written(body)
        },
        ExprV::Handler { coeffect_name, requires: reqs, functions } => !cursor::reserved(coeffect_name)
            && type_reading::clause_written(reqs) && functions_written(functions),
        _ => false,
    }
}

/// Whether the functions of a handler can be written.
pub open spec fn functions_written(fs: Seq<FunctionV>) -> bool
    decreases fs, 0nat,
{
    forall|i: int|
        0 <= i < fs.len() ==> !cursor::reserved((#[trigger] fs[i]).name) && !fs[i].is_public
            && type_reading::names_written(fs[i].type_params) && type_reading::signature_written(
            fs[i].params,
            fs[i].ret_type,
            fs[i].requires,
            fs[i].throws,
        ) && fs[i].body.len() > 0 && stmts_written(fs[i].body)
}

/// Whether the tasks of a `conc` can be written; they throw nothing.
pub open spec fn tasks_written(fs: Seq<FunctionV>) -> bool
    decreases fs, 0nat,
{
    forall|i: int|
        0 <= i < fs.len() ==> !cursor::reserved((#[trigger] fs[i]).name) && !fs[i].is_public
            && fs[i].type_params.len() == 0 && fs[i].params.len() == 0 && fs[i].ret_type is Unit
            && fs[i].requires == helpers::empty_row() && fs[i].throws == helpers::empty_row() && stmts_written(
            fs[i].body,
        )
}

/// Whether expressions can be written.
pub open spec fn exprs_written(es: Seq<Spanned<ExprV>>) -> bool
    decreases es, 0nat,
{
    forall|i: int| 0 <= i < es.len() ==> expr_written((#[trigger] es[i]).node)
}

/// Whether labelled expressions can be written.
pub open spec fn labelled_written(es: Seq<(Text, Spanned<ExprV>)>) -> bool
    decreases es, 0nat,
{
    forall|i: int|
        0 <= i < es.len() ==> !cursor::reserved((#[trigger] es[i]).0) && expr_written(es[i].1.node)
}

/// Whether the arguments of a constructor can be written.
pub open spec fn ctor_args_written(es: Seq<(Option<Text>, Spanned<ExprV>)>) -> bool
    decreases es, 0nat,
{
    forall|i: int|
        0 <= i < es.len() ==> label_written((#[trigger] es[i]).0) && expr_written(es[i].1.node)
}

/// Whether the cases of a match can be written.
pub open spec fn cases_written(cs: Seq<MatchCaseV>) -> bool
    decreases cs, 0nat,
{
    forall|i: int|
        0 <= i < cs.len() ==> pattern_written((#[trigger] cs[i]).pattern.node) && stmts_written(
            cs[i].body,
        )
}

/// Whether a statement can be written. A `let` of a pattern takes a record or the arguments of a
/// constructor apart.
pub open spec fn stmt_written(s: Spanned<StmtV>) -> bool
    decreases s, 0nat,
{
    match s.node {
        StmtV::Let { name, sigil, typ, value } => (match typ {
            Some(t) => type_reading::type_written(t),
            None => true,
        }) && !cursor::reserved(name) && expr_written(value.node),
        StmtV::Conc(tasks) => tasks_written(tasks),
        StmtV::LetPattern { pattern, value } => pattern_written(pattern.node) && (
        pattern.node is Record || (pattern.node is Constructor && pattern.node->Constructor_1.len()
            > 0)) && expr_written(value.node),
        StmtV::Expr(value) => match value.node {
            ExprV::While { cond, body } => expr_written(cond.node) && stmts_written(body),
            ExprV::For { var, start, end_expr, body } => !cursor::reserved(var) && expr_written(start.node)
                && expr_written(end_expr.node) && stmts_written(body),
            _ => expr_written(value.node),
        },
        StmtV::Return(value) => expr_written(value.node),
        StmtV::Assign { target, value } => expr_written(target.node) && !(target.node is If)
            && !(target.node is Match) && expr_written(value.node),
        StmtV::Try { body, catch_param, catch_body } => stmts_written(body) && !cursor::reserved(
            catch_param,
        ) && stmts_written(catch_body),
        StmtV::Inject { handlers, body } => handlers.len() > 0 && (forall|i: int|
            0 <= i < handlers.len() ==> !cursor::reserved(#[trigger] handlers[i])) && stmts_written(body),
    }
}

/// Whether statements can be written one behind the other: where one does not end in a token of
/// its own, the next one begins with a token that ends it.
pub open spec fn stmts_written(ss: Seq<Spanned<StmtV>>) -> bool
    decreases ss, 1nat,
{
    &&& forall|i: int| 0 <= i < ss.len() ==> stmt_written(#[trigger] ss[i])
    &&& forall|i: int|
        0 < i < ss.len() ==> closed_stmt(ss[i - 1].node) || ends_kind(
            #[trigger] spell_stmt(ss[i])[0],
        )
}

// ---------------------------------------------------------------------------
// Tokens at a position
// ---------------------------------------------------------------------------

/// Whether tokens of the given kinds stand at a position.
pub open spec fn spells(toks: Seq<TokenV>, p: nat, ks: Seq<KindV>) -> bool {
    &&& p + ks.len() <= toks.len()
    &&& forall|i: int| 0 <= i < ks.len() ==> toks[p + i].kind == #[trigger] ks[i]
}

/// Whether an expression ends at a position.
pub open spec fn ends_at(toks: Seq<TokenV>, p: nat) -> bool {
    p < toks.len() && ends_kind(toks[p as int].kind)
}

pub proof fn lemma_spells_both(toks: Seq<TokenV>, p: nat, a: Seq<KindV>, b: Seq<KindV>)
    requires
        spells(toks, p, a + b),
    ensures
        spells(toks, p, a),
        spells(toks, p + a.len(), b),
        (a + b).len() == a.len() + b.len(),
{
    let ks = a + b;
    assert forall|i: int| 0 <= i < a.len() implies toks[p + i].kind == #[trigger] a[i] by {
        assert(ks[i] == a[i]);
    }
    assert forall|i: int| 0 <= i < b.len() implies toks[p + a.len() + i].kind
        == #[trigger] b[i] by {
        assert(ks[a.len() + i] == b[i]);
    }
}

/// A mark stands where it is spelled.
pub proof fn lemma_mark(toks: Seq<TokenV>, p: nat, k: TokenKind, rest: Seq<KindV>)
    requires
        spells(toks, p, mark(k) + rest),
    ensures
        cursor::is_at(toks, p, k),
        p < toks.len(),
        toks[p as int].kind == KindV::Plain(k),
        spells(toks, p + 1, rest),
        (mark(k) + rest).len() == 1 + rest.len(),
{
    reveal(cursor::kind_is);
    lemma_spells_both(toks, p, mark(k), rest);
    assert(mark(k)[0] == KindV::Plain(k));
}

/// A word stands where it is spelled.
pub proof fn lemma_word(toks: Seq<TokenV>, p: nat, s: Text, rest: Seq<KindV>)
    requires
        spells(toks, p, word(s) + rest),
    ensures
        p < toks.len(),
        toks[p as int].kind == KindV::Ident(s),
        spells(toks, p + 1, rest),
        (word(s) + rest).len() == 1 + rest.len(),
{
    lemma_spells_both(toks, p, word(s), rest);
    assert(word(s)[0] == KindV::Ident(s));
}

/// A word alone.
pub proof fn lemma_last_word(toks: Seq<TokenV>, p: nat, s: Text)
    requires
        spells(toks, p, word(s)),
    ensures
        p < toks.len(),
        toks[p as int].kind == KindV::Ident(s),
        word(s).len() == 1,
{
    assert(word(s)[0] == KindV::Ident(s));
}

/// A mark alone.
pub proof fn lemma_last_mark(toks: Seq<TokenV>, p: nat, k: TokenKind)
    requires
        spells(toks, p, mark(k)),
    ensures
        cursor::is_at(toks, p, k),
        p < toks.len(),
        toks[p as int].kind == KindV::Plain(k),
        mark(k).len() == 1,
{
    reveal(cursor::kind_is);
    assert(mark(k)[0] == KindV::Plain(k));
}

/// What is at a position where an expression ends.
pub proof fn lemma_ends_at(toks: Seq<TokenV>, p: nat)
    requires
        ends_at(toks, p),
    ensures
        !cursor::is_at(toks, p, TokenKind::Dot),
        !cursor::is_at(toks, p, TokenKind::LBracket),
        !cursor::is_at(toks, p, TokenKind::LParen),
        !cursor::is_at(toks, p, TokenKind::ColonColon),
        expr_syntax::binop_at(toks, p) is None,
{
    reveal(cursor::kind_is);
    reveal(expr_syntax::binop_of);
    match toks[p as int].kind {
        KindV::Plain(m) => {
            match expr_syntax::binop_of(toks[p as int].kind) {
                Some(op) => {
                    assert(m == operator_token(op));
                },
                None => {},
            }
        },
        _ => {},
    }
}

/// An operator stands for itself.
pub proof fn lemma_operator(op: BinaryOp)
    ensures
        expr_syntax::binop_of(KindV::Plain(operator_token(op))) == Some(op),
{
    reveal(expr_syntax::binop_of);
}

/// A mark that is no operator ends an expression.
pub proof fn lemma_plain_end(k: TokenKind)
    requires
        k is RParen || k is RBracket || k is RBracketPipe || k is RBrace || k is Comma || k is Do
            || k is End || k is Else || k is Catch || k is Case || k is Assign || k is Eof
            || k is Arrow || k is Let || k is Return || k is Eq || k is Colon,
    ensures
        ends_kind(KindV::Plain(k)),
{
    assert forall|op: BinaryOp| k != #[trigger] operator_token(op) by {}
}

/// What an atom is, the whole expression is where it ends.
pub proof fn lemma_atom_is_expr(toks: Seq<TokenV>, p: nat)
    requires
        expr_syntax::atom_at(toks, p) is Ok,
        expr_syntax::atom_at(toks, p)->Ok_0.1 > p,
        ends_at(toks, expr_syntax::atom_at(toks, p)->Ok_0.1),
    ensures
        expr_syntax::expr_at(toks, p) == expr_syntax::atom_at(toks, p),
        forall|min: nat| #[trigger] expr_syntax::prec_expr_at(toks, p, min) == expr_syntax::atom_at(toks, p),
        expr_syntax::postfix_expr_at(toks, p) == expr_syntax::atom_at(toks, p),
{
    let (e, q) = expr_syntax::atom_at(toks, p)->Ok_0;
    lemma_ends_at(toks, q);
    assert(expr_syntax::postfix_rest_at(toks, q, e) == Ok::<(Spanned<ExprV>, nat), ParseErrorV>((e, q)));
    assert(expr_syntax::postfix_expr_at(toks, p) == expr_syntax::atom_at(toks, p));
    assert forall|min: nat| #[trigger] expr_syntax::prec_expr_at(toks, p, min) == expr_syntax::atom_at(toks, p) by {
        assert(expr_syntax::prec_rest_at(toks, q, e, min) == Ok::<(Spanned<ExprV>, nat), ParseErrorV>((e, q)));
    }
    assert(expr_syntax::expr_at(toks, p) == expr_syntax::prec_expr_at(toks, p, 0));
}

} // verus!
