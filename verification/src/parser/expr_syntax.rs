//! Expressions and statements.

use crate::ast;
use crate::ast::{
    Expr, ExprV, Function, FunctionV, MatchCase, MatchCaseV, Param, ParamV, Pattern, PatternV,
    Stmt, StmtV,
};
use crate::lexer;
use crate::lexer::{KindV, Token, TokenKind, TokenV};
use crate::parser::cursor;
use crate::parser::cursor::{
    ParseError, ParseErrorV, Parsed, at_upper, expect, expect_contextual, expect_ident,
    is_uppercase_ident, next_is, next_is_literal, next_is_name, parse_sigil, unexpected_error,
};
use crate::parser::pattern_syntax;
use crate::parser::pattern_syntax::{parse_literal, parse_pattern};
use crate::parser::type_syntax;
use crate::parser::type_syntax::{
    find_label, parse_require_clause, parse_signature, parse_type, parse_type_params,
};
use crate::text;
use crate::text::{Text, cat3, owned};
use crate::typecheck::helpers;
use crate::typecheck::helpers::{make_empty_row, make_named};
use crate::types;
use crate::types::{BinaryOp, Literal, LiteralV, Sigil, Span, Spanned, Type, TypeV};
use vstd::prelude::*;

verus! {

/// The operator that a token stands for between two operands.
#[verifier::opaque]
pub open spec fn binop_of(k: KindV) -> Option<BinaryOp> {
    match k {
        KindV::Plain(TokenKind::OrOr) => Some(BinaryOp::Or),
        KindV::Plain(TokenKind::AndAnd) => Some(BinaryOp::And),
        KindV::Plain(TokenKind::EqEq) => Some(BinaryOp::Eq),
        KindV::Plain(TokenKind::Ne) => Some(BinaryOp::Ne),
        KindV::Plain(TokenKind::Le) => Some(BinaryOp::Le),
        KindV::Plain(TokenKind::Ge) => Some(BinaryOp::Ge),
        KindV::Plain(TokenKind::Lt) => Some(BinaryOp::Lt),
        KindV::Plain(TokenKind::Gt) => Some(BinaryOp::Gt),
        KindV::Plain(TokenKind::EqDot) => Some(BinaryOp::FEq),
        KindV::Plain(TokenKind::NeDot) => Some(BinaryOp::FNe),
        KindV::Plain(TokenKind::LeDot) => Some(BinaryOp::FLe),
        KindV::Plain(TokenKind::GeDot) => Some(BinaryOp::FGe),
        KindV::Plain(TokenKind::LtDot) => Some(BinaryOp::FLt),
        KindV::Plain(TokenKind::GtDot) => Some(BinaryOp::FGt),
        KindV::Plain(TokenKind::Plus) => Some(BinaryOp::Add),
        KindV::Plain(TokenKind::Minus) => Some(BinaryOp::Sub),
        KindV::Plain(TokenKind::PlusPlus) => Some(BinaryOp::Concat),
        KindV::Plain(TokenKind::PlusDot) => Some(BinaryOp::FAdd),
        KindV::Plain(TokenKind::MinusDot) => Some(BinaryOp::FSub),
        KindV::Plain(TokenKind::Star) => Some(BinaryOp::Mul),
        KindV::Plain(TokenKind::Slash) => Some(BinaryOp::Div),
        KindV::Plain(TokenKind::Percent) => Some(BinaryOp::Mod),
        KindV::Plain(TokenKind::StarDot) => Some(BinaryOp::FMul),
        KindV::Plain(TokenKind::SlashDot) => Some(BinaryOp::FDiv),
        KindV::Plain(TokenKind::Ampersand) => Some(BinaryOp::BitAnd),
        KindV::Plain(TokenKind::Pipe) => Some(BinaryOp::BitOr),
        KindV::Plain(TokenKind::Caret) => Some(BinaryOp::BitXor),
        KindV::Plain(TokenKind::Shl) => Some(BinaryOp::Shl),
        KindV::Plain(TokenKind::Shr) => Some(BinaryOp::Shr),
        _ => None,
    }
}

/// The operator at a position.
pub open spec fn binop_at(toks: Seq<TokenV>, p: nat) -> Option<BinaryOp> {
    if p < toks.len() {
        binop_of(toks[p as int].kind)
    } else {
        None
    }
}

/// How tightly an operator binds.
pub open spec fn precedence(op: BinaryOp) -> nat {
    match op {
        BinaryOp::Or => 1,
        BinaryOp::And => 2,
        BinaryOp::Eq | BinaryOp::Ne | BinaryOp::Lt | BinaryOp::Le | BinaryOp::Gt | BinaryOp::Ge
        | BinaryOp::FEq | BinaryOp::FNe | BinaryOp::FLt | BinaryOp::FLe | BinaryOp::FGt
        | BinaryOp::FGe => 3,
        BinaryOp::Add | BinaryOp::Sub | BinaryOp::Concat | BinaryOp::FAdd | BinaryOp::FSub
        | BinaryOp::BitOr | BinaryOp::BitXor => 4,
        BinaryOp::Mul | BinaryOp::Div | BinaryOp::Mod | BinaryOp::FMul | BinaryOp::FDiv
        | BinaryOp::BitAnd => 5,
        BinaryOp::Shl | BinaryOp::Shr => 6,
    }
}

/// The list of a first element and a rest.
pub open spec fn cons_expr(first: Spanned<ExprV>, rest: Spanned<ExprV>, span: Span) -> Spanned<
    ExprV,
> {
    Spanned {
        node: ExprV::Constructor("Cons"@, seq![(Some("v"@), first), (Some("rest"@), rest)]),
        span,
    }
}

/// A match on a truth value.
pub open spec fn bool_match(
    cond: Spanned<ExprV>,
    yes: Seq<Spanned<StmtV>>,
    no: Seq<Spanned<StmtV>>,
    span: Span,
) -> Spanned<ExprV> {
    Spanned {
        node: ExprV::Match {
            target: Box::new(cond),
            cases: seq![
                MatchCaseV {
                    pattern: Spanned { node: PatternV::Literal(LiteralV::Bool(true)), span },
                    body: yes,
                },
                MatchCaseV {
                    pattern: Spanned { node: PatternV::Literal(LiteralV::Bool(false)), span },
                    body: no,
                },
            ],
        },
        span,
    }
}

/// A row of effects by their names.
pub open spec fn effects_row(names: Seq<Text>) -> TypeV {
    TypeV::Row(names.map_values(|n: Text| helpers::named_type(n)), None)
}

/// An expression.
pub open spec fn expr_at(toks: Seq<TokenV>, p: nat) -> Parsed<Spanned<ExprV>>
    decreases cursor::left(toks, p), 5nat,
{
    prec_expr_at(toks, p, 0)
}

/// An expression of operators that bind at least as tightly as `min`.
pub open spec fn prec_expr_at(toks: Seq<TokenV>, p: nat, min: nat) -> Parsed<Spanned<ExprV>>
    decreases cursor::left(toks, p), 4nat,
{
    match postfix_expr_at(toks, p) {
        Err(e) => Err(e),
        Ok((lhs, r)) => prec_rest_at(toks, cursor::ahead(p, r), lhs, min),
    }
}

/// The operators behind a left operand. `::` is right-associative, the others are
/// left-associative.
pub open spec fn prec_rest_at(
    toks: Seq<TokenV>,
    p: nat,
    lhs: Spanned<ExprV>,
    min: nat,
) -> Parsed<Spanned<ExprV>>
    decreases cursor::left(toks, p), 0nat,
{
    if cursor::is_at(toks, p, TokenKind::ColonColon) && 4 >= min {
        match prec_expr_at(toks, p + 1, 4) {
            Err(e) => Err(e),
            Ok((rhs, r)) => prec_rest_at(
                toks,
                cursor::ahead(p, r),
                cons_expr(lhs, rhs, cursor::span_between(lhs.span.start, rhs.span.end)),
                min,
            ),
        }
    } else {
        match binop_at(toks, p) {
            Some(op) => {
                if precedence(op) >= min {
                    match prec_expr_at(toks, p + 1, precedence(op) + 1) {
                        Err(e) => Err(e),
                        Ok((rhs, r)) => prec_rest_at(
                            toks,
                            cursor::ahead(p, r),
                            Spanned {
                                node: ExprV::BinaryOp(Box::new(lhs), op, Box::new(rhs)),
                                span: cursor::span_between(lhs.span.start, rhs.span.end),
                            },
                            min,
                        ),
                    }
                } else {
                    Ok((lhs, p))
                }
            },
            None => Ok((lhs, p)),
        }
    }
}

/// An expression with the fields and the indices behind it.
pub open spec fn postfix_expr_at(toks: Seq<TokenV>, p: nat) -> Parsed<Spanned<ExprV>>
    decreases cursor::left(toks, p), 3nat,
{
    match atom_at(toks, p) {
        Err(e) => Err(e),
        Ok((expr, r)) => postfix_rest_at(toks, cursor::ahead(p, r), expr),
    }
}

/// The fields and the indices behind an expression.
pub open spec fn postfix_rest_at(toks: Seq<TokenV>, p: nat, expr: Spanned<ExprV>) -> Parsed<
    Spanned<ExprV>,
>
    decreases cursor::left(toks, p), 0nat,
{
    if cursor::is_at(toks, p, TokenKind::Dot) {
        match cursor::ident_at(toks, p + 1) {
            Err(e) => Err(e),
            Ok((name, q)) => postfix_rest_at(
                toks,
                q,
                Spanned {
                    node: ExprV::FieldAccess(Box::new(expr), name),
                    span: cursor::span_between(expr.span.start, cursor::end_before(toks, q)),
                },
            ),
        }
    } else if cursor::is_at(toks, p, TokenKind::LBracket) {
        match expr_at(toks, p + 1) {
            Err(e) => Err(e),
            Ok((index, r)) => {
                let q1 = cursor::ahead(p, r);
                match cursor::expected(toks, q1, TokenKind::RBracket) {
                    Err(e) => Err(e),
                    Ok(q2) => postfix_rest_at(
                        toks,
                        q2,
                        Spanned {
                            node: ExprV::Index(Box::new(expr), Box::new(index)),
                            span: cursor::span_between(expr.span.start, cursor::end_at(toks, q1)),
                        },
                    ),
                }
            },
        }
    } else {
        Ok((expr, p))
    }
}

/// An expression without operators, fields or indices.
pub open spec fn atom_at(toks: Seq<TokenV>, p: nat) -> Parsed<Spanned<ExprV>>
    decreases cursor::left(toks, p), 2nat,
{
    if cursor::is_literal(toks, p) {
        literal_expr_at(toks, p)
    } else if cursor::is_name(toks, p) {
        name_expr_at(toks, p)
    } else if cursor::is_at(toks, p, TokenKind::LParen) {
        paren_at(toks, p)
    } else if cursor::is_at(toks, p, TokenKind::Raise) {
        raise_at(toks, p)
    } else if cursor::is_at(toks, p, TokenKind::Ampersand) {
        borrow_at(toks, p)
    } else if cursor::is_at(toks, p, TokenKind::Fn) {
        lambda_at(toks, p)
    } else if cursor::is_at(toks, p, TokenKind::Handler) {
        handler_expr_at(toks, p)
    } else if cursor::is_at(toks, p, TokenKind::LBracketPipe) {
        array_expr_at(toks, p)
    } else if cursor::is_at(toks, p, TokenKind::LBracket) {
        list_expr_at(toks, p)
    } else if cursor::is_at(toks, p, TokenKind::LBrace) {
        record_expr_at(toks, p)
    } else if cursor::is_at(toks, p, TokenKind::If) {
        if_expr_at(toks, p)
    } else if cursor::is_at(toks, p, TokenKind::Match) {
        match_expr_at(toks, p, false)
    } else if cursor::is_at(toks, p, TokenKind::Tilde) {
        sigil_expr_at(toks, p)
    } else if cursor::is_at(toks, p, TokenKind::Percent) {
        sigil_expr_at(toks, p)
    } else {
        Err(cursor::unexpected(toks, p, "expression"@))
    }
}

/// An expression in parentheses, or the unit value.
pub open spec fn paren_at(toks: Seq<TokenV>, p: nat) -> Parsed<Spanned<ExprV>>
    decreases cursor::left(toks, p), 0nat,
{
    let start = cursor::start_at(toks, p);
    match cursor::expected(toks, p, TokenKind::LParen) {
        Err(e) => Err(e),
        Ok(q1) => {
            if cursor::is_at(toks, q1, TokenKind::RParen) {
                let q2: nat = q1 + 1;
                let end = cursor::end_before(toks, q2);
                Ok((Spanned { node: ExprV::Literal(LiteralV::Unit), span: cursor::span_between(start, end) }, q2))
            } else {
                match expr_at(toks, q1) {
                    Err(e) => Err(e),
                    Ok((inner, r3)) => {
                        let q4 = cursor::ahead(p, r3);
                        match cursor::expected(toks, q4, TokenKind::RParen) {
                            Err(e) => Err(e),
                            Ok(q5) => {
                                let end = cursor::end_before(toks, q5);
                                Ok((Spanned { node: inner.node, span: cursor::span_between(start, end) }, q5))
                            },
                        }
                    },
                }
            }
        },
    }
}

/// A `raise` and its operand.
pub open spec fn raise_at(toks: Seq<TokenV>, p: nat) -> Parsed<Spanned<ExprV>>
    decreases cursor::left(toks, p), 0nat,
{
    let start = cursor::start_at(toks, p);
    match cursor::expected(toks, p, TokenKind::Raise) {
        Err(e) => Err(e),
        Ok(q1) => {
            match expr_at(toks, q1) {
                Err(e) => Err(e),
                Ok((operand, r2)) => {
                    let q3 = cursor::ahead(p, r2);
                    let end = operand.span.end;
                    Ok((Spanned { node: ExprV::Raise(Box::new(operand)), span: cursor::span_between(start, end) }, q3))
                },
            }
        },
    }
}

/// A borrow of a variable.
pub open spec fn borrow_at(toks: Seq<TokenV>, p: nat) -> Parsed<Spanned<ExprV>> {
    let start = cursor::start_at(toks, p);
    match cursor::expected(toks, p, TokenKind::Ampersand) {
        Err(e) => Err(e),
        Ok(q1) => {
            let (sigil, q2) = cursor::sigil_at(toks, q1);
            match cursor::ident_at(toks, q2) {
                Err(e) => Err(e),
                Ok((name, q3)) => {
                    let end = cursor::end_before(toks, q3);
                    Ok((Spanned { node: ExprV::Borrow(name, sigil), span: cursor::span_between(start, end) }, q3))
                },
            }
        },
    }
}

/// A literal.
pub open spec fn literal_expr_at(toks: Seq<TokenV>, p: nat) -> Parsed<Spanned<ExprV>> {
    let start = cursor::start_at(toks, p);
    match pattern_syntax::literal_at(toks, p) {
        Err(e) => Err(e),
        Ok((lit, q1)) => {
            let end = cursor::end_before(toks, q1);
            Ok((Spanned { node: ExprV::Literal(lit), span: cursor::span_between(start, end) }, q1))
        },
    }
}

/// Expressions, separated by commas, up to the end of an array.
pub open spec fn array_items_at(toks: Seq<TokenV>, p: nat) -> Parsed<Seq<Spanned<ExprV>>>
    decreases cursor::left(toks, p), 6nat,
{
    if cursor::is_at(toks, p, TokenKind::RBracketPipe) {
        Ok((Seq::empty(), p))
    } else {
        match expr_at(toks, p) {
            Err(e) => Err(e),
            Ok((v, r)) => array_items_rest_at(toks, cursor::ahead(p, r), seq![v]),
        }
    }
}

/// What follows the first items of such a list, `acc`.
pub open spec fn array_items_rest_at(toks: Seq<TokenV>, p: nat, acc: Seq<Spanned<ExprV>>) -> Parsed<Seq<Spanned<ExprV>>>
    decreases cursor::left(toks, p), 0nat,
{
    if cursor::is_at(toks, p, TokenKind::Comma) {
        if cursor::is_at(toks, p + 1, TokenKind::RBracketPipe) {
            Ok((acc, p + 1))
        } else {
            match expr_at(toks, p + 1) {
                Err(e) => Err(e),
                Ok((v, r)) => array_items_rest_at(toks, cursor::ahead(p, r), acc.push(v)),
            }
        }
    } else {
        Ok((acc, p))
    }
}

/// Expressions, separated by commas, up to a closing bracket.
pub open spec fn list_items_at(toks: Seq<TokenV>, p: nat) -> Parsed<Seq<Spanned<ExprV>>>
    decreases cursor::left(toks, p), 6nat,
{
    if cursor::is_at(toks, p, TokenKind::RBracket) {
        Ok((Seq::empty(), p))
    } else {
        match expr_at(toks, p) {
            Err(e) => Err(e),
            Ok((v, r)) => list_items_rest_at(toks, cursor::ahead(p, r), seq![v]),
        }
    }
}

/// What follows the first items of such a list, `acc`.
pub open spec fn list_items_rest_at(toks: Seq<TokenV>, p: nat, acc: Seq<Spanned<ExprV>>) -> Parsed<Seq<Spanned<ExprV>>>
    decreases cursor::left(toks, p), 0nat,
{
    if cursor::is_at(toks, p, TokenKind::Comma) {
        if cursor::is_at(toks, p + 1, TokenKind::RBracket) {
            Ok((acc, p + 1))
        } else {
            match expr_at(toks, p + 1) {
                Err(e) => Err(e),
                Ok((v, r)) => list_items_rest_at(toks, cursor::ahead(p, r), acc.push(v)),
            }
        }
    } else {
        Ok((acc, p))
    }
}

/// An array: `[| ... |]`.
pub open spec fn array_expr_at(toks: Seq<TokenV>, p: nat) -> Parsed<Spanned<ExprV>>
    decreases cursor::left(toks, p), 0nat,
{
    let start = cursor::start_at(toks, p);
    match cursor::expected(toks, p, TokenKind::LBracketPipe) {
        Err(e) => Err(e),
        Ok(q1) => {
            match array_items_at(toks, q1) {
                Err(e) => Err(e),
                Ok((elems, r2)) => {
                    let q3 = cursor::ahead(p, r2);
                    let end = cursor::end_at(toks, q3);
                    match cursor::expected(toks, q3, TokenKind::RBracketPipe) {
                        Err(e) => Err(e),
                        Ok(q4) => {
                            Ok((Spanned { node: ExprV::Array(elems), span: cursor::span_between(start, end) }, q4))
                        },
                    }
                },
            }
        },
    }
}

/// A list: `[...]`.
pub open spec fn list_expr_at(toks: Seq<TokenV>, p: nat) -> Parsed<Spanned<ExprV>>
    decreases cursor::left(toks, p), 0nat,
{
    let start = cursor::start_at(toks, p);
    match cursor::expected(toks, p, TokenKind::LBracket) {
        Err(e) => Err(e),
        Ok(q1) => {
            match list_items_at(toks, q1) {
                Err(e) => Err(e),
                Ok((elems, r2)) => {
                    let q3 = cursor::ahead(p, r2);
                    let end = cursor::end_at(toks, q3);
                    match cursor::expected(toks, q3, TokenKind::RBracket) {
                        Err(e) => Err(e),
                        Ok(q4) => {
                            Ok((Spanned { node: ExprV::List(elems), span: cursor::span_between(start, end) }, q4))
                        },
                    }
                },
            }
        },
    }
}

/// A linear list: `%[...]`.
pub open spec fn linear_list_at(toks: Seq<TokenV>, p: nat) -> Parsed<Spanned<ExprV>>
    decreases cursor::left(toks, p), 0nat,
{
    let start = cursor::start_at(toks, p);
    match cursor::expected(toks, p, TokenKind::Percent) {
        Err(e) => Err(e),
        Ok(q1) => {
            match cursor::expected(toks, q1, TokenKind::LBracket) {
                Err(e) => Err(e),
                Ok(q2) => {
                    match list_items_at(toks, q2) {
                        Err(e) => Err(e),
                        Ok((elems, r3)) => {
                            let q4 = cursor::ahead(p, r3);
                            let end = cursor::end_at(toks, q4);
                            match cursor::expected(toks, q4, TokenKind::RBracket) {
                                Err(e) => Err(e),
                                Ok(q5) => {
                                    Ok((Spanned { node: ExprV::List(elems), span: cursor::span_between(start, end) }, q5))
                                },
                            }
                        },
                    }
                },
            }
        },
    }
}

/// A labelled expression: `label: expression`.
pub open spec fn labelled_expr_at(toks: Seq<TokenV>, p: nat) -> Parsed<(Text, Spanned<ExprV>)>
    decreases cursor::left(toks, p), 0nat,
{
    match cursor::ident_at(toks, p) {
        Err(e) => Err(e),
        Ok((name, q1)) => {
            match cursor::expected(toks, q1, TokenKind::Colon) {
                Err(e) => Err(e),
                Ok(q2) => {
                    match expr_at(toks, q2) {
                        Err(e) => Err(e),
                        Ok((val, r3)) => {
                            let q4 = cursor::ahead(p, r3);
                            Ok(((name, val), q4))
                        },
                    }
                },
            }
        },
    }
}

/// The fields of a record, separated by commas, up to a closing brace.
pub open spec fn record_fields_at(toks: Seq<TokenV>, p: nat) -> Parsed<Seq<(Text, Spanned<ExprV>)>>
    decreases cursor::left(toks, p), 1nat,
{
    if cursor::is_at(toks, p, TokenKind::RBrace) {
        Ok((Seq::empty(), p))
    } else {
        match labelled_expr_at(toks, p) {
            Err(e) => Err(e),
            Ok((v, r)) => record_fields_rest_at(toks, cursor::ahead(p, r), seq![v]),
        }
    }
}

/// What follows the first items of such a list, `acc`.
pub open spec fn record_fields_rest_at(toks: Seq<TokenV>, p: nat, acc: Seq<(Text, Spanned<ExprV>)>) -> Parsed<Seq<(Text, Spanned<ExprV>)>>
    decreases cursor::left(toks, p), 0nat,
{
    if cursor::is_at(toks, p, TokenKind::Comma) {
        if cursor::is_at(toks, p + 1, TokenKind::RBrace) {
            Ok((acc, p + 1))
        } else {
            match labelled_expr_at(toks, p + 1) {
                Err(e) => Err(e),
                Ok((v, r)) => record_fields_rest_at(toks, cursor::ahead(p, r), acc.push(v)),
            }
        }
    } else {
        Ok((acc, p))
    }
}

/// A record: `{ name: expression, ... }`.
pub open spec fn record_expr_at(toks: Seq<TokenV>, p: nat) -> Parsed<Spanned<ExprV>>
    decreases cursor::left(toks, p), 0nat,
{
    let start = cursor::start_at(toks, p);
    match cursor::expected(toks, p, TokenKind::LBrace) {
        Err(e) => Err(e),
        Ok(q1) => {
            match record_fields_at(toks, q1) {
                Err(e) => Err(e),
                Ok((fields, r2)) => {
                    let q3 = cursor::ahead(p, r2);
                    let end = cursor::end_at(toks, q3);
                    match cursor::expected(toks, q3, TokenKind::RBrace) {
                        Err(e) => Err(e),
                        Ok(q4) => {
                            Ok((Spanned { node: ExprV::Record(fields), span: cursor::span_between(start, end) }, q4))
                        },
                    }
                },
            }
        },
    }
}

/// A branch. With an `else` it is a match on a truth value.
pub open spec fn if_expr_at(toks: Seq<TokenV>, p: nat) -> Parsed<Spanned<ExprV>>
    decreases cursor::left(toks, p), 0nat,
{
    let start = cursor::start_at(toks, p);
    match cursor::expected(toks, p, TokenKind::If) {
        Err(e) => Err(e),
        Ok(q1) => {
            match expr_at(toks, q1) {
                Err(e) => Err(e),
                Ok((cond, r2)) => {
                    let q3 = cursor::ahead(p, r2);
                    match cursor::word_expected(toks, q3, "then"@) {
                        Err(e) => Err(e),
                        Ok(q4) => {
                            match stmts_at(toks, q4, Seq::empty()) {
                                Err(e) => Err(e),
                                Ok((yes, r5)) => {
                                    let q6 = cursor::ahead(p, r5);
                                    if cursor::is_at(toks, q6, TokenKind::Else) {
                                        let q7: nat = q6 + 1;
                                        match stmts_at(toks, q7, Seq::empty()) {
                                            Err(e) => Err(e),
                                            Ok((no, r8)) => {
                                                let q9 = cursor::ahead(p, r8);
                                                match cursor::expected(toks, q9, TokenKind::End) {
                                                    Err(e) => Err(e),
                                                    Ok(q10) => {
                                                        let end = cursor::end_before(toks, q10);
                                                        Ok((bool_match(cond, yes, no, cursor::span_between(start, end)), q10))
                                                    },
                                                }
                                            },
                                        }
                                    } else {
                                        match cursor::expected(toks, q6, TokenKind::End) {
                                            Err(e) => Err(e),
                                            Ok(q11) => {
                                                let end = cursor::end_before(toks, q11);
                                                Ok((Spanned { node: ExprV::If { cond: Box::new(cond), then_branch: yes, else_branch: None }, span: cursor::span_between(start, end) }, q11))
                                            },
                                        }
                                    }
                                },
                            }
                        },
                    }
                },
            }
        },
    }
}

/// A case of a match.
pub open spec fn case_at(toks: Seq<TokenV>, p: nat) -> Parsed<MatchCaseV>
    decreases cursor::left(toks, p), 0nat,
{
    match cursor::expected(toks, p, TokenKind::Case) {
        Err(e) => Err(e),
        Ok(q1) => {
            match pattern_syntax::pattern_at(toks, q1) {
                Err(e) => Err(e),
                Ok((pattern, r2)) => {
                    let q3 = cursor::ahead(p, r2);
                    match cursor::expected(toks, q3, TokenKind::Arrow) {
                        Err(e) => Err(e),
                        Ok(q4) => {
                            match stmts_at(toks, q4, Seq::empty()) {
                                Err(e) => Err(e),
                                Ok((body, r5)) => {
                                    let q6 = cursor::ahead(p, r5);
                                    Ok((MatchCaseV { pattern, body }, q6))
                                },
                            }
                        },
                    }
                },
            }
        },
    }
}

/// The cases of a match, behind those of `acc`.
pub open spec fn cases_at(toks: Seq<TokenV>, p: nat, acc: Seq<MatchCaseV>) -> Parsed<Seq<MatchCaseV>>
    decreases cursor::left(toks, p), 1nat,
{
    if cursor::is_at(toks, p, TokenKind::Case) {
        match case_at(toks, p) {
            Err(e) => Err(e),
            Ok((v, r)) => cases_at(toks, cursor::ahead(p, r), acc.push(v)),
        }
    } else {
        Ok((acc, p))
    }
}

/// A match. The `do` before its cases may be left out, unless `strict`.
pub open spec fn match_expr_at(toks: Seq<TokenV>, p: nat, strict: bool) -> Parsed<Spanned<ExprV>>
    decreases cursor::left(toks, p), 0nat,
{
    let start = cursor::start_at(toks, p);
    match cursor::expected(toks, p, TokenKind::Match) {
        Err(e) => Err(e),
        Ok(q1) => {
            match expr_at(toks, q1) {
                Err(e) => Err(e),
                Ok((target, r2)) => {
                    let q3 = cursor::ahead(p, r2);
                    let opened = if strict {
                        cursor::expected(toks, q3, TokenKind::Do)
                    } else if cursor::is_at(toks, q3, TokenKind::Do) {
                        Ok((q3 + 1) as nat)
                    } else {
                        Ok(q3)
                    };
                    match opened {
                        Err(e) => Err(e),
                        Ok(q4) => {
                            match cases_at(toks, q4, Seq::empty()) {
                                Err(e) => Err(e),
                                Ok((cases, r5)) => {
                                    let q6 = cursor::ahead(p, r5);
                                    match cursor::expected(toks, q6, TokenKind::End) {
                                        Err(e) => Err(e),
                                        Ok(q7) => {
                                            let end = cursor::end_before(toks, q7);
                                            let node = ExprV::Match { target: Box::new(target), cases };
                                            Ok((Spanned { node, span: cursor::span_between(start, end) }, q7))
                                        },
                                    }
                                },
                            }
                        },
                    }
                },
            }
        },
    }
}

/// A variable with its sigil, or a linear list.
pub open spec fn sigil_expr_at(toks: Seq<TokenV>, p: nat) -> Parsed<Spanned<ExprV>>
    decreases cursor::left(toks, p), 1nat,
{
    let start = cursor::start_at(toks, p);
    if cursor::is_at(toks, p, TokenKind::Percent) && cursor::is_at(toks, (p + 1) as nat, TokenKind::LBracket) {
        linear_list_at(toks, p)
    } else {
        let (sigil, q1) = cursor::sigil_at(toks, p);
        match cursor::ident_at(toks, q1) {
            Err(e) => Err(e),
            Ok((name, q2)) => {
                let end = cursor::end_before(toks, q2);
                Ok((Spanned { node: ExprV::Variable(name, sigil), span: cursor::span_between(start, end) }, q2))
            },
        }
    }
}

/// The rest of a dotted path: the path, and the number of its segments.
pub open spec fn path_rest_at(toks: Seq<TokenV>, p: nat, path: Text, n: nat) -> Parsed<
    (Text, nat),
>
    decreases cursor::left(toks, p),
{
    if cursor::is_at(toks, p, TokenKind::Dot) && cursor::is_name(toks, p + 1) {
        match cursor::ident_at(toks, p + 1) {
            Err(e) => Err(e),
            Ok((next, q)) => path_rest_at(toks, q, path + "."@ + next, n + 1),
        }
    } else {
        Ok(((path, n), p))
    }
}

/// What begins with a name: a call, a constructor, or a variable. A path that is not called is
/// a variable, whose fields follow.
pub open spec fn name_expr_at(toks: Seq<TokenV>, p: nat) -> Parsed<Spanned<ExprV>>
    decreases cursor::left(toks, p), 0nat,
{
    let start = cursor::start_at(toks, p);
    match cursor::ident_at(toks, p) {
        Err(e) => Err(e),
        Ok((first, q1)) => match path_rest_at(toks, q1, first, 1) {
            Err(e) => Err(e),
            Ok(((path, n), r)) => {
                let q2 = cursor::ahead(p, r);
                let upper = cursor::begins_uppercase(first);
                if cursor::is_at(toks, q2, TokenKind::LParen) {
                    if n > 1 || !upper {
                        match call_items_at(toks, q2 + 1) {
                            Err(e) => Err(e),
                            Ok((args, r2)) => match cursor::expected(
                                toks,
                                cursor::ahead(p, r2),
                                TokenKind::RParen,
                            ) {
                                Err(e) => Err(e),
                                Ok(q3) => Ok(
                                    (
                                        Spanned {
                                            node: ExprV::Call { func: path, args },
                                            span: cursor::span_between(start, cursor::end_before(toks, q3)),
                                        },
                                        q3,
                                    ),
                                ),
                            },
                        }
                    } else {
                        match ctor_items_at(toks, q2 + 1) {
                            Err(e) => Err(e),
                            Ok((args, r2)) => match cursor::expected(
                                toks,
                                cursor::ahead(p, r2),
                                TokenKind::RParen,
                            ) {
                                Err(e) => Err(e),
                                Ok(q3) => Ok(
                                    (
                                        Spanned {
                                            node: ExprV::Constructor(path, args),
                                            span: cursor::span_between(start, cursor::end_before(toks, q3)),
                                        },
                                        q3,
                                    ),
                                ),
                            },
                        }
                    }
                } else if upper && n == 1 {
                    Ok(
                        (
                            Spanned {
                                node: ExprV::Constructor(path, Seq::empty()),
                                span: cursor::span_between(start, cursor::end_before(toks, q2)),
                            },
                            q2,
                        ),
                    )
                } else {
                    Ok(
                        (
                            Spanned {
                                node: ExprV::Variable(first, Sigil::Immutable),
                                span: cursor::span_between(start, cursor::end_before(toks, q1)),
                            },
                            q1,
                        ),
                    )
                }
            },
        },
    }
}

/// An argument of a constructor: `label: expression`, or an expression alone.
pub open spec fn ctor_arg_at(toks: Seq<TokenV>, p: nat) -> Parsed<(Option<Text>, Spanned<ExprV>)>
    decreases cursor::left(toks, p), 6nat,
{
    match type_syntax::labelled_at(toks, p) {
        Some(name) => match expr_at(toks, p + 2) {
            Err(e) => Err(e),
            Ok((v, r)) => Ok(((Some(name), v), r)),
        },
        None => match expr_at(toks, p) {
            Err(e) => Err(e),
            Ok((v, r)) => Ok(((None, v), r)),
        },
    }
}

/// The arguments of a call, separated by commas, up to a closing parenthesis.
pub open spec fn call_items_at(toks: Seq<TokenV>, p: nat) -> Parsed<Seq<(Text, Spanned<ExprV>)>>
    decreases cursor::left(toks, p), 1nat,
{
    if cursor::is_at(toks, p, TokenKind::RParen) {
        Ok((Seq::empty(), p))
    } else {
        match labelled_expr_at(toks, p) {
            Err(e) => Err(e),
            Ok((v, r)) => call_items_rest_at(toks, cursor::ahead(p, r), seq![v]),
        }
    }
}

/// What follows the first items of such a list, `acc`.
pub open spec fn call_items_rest_at(toks: Seq<TokenV>, p: nat, acc: Seq<(Text, Spanned<ExprV>)>) -> Parsed<Seq<(Text, Spanned<ExprV>)>>
    decreases cursor::left(toks, p), 0nat,
{
    if cursor::is_at(toks, p, TokenKind::Comma) {
        if cursor::is_at(toks, p + 1, TokenKind::RParen) {
            Ok((acc, p + 1))
        } else {
            match labelled_expr_at(toks, p + 1) {
                Err(e) => Err(e),
                Ok((v, r)) => call_items_rest_at(toks, cursor::ahead(p, r), acc.push(v)),
            }
        }
    } else {
        Ok((acc, p))
    }
}

/// The arguments of a constructor, separated by commas, up to a closing parenthesis.
pub open spec fn ctor_items_at(toks: Seq<TokenV>, p: nat) -> Parsed<Seq<(Option<Text>, Spanned<ExprV>)>>
    decreases cursor::left(toks, p), 7nat,
{
    if cursor::is_at(toks, p, TokenKind::RParen) {
        Ok((Seq::empty(), p))
    } else {
        match ctor_arg_at(toks, p) {
            Err(e) => Err(e),
            Ok((v, r)) => ctor_items_rest_at(toks, cursor::ahead(p, r), seq![v]),
        }
    }
}

/// What follows the first items of such a list, `acc`.
pub open spec fn ctor_items_rest_at(toks: Seq<TokenV>, p: nat, acc: Seq<(Option<Text>, Spanned<ExprV>)>) -> Parsed<Seq<(Option<Text>, Spanned<ExprV>)>>
    decreases cursor::left(toks, p), 0nat,
{
    if cursor::is_at(toks, p, TokenKind::Comma) {
        if cursor::is_at(toks, p + 1, TokenKind::RParen) {
            Ok((acc, p + 1))
        } else {
            match ctor_arg_at(toks, p + 1) {
                Err(e) => Err(e),
                Ok((v, r)) => ctor_items_rest_at(toks, cursor::ahead(p, r), acc.push(v)),
            }
        }
    } else {
        Ok((acc, p))
    }
}

/// A lambda: its signature and its body, which is not empty.
pub open spec fn lambda_at(toks: Seq<TokenV>, p: nat) -> Parsed<Spanned<ExprV>>
    decreases cursor::left(toks, p), 0nat,
{
    let start = cursor::start_at(toks, p);
    match cursor::expected(toks, p, TokenKind::Fn) {
        Err(e) => Err(e),
        Ok(q1) => {
            match type_syntax::type_params_at(toks, q1) {
                Err(e) => Err(e),
                Ok((type_params, r2)) => {
                    let q3 = cursor::ahead(p, r2);
                    match type_syntax::signature_at(toks, q3) {
                        Err(e) => Err(e),
                        Ok(((params, ret_type, reqs, throws), r4)) => {
                            let q5 = cursor::ahead(p, r4);
                            match cursor::expected(toks, q5, TokenKind::Do) {
                                Err(e) => Err(e),
                                Ok(q6) => {
                                    match stmts_at(toks, q6, Seq::empty()) {
                                        Err(e) => Err(e),
                                        Ok((body, r7)) => {
                                            let q8 = cursor::ahead(p, r7);
                                            if body.len() == 0 {
                                                Err(cursor::parse_error("Function body cannot be empty"@, cursor::span_at(toks, q8)))
                                            } else {
                                                match cursor::expected(toks, q8, TokenKind::End) {
                                                    Err(e) => Err(e),
                                                    Ok(q9) => {
                                                        let end = cursor::end_before(toks, q9);
                                                        Ok((Spanned { node: ExprV::Lambda { type_params, params, ret_type, requires: reqs, throws, body }, span: cursor::span_between(start, end) }, q9))
                                                    },
                                                }
                                            }
                                        },
                                    }
                                },
                            }
                        },
                    }
                },
            }
        },
    }
}

/// A function of a handler.
pub open spec fn handler_function_at(toks: Seq<TokenV>, p: nat) -> Parsed<FunctionV>
    decreases cursor::left(toks, p), 0nat,
{
    match cursor::expected(toks, p, TokenKind::Fn) {
        Err(e) => Err(e),
        Ok(q1) => {
            match cursor::ident_at(toks, q1) {
                Err(e) => Err(e),
                Ok((name, q2)) => {
                    match type_syntax::type_params_at(toks, q2) {
                        Err(e) => Err(e),
                        Ok((type_params, r3)) => {
                            let q4 = cursor::ahead(p, r3);
                            match type_syntax::signature_at(toks, q4) {
                                Err(e) => Err(e),
                                Ok(((params, ret_type, reqs, throws), r5)) => {
                                    let q6 = cursor::ahead(p, r5);
                                    match cursor::expected(toks, q6, TokenKind::Do) {
                                        Err(e) => Err(e),
                                        Ok(q7) => {
                                            match stmts_at(toks, q7, Seq::empty()) {
                                                Err(e) => Err(e),
                                                Ok((body, r8)) => {
                                                    let q9 = cursor::ahead(p, r8);
                                                    if body.len() == 0 {
                                                        Err(cursor::parse_error("Function body cannot be empty"@, cursor::span_at(toks, q9)))
                                                    } else {
                                                        match cursor::expected(toks, q9, TokenKind::End) {
                                                            Err(e) => Err(e),
                                                            Ok(q10) => {
                                                                Ok((FunctionV { name, is_public: false, type_params, params, ret_type, requires: reqs, throws, body }, q10))
                                                            },
                                                        }
                                                    }
                                                },
                                            }
                                        },
                                    }
                                },
                            }
                        },
                    }
                },
            }
        },
    }
}

/// The functions of a handler, behind those of `acc`.
pub open spec fn handler_functions_at(toks: Seq<TokenV>, p: nat, acc: Seq<FunctionV>) -> Parsed<Seq<FunctionV>>
    decreases cursor::left(toks, p), 1nat,
{
    if cursor::is_at(toks, p, TokenKind::Fn) {
        match handler_function_at(toks, p) {
            Err(e) => Err(e),
            Ok((v, r)) => handler_functions_at(toks, cursor::ahead(p, r), acc.push(v)),
        }
    } else {
        Ok((acc, p))
    }
}

/// A handler of a port.
pub open spec fn handler_expr_at(toks: Seq<TokenV>, p: nat) -> Parsed<Spanned<ExprV>>
    decreases cursor::left(toks, p), 0nat,
{
    let start = cursor::start_at(toks, p);
    match cursor::expected(toks, p, TokenKind::Handler) {
        Err(e) => Err(e),
        Ok(q1) => {
            match cursor::ident_at(toks, q1) {
                Err(e) => Err(e),
                Ok((coeffect_name, q2)) => {
                    match type_syntax::require_clause_at(toks, q2) {
                        Err(e) => Err(e),
                        Ok((reqs, r3)) => {
                            let q4 = cursor::ahead(p, r3);
                            match cursor::expected(toks, q4, TokenKind::Do) {
                                Err(e) => Err(e),
                                Ok(q5) => {
                                    match handler_functions_at(toks, q5, Seq::empty()) {
                                        Err(e) => Err(e),
                                        Ok((functions, r6)) => {
                                            let q7 = cursor::ahead(p, r6);
                                            match cursor::expected(toks, q7, TokenKind::End) {
                                                Err(e) => Err(e),
                                                Ok(q8) => {
                                                    let end = cursor::end_before(toks, q8);
                                                    Ok((Spanned { node: ExprV::Handler { coeffect_name, requires: reqs, functions }, span: cursor::span_between(start, end) }, q8))
                                                },
                                            }
                                        },
                                    }
                                },
                            }
                        },
                    }
                },
            }
        },
    }
}

/// Whether the token at a position ends a list of statements.
pub open spec fn ends_stmts(toks: Seq<TokenV>, p: nat) -> bool {
    ||| p >= toks.len()
    ||| cursor::is_at(toks, p, TokenKind::End)
    ||| cursor::is_at(toks, p, TokenKind::Else)
    ||| cursor::is_at(toks, p, TokenKind::Catch)
    ||| cursor::is_at(toks, p, TokenKind::Case)
    ||| cursor::is_at(toks, p, TokenKind::Eof)
}

/// Statements, behind those of `acc`.
pub open spec fn stmts_at(toks: Seq<TokenV>, p: nat, acc: Seq<Spanned<StmtV>>) -> Parsed<Seq<Spanned<StmtV>>>
    decreases cursor::left(toks, p), 8nat,
{
    if !ends_stmts(toks, p) {
        match stmt_at(toks, p) {
            Err(e) => Err(e),
            Ok((v, r)) => stmts_at(toks, cursor::ahead(p, r), acc.push(v)),
        }
    } else {
        Ok((acc, p))
    }
}

/// An expression as a statement.
pub open spec fn as_stmt(e: Parsed<Spanned<ExprV>>) -> Parsed<Spanned<StmtV>> {
    match e {
        Err(er) => Err(er),
        Ok((v, q)) => Ok((Spanned { node: StmtV::Expr(v), span: v.span }, q)),
    }
}

/// A statement.
pub open spec fn stmt_at(toks: Seq<TokenV>, p: nat) -> Parsed<Spanned<StmtV>>
    decreases cursor::left(toks, p), 7nat,
{
    if cursor::is_at(toks, p, TokenKind::Let) {
        let_at(toks, p)
    } else if cursor::is_at(toks, p, TokenKind::Return) {
        return_at(toks, p)
    } else if cursor::is_at(toks, p, TokenKind::If) {
        as_stmt(if_expr_at(toks, p))
    } else if cursor::is_at(toks, p, TokenKind::Match) {
        as_stmt(match_expr_at(toks, p, true))
    } else if cursor::is_at(toks, p, TokenKind::While) {
        as_stmt(while_at(toks, p))
    } else if cursor::is_at(toks, p, TokenKind::For) {
        as_stmt(for_at(toks, p))
    } else if cursor::is_at(toks, p, TokenKind::Try) {
        try_at(toks, p)
    } else if cursor::is_at(toks, p, TokenKind::Conc) {
        conc_at(toks, p)
    } else if cursor::is_at(toks, p, TokenKind::Inject) {
        inject_at(toks, p)
    } else {
        expr_stmt_at(toks, p)
    }
}

/// A `let` of a name, or of a pattern.
pub open spec fn let_at(toks: Seq<TokenV>, p: nat) -> Parsed<Spanned<StmtV>>
    decreases cursor::left(toks, p), 1nat,
{
    if cursor::is_at(toks, p, TokenKind::Let) && (cursor::is_at(toks, p + 1, TokenKind::LBrace) || (cursor::is_upper(toks, p + 1) && cursor::is_at(toks, p + 2, TokenKind::LParen))) {
        let_pattern_at(toks, p)
    } else {
        let_name_at(toks, p)
    }
}

/// A `let` of a pattern.
pub open spec fn let_pattern_at(toks: Seq<TokenV>, p: nat) -> Parsed<Spanned<StmtV>>
    decreases cursor::left(toks, p), 0nat,
{
    let start = cursor::start_at(toks, p);
    match cursor::expected(toks, p, TokenKind::Let) {
        Err(e) => Err(e),
        Ok(q1) => {
            match pattern_syntax::pattern_at(toks, q1) {
                Err(e) => Err(e),
                Ok((pattern, r2)) => {
                    let q3 = cursor::ahead(p, r2);
                    match cursor::expected(toks, q3, TokenKind::Eq) {
                        Err(e) => Err(e),
                        Ok(q4) => {
                            match expr_at(toks, q4) {
                                Err(e) => Err(e),
                                Ok((value, r5)) => {
                                    let q6 = cursor::ahead(p, r5);
                                    let end = value.span.end;
                                    Ok((Spanned { node: StmtV::LetPattern { pattern, value }, span: cursor::span_between(start, end) }, q6))
                                },
                            }
                        },
                    }
                },
            }
        },
    }
}

/// The type behind the name of a `let`, if there is one.
pub open spec fn let_type_at(toks: Seq<TokenV>, p: nat) -> Parsed<Option<TypeV>> {
    if cursor::is_at(toks, p, TokenKind::Colon) {
        match type_syntax::type_at(toks, p + 1) {
            Err(e) => Err(e),
            Ok((typ, q)) => Ok((Some(typ), q)),
        }
    } else {
        Ok((None, p))
    }
}

/// A `let` of a name.
pub open spec fn let_name_at(toks: Seq<TokenV>, p: nat) -> Parsed<Spanned<StmtV>>
    decreases cursor::left(toks, p), 0nat,
{
    let start = cursor::start_at(toks, p);
    match cursor::expected(toks, p, TokenKind::Let) {
        Err(e) => Err(e),
        Ok(q1) => {
            let (sigil, q2) = cursor::sigil_at(toks, q1);
            match cursor::ident_at(toks, q2) {
                Err(e) => Err(e),
                Ok((name, q3)) => {
                    match let_type_at(toks, q3) {
                        Err(e) => Err(e),
                        Ok((typ, r4)) => {
                            let q5 = cursor::ahead(p, r4);
                            match cursor::expected(toks, q5, TokenKind::Eq) {
                                Err(e) => Err(e),
                                Ok(q6) => {
                                    match expr_at(toks, q6) {
                                        Err(e) => Err(e),
                                        Ok((value, r7)) => {
                                            let q8 = cursor::ahead(p, r7);
                                            let end = value.span.end;
                                            let node = StmtV::Let { name, sigil, typ, value };
                                            Ok((Spanned { node, span: cursor::span_between(start, end) }, q8))
                                        },
                                    }
                                },
                            }
                        },
                    }
                },
            }
        },
    }
}

/// A `return`.
pub open spec fn return_at(toks: Seq<TokenV>, p: nat) -> Parsed<Spanned<StmtV>>
    decreases cursor::left(toks, p), 0nat,
{
    let start = cursor::start_at(toks, p);
    match cursor::expected(toks, p, TokenKind::Return) {
        Err(e) => Err(e),
        Ok(q1) => {
            match expr_at(toks, q1) {
                Err(e) => Err(e),
                Ok((value, r2)) => {
                    let q3 = cursor::ahead(p, r2);
                    let end = value.span.end;
                    Ok((Spanned { node: StmtV::Return(value), span: cursor::span_between(start, end) }, q3))
                },
            }
        },
    }
}

/// An assignment, or an expression.
pub open spec fn expr_stmt_at(toks: Seq<TokenV>, p: nat) -> Parsed<Spanned<StmtV>>
    decreases cursor::left(toks, p), 6nat,
{
    let start = cursor::start_at(toks, p);
    match expr_at(toks, p) {
        Err(e) => Err(e),
        Ok((target, r1)) => {
            let q2 = cursor::ahead(p, r1);
            if cursor::is_at(toks, q2, TokenKind::Assign) {
                let q3: nat = q2 + 1;
                match expr_at(toks, q3) {
                    Err(e) => Err(e),
                    Ok((value, r4)) => {
                        let q5 = cursor::ahead(p, r4);
                        let end = value.span.end;
                        Ok((Spanned { node: StmtV::Assign { target, value }, span: cursor::span_between(start, end) }, q5))
                    },
                }
            } else {
                let end = target.span.end;
                Ok((Spanned { node: StmtV::Expr(target), span: cursor::span_between(start, end) }, q2))
            }
        },
    }
}

/// A loop on a condition.
pub open spec fn while_at(toks: Seq<TokenV>, p: nat) -> Parsed<Spanned<ExprV>>
    decreases cursor::left(toks, p), 0nat,
{
    let start = cursor::start_at(toks, p);
    match cursor::expected(toks, p, TokenKind::While) {
        Err(e) => Err(e),
        Ok(q1) => {
            match expr_at(toks, q1) {
                Err(e) => Err(e),
                Ok((cond, r2)) => {
                    let q3 = cursor::ahead(p, r2);
                    match cursor::expected(toks, q3, TokenKind::Do) {
                        Err(e) => Err(e),
                        Ok(q4) => {
                            match stmts_at(toks, q4, Seq::empty()) {
                                Err(e) => Err(e),
                                Ok((body, r5)) => {
                                    let q6 = cursor::ahead(p, r5);
                                    match cursor::expected(toks, q6, TokenKind::End) {
                                        Err(e) => Err(e),
                                        Ok(q7) => {
                                            let end = cursor::end_before(toks, q7);
                                            Ok((Spanned { node: ExprV::While { cond: Box::new(cond), body }, span: cursor::span_between(start, end) }, q7))
                                        },
                                    }
                                },
                            }
                        },
                    }
                },
            }
        },
    }
}

/// A loop over a range of integers.
pub open spec fn for_at(toks: Seq<TokenV>, p: nat) -> Parsed<Spanned<ExprV>>
    decreases cursor::left(toks, p), 0nat,
{
    let start = cursor::start_at(toks, p);
    match cursor::expected(toks, p, TokenKind::For) {
        Err(e) => Err(e),
        Ok(q1) => {
            match cursor::ident_at(toks, q1) {
                Err(e) => Err(e),
                Ok((var, q2)) => {
                    match cursor::expected(toks, q2, TokenKind::Eq) {
                        Err(e) => Err(e),
                        Ok(q3) => {
                            match expr_at(toks, q3) {
                                Err(e) => Err(e),
                                Ok((first, r4)) => {
                                    let q5 = cursor::ahead(p, r4);
                                    match cursor::word_expected(toks, q5, "to"@) {
                                        Err(e) => Err(e),
                                        Ok(q6) => {
                                            match expr_at(toks, q6) {
                                                Err(e) => Err(e),
                                                Ok((end_expr, r7)) => {
                                                    let q8 = cursor::ahead(p, r7);
                                                    match cursor::expected(toks, q8, TokenKind::Do) {
                                                        Err(e) => Err(e),
                                                        Ok(q9) => {
                                                            match stmts_at(toks, q9, Seq::empty()) {
                                                                Err(e) => Err(e),
                                                                Ok((body, r10)) => {
                                                                    let q11 = cursor::ahead(p, r10);
                                                                    match cursor::expected(toks, q11, TokenKind::End) {
                                                                        Err(e) => Err(e),
                                                                        Ok(q12) => {
                                                                            let end = cursor::end_before(toks, q12);
                                                                            Ok((Spanned { node: ExprV::For { var, start: Box::new(first), end_expr: Box::new(end_expr), body }, span: cursor::span_between(start, end) }, q12))
                                                                        },
                                                                    }
                                                                },
                                                            }
                                                        },
                                                    }
                                                },
                                            }
                                        },
                                    }
                                },
                            }
                        },
                    }
                },
            }
        },
    }
}

/// A `try` and its handler.
pub open spec fn try_at(toks: Seq<TokenV>, p: nat) -> Parsed<Spanned<StmtV>>
    decreases cursor::left(toks, p), 0nat,
{
    let start = cursor::start_at(toks, p);
    match cursor::expected(toks, p, TokenKind::Try) {
        Err(e) => Err(e),
        Ok(q1) => {
            match stmts_at(toks, q1, Seq::empty()) {
                Err(e) => Err(e),
                Ok((body, r2)) => {
                    let q3 = cursor::ahead(p, r2);
                    match cursor::expected(toks, q3, TokenKind::Catch) {
                        Err(e) => Err(e),
                        Ok(q4) => {
                            match cursor::ident_at(toks, q4) {
                                Err(e) => Err(e),
                                Ok((catch_param, q5)) => {
                                    match cursor::expected(toks, q5, TokenKind::Arrow) {
                                        Err(e) => Err(e),
                                        Ok(q6) => {
                                            match stmts_at(toks, q6, Seq::empty()) {
                                                Err(e) => Err(e),
                                                Ok((catch_body, r7)) => {
                                                    let q8 = cursor::ahead(p, r7);
                                                    match cursor::expected(toks, q8, TokenKind::End) {
                                                        Err(e) => Err(e),
                                                        Ok(q9) => {
                                                            let end = cursor::end_before(toks, q9);
                                                            Ok((Spanned { node: StmtV::Try { body, catch_param, catch_body }, span: cursor::span_between(start, end) }, q9))
                                                        },
                                                    }
                                                },
                                            }
                                        },
                                    }
                                },
                            }
                        },
                    }
                },
            }
        },
    }
}

/// The names of effects, separated by commas, up to a closing brace.
pub open spec fn effect_names_at(toks: Seq<TokenV>, p: nat) -> Parsed<Seq<Text>> {
    if cursor::is_at(toks, p, TokenKind::RBrace) {
        Ok((Seq::empty(), p))
    } else {
        match cursor::ident_at(toks, p) {
            Err(e) => Err(e),
            Ok((v, r)) => effect_names_rest_at(toks, cursor::ahead(p, r), seq![v]),
        }
    }
}

/// What follows the first items of such a list, `acc`.
pub open spec fn effect_names_rest_at(toks: Seq<TokenV>, p: nat, acc: Seq<Text>) -> Parsed<Seq<Text>>
    decreases cursor::left(toks, p),
{
    if cursor::is_at(toks, p, TokenKind::Comma) {
        if cursor::is_at(toks, p + 1, TokenKind::RBrace) {
            Ok((acc, p + 1))
        } else {
            match cursor::ident_at(toks, p + 1) {
                Err(e) => Err(e),
                Ok((v, r)) => effect_names_rest_at(toks, cursor::ahead(p, r), acc.push(v)),
            }
        }
    } else {
        Ok((acc, p))
    }
}

/// The effects that a task throws.
pub open spec fn task_throws_at(toks: Seq<TokenV>, p: nat) -> Parsed<TypeV> {
    if cursor::is_at(toks, p, TokenKind::Throws) {
        match cursor::expected(toks, p + 1, TokenKind::LBrace) {
            Err(e) => Err(e),
            Ok(q1) => {
                match effect_names_at(toks, q1) {
                    Err(e) => Err(e),
                    Ok((names, q2)) => {
                        match cursor::expected(toks, q2, TokenKind::RBrace) {
                            Err(e) => Err(e),
                            Ok(q3) => Ok((effects_row(names), q3)),
                        }
                    },
                }
            },
        }
    } else {
        Ok((helpers::empty_row(), p))
    }
}

/// A task of a `conc`, with the effects it throws.
pub open spec fn task_at(toks: Seq<TokenV>, p: nat) -> Parsed<FunctionV>
    decreases cursor::left(toks, p), 0nat,
{
    match cursor::expected(toks, p, TokenKind::Task) {
        Err(e) => Err(e),
        Ok(q1) => {
            match cursor::ident_at(toks, q1) {
                Err(e) => Err(e),
                Ok((name, q2)) => {
                    match task_throws_at(toks, q2) {
                        Err(e) => Err(e),
                        Ok((throws, r3)) => {
                            let q4 = cursor::ahead(p, r3);
                            match cursor::expected(toks, q4, TokenKind::Do) {
                                Err(e) => Err(e),
                                Ok(q5) => {
                                    match stmts_at(toks, q5, Seq::empty()) {
                                        Err(e) => Err(e),
                                        Ok((body, r6)) => {
                                            let q7 = cursor::ahead(p, r6);
                                            match cursor::expected(toks, q7, TokenKind::End) {
                                                Err(e) => Err(e),
                                                Ok(q8) => {
                                                    let none = Seq::<Text>::empty();
                                                    let no_params = Seq::<ParamV>::empty();
                                                    Ok((FunctionV { name, is_public: false, type_params: none, params: no_params, ret_type: TypeV::Unit, requires: helpers::empty_row(), throws, body }, q8))
                                                },
                                            }
                                        },
                                    }
                                },
                            }
                        },
                    }
                },
            }
        },
    }
}

/// The tasks of a `conc`, behind those of `acc`.
pub open spec fn tasks_at(toks: Seq<TokenV>, p: nat, acc: Seq<FunctionV>) -> Parsed<Seq<FunctionV>>
    decreases cursor::left(toks, p), 1nat,
{
    if cursor::is_at(toks, p, TokenKind::Task) {
        match task_at(toks, p) {
            Err(e) => Err(e),
            Ok((v, r)) => tasks_at(toks, cursor::ahead(p, r), acc.push(v)),
        }
    } else {
        Ok((acc, p))
    }
}

/// A `conc` and its tasks.
pub open spec fn conc_at(toks: Seq<TokenV>, p: nat) -> Parsed<Spanned<StmtV>>
    decreases cursor::left(toks, p), 0nat,
{
    let start = cursor::start_at(toks, p);
    match cursor::expected(toks, p, TokenKind::Conc) {
        Err(e) => Err(e),
        Ok(q1) => {
            match cursor::expected(toks, q1, TokenKind::Do) {
                Err(e) => Err(e),
                Ok(q2) => {
                    match tasks_at(toks, q2, Seq::empty()) {
                        Err(e) => Err(e),
                        Ok((tasks, r3)) => {
                            let q4 = cursor::ahead(p, r3);
                            match cursor::expected(toks, q4, TokenKind::End) {
                                Err(e) => Err(e),
                                Ok(q5) => {
                                    let end = cursor::end_before(toks, q5);
                                    Ok((Spanned { node: StmtV::Conc(tasks), span: cursor::span_between(start, end) }, q5))
                                },
                            }
                        },
                    }
                },
            }
        },
    }
}

/// A dotted name.
pub open spec fn dotted_ident_at(toks: Seq<TokenV>, p: nat) -> Parsed<Text> {
    match cursor::ident_at(toks, p) {
        Err(e) => Err(e),
        Ok((first, q)) => dotted_rest_at(toks, q, first),
    }
}

/// The rest of a dotted name.
pub open spec fn dotted_rest_at(toks: Seq<TokenV>, p: nat, path: Text) -> Parsed<Text>
    decreases cursor::left(toks, p),
{
    if cursor::is_at(toks, p, TokenKind::Dot) {
        match cursor::ident_at(toks, p + 1) {
            Err(e) => Err(e),
            Ok((next, q)) => dotted_rest_at(toks, q, path + "."@ + next),
        }
    } else {
        Ok((path, p))
    }
}

/// Dotted names, separated by commas.
pub open spec fn dotted_idents_at(toks: Seq<TokenV>, p: nat) -> Parsed<Seq<Text>> {
    match dotted_ident_at(toks, p) {
        Err(e) => Err(e),
        Ok((v, r)) => dotted_idents_rest_at(toks, cursor::ahead(p, r), seq![v]),
    }
}

/// What follows the first items of such a list, `acc`.
pub open spec fn dotted_idents_rest_at(toks: Seq<TokenV>, p: nat, acc: Seq<Text>) -> Parsed<Seq<Text>>
    decreases cursor::left(toks, p),
{
    if cursor::is_at(toks, p, TokenKind::Comma) {
        match dotted_ident_at(toks, p + 1) {
            Err(e) => Err(e),
            Ok((v, r)) => dotted_idents_rest_at(toks, cursor::ahead(p, r), acc.push(v)),
        }
    } else {
        Ok((acc, p))
    }
}

/// An `inject`: its handlers and its body.
pub open spec fn inject_at(toks: Seq<TokenV>, p: nat) -> Parsed<Spanned<StmtV>>
    decreases cursor::left(toks, p), 0nat,
{
    let start = cursor::start_at(toks, p);
    match cursor::expected(toks, p, TokenKind::Inject) {
        Err(e) => Err(e),
        Ok(q1) => {
            match dotted_idents_at(toks, q1) {
                Err(e) => Err(e),
                Ok((handlers, r2)) => {
                    let q3 = cursor::ahead(p, r2);
                    match cursor::expected(toks, q3, TokenKind::Do) {
                        Err(e) => Err(e),
                        Ok(q4) => {
                            match stmts_at(toks, q4, Seq::empty()) {
                                Err(e) => Err(e),
                                Ok((body, r5)) => {
                                    let q6 = cursor::ahead(p, r5);
                                    match cursor::expected(toks, q6, TokenKind::End) {
                                        Err(e) => Err(e),
                                        Ok(q7) => {
                                            let end = cursor::end_before(toks, q7);
                                            Ok((Spanned { node: StmtV::Inject { handlers, body }, span: cursor::span_between(start, end) }, q7))
                                        },
                                    }
                                },
                            }
                        },
                    }
                },
            }
        },
    }
}

// ---------------------------------------------------------------------------
// Reading expressions and statements
// ---------------------------------------------------------------------------

fn token_to_binop(k: &TokenKind) -> (r: Option<BinaryOp>)
    ensures
        r == binop_of(k@),
        r is Some ==> !(k is Eof),
{
    proof {
        reveal(binop_of);
        reveal(TokenKind::view);
    }
    match k {
        TokenKind::OrOr => Some(BinaryOp::Or),
        TokenKind::AndAnd => Some(BinaryOp::And),
        TokenKind::EqEq => Some(BinaryOp::Eq),
        TokenKind::Ne => Some(BinaryOp::Ne),
        TokenKind::Le => Some(BinaryOp::Le),
        TokenKind::Ge => Some(BinaryOp::Ge),
        TokenKind::Lt => Some(BinaryOp::Lt),
        TokenKind::Gt => Some(BinaryOp::Gt),
        TokenKind::EqDot => Some(BinaryOp::FEq),
        TokenKind::NeDot => Some(BinaryOp::FNe),
        TokenKind::LeDot => Some(BinaryOp::FLe),
        TokenKind::GeDot => Some(BinaryOp::FGe),
        TokenKind::LtDot => Some(BinaryOp::FLt),
        TokenKind::GtDot => Some(BinaryOp::FGt),
        TokenKind::Plus => Some(BinaryOp::Add),
        TokenKind::Minus => Some(BinaryOp::Sub),
        TokenKind::PlusPlus => Some(BinaryOp::Concat),
        TokenKind::PlusDot => Some(BinaryOp::FAdd),
        TokenKind::MinusDot => Some(BinaryOp::FSub),
        TokenKind::Star => Some(BinaryOp::Mul),
        TokenKind::Slash => Some(BinaryOp::Div),
        TokenKind::Percent => Some(BinaryOp::Mod),
        TokenKind::StarDot => Some(BinaryOp::FMul),
        TokenKind::SlashDot => Some(BinaryOp::FDiv),
        TokenKind::Ampersand => Some(BinaryOp::BitAnd),
        TokenKind::Pipe => Some(BinaryOp::BitOr),
        TokenKind::Caret => Some(BinaryOp::BitXor),
        TokenKind::Shl => Some(BinaryOp::Shl),
        TokenKind::Shr => Some(BinaryOp::Shr),
        _ => None,
    }
}

fn binop_precedence(op: BinaryOp) -> (r: u8)
    ensures
        r == precedence(op),
        1 <= r <= 6,
{
    match op {
        BinaryOp::Or => 1,
        BinaryOp::And => 2,
        BinaryOp::Eq | BinaryOp::Ne | BinaryOp::Lt | BinaryOp::Le | BinaryOp::Gt | BinaryOp::Ge
        | BinaryOp::FEq | BinaryOp::FNe | BinaryOp::FLt | BinaryOp::FLe | BinaryOp::FGt
        | BinaryOp::FGe => 3,
        BinaryOp::Add | BinaryOp::Sub | BinaryOp::Concat | BinaryOp::FAdd | BinaryOp::FSub
        | BinaryOp::BitOr | BinaryOp::BitXor => 4,
        BinaryOp::Mul | BinaryOp::Div | BinaryOp::Mod | BinaryOp::FMul | BinaryOp::FDiv
        | BinaryOp::BitAnd => 5,
        BinaryOp::Shl | BinaryOp::Shr => 6,
    }
}

fn make_cons_expr(first: Spanned<Expr>, rest: Spanned<Expr>, span: Span) -> (r: Spanned<Expr>)
    ensures
        r@ == cons_expr(first@, rest@, span),
        r.span == span,
{
    let ghost fv = first@;
    let ghost rv = rest@;
    let mut args: Vec<(Option<String>, Spanned<Expr>)> = Vec::new();
    args.push((Some(owned("v")), first));
    args.push((Some(owned("rest")), rest));
    assert(ast::ctor_args_view(args@) =~= seq![(Some("v"@), fv), (Some("rest"@), rv)]);
    Spanned { node: Expr::Constructor(owned("Cons"), args), span }
}

fn make_bool_match(
    cond: Spanned<Expr>,
    yes: Vec<Spanned<Stmt>>,
    no: Vec<Spanned<Stmt>>,
    span: Span,
) -> (r: Spanned<Expr>)
    ensures
        r@ == bool_match(cond@, ast::stmts_view(yes@), ast::stmts_view(no@), span),
{
    let a = MatchCase {
        pattern: Spanned { node: Pattern::Literal(Literal::Bool(true)), span },
        body: yes,
    };
    let b = MatchCase {
        pattern: Spanned { node: Pattern::Literal(Literal::Bool(false)), span },
        body: no,
    };
    let ghost av = a@;
    let ghost bv = b@;
    let mut cases: Vec<MatchCase> = Vec::new();
    cases.push(a);
    cases.push(b);
    assert(ast::cases_view(cases@) =~= seq![av, bv]);
    Spanned { node: Expr::Match { target: Box::new(cond), cases }, span }
}

fn make_effects_row(names: Vec<String>) -> (r: Type)
    ensures
        r@ == effects_row(text::texts(names@)),
{
    let mut out: Vec<Type> = Vec::new();
    let mut i: usize = 0;
    while i < names.len()
        invariant
            i <= names.len(),
            out.len() == i,
            forall|j: int| 0 <= j < i ==> (#[trigger] out@[j])@ == helpers::named_type(names@[j]@),
        decreases names.len() - i,
    {
        out.push(make_named(names[i].clone()));
        i = i + 1;
    }
    assert(types::types_view(out@) =~= text::texts(names@).map_values(|n: Text| helpers::named_type(n)));
    Type::Row(out, None)
}

/// Reads an expression.
pub fn parse_expr(toks: &Vec<Token>, p: usize) -> (r: Result<(Spanned<Expr>, usize), ParseError>)
    requires
        lexer::well_ended(toks@),
        p < toks.len(),
    ensures
        match r {
            Ok((v, q)) => {
                &&& expr_at(lexer::tokens_view(toks@), p as nat) == Ok::<
                    (Spanned<ExprV>, nat),
                    ParseErrorV,
                >((v@, q as nat))
                &&& p < q < toks.len()
            },
            Err(e) => expr_at(lexer::tokens_view(toks@), p as nat) == Err::<
                (Spanned<ExprV>, nat),
                ParseErrorV,
            >(e@),
        },
    decreases toks.len() - p, 5nat,
{
    parse_prec_expr(toks, p, 0)
}

#[verifier::loop_isolation(false)]
#[verifier::spinoff_prover]
#[verifier::rlimit(40)]
fn parse_prec_expr(toks: &Vec<Token>, p: usize, min: u8) -> (r: Result<(Spanned<Expr>, usize), ParseError>)
    requires
        lexer::well_ended(toks@),
        p < toks.len(),
    ensures
        match r {
            Ok((v, q)) => {
                &&& prec_expr_at(lexer::tokens_view(toks@), p as nat, min as nat) == Ok::<
                    (Spanned<ExprV>, nat),
                    ParseErrorV,
                >((v@, q as nat))
                &&& p < q < toks.len()
            },
            Err(e) => prec_expr_at(lexer::tokens_view(toks@), p as nat, min as nat) == Err::<
                (Spanned<ExprV>, nat),
                ParseErrorV,
            >(e@),
        },
    decreases toks.len() - p, 4nat,
{
    let ghost tv = lexer::tokens_view(toks@);
    let ghost all = prec_expr_at(tv, p as nat, min as nat);
    let (first, next) = parse_postfix_expr(toks, p)?;
    let mut lhs = first;
    let mut at: usize = next;
    loop
        invariant
            p < at < toks.len(),
            prec_rest_at(tv, at as nat, lhs@, min as nat) == all,
        decreases toks.len() - at,
    {
        assert(tv[at as int] == toks@[at as int]@);
        if next_is(toks, at, &TokenKind::ColonColon) && 4 >= min {
            let (rhs, after) = parse_prec_expr(toks, at + 1, 4)?;
            let span = Span { start: lhs.span.start, end: rhs.span.end };
            lhs = make_cons_expr(lhs, rhs, span);
            at = after;
        } else {
            match token_to_binop(&toks[at].kind) {
                Some(op) => {
                    let prec = binop_precedence(op);
                    if prec < min {
                        return Ok((lhs, at));
                    }
                    let (rhs, after) = parse_prec_expr(toks, at + 1, prec + 1)?;
                    let span = Span { start: lhs.span.start, end: rhs.span.end };
                    lhs = Spanned { node: Expr::BinaryOp(Box::new(lhs), op, Box::new(rhs)), span };
                    at = after;
                },
                None => {
                    return Ok((lhs, at));
                },
            }
        }
    }
}

#[verifier::loop_isolation(false)]
fn parse_postfix_expr(toks: &Vec<Token>, p: usize) -> (r: Result<(Spanned<Expr>, usize), ParseError>)
    requires
        lexer::well_ended(toks@),
        p < toks.len(),
    ensures
        match r {
            Ok((v, q)) => {
                &&& postfix_expr_at(lexer::tokens_view(toks@), p as nat) == Ok::<
                    (Spanned<ExprV>, nat),
                    ParseErrorV,
                >((v@, q as nat))
                &&& p < q < toks.len()
            },
            Err(e) => postfix_expr_at(lexer::tokens_view(toks@), p as nat) == Err::<
                (Spanned<ExprV>, nat),
                ParseErrorV,
            >(e@),
        },
    decreases toks.len() - p, 3nat,
{
    let ghost tv = lexer::tokens_view(toks@);
    let ghost all = postfix_expr_at(tv, p as nat);
    let (first, next) = parse_atom(toks, p)?;
    let mut expr = first;
    let mut at: usize = next;
    loop
        invariant
            p < at < toks.len(),
            postfix_rest_at(tv, at as nat, expr@) == all,
        decreases toks.len() - at,
    {
        assert(tv[at as int] == toks@[at as int]@);
        if next_is(toks, at, &TokenKind::Dot) {
            let (name, q) = expect_ident(toks, at + 1)?;
            let span = Span { start: expr.span.start, end: toks[q - 1].span.end };
            expr = Spanned { node: Expr::FieldAccess(Box::new(expr), name), span };
            at = q;
        } else if next_is(toks, at, &TokenKind::LBracket) {
            let (index, q1) = parse_expr(toks, at + 1)?;
            let q2 = expect(toks, q1, &TokenKind::RBracket)?;
            let span = Span { start: expr.span.start, end: toks[q1].span.end };
            expr = Spanned { node: Expr::Index(Box::new(expr), Box::new(index)), span };
            at = q2;
        } else {
            return Ok((expr, at));
        }
    }
}

fn parse_atom(toks: &Vec<Token>, p: usize) -> (r: Result<(Spanned<Expr>, usize), ParseError>)
    requires
        lexer::well_ended(toks@),
        p < toks.len(),
    ensures
        match r {
            Ok((v, q)) => {
                &&& atom_at(lexer::tokens_view(toks@), p as nat) == Ok::<
                    (Spanned<ExprV>, nat),
                    ParseErrorV,
                >((v@, q as nat))
                &&& p < q < toks.len()
            },
            Err(e) => atom_at(lexer::tokens_view(toks@), p as nat) == Err::<
                (Spanned<ExprV>, nat),
                ParseErrorV,
            >(e@),
        },
    decreases toks.len() - p, 2nat,
{
    if next_is_literal(toks, p) {
        parse_literal_expr(toks, p)
    } else if next_is_name(toks, p) {
        parse_name_expr(toks, p)
    } else if next_is(toks, p, &TokenKind::LParen) {
        parse_paren(toks, p)
    } else if next_is(toks, p, &TokenKind::Raise) {
        parse_raise(toks, p)
    } else if next_is(toks, p, &TokenKind::Ampersand) {
        parse_borrow(toks, p)
    } else if next_is(toks, p, &TokenKind::Fn) {
        parse_lambda(toks, p)
    } else if next_is(toks, p, &TokenKind::Handler) {
        parse_handler_expr(toks, p)
    } else if next_is(toks, p, &TokenKind::LBracketPipe) {
        parse_array_expr(toks, p)
    } else if next_is(toks, p, &TokenKind::LBracket) {
        parse_list_expr(toks, p)
    } else if next_is(toks, p, &TokenKind::LBrace) {
        parse_record_expr(toks, p)
    } else if next_is(toks, p, &TokenKind::If) {
        parse_if(toks, p)
    } else if next_is(toks, p, &TokenKind::Match) {
        parse_match(toks, p, false)
    } else if next_is(toks, p, &TokenKind::Tilde) {
        parse_sigil_expr(toks, p)
    } else if next_is(toks, p, &TokenKind::Percent) {
        parse_sigil_expr(toks, p)
    } else {
        Err(unexpected_error(toks, p, "expression"))
    }
}

fn parse_paren(toks: &Vec<Token>, p: usize) -> (r: Result<(Spanned<Expr>, usize), ParseError>)
    requires
        lexer::well_ended(toks@),
        p < toks.len(),
    ensures
        match r {
            Ok((v, q)) => {
                &&& paren_at(lexer::tokens_view(toks@), p as nat) == Ok::<
                    (Spanned<ExprV>, nat),
                    ParseErrorV,
                >((v@, q as nat))
                &&& p < q < toks.len()
            },
            Err(e) => paren_at(lexer::tokens_view(toks@), p as nat) == Err::<
                (Spanned<ExprV>, nat),
                ParseErrorV,
            >(e@),
        },
    decreases toks.len() - p, 0nat,
{
    let start = toks[p].span.start;
    let p = expect(toks, p, &TokenKind::LParen)?;
    if next_is(toks, p, &TokenKind::RParen) {
        let p: usize = p + 1;
        let end = toks[p - 1].span.end;
        Ok((Spanned { node: Expr::Literal(Literal::Unit), span: Span { start, end } }, p))
    } else {
        let (inner, p) = parse_expr(toks, p)?;
        let p = expect(toks, p, &TokenKind::RParen)?;
        let end = toks[p - 1].span.end;
        Ok((Spanned { node: inner.node, span: Span { start, end } }, p))
    }
}

fn parse_raise(toks: &Vec<Token>, p: usize) -> (r: Result<(Spanned<Expr>, usize), ParseError>)
    requires
        lexer::well_ended(toks@),
        p < toks.len(),
    ensures
        match r {
            Ok((v, q)) => {
                &&& raise_at(lexer::tokens_view(toks@), p as nat) == Ok::<
                    (Spanned<ExprV>, nat),
                    ParseErrorV,
                >((v@, q as nat))
                &&& p < q < toks.len()
            },
            Err(e) => raise_at(lexer::tokens_view(toks@), p as nat) == Err::<
                (Spanned<ExprV>, nat),
                ParseErrorV,
            >(e@),
        },
    decreases toks.len() - p, 0nat,
{
    let start = toks[p].span.start;
    let p = expect(toks, p, &TokenKind::Raise)?;
    let (operand, p) = parse_expr(toks, p)?;
    let end = operand.span.end;
    Ok((Spanned { node: Expr::Raise(Box::new(operand)), span: Span { start, end } }, p))
}

fn parse_borrow(toks: &Vec<Token>, p: usize) -> (r: Result<(Spanned<Expr>, usize), ParseError>)
    requires
        lexer::well_ended(toks@),
        p < toks.len(),
    ensures
        match r {
            Ok((v, q)) => {
                &&& borrow_at(lexer::tokens_view(toks@), p as nat) == Ok::<
                    (Spanned<ExprV>, nat),
                    ParseErrorV,
                >((v@, q as nat))
                &&& p < q < toks.len()
            },
            Err(e) => borrow_at(lexer::tokens_view(toks@), p as nat) == Err::<
                (Spanned<ExprV>, nat),
                ParseErrorV,
            >(e@),
        },
{
    let start = toks[p].span.start;
    let p = expect(toks, p, &TokenKind::Ampersand)?;
    let (sigil, p) = parse_sigil(toks, p);
    let (name, p) = expect_ident(toks, p)?;
    let end = toks[p - 1].span.end;
    Ok((Spanned { node: Expr::Borrow(name, sigil), span: Span { start, end } }, p))
}

fn parse_literal_expr(toks: &Vec<Token>, p: usize) -> (r: Result<(Spanned<Expr>, usize), ParseError>)
    requires
        lexer::well_ended(toks@),
        p < toks.len(),
    ensures
        match r {
            Ok((v, q)) => {
                &&& literal_expr_at(lexer::tokens_view(toks@), p as nat) == Ok::<
                    (Spanned<ExprV>, nat),
                    ParseErrorV,
                >((v@, q as nat))
                &&& p < q < toks.len()
            },
            Err(e) => literal_expr_at(lexer::tokens_view(toks@), p as nat) == Err::<
                (Spanned<ExprV>, nat),
                ParseErrorV,
            >(e@),
        },
{
    let start = toks[p].span.start;
    let (lit, p) = parse_literal(toks, p)?;
    let end = toks[p - 1].span.end;
    Ok((Spanned { node: Expr::Literal(lit), span: Span { start, end } }, p))
}

#[verifier::loop_isolation(false)]
fn parse_array_items(toks: &Vec<Token>, p: usize) -> (r: Result<(Vec<Spanned<Expr>>, usize), ParseError>)
    requires
        lexer::well_ended(toks@),
        p < toks.len(),
    ensures
        match r {
            Ok((v, q)) => {
                &&& array_items_at(lexer::tokens_view(toks@), p as nat) == Ok::<
                    (Seq<Spanned<ExprV>>, nat),
                    ParseErrorV,
                >((ast::exprs_view(v@), q as nat))
                &&& p <= q < toks.len()
            },
            Err(e) => array_items_at(lexer::tokens_view(toks@), p as nat) == Err::<
                (Seq<Spanned<ExprV>>, nat),
                ParseErrorV,
            >(e@),
        },
    decreases toks.len() - p, 6nat,
{
    let ghost tv = lexer::tokens_view(toks@);
    let ghost all = array_items_at(tv, p as nat);
    if next_is(toks, p, &TokenKind::RBracketPipe) {
        let none: Vec<Spanned<Expr>> = Vec::new();
        assert(ast::exprs_view(none@) =~= Seq::<Spanned<ExprV>>::empty());
        return Ok((none, p));
    }
    let (first, next) = parse_expr(toks, p)?;
    let mut acc: Vec<Spanned<Expr>> = Vec::new();
    let ghost fv = first@;
    acc.push(first);
    assert(ast::exprs_view(acc@) =~= seq![fv]);
    let mut at: usize = next;
    while next_is(toks, at, &TokenKind::Comma)
        invariant
            p < at < toks.len(),
            array_items_rest_at(tv, at as nat, ast::exprs_view(acc@)) == all,
        decreases toks.len() - at,
    {
        if next_is(toks, at + 1, &TokenKind::RBracketPipe) {
            return Ok((acc, at + 1));
        }
        let (item, after) = parse_expr(toks, at + 1)?;
        let ghost before = ast::exprs_view(acc@);
        let ghost iv = item@;
        acc.push(item);
        assert(ast::exprs_view(acc@) =~= before.push(iv));
        at = after;
    }
    Ok((acc, at))
}

#[verifier::loop_isolation(false)]
fn parse_list_items(toks: &Vec<Token>, p: usize) -> (r: Result<(Vec<Spanned<Expr>>, usize), ParseError>)
    requires
        lexer::well_ended(toks@),
        p < toks.len(),
    ensures
        match r {
            Ok((v, q)) => {
                &&& list_items_at(lexer::tokens_view(toks@), p as nat) == Ok::<
                    (Seq<Spanned<ExprV>>, nat),
                    ParseErrorV,
                >((ast::exprs_view(v@), q as nat))
                &&& p <= q < toks.len()
            },
            Err(e) => list_items_at(lexer::tokens_view(toks@), p as nat) == Err::<
                (Seq<Spanned<ExprV>>, nat),
                ParseErrorV,
            >(e@),
        },
    decreases toks.len() - p, 6nat,
{
    let ghost tv = lexer::tokens_view(toks@);
    let ghost all = list_items_at(tv, p as nat);
    if next_is(toks, p, &TokenKind::RBracket) {
        let none: Vec<Spanned<Expr>> = Vec::new();
        assert(ast::exprs_view(none@) =~= Seq::<Spanned<ExprV>>::empty());
        return Ok((none, p));
    }
    let (first, next) = parse_expr(toks, p)?;
    let mut acc: Vec<Spanned<Expr>> = Vec::new();
    let ghost fv = first@;
    acc.push(first);
    assert(ast::exprs_view(acc@) =~= seq![fv]);
    let mut at: usize = next;
    while next_is(toks, at, &TokenKind::Comma)
        invariant
            p < at < toks.len(),
            list_items_rest_at(tv, at as nat, ast::exprs_view(acc@)) == all,
        decreases toks.len() - at,
    {
        if next_is(toks, at + 1, &TokenKind::RBracket) {
            return Ok((acc, at + 1));
        }
        let (item, after) = parse_expr(toks, at + 1)?;
        let ghost before = ast::exprs_view(acc@);
        let ghost iv = item@;
        acc.push(item);
        assert(ast::exprs_view(acc@) =~= before.push(iv));
        at = after;
    }
    Ok((acc, at))
}

fn parse_array_expr(toks: &Vec<Token>, p: usize) -> (r: Result<(Spanned<Expr>, usize), ParseError>)
    requires
        lexer::well_ended(toks@),
        p < toks.len(),
    ensures
        match r {
            Ok((v, q)) => {
                &&& array_expr_at(lexer::tokens_view(toks@), p as nat) == Ok::<
                    (Spanned<ExprV>, nat),
                    ParseErrorV,
                >((v@, q as nat))
                &&& p < q < toks.len()
            },
            Err(e) => array_expr_at(lexer::tokens_view(toks@), p as nat) == Err::<
                (Spanned<ExprV>, nat),
                ParseErrorV,
            >(e@),
        },
    decreases toks.len() - p, 0nat,
{
    let start = toks[p].span.start;
    let p = expect(toks, p, &TokenKind::LBracketPipe)?;
    let (elems, p) = parse_array_items(toks, p)?;
    let end = toks[p].span.end;
    let p = expect(toks, p, &TokenKind::RBracketPipe)?;
    Ok((Spanned { node: Expr::Array(elems), span: Span { start, end } }, p))
}

fn parse_list_expr(toks: &Vec<Token>, p: usize) -> (r: Result<(Spanned<Expr>, usize), ParseError>)
    requires
        lexer::well_ended(toks@),
        p < toks.len(),
    ensures
        match r {
            Ok((v, q)) => {
                &&& list_expr_at(lexer::tokens_view(toks@), p as nat) == Ok::<
                    (Spanned<ExprV>, nat),
                    ParseErrorV,
                >((v@, q as nat))
                &&& p < q < toks.len()
            },
            Err(e) => list_expr_at(lexer::tokens_view(toks@), p as nat) == Err::<
                (Spanned<ExprV>, nat),
                ParseErrorV,
            >(e@),
        },
    decreases toks.len() - p, 0nat,
{
    let start = toks[p].span.start;
    let p = expect(toks, p, &TokenKind::LBracket)?;
    let (elems, p) = parse_list_items(toks, p)?;
    let end = toks[p].span.end;
    let p = expect(toks, p, &TokenKind::RBracket)?;
    Ok((Spanned { node: Expr::List(elems), span: Span { start, end } }, p))
}

fn parse_linear_list(toks: &Vec<Token>, p: usize) -> (r: Result<(Spanned<Expr>, usize), ParseError>)
    requires
        lexer::well_ended(toks@),
        p < toks.len(),
    ensures
        match r {
            Ok((v, q)) => {
                &&& linear_list_at(lexer::tokens_view(toks@), p as nat) == Ok::<
                    (Spanned<ExprV>, nat),
                    ParseErrorV,
                >((v@, q as nat))
                &&& p < q < toks.len()
            },
            Err(e) => linear_list_at(lexer::tokens_view(toks@), p as nat) == Err::<
                (Spanned<ExprV>, nat),
                ParseErrorV,
            >(e@),
        },
    decreases toks.len() - p, 0nat,
{
    let start = toks[p].span.start;
    let p = expect(toks, p, &TokenKind::Percent)?;
    let p = expect(toks, p, &TokenKind::LBracket)?;
    let (elems, p) = parse_list_items(toks, p)?;
    let end = toks[p].span.end;
    let p = expect(toks, p, &TokenKind::RBracket)?;
    Ok((Spanned { node: Expr::List(elems), span: Span { start, end } }, p))
}

fn parse_call_arg(toks: &Vec<Token>, p: usize) -> (r: Result<((String, Spanned<Expr>), usize), ParseError>)
    requires
        lexer::well_ended(toks@),
        p < toks.len(),
    ensures
        match r {
            Ok((v, q)) => {
                &&& labelled_expr_at(lexer::tokens_view(toks@), p as nat) == Ok::<
                    ((Text, Spanned<ExprV>), nat),
                    ParseErrorV,
                >(((v.0@, v.1@), q as nat))
                &&& p < q < toks.len()
            },
            Err(e) => labelled_expr_at(lexer::tokens_view(toks@), p as nat) == Err::<
                ((Text, Spanned<ExprV>), nat),
                ParseErrorV,
            >(e@),
        },
    decreases toks.len() - p, 0nat,
{
    let (name, p) = expect_ident(toks, p)?;
    let p = expect(toks, p, &TokenKind::Colon)?;
    let (val, p) = parse_expr(toks, p)?;
    Ok(((name, val), p))
}

#[verifier::loop_isolation(false)]
fn parse_record_fields(toks: &Vec<Token>, p: usize) -> (r: Result<(Vec<(String, Spanned<Expr>)>, usize), ParseError>)
    requires
        lexer::well_ended(toks@),
        p < toks.len(),
    ensures
        match r {
            Ok((v, q)) => {
                &&& record_fields_at(lexer::tokens_view(toks@), p as nat) == Ok::<
                    (Seq<(Text, Spanned<ExprV>)>, nat),
                    ParseErrorV,
                >((ast::labelled_view(v@), q as nat))
                &&& p <= q < toks.len()
            },
            Err(e) => record_fields_at(lexer::tokens_view(toks@), p as nat) == Err::<
                (Seq<(Text, Spanned<ExprV>)>, nat),
                ParseErrorV,
            >(e@),
        },
    decreases toks.len() - p, 1nat,
{
    let ghost tv = lexer::tokens_view(toks@);
    let ghost all = record_fields_at(tv, p as nat);
    if next_is(toks, p, &TokenKind::RBrace) {
        let none: Vec<(String, Spanned<Expr>)> = Vec::new();
        assert(ast::labelled_view(none@) =~= Seq::<(Text, Spanned<ExprV>)>::empty());
        return Ok((none, p));
    }
    let (first, next) = parse_call_arg(toks, p)?;
    let mut acc: Vec<(String, Spanned<Expr>)> = Vec::new();
    let ghost fv = (first.0@, first.1@);
    acc.push(first);
    assert(ast::labelled_view(acc@) =~= seq![fv]);
    let mut at: usize = next;
    while next_is(toks, at, &TokenKind::Comma)
        invariant
            p < at < toks.len(),
            record_fields_rest_at(tv, at as nat, ast::labelled_view(acc@)) == all,
        decreases toks.len() - at,
    {
        if next_is(toks, at + 1, &TokenKind::RBrace) {
            return Ok((acc, at + 1));
        }
        let (item, after) = parse_call_arg(toks, at + 1)?;
        let ghost before = ast::labelled_view(acc@);
        let ghost iv = (item.0@, item.1@);
        acc.push(item);
        assert(ast::labelled_view(acc@) =~= before.push(iv));
        at = after;
    }
    Ok((acc, at))
}

fn parse_record_expr(toks: &Vec<Token>, p: usize) -> (r: Result<(Spanned<Expr>, usize), ParseError>)
    requires
        lexer::well_ended(toks@),
        p < toks.len(),
    ensures
        match r {
            Ok((v, q)) => {
                &&& record_expr_at(lexer::tokens_view(toks@), p as nat) == Ok::<
                    (Spanned<ExprV>, nat),
                    ParseErrorV,
                >((v@, q as nat))
                &&& p < q < toks.len()
            },
            Err(e) => record_expr_at(lexer::tokens_view(toks@), p as nat) == Err::<
                (Spanned<ExprV>, nat),
                ParseErrorV,
            >(e@),
        },
    decreases toks.len() - p, 0nat,
{
    let start = toks[p].span.start;
    let p = expect(toks, p, &TokenKind::LBrace)?;
    let (fields, p) = parse_record_fields(toks, p)?;
    let end = toks[p].span.end;
    let p = expect(toks, p, &TokenKind::RBrace)?;
    Ok((Spanned { node: Expr::Record(fields), span: Span { start, end } }, p))
}

fn parse_if(toks: &Vec<Token>, p: usize) -> (r: Result<(Spanned<Expr>, usize), ParseError>)
    requires
        lexer::well_ended(toks@),
        p < toks.len(),
    ensures
        match r {
            Ok((v, q)) => {
                &&& if_expr_at(lexer::tokens_view(toks@), p as nat) == Ok::<
                    (Spanned<ExprV>, nat),
                    ParseErrorV,
                >((v@, q as nat))
                &&& p < q < toks.len()
            },
            Err(e) => if_expr_at(lexer::tokens_view(toks@), p as nat) == Err::<
                (Spanned<ExprV>, nat),
                ParseErrorV,
            >(e@),
        },
    decreases toks.len() - p, 0nat,
{
    let start = toks[p].span.start;
    let p = expect(toks, p, &TokenKind::If)?;
    let (cond, p) = parse_expr(toks, p)?;
    let p = expect_contextual(toks, p, "then")?;
    let (yes, p) = parse_stmt_list(toks, p)?;
    if next_is(toks, p, &TokenKind::Else) {
        let p: usize = p + 1;
        let (no, p) = parse_stmt_list(toks, p)?;
        let p = expect(toks, p, &TokenKind::End)?;
        let end = toks[p - 1].span.end;
        Ok((make_bool_match(cond, yes, no, Span { start, end }), p))
    } else {
        let p = expect(toks, p, &TokenKind::End)?;
        let end = toks[p - 1].span.end;
        Ok((Spanned { node: Expr::If { cond: Box::new(cond), then_branch: yes, else_branch: None }, span: Span { start, end } }, p))
    }
}

fn parse_case(toks: &Vec<Token>, p: usize) -> (r: Result<(MatchCase, usize), ParseError>)
    requires
        lexer::well_ended(toks@),
        p < toks.len(),
    ensures
        match r {
            Ok((v, q)) => {
                &&& case_at(lexer::tokens_view(toks@), p as nat) == Ok::<
                    (MatchCaseV, nat),
                    ParseErrorV,
                >((v@, q as nat))
                &&& p < q < toks.len()
            },
            Err(e) => case_at(lexer::tokens_view(toks@), p as nat) == Err::<
                (MatchCaseV, nat),
                ParseErrorV,
            >(e@),
        },
    decreases toks.len() - p, 0nat,
{
    let p = expect(toks, p, &TokenKind::Case)?;
    let (pattern, p) = parse_pattern(toks, p)?;
    let p = expect(toks, p, &TokenKind::Arrow)?;
    let (body, p) = parse_stmt_list(toks, p)?;
    Ok((MatchCase { pattern, body }, p))
}

#[verifier::loop_isolation(false)]
fn parse_cases(toks: &Vec<Token>, p: usize) -> (r: Result<(Vec<MatchCase>, usize), ParseError>)
    requires
        lexer::well_ended(toks@),
        p < toks.len(),
    ensures
        match r {
            Ok((v, q)) => {
                &&& cases_at(lexer::tokens_view(toks@), p as nat, Seq::empty()) == Ok::<
                    (Seq<MatchCaseV>, nat),
                    ParseErrorV,
                >((ast::cases_view(v@), q as nat))
                &&& p <= q < toks.len()
            },
            Err(e) => cases_at(lexer::tokens_view(toks@), p as nat, Seq::empty()) == Err::<
                (Seq<MatchCaseV>, nat),
                ParseErrorV,
            >(e@),
        },
    decreases toks.len() - p, 1nat,
{
    let ghost tv = lexer::tokens_view(toks@);
    let ghost all = cases_at(tv, p as nat, Seq::empty());
    let mut acc: Vec<MatchCase> = Vec::new();
    assert(ast::cases_view(acc@) =~= Seq::<MatchCaseV>::empty());
    let mut at: usize = p;
    while next_is(toks, at, &TokenKind::Case)
        invariant
            p <= at < toks.len(),
            cases_at(tv, at as nat, ast::cases_view(acc@)) == all,
        decreases toks.len() - at,
    {
        let (item, after) = parse_case(toks, at)?;
        let ghost before = ast::cases_view(acc@);
        let ghost iv = item@;
        acc.push(item);
        assert(ast::cases_view(acc@) =~= before.push(iv));
        at = after;
    }
    Ok((acc, at))
}

#[verifier::spinoff_prover]
#[verifier::rlimit(40)]
fn parse_match(toks: &Vec<Token>, p: usize, strict: bool) -> (r: Result<(Spanned<Expr>, usize), ParseError>)
    requires
        lexer::well_ended(toks@),
        p < toks.len(),
    ensures
        match r {
            Ok((v, q)) => {
                &&& match_expr_at(lexer::tokens_view(toks@), p as nat, strict) == Ok::<
                    (Spanned<ExprV>, nat),
                    ParseErrorV,
                >((v@, q as nat))
                &&& p < q < toks.len()
            },
            Err(e) => match_expr_at(lexer::tokens_view(toks@), p as nat, strict) == Err::<
                (Spanned<ExprV>, nat),
                ParseErrorV,
            >(e@),
        },
    decreases toks.len() - p, 0nat,
{
    let start = toks[p].span.start;
    let p = expect(toks, p, &TokenKind::Match)?;
    let (target, p) = parse_expr(toks, p)?;
    let p: usize = if strict {
        expect(toks, p, &TokenKind::Do)?
    } else if next_is(toks, p, &TokenKind::Do) {
        p + 1
    } else {
        p
    };
    let (cases, p) = parse_cases(toks, p)?;
    let p = expect(toks, p, &TokenKind::End)?;
    let end = toks[p - 1].span.end;
    let node = Expr::Match { target: Box::new(target), cases };
    Ok((Spanned { node, span: Span { start, end } }, p))
}

fn parse_sigil_expr(toks: &Vec<Token>, p: usize) -> (r: Result<(Spanned<Expr>, usize), ParseError>)
    requires
        lexer::well_ended(toks@),
        p < toks.len(),
    ensures
        match r {
            Ok((v, q)) => {
                &&& sigil_expr_at(lexer::tokens_view(toks@), p as nat) == Ok::<
                    (Spanned<ExprV>, nat),
                    ParseErrorV,
                >((v@, q as nat))
                &&& p < q < toks.len()
            },
            Err(e) => sigil_expr_at(lexer::tokens_view(toks@), p as nat) == Err::<
                (Spanned<ExprV>, nat),
                ParseErrorV,
            >(e@),
        },
    decreases toks.len() - p, 1nat,
{
    let start = toks[p].span.start;
    if next_is(toks, p, &TokenKind::Percent) && p + 1 < toks.len() && next_is(toks, p + 1, &TokenKind::LBracket) {
        parse_linear_list(toks, p)
    } else {
        let (sigil, p) = parse_sigil(toks, p);
        let (name, p) = expect_ident(toks, p)?;
        let end = toks[p - 1].span.end;
        Ok((Spanned { node: Expr::Variable(name, sigil), span: Span { start, end } }, p))
    }
}

fn parse_ctor_arg(toks: &Vec<Token>, p: usize) -> (r: Result<((Option<String>, Spanned<Expr>), usize), ParseError>)
    requires
        lexer::well_ended(toks@),
        p < toks.len(),
    ensures
        match r {
            Ok((v, q)) => {
                &&& ctor_arg_at(lexer::tokens_view(toks@), p as nat) == Ok::<
                    ((Option<Text>, Spanned<ExprV>), nat),
                    ParseErrorV,
                >(((types::opt_text(v.0), v.1@), q as nat))
                &&& p < q < toks.len()
            },
            Err(e) => ctor_arg_at(lexer::tokens_view(toks@), p as nat) == Err::<
                ((Option<Text>, Spanned<ExprV>), nat),
                ParseErrorV,
            >(e@),
        },
    decreases toks.len() - p, 6nat,
{
    match find_label(toks, p) {
        Some(name) => {
            let (v, r) = parse_expr(toks, p + 2)?;
            Ok(((Some(name), v), r))
        },
        None => {
            let (v, r) = parse_expr(toks, p)?;
            Ok(((None, v), r))
        },
    }
}

#[verifier::loop_isolation(false)]
fn parse_path_rest(toks: &Vec<Token>, p: usize, first: &str) -> (r: Result<((String, bool), usize), ParseError>)
    requires
        lexer::well_ended(toks@),
        p < toks.len(),
    ensures
        match r {
            Ok((v, q)) => {
                &&& path_rest_at(lexer::tokens_view(toks@), p as nat, first@, 1) matches Ok((m, mq))
                &&& m.0 == v.0@
                &&& v.1 == (m.1 == 1)
                &&& m.1 >= 1
                &&& v.1 ==> v.0@ == first@ && q == p
                &&& mq == q
                &&& p <= q < toks.len()
            },
            Err(e) => path_rest_at(lexer::tokens_view(toks@), p as nat, first@, 1) == Err::<
                ((Text, nat), nat),
                ParseErrorV,
            >(e@),
        },
{
    let ghost tv = lexer::tokens_view(toks@);
    let ghost all = path_rest_at(tv, p as nat, first@, 1);
    let mut path = owned(first);
    let mut single = true;
    let ghost mut n: nat = 1;
    let mut at: usize = p;
    while next_is(toks, at, &TokenKind::Dot) && next_is_name(toks, at + 1)
        invariant
            p <= at < toks.len(),
            n >= 1,
            single == (n == 1),
            single ==> path@ == first@ && at == p,
            path_rest_at(tv, at as nat, path@, n) == all,
        decreases toks.len() - at,
    {
        let (next, q) = expect_ident(toks, at + 1)?;
        path = cat3(path.as_str(), ".", next.as_str());
        single = false;
        proof {
            n = n + 1;
        }
        at = q;
    }
    Ok(((path, single), at))
}

#[verifier::spinoff_prover]
#[verifier::rlimit(40)]
fn parse_name_expr(toks: &Vec<Token>, p: usize) -> (r: Result<(Spanned<Expr>, usize), ParseError>)
    requires
        lexer::well_ended(toks@),
        p < toks.len(),
    ensures
        match r {
            Ok((v, q)) => {
                &&& name_expr_at(lexer::tokens_view(toks@), p as nat) == Ok::<
                    (Spanned<ExprV>, nat),
                    ParseErrorV,
                >((v@, q as nat))
                &&& p < q < toks.len()
            },
            Err(e) => name_expr_at(lexer::tokens_view(toks@), p as nat) == Err::<
                (Spanned<ExprV>, nat),
                ParseErrorV,
            >(e@),
        },
    decreases toks.len() - p, 0nat,
{
    let start = toks[p].span.start;
    let (first, q1) = expect_ident(toks, p)?;
    let ((path, single), q2) = parse_path_rest(toks, q1, first.as_str())?;
    let upper = is_uppercase_ident(first.as_str());
    if next_is(toks, q2, &TokenKind::LParen) {
        if !single || !upper {
            let (args, r2) = parse_call_items(toks, q2 + 1)?;
            let q3 = expect(toks, r2, &TokenKind::RParen)?;
            let end = toks[q3 - 1].span.end;
            Ok(
                (
                    Spanned { node: Expr::Call { func: path, args }, span: Span { start, end } },
                    q3,
                ),
            )
        } else {
            let (args, r2) = parse_ctor_items(toks, q2 + 1)?;
            let q3 = expect(toks, r2, &TokenKind::RParen)?;
            let end = toks[q3 - 1].span.end;
            Ok(
                (
                    Spanned { node: Expr::Constructor(path, args), span: Span { start, end } },
                    q3,
                ),
            )
        }
    } else if upper && single {
        let none: Vec<(Option<String>, Spanned<Expr>)> = Vec::new();
        assert(ast::ctor_args_view(none@) =~= Seq::<(Option<Text>, Spanned<ExprV>)>::empty());
        let end = toks[q2 - 1].span.end;
        Ok((Spanned { node: Expr::Constructor(path, none), span: Span { start, end } }, q2))
    } else {
        let end = toks[q1 - 1].span.end;
        Ok(
            (
                Spanned {
                    node: Expr::Variable(first, Sigil::Immutable),
                    span: Span { start, end },
                },
                q1,
            ),
        )
    }
}

#[verifier::loop_isolation(false)]
fn parse_call_items(toks: &Vec<Token>, p: usize) -> (r: Result<(Vec<(String, Spanned<Expr>)>, usize), ParseError>)
    requires
        lexer::well_ended(toks@),
        p < toks.len(),
    ensures
        match r {
            Ok((v, q)) => {
                &&& call_items_at(lexer::tokens_view(toks@), p as nat) == Ok::<
                    (Seq<(Text, Spanned<ExprV>)>, nat),
                    ParseErrorV,
                >((ast::labelled_view(v@), q as nat))
                &&& p <= q < toks.len()
            },
            Err(e) => call_items_at(lexer::tokens_view(toks@), p as nat) == Err::<
                (Seq<(Text, Spanned<ExprV>)>, nat),
                ParseErrorV,
            >(e@),
        },
    decreases toks.len() - p, 1nat,
{
    let ghost tv = lexer::tokens_view(toks@);
    let ghost all = call_items_at(tv, p as nat);
    if next_is(toks, p, &TokenKind::RParen) {
        let none: Vec<(String, Spanned<Expr>)> = Vec::new();
        assert(ast::labelled_view(none@) =~= Seq::<(Text, Spanned<ExprV>)>::empty());
        return Ok((none, p));
    }
    let (first, next) = parse_call_arg(toks, p)?;
    let mut acc: Vec<(String, Spanned<Expr>)> = Vec::new();
    let ghost fv = (first.0@, first.1@);
    acc.push(first);
    assert(ast::labelled_view(acc@) =~= seq![fv]);
    let mut at: usize = next;
    while next_is(toks, at, &TokenKind::Comma)
        invariant
            p < at < toks.len(),
            call_items_rest_at(tv, at as nat, ast::labelled_view(acc@)) == all,
        decreases toks.len() - at,
    {
        if next_is(toks, at + 1, &TokenKind::RParen) {
            return Ok((acc, at + 1));
        }
        let (item, after) = parse_call_arg(toks, at + 1)?;
        let ghost before = ast::labelled_view(acc@);
        let ghost iv = (item.0@, item.1@);
        acc.push(item);
        assert(ast::labelled_view(acc@) =~= before.push(iv));
        at = after;
    }
    Ok((acc, at))
}

#[verifier::loop_isolation(false)]
fn parse_ctor_items(toks: &Vec<Token>, p: usize) -> (r: Result<(Vec<(Option<String>, Spanned<Expr>)>, usize), ParseError>)
    requires
        lexer::well_ended(toks@),
        p < toks.len(),
    ensures
        match r {
            Ok((v, q)) => {
                &&& ctor_items_at(lexer::tokens_view(toks@), p as nat) == Ok::<
                    (Seq<(Option<Text>, Spanned<ExprV>)>, nat),
                    ParseErrorV,
                >((ast::ctor_args_view(v@), q as nat))
                &&& p <= q < toks.len()
            },
            Err(e) => ctor_items_at(lexer::tokens_view(toks@), p as nat) == Err::<
                (Seq<(Option<Text>, Spanned<ExprV>)>, nat),
                ParseErrorV,
            >(e@),
        },
    decreases toks.len() - p, 7nat,
{
    let ghost tv = lexer::tokens_view(toks@);
    let ghost all = ctor_items_at(tv, p as nat);
    if next_is(toks, p, &TokenKind::RParen) {
        let none: Vec<(Option<String>, Spanned<Expr>)> = Vec::new();
        assert(ast::ctor_args_view(none@) =~= Seq::<(Option<Text>, Spanned<ExprV>)>::empty());
        return Ok((none, p));
    }
    let (first, next) = parse_ctor_arg(toks, p)?;
    let mut acc: Vec<(Option<String>, Spanned<Expr>)> = Vec::new();
    let ghost fv = (types::opt_text(first.0), first.1@);
    acc.push(first);
    assert(ast::ctor_args_view(acc@) =~= seq![fv]);
    let mut at: usize = next;
    while next_is(toks, at, &TokenKind::Comma)
        invariant
            p < at < toks.len(),
            ctor_items_rest_at(tv, at as nat, ast::ctor_args_view(acc@)) == all,
        decreases toks.len() - at,
    {
        if next_is(toks, at + 1, &TokenKind::RParen) {
            return Ok((acc, at + 1));
        }
        let (item, after) = parse_ctor_arg(toks, at + 1)?;
        let ghost before = ast::ctor_args_view(acc@);
        let ghost iv = (types::opt_text(item.0), item.1@);
        acc.push(item);
        assert(ast::ctor_args_view(acc@) =~= before.push(iv));
        at = after;
    }
    Ok((acc, at))
}

#[verifier::spinoff_prover]
#[verifier::rlimit(40)]
fn parse_lambda(toks: &Vec<Token>, p: usize) -> (r: Result<(Spanned<Expr>, usize), ParseError>)
    requires
        lexer::well_ended(toks@),
        p < toks.len(),
    ensures
        match r {
            Ok((v, q)) => {
                &&& lambda_at(lexer::tokens_view(toks@), p as nat) == Ok::<
                    (Spanned<ExprV>, nat),
                    ParseErrorV,
                >((v@, q as nat))
                &&& p < q < toks.len()
            },
            Err(e) => lambda_at(lexer::tokens_view(toks@), p as nat) == Err::<
                (Spanned<ExprV>, nat),
                ParseErrorV,
            >(e@),
        },
    decreases toks.len() - p, 0nat,
{
    let start = toks[p].span.start;
    let p = expect(toks, p, &TokenKind::Fn)?;
    let (type_params, p) = parse_type_params(toks, p)?;
    let ((params, ret_type, reqs, throws), p) = parse_signature(toks, p)?;
    let p = expect(toks, p, &TokenKind::Do)?;
    let (body, p) = parse_stmt_list(toks, p)?;
    assert(ast::stmts_view(body@).len() == body.len());
    if body.len() == 0 {
        Err(ParseError { message: owned("Function body cannot be empty"), span: toks[p].span })
    } else {
        let p = expect(toks, p, &TokenKind::End)?;
        let end = toks[p - 1].span.end;
        Ok((Spanned { node: Expr::Lambda { type_params, params, ret_type, requires: reqs, throws, body }, span: Span { start, end } }, p))
    }
}

fn parse_handler_function(toks: &Vec<Token>, p: usize) -> (r: Result<(Function, usize), ParseError>)
    requires
        lexer::well_ended(toks@),
        p < toks.len(),
    ensures
        match r {
            Ok((v, q)) => {
                &&& handler_function_at(lexer::tokens_view(toks@), p as nat) == Ok::<
                    (FunctionV, nat),
                    ParseErrorV,
                >((v@, q as nat))
                &&& p < q < toks.len()
            },
            Err(e) => handler_function_at(lexer::tokens_view(toks@), p as nat) == Err::<
                (FunctionV, nat),
                ParseErrorV,
            >(e@),
        },
    decreases toks.len() - p, 0nat,
{
    let p = expect(toks, p, &TokenKind::Fn)?;
    let (name, p) = expect_ident(toks, p)?;
    let (type_params, p) = parse_type_params(toks, p)?;
    let ((params, ret_type, reqs, throws), p) = parse_signature(toks, p)?;
    let p = expect(toks, p, &TokenKind::Do)?;
    let (body, p) = parse_stmt_list(toks, p)?;
    assert(ast::stmts_view(body@).len() == body.len());
    if body.len() == 0 {
        Err(ParseError { message: owned("Function body cannot be empty"), span: toks[p].span })
    } else {
        let p = expect(toks, p, &TokenKind::End)?;
        Ok((Function { name, is_public: false, type_params, params, ret_type, requires: reqs, throws, body }, p))
    }
}

#[verifier::loop_isolation(false)]
fn parse_handler_functions(toks: &Vec<Token>, p: usize) -> (r: Result<(Vec<Function>, usize), ParseError>)
    requires
        lexer::well_ended(toks@),
        p < toks.len(),
    ensures
        match r {
            Ok((v, q)) => {
                &&& handler_functions_at(lexer::tokens_view(toks@), p as nat, Seq::empty()) == Ok::<
                    (Seq<FunctionV>, nat),
                    ParseErrorV,
                >((ast::functions_view(v@), q as nat))
                &&& p <= q < toks.len()
            },
            Err(e) => handler_functions_at(lexer::tokens_view(toks@), p as nat, Seq::empty()) == Err::<
                (Seq<FunctionV>, nat),
                ParseErrorV,
            >(e@),
        },
    decreases toks.len() - p, 1nat,
{
    let ghost tv = lexer::tokens_view(toks@);
    let ghost all = handler_functions_at(tv, p as nat, Seq::empty());
    let mut acc: Vec<Function> = Vec::new();
    assert(ast::functions_view(acc@) =~= Seq::<FunctionV>::empty());
    let mut at: usize = p;
    while next_is(toks, at, &TokenKind::Fn)
        invariant
            p <= at < toks.len(),
            handler_functions_at(tv, at as nat, ast::functions_view(acc@)) == all,
        decreases toks.len() - at,
    {
        let (item, after) = parse_handler_function(toks, at)?;
        let ghost before = ast::functions_view(acc@);
        let ghost iv = item@;
        acc.push(item);
        assert(ast::functions_view(acc@) =~= before.push(iv));
        at = after;
    }
    Ok((acc, at))
}

fn parse_handler_expr(toks: &Vec<Token>, p: usize) -> (r: Result<(Spanned<Expr>, usize), ParseError>)
    requires
        lexer::well_ended(toks@),
        p < toks.len(),
    ensures
        match r {
            Ok((v, q)) => {
                &&& handler_expr_at(lexer::tokens_view(toks@), p as nat) == Ok::<
                    (Spanned<ExprV>, nat),
                    ParseErrorV,
                >((v@, q as nat))
                &&& p < q < toks.len()
            },
            Err(e) => handler_expr_at(lexer::tokens_view(toks@), p as nat) == Err::<
                (Spanned<ExprV>, nat),
                ParseErrorV,
            >(e@),
        },
    decreases toks.len() - p, 0nat,
{
    let start = toks[p].span.start;
    let p = expect(toks, p, &TokenKind::Handler)?;
    let (coeffect_name, p) = expect_ident(toks, p)?;
    let (reqs, p) = parse_require_clause(toks, p)?;
    let p = expect(toks, p, &TokenKind::Do)?;
    let (functions, p) = parse_handler_functions(toks, p)?;
    let p = expect(toks, p, &TokenKind::End)?;
    let end = toks[p - 1].span.end;
    Ok((Spanned { node: Expr::Handler { coeffect_name, requires: reqs, functions }, span: Span { start, end } }, p))
}

fn at_stmts_end(toks: &Vec<Token>, p: usize) -> (r: bool)
    requires
        lexer::well_ended(toks@),
        p < toks.len(),
    ensures
        r == ends_stmts(lexer::tokens_view(toks@), p as nat),
{
    next_is(toks, p, &TokenKind::End) || next_is(toks, p, &TokenKind::Else) || next_is(toks, p, &TokenKind::Catch) || next_is(toks, p, &TokenKind::Case) || next_is(toks, p, &TokenKind::Eof)
}

#[verifier::loop_isolation(false)]
fn parse_stmt_list(toks: &Vec<Token>, p: usize) -> (r: Result<(Vec<Spanned<Stmt>>, usize), ParseError>)
    requires
        lexer::well_ended(toks@),
        p < toks.len(),
    ensures
        match r {
            Ok((v, q)) => {
                &&& stmts_at(lexer::tokens_view(toks@), p as nat, Seq::empty()) == Ok::<
                    (Seq<Spanned<StmtV>>, nat),
                    ParseErrorV,
                >((ast::stmts_view(v@), q as nat))
                &&& p <= q < toks.len()
            },
            Err(e) => stmts_at(lexer::tokens_view(toks@), p as nat, Seq::empty()) == Err::<
                (Seq<Spanned<StmtV>>, nat),
                ParseErrorV,
            >(e@),
        },
    decreases toks.len() - p, 8nat,
{
    let ghost tv = lexer::tokens_view(toks@);
    let ghost all = stmts_at(tv, p as nat, Seq::empty());
    let mut acc: Vec<Spanned<Stmt>> = Vec::new();
    assert(ast::stmts_view(acc@) =~= Seq::<Spanned<StmtV>>::empty());
    let mut at: usize = p;
    while !at_stmts_end(toks, at)
        invariant
            p <= at < toks.len(),
            stmts_at(tv, at as nat, ast::stmts_view(acc@)) == all,
        decreases toks.len() - at,
    {
        let (item, after) = parse_stmt(toks, at)?;
        let ghost before = ast::stmts_view(acc@);
        let ghost iv = item@;
        acc.push(item);
        assert(ast::stmts_view(acc@) =~= before.push(iv));
        at = after;
    }
    Ok((acc, at))
}

fn expr_to_stmt(e: Spanned<Expr>) -> (r: Spanned<Stmt>)
    ensures
        r@ == (Spanned { node: StmtV::Expr(e@), span: e.span }),
{
    let span = e.span;
    Spanned { node: Stmt::Expr(e), span }
}

/// Reads a statement.
pub fn parse_stmt(toks: &Vec<Token>, p: usize) -> (r: Result<(Spanned<Stmt>, usize), ParseError>)
    requires
        lexer::well_ended(toks@),
        p < toks.len(),
    ensures
        match r {
            Ok((v, q)) => {
                &&& stmt_at(lexer::tokens_view(toks@), p as nat) == Ok::<
                    (Spanned<StmtV>, nat),
                    ParseErrorV,
                >((v@, q as nat))
                &&& p < q < toks.len()
            },
            Err(e) => stmt_at(lexer::tokens_view(toks@), p as nat) == Err::<
                (Spanned<StmtV>, nat),
                ParseErrorV,
            >(e@),
        },
    decreases toks.len() - p, 7nat,
{
    if next_is(toks, p, &TokenKind::Let) {
        parse_let(toks, p)
    } else if next_is(toks, p, &TokenKind::Return) {
        parse_return(toks, p)
    } else if next_is(toks, p, &TokenKind::If) {
        let (e, q) = parse_if(toks, p)?;
        Ok((expr_to_stmt(e), q))
    } else if next_is(toks, p, &TokenKind::Match) {
        let (e, q) = parse_match(toks, p, true)?;
        Ok((expr_to_stmt(e), q))
    } else if next_is(toks, p, &TokenKind::While) {
        let (e, q) = parse_while(toks, p)?;
        Ok((expr_to_stmt(e), q))
    } else if next_is(toks, p, &TokenKind::For) {
        let (e, q) = parse_for(toks, p)?;
        Ok((expr_to_stmt(e), q))
    } else if next_is(toks, p, &TokenKind::Try) {
        parse_try_stmt(toks, p)
    } else if next_is(toks, p, &TokenKind::Conc) {
        parse_conc_block(toks, p)
    } else if next_is(toks, p, &TokenKind::Inject) {
        parse_inject_stmt(toks, p)
    } else {
        parse_expr_stmt(toks, p)
    }
}

fn parse_let(toks: &Vec<Token>, p: usize) -> (r: Result<(Spanned<Stmt>, usize), ParseError>)
    requires
        lexer::well_ended(toks@),
        p < toks.len(),
    ensures
        match r {
            Ok((v, q)) => {
                &&& let_at(lexer::tokens_view(toks@), p as nat) == Ok::<
                    (Spanned<StmtV>, nat),
                    ParseErrorV,
                >((v@, q as nat))
                &&& p < q < toks.len()
            },
            Err(e) => let_at(lexer::tokens_view(toks@), p as nat) == Err::<
                (Spanned<StmtV>, nat),
                ParseErrorV,
            >(e@),
        },
    decreases toks.len() - p, 1nat,
{
    if next_is(toks, p, &TokenKind::Let) && (next_is(toks, p + 1, &TokenKind::LBrace) || (at_upper(toks, p + 1) && next_is(toks, p + 2, &TokenKind::LParen))) {
        parse_let_pattern(toks, p)
    } else {
        parse_let_name(toks, p)
    }
}

fn parse_let_pattern(toks: &Vec<Token>, p: usize) -> (r: Result<(Spanned<Stmt>, usize), ParseError>)
    requires
        lexer::well_ended(toks@),
        p < toks.len(),
    ensures
        match r {
            Ok((v, q)) => {
                &&& let_pattern_at(lexer::tokens_view(toks@), p as nat) == Ok::<
                    (Spanned<StmtV>, nat),
                    ParseErrorV,
                >((v@, q as nat))
                &&& p < q < toks.len()
            },
            Err(e) => let_pattern_at(lexer::tokens_view(toks@), p as nat) == Err::<
                (Spanned<StmtV>, nat),
                ParseErrorV,
            >(e@),
        },
    decreases toks.len() - p, 0nat,
{
    let start = toks[p].span.start;
    let p = expect(toks, p, &TokenKind::Let)?;
    let (pattern, p) = parse_pattern(toks, p)?;
    let p = expect(toks, p, &TokenKind::Eq)?;
    let (value, p) = parse_expr(toks, p)?;
    let end = value.span.end;
    Ok((Spanned { node: Stmt::LetPattern { pattern, value }, span: Span { start, end } }, p))
}

fn parse_let_type(toks: &Vec<Token>, p: usize) -> (r: Result<(Option<Type>, usize), ParseError>)
    requires
        lexer::well_ended(toks@),
        p < toks.len(),
    ensures
        match r {
            Ok((v, q)) => {
                &&& let_type_at(lexer::tokens_view(toks@), p as nat) == Ok::<
                    (Option<TypeV>, nat),
                    ParseErrorV,
                >((ast::opt_type(v), q as nat))
                &&& p <= q < toks.len()
            },
            Err(e) => let_type_at(lexer::tokens_view(toks@), p as nat) == Err::<
                (Option<TypeV>, nat),
                ParseErrorV,
            >(e@),
        },
{
    if next_is(toks, p, &TokenKind::Colon) {
        let (typ, q) = parse_type(toks, p + 1)?;
        Ok((Some(typ), q))
    } else {
        Ok((None, p))
    }
}

fn parse_let_name(toks: &Vec<Token>, p: usize) -> (r: Result<(Spanned<Stmt>, usize), ParseError>)
    requires
        lexer::well_ended(toks@),
        p < toks.len(),
    ensures
        match r {
            Ok((v, q)) => {
                &&& let_name_at(lexer::tokens_view(toks@), p as nat) == Ok::<
                    (Spanned<StmtV>, nat),
                    ParseErrorV,
                >((v@, q as nat))
                &&& p < q < toks.len()
            },
            Err(e) => let_name_at(lexer::tokens_view(toks@), p as nat) == Err::<
                (Spanned<StmtV>, nat),
                ParseErrorV,
            >(e@),
        },
    decreases toks.len() - p, 0nat,
{
    let start = toks[p].span.start;
    let p = expect(toks, p, &TokenKind::Let)?;
    let (sigil, p) = parse_sigil(toks, p);
    let (name, p) = expect_ident(toks, p)?;
    let (typ, p) = parse_let_type(toks, p)?;
    let p = expect(toks, p, &TokenKind::Eq)?;
    let (value, p) = parse_expr(toks, p)?;
    let end = value.span.end;
    Ok((Spanned { node: Stmt::Let { name, sigil, typ, value }, span: Span { start, end } }, p))
}

fn parse_return(toks: &Vec<Token>, p: usize) -> (r: Result<(Spanned<Stmt>, usize), ParseError>)
    requires
        lexer::well_ended(toks@),
        p < toks.len(),
    ensures
        match r {
            Ok((v, q)) => {
                &&& return_at(lexer::tokens_view(toks@), p as nat) == Ok::<
                    (Spanned<StmtV>, nat),
                    ParseErrorV,
                >((v@, q as nat))
                &&& p < q < toks.len()
            },
            Err(e) => return_at(lexer::tokens_view(toks@), p as nat) == Err::<
                (Spanned<StmtV>, nat),
                ParseErrorV,
            >(e@),
        },
    decreases toks.len() - p, 0nat,
{
    let start = toks[p].span.start;
    let p = expect(toks, p, &TokenKind::Return)?;
    let (value, p) = parse_expr(toks, p)?;
    let end = value.span.end;
    Ok((Spanned { node: Stmt::Return(value), span: Span { start, end } }, p))
}

#[verifier::spinoff_prover]
#[verifier::rlimit(40)]
fn parse_expr_stmt(toks: &Vec<Token>, p: usize) -> (r: Result<(Spanned<Stmt>, usize), ParseError>)
    requires
        lexer::well_ended(toks@),
        p < toks.len(),
    ensures
        match r {
            Ok((v, q)) => {
                &&& expr_stmt_at(lexer::tokens_view(toks@), p as nat) == Ok::<
                    (Spanned<StmtV>, nat),
                    ParseErrorV,
                >((v@, q as nat))
                &&& p < q < toks.len()
            },
            Err(e) => expr_stmt_at(lexer::tokens_view(toks@), p as nat) == Err::<
                (Spanned<StmtV>, nat),
                ParseErrorV,
            >(e@),
        },
    decreases toks.len() - p, 6nat,
{
    let start = toks[p].span.start;
    let (target, p) = parse_expr(toks, p)?;
    if next_is(toks, p, &TokenKind::Assign) {
        let p: usize = p + 1;
        let (value, p) = parse_expr(toks, p)?;
        let end = value.span.end;
        Ok((Spanned { node: Stmt::Assign { target, value }, span: Span { start, end } }, p))
    } else {
        let end = target.span.end;
        Ok((Spanned { node: Stmt::Expr(target), span: Span { start, end } }, p))
    }
}

fn parse_while(toks: &Vec<Token>, p: usize) -> (r: Result<(Spanned<Expr>, usize), ParseError>)
    requires
        lexer::well_ended(toks@),
        p < toks.len(),
    ensures
        match r {
            Ok((v, q)) => {
                &&& while_at(lexer::tokens_view(toks@), p as nat) == Ok::<
                    (Spanned<ExprV>, nat),
                    ParseErrorV,
                >((v@, q as nat))
                &&& p < q < toks.len()
            },
            Err(e) => while_at(lexer::tokens_view(toks@), p as nat) == Err::<
                (Spanned<ExprV>, nat),
                ParseErrorV,
            >(e@),
        },
    decreases toks.len() - p, 0nat,
{
    let start = toks[p].span.start;
    let p = expect(toks, p, &TokenKind::While)?;
    let (cond, p) = parse_expr(toks, p)?;
    let p = expect(toks, p, &TokenKind::Do)?;
    let (body, p) = parse_stmt_list(toks, p)?;
    let p = expect(toks, p, &TokenKind::End)?;
    let end = toks[p - 1].span.end;
    Ok((Spanned { node: Expr::While { cond: Box::new(cond), body }, span: Span { start, end } }, p))
}

fn parse_for(toks: &Vec<Token>, p: usize) -> (r: Result<(Spanned<Expr>, usize), ParseError>)
    requires
        lexer::well_ended(toks@),
        p < toks.len(),
    ensures
        match r {
            Ok((v, q)) => {
                &&& for_at(lexer::tokens_view(toks@), p as nat) == Ok::<
                    (Spanned<ExprV>, nat),
                    ParseErrorV,
                >((v@, q as nat))
                &&& p < q < toks.len()
            },
            Err(e) => for_at(lexer::tokens_view(toks@), p as nat) == Err::<
                (Spanned<ExprV>, nat),
                ParseErrorV,
            >(e@),
        },
    decreases toks.len() - p, 0nat,
{
    let start = toks[p].span.start;
    let p = expect(toks, p, &TokenKind::For)?;
    let (var, p) = expect_ident(toks, p)?;
    let p = expect(toks, p, &TokenKind::Eq)?;
    let (first, p) = parse_expr(toks, p)?;
    let p = expect_contextual(toks, p, "to")?;
    let (end_expr, p) = parse_expr(toks, p)?;
    let p = expect(toks, p, &TokenKind::Do)?;
    let (body, p) = parse_stmt_list(toks, p)?;
    let p = expect(toks, p, &TokenKind::End)?;
    let end = toks[p - 1].span.end;
    Ok((Spanned { node: Expr::For { var, start: Box::new(first), end_expr: Box::new(end_expr), body }, span: Span { start, end } }, p))
}

fn parse_try_stmt(toks: &Vec<Token>, p: usize) -> (r: Result<(Spanned<Stmt>, usize), ParseError>)
    requires
        lexer::well_ended(toks@),
        p < toks.len(),
    ensures
        match r {
            Ok((v, q)) => {
                &&& try_at(lexer::tokens_view(toks@), p as nat) == Ok::<
                    (Spanned<StmtV>, nat),
                    ParseErrorV,
                >((v@, q as nat))
                &&& p < q < toks.len()
            },
            Err(e) => try_at(lexer::tokens_view(toks@), p as nat) == Err::<
                (Spanned<StmtV>, nat),
                ParseErrorV,
            >(e@),
        },
    decreases toks.len() - p, 0nat,
{
    let start = toks[p].span.start;
    let p = expect(toks, p, &TokenKind::Try)?;
    let (body, p) = parse_stmt_list(toks, p)?;
    let p = expect(toks, p, &TokenKind::Catch)?;
    let (catch_param, p) = expect_ident(toks, p)?;
    let p = expect(toks, p, &TokenKind::Arrow)?;
    let (catch_body, p) = parse_stmt_list(toks, p)?;
    let p = expect(toks, p, &TokenKind::End)?;
    let end = toks[p - 1].span.end;
    Ok((Spanned { node: Stmt::Try { body, catch_param, catch_body }, span: Span { start, end } }, p))
}

#[verifier::loop_isolation(false)]
fn parse_effect_names(toks: &Vec<Token>, p: usize) -> (r: Result<(Vec<String>, usize), ParseError>)
    requires
        lexer::well_ended(toks@),
        p < toks.len(),
    ensures
        match r {
            Ok((v, q)) => {
                &&& effect_names_at(lexer::tokens_view(toks@), p as nat) == Ok::<
                    (Seq<Text>, nat),
                    ParseErrorV,
                >((text::texts(v@), q as nat))
                &&& p <= q < toks.len()
            },
            Err(e) => effect_names_at(lexer::tokens_view(toks@), p as nat) == Err::<
                (Seq<Text>, nat),
                ParseErrorV,
            >(e@),
        },

{
    let ghost tv = lexer::tokens_view(toks@);
    let ghost all = effect_names_at(tv, p as nat);
    if next_is(toks, p, &TokenKind::RBrace) {
        let none: Vec<String> = Vec::new();
        assert(text::texts(none@) =~= Seq::<Text>::empty());
        return Ok((none, p));
    }
    let (first, next) = expect_ident(toks, p)?;
    let mut acc: Vec<String> = Vec::new();
    let ghost fv = first@;
    acc.push(first);
    assert(text::texts(acc@) =~= seq![fv]);
    let mut at: usize = next;
    while next_is(toks, at, &TokenKind::Comma)
        invariant
            p < at < toks.len(),
            effect_names_rest_at(tv, at as nat, text::texts(acc@)) == all,
        decreases toks.len() - at,
    {
        if next_is(toks, at + 1, &TokenKind::RBrace) {
            return Ok((acc, at + 1));
        }
        let (item, after) = expect_ident(toks, at + 1)?;
        let ghost before = text::texts(acc@);
        let ghost iv = item@;
        acc.push(item);
        assert(text::texts(acc@) =~= before.push(iv));
        at = after;
    }
    Ok((acc, at))
}

fn parse_task_throws(toks: &Vec<Token>, p: usize) -> (r: Result<(Type, usize), ParseError>)
    requires
        lexer::well_ended(toks@),
        p < toks.len(),
    ensures
        match r {
            Ok((v, q)) => {
                &&& task_throws_at(lexer::tokens_view(toks@), p as nat) == Ok::<
                    (TypeV, nat),
                    ParseErrorV,
                >((v@, q as nat))
                &&& p <= q < toks.len()
            },
            Err(e) => task_throws_at(lexer::tokens_view(toks@), p as nat) == Err::<
                (TypeV, nat),
                ParseErrorV,
            >(e@),
        },
{
    if next_is(toks, p, &TokenKind::Throws) {
        let p = expect(toks, p + 1, &TokenKind::LBrace)?;
        let (names, p) = parse_effect_names(toks, p)?;
        let p = expect(toks, p, &TokenKind::RBrace)?;
        Ok((make_effects_row(names), p))
    } else {
        Ok((make_empty_row(), p))
    }
}

fn parse_task(toks: &Vec<Token>, p: usize) -> (r: Result<(Function, usize), ParseError>)
    requires
        lexer::well_ended(toks@),
        p < toks.len(),
    ensures
        match r {
            Ok((v, q)) => {
                &&& task_at(lexer::tokens_view(toks@), p as nat) == Ok::<
                    (FunctionV, nat),
                    ParseErrorV,
                >((v@, q as nat))
                &&& p < q < toks.len()
            },
            Err(e) => task_at(lexer::tokens_view(toks@), p as nat) == Err::<
                (FunctionV, nat),
                ParseErrorV,
            >(e@),
        },
    decreases toks.len() - p, 0nat,
{
    let p = expect(toks, p, &TokenKind::Task)?;
    let (name, p) = expect_ident(toks, p)?;
    let (throws, p) = parse_task_throws(toks, p)?;
    let p = expect(toks, p, &TokenKind::Do)?;
    let (body, p) = parse_stmt_list(toks, p)?;
    let p = expect(toks, p, &TokenKind::End)?;
    let none: Vec<String> = Vec::new();
    assert(text::texts(none@) =~= Seq::<Text>::empty());
    let no_params: Vec<Param> = Vec::new();
    assert(ast::params_view(no_params@) =~= Seq::<ParamV>::empty());
    Ok((Function { name, is_public: false, type_params: none, params: no_params, ret_type: Type::Unit, requires: make_empty_row(), throws, body }, p))
}

#[verifier::loop_isolation(false)]
fn parse_tasks(toks: &Vec<Token>, p: usize) -> (r: Result<(Vec<Function>, usize), ParseError>)
    requires
        lexer::well_ended(toks@),
        p < toks.len(),
    ensures
        match r {
            Ok((v, q)) => {
                &&& tasks_at(lexer::tokens_view(toks@), p as nat, Seq::empty()) == Ok::<
                    (Seq<FunctionV>, nat),
                    ParseErrorV,
                >((ast::functions_view(v@), q as nat))
                &&& p <= q < toks.len()
            },
            Err(e) => tasks_at(lexer::tokens_view(toks@), p as nat, Seq::empty()) == Err::<
                (Seq<FunctionV>, nat),
                ParseErrorV,
            >(e@),
        },
    decreases toks.len() - p, 1nat,
{
    let ghost tv = lexer::tokens_view(toks@);
    let ghost all = tasks_at(tv, p as nat, Seq::empty());
    let mut acc: Vec<Function> = Vec::new();
    assert(ast::functions_view(acc@) =~= Seq::<FunctionV>::empty());
    let mut at: usize = p;
    while next_is(toks, at, &TokenKind::Task)
        invariant
            p <= at < toks.len(),
            tasks_at(tv, at as nat, ast::functions_view(acc@)) == all,
        decreases toks.len() - at,
    {
        let (item, after) = parse_task(toks, at)?;
        let ghost before = ast::functions_view(acc@);
        let ghost iv = item@;
        acc.push(item);
        assert(ast::functions_view(acc@) =~= before.push(iv));
        at = after;
    }
    Ok((acc, at))
}

fn parse_conc_block(toks: &Vec<Token>, p: usize) -> (r: Result<(Spanned<Stmt>, usize), ParseError>)
    requires
        lexer::well_ended(toks@),
        p < toks.len(),
    ensures
        match r {
            Ok((v, q)) => {
                &&& conc_at(lexer::tokens_view(toks@), p as nat) == Ok::<
                    (Spanned<StmtV>, nat),
                    ParseErrorV,
                >((v@, q as nat))
                &&& p < q < toks.len()
            },
            Err(e) => conc_at(lexer::tokens_view(toks@), p as nat) == Err::<
                (Spanned<StmtV>, nat),
                ParseErrorV,
            >(e@),
        },
    decreases toks.len() - p, 0nat,
{
    let start = toks[p].span.start;
    let p = expect(toks, p, &TokenKind::Conc)?;
    let p = expect(toks, p, &TokenKind::Do)?;
    let (tasks, p) = parse_tasks(toks, p)?;
    let p = expect(toks, p, &TokenKind::End)?;
    let end = toks[p - 1].span.end;
    Ok((Spanned { node: Stmt::Conc(tasks), span: Span { start, end } }, p))
}

#[verifier::loop_isolation(false)]
fn parse_dotted_ident(toks: &Vec<Token>, p: usize) -> (r: Result<(String, usize), ParseError>)
    requires
        lexer::well_ended(toks@),
        p < toks.len(),
    ensures
        match r {
            Ok((v, q)) => {
                &&& dotted_ident_at(lexer::tokens_view(toks@), p as nat) == Ok::<
                    (Text, nat),
                    ParseErrorV,
                >((v@, q as nat))
                &&& p < q < toks.len()
            },
            Err(e) => dotted_ident_at(lexer::tokens_view(toks@), p as nat) == Err::<
                (Text, nat),
                ParseErrorV,
            >(e@),
        },
{
    let ghost tv = lexer::tokens_view(toks@);
    let ghost all = dotted_ident_at(tv, p as nat);
    let (first, next) = expect_ident(toks, p)?;
    let mut path = first;
    let mut at: usize = next;
    while next_is(toks, at, &TokenKind::Dot)
        invariant
            p < at < toks.len(),
            dotted_rest_at(tv, at as nat, path@) == all,
        decreases toks.len() - at,
    {
        let (name, q) = expect_ident(toks, at + 1)?;
        path = cat3(path.as_str(), ".", name.as_str());
        at = q;
    }
    Ok((path, at))
}

#[verifier::loop_isolation(false)]
fn parse_dotted_idents(toks: &Vec<Token>, p: usize) -> (r: Result<(Vec<String>, usize), ParseError>)
    requires
        lexer::well_ended(toks@),
        p < toks.len(),
    ensures
        match r {
            Ok((v, q)) => {
                &&& dotted_idents_at(lexer::tokens_view(toks@), p as nat) == Ok::<
                    (Seq<Text>, nat),
                    ParseErrorV,
                >((text::texts(v@), q as nat))
                &&& p < q < toks.len()
            },
            Err(e) => dotted_idents_at(lexer::tokens_view(toks@), p as nat) == Err::<
                (Seq<Text>, nat),
                ParseErrorV,
            >(e@),
        },

{
    let ghost tv = lexer::tokens_view(toks@);
    let ghost all = dotted_idents_at(tv, p as nat);
    let (first, next) = parse_dotted_ident(toks, p)?;
    let mut acc: Vec<String> = Vec::new();
    let ghost fv = first@;
    acc.push(first);
    assert(text::texts(acc@) =~= seq![fv]);
    let mut at: usize = next;
    while next_is(toks, at, &TokenKind::Comma)
        invariant
            p < at < toks.len(),
            dotted_idents_rest_at(tv, at as nat, text::texts(acc@)) == all,
        decreases toks.len() - at,
    {
        let (item, after) = parse_dotted_ident(toks, at + 1)?;
        let ghost before = text::texts(acc@);
        let ghost iv = item@;
        acc.push(item);
        assert(text::texts(acc@) =~= before.push(iv));
        at = after;
    }
    Ok((acc, at))
}

fn parse_inject_stmt(toks: &Vec<Token>, p: usize) -> (r: Result<(Spanned<Stmt>, usize), ParseError>)
    requires
        lexer::well_ended(toks@),
        p < toks.len(),
    ensures
        match r {
            Ok((v, q)) => {
                &&& inject_at(lexer::tokens_view(toks@), p as nat) == Ok::<
                    (Spanned<StmtV>, nat),
                    ParseErrorV,
                >((v@, q as nat))
                &&& p < q < toks.len()
            },
            Err(e) => inject_at(lexer::tokens_view(toks@), p as nat) == Err::<
                (Spanned<StmtV>, nat),
                ParseErrorV,
            >(e@),
        },
    decreases toks.len() - p, 0nat,
{
    let start = toks[p].span.start;
    let p = expect(toks, p, &TokenKind::Inject)?;
    let (handlers, p) = parse_dotted_idents(toks, p)?;
    let p = expect(toks, p, &TokenKind::Do)?;
    let (body, p) = parse_stmt_list(toks, p)?;
    let p = expect(toks, p, &TokenKind::End)?;
    let end = toks[p - 1].span.end;
    Ok((Spanned { node: Stmt::Inject { handlers, body }, span: Span { start, end } }, p))
}

} // verus!
