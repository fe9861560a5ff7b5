//! Literals and patterns.

use crate::ast;
use crate::ast::{Pattern, PatternV};
use crate::lexer;
use crate::lexer::{KindV, Token, TokenKind, TokenV};
use crate::parser::cursor;
use crate::parser::cursor::{
    ParseError, ParseErrorV, Parsed, at_upper, at_word, copy_word, expect, expect_contextual,
    expect_ident, next_is, parse_sigil, unexpected_error,
};
use crate::parser::type_syntax;
use crate::parser::type_syntax::find_label;
use crate::text;
use crate::text::{Text, cat2, owned, skip_chars, starts_with_char};
use crate::types;
use crate::types::{Literal, LiteralV, Span, Spanned};
use vstd::prelude::*;

verus! {

/// The text of a negated floating-point literal.
pub open spec fn negated_float(s: Text) -> Text {
    if text::begins_with_char(s, '-') {
        s.skip(1)
    } else {
        "-"@ + s
    }
}

/// A literal.
#[verifier::opaque]
pub open spec fn literal_at(toks: Seq<TokenV>, p: nat) -> Parsed<LiteralV> {
    match cursor::kind_at(toks, p) {
        KindV::Int(n) => Ok((LiteralV::Int(n as i64), p + 1)),
        KindV::Float(s) => Ok((LiteralV::Float(s), p + 1)),
        KindV::CharLit(c) => Ok((LiteralV::Char(c), p + 1)),
        KindV::StringLit(s) => Ok((LiteralV::String(s), p + 1)),
        KindV::Plain(TokenKind::True) => Ok((LiteralV::Bool(true), p + 1)),
        KindV::Plain(TokenKind::False) => Ok((LiteralV::Bool(false), p + 1)),
        KindV::Plain(TokenKind::Minus) => match cursor::kind_at(toks, p + 1) {
            KindV::Int(n) => Ok((LiteralV::Int((-n) as i64), p + 2)),
            KindV::Float(s) => Ok((LiteralV::Float(negated_float(s)), p + 2)),
            _ => Err(cursor::unexpected(toks, p, "literal"@)),
        },
        _ => Err(cursor::unexpected(toks, p, "literal"@)),
    }
}

/// The pattern of a list with a first element and a rest.
pub open spec fn cons_pattern(
    first: Spanned<PatternV>,
    rest: Spanned<PatternV>,
    span: Span,
) -> Spanned<PatternV> {
    Spanned {
        node: PatternV::Constructor(
            "Cons"@,
            seq![(Some("v"@), first), (Some("rest"@), rest)],
        ),
        span,
    }
}

/// The pattern of the empty list.
pub open spec fn nil_pattern(span: Span) -> Spanned<PatternV> {
    Spanned { node: PatternV::Constructor("Nil"@, Seq::empty()), span }
}

/// The pattern of a list of the elements from index `i` on.
pub open spec fn nested_pattern(
    pats: Seq<Spanned<PatternV>>,
    i: nat,
    span: Span,
) -> Spanned<PatternV>
    decreases pats.len() - i,
{
    if i >= pats.len() {
        nil_pattern(span)
    } else {
        cons_pattern(pats[i as int], nested_pattern(pats, i + 1, span), span)
    }
}

/// The models of a list of patterns.
pub open spec fn patterns_view(v: Seq<Spanned<Pattern>>) -> Seq<Spanned<PatternV>> {
    v.map_values(|p: Spanned<Pattern>| p@)
}

/// A pattern. `::` separates the first element of a list from its rest.
#[verifier::opaque]
pub open spec fn pattern_at(toks: Seq<TokenV>, p: nat) -> Parsed<Spanned<PatternV>>
    decreases cursor::left(toks, p), 2nat,
{
    match atom_pattern_at(toks, p) {
        Err(e) => Err(e),
        Ok((lhs, r1)) => {
            let q2 = cursor::ahead(p, r1);
            if cursor::is_at(toks, q2, TokenKind::ColonColon) {
                let q3: nat = q2 + 1;
                match pattern_at(toks, q3) {
                    Err(e) => Err(e),
                    Ok((rhs, r4)) => {
                        let q5 = cursor::ahead(p, r4);
                        let span = cursor::span_between(lhs.span.start, rhs.span.end);
                        Ok((cons_pattern(lhs, rhs, span), q5))
                    },
                }
            } else {
                Ok((lhs, q2))
            }
        },
    }
}

/// A pattern without `::`.
pub open spec fn atom_pattern_at(toks: Seq<TokenV>, p: nat) -> Parsed<Spanned<PatternV>>
    decreases cursor::left(toks, p), 1nat,
{
    if cursor::is_at(toks, p, TokenKind::LBrace) {
        record_pattern_at(toks, p)
    } else {
        if cursor::is_word(toks, p, "_"@) {
            wildcard_at(toks, p)
        } else {
            if cursor::is_upper(toks, p) {
                ctor_pattern_at(toks, p)
            } else {
                if cursor::is_at(toks, p, TokenKind::LBracket) {
                    list_pattern_at(toks, p)
                } else {
                    plain_pattern_at(toks, p)
                }
            }
        }
    }
}

/// A pattern that matches anything.
pub open spec fn wildcard_at(toks: Seq<TokenV>, p: nat) -> Parsed<Spanned<PatternV>> {
    let start = cursor::start_at(toks, p);
    match cursor::word_expected(toks, p, "_"@) {
        Err(e) => Err(e),
        Ok(q1) => {
            let end = cursor::end_before(toks, q1);
            Ok((Spanned { node: PatternV::Wildcard, span: cursor::span_between(start, end) }, q1))
        },
    }
}

/// A literal, or a variable with its sigil.
#[verifier::opaque]
pub open spec fn plain_pattern_at(toks: Seq<TokenV>, p: nat) -> Parsed<Spanned<PatternV>> {
    let start = cursor::start_at(toks, p);
    match literal_at(toks, p) {
        Ok((l, q)) => Ok(
            (
                Spanned {
                    node: PatternV::Literal(l),
                    span: cursor::span_between(start, cursor::end_before(toks, q)),
                },
                q,
            ),
        ),
        Err(_) => {
            let (sigil, q1) = cursor::sigil_at(toks, p);
            match cursor::ident_at(toks, q1) {
                Err(e) => Err(e),
                Ok((name, q2)) => Ok(
                    (
                        Spanned {
                            node: PatternV::Variable(name, sigil),
                            span: cursor::span_between(start, cursor::end_before(toks, q2)),
                        },
                        q2,
                    ),
                ),
            }
        },
    }
}

/// The fields of a record pattern from a position on, behind those of `acc`; `open` says
/// whether `_` has been read, which is the last of them.
pub open spec fn record_pattern_items_at(
    toks: Seq<TokenV>,
    p: nat,
    start: usize,
    acc: Seq<(Text, Spanned<PatternV>)>,
    open: bool,
) -> Parsed<(Seq<(Text, Spanned<PatternV>)>, bool)>
    decreases cursor::left(toks, p), 1nat,
{
    if cursor::is_word(toks, p, "_"@) {
        if open {
            Err(cursor::parse_error("duplicate _"@, cursor::span_between(start, cursor::end_at(toks, p + 1))))
        } else {
            record_pattern_rest_at(toks, p + 1, start, acc, true)
        }
    } else if open {
        Err(
            cursor::parse_error(
                "_ must be the last element"@,
                cursor::span_between(start, cursor::end_at(toks, p)),
            ),
        )
    } else {
        match cursor::ident_at(toks, p) {
            Err(e) => Err(e),
            Ok((name, q1)) => match cursor::expected(toks, q1, TokenKind::Colon) {
                Err(e) => Err(e),
                Ok(q2) => match pattern_at(toks, q2) {
                    Err(e) => Err(e),
                    Ok((pat, r)) => record_pattern_rest_at(
                        toks,
                        cursor::ahead(p, r),
                        start,
                        acc.push((name, pat)),
                        open,
                    ),
                },
            },
        }
    }
}

/// What follows a field of a record pattern.
pub open spec fn record_pattern_rest_at(
    toks: Seq<TokenV>,
    p: nat,
    start: usize,
    acc: Seq<(Text, Spanned<PatternV>)>,
    open: bool,
) -> Parsed<(Seq<(Text, Spanned<PatternV>)>, bool)>
    decreases cursor::left(toks, p), 0nat,
{
    if cursor::is_at(toks, p, TokenKind::Comma) {
        if cursor::is_at(toks, p + 1, TokenKind::RBrace) {
            Ok(((acc, open), p + 1))
        } else {
            record_pattern_items_at(toks, p + 1, start, acc, open)
        }
    } else {
        Ok(((acc, open), p))
    }
}

/// The pattern of a record.
pub open spec fn record_pattern_at(toks: Seq<TokenV>, p: nat) -> Parsed<Spanned<PatternV>>
    decreases cursor::left(toks, p), 0nat,
{
    let start = cursor::start_at(toks, p);
    match cursor::expected(toks, p, TokenKind::LBrace) {
        Err(e) => Err(e),
        Ok(q1) => {
            if cursor::is_at(toks, q1, TokenKind::RBrace) {
                let end = cursor::end_at(toks, q1);
                match cursor::expected(toks, q1, TokenKind::RBrace) {
                    Err(e) => Err(e),
                    Ok(q2) => {
                        let none = Seq::<(Text, Spanned<PatternV>)>::empty();
                        Ok((Spanned { node: PatternV::Record(none, false), span: cursor::span_between(start, end) }, q2))
                    },
                }
            } else {
                match record_pattern_items_at(toks, q1, start, Seq::empty(), false) {
                    Err(e) => Err(e),
                    Ok(((fields, open), r3)) => {
                        let q4 = cursor::ahead(p, r3);
                        let end = cursor::end_at(toks, q4);
                        match cursor::expected(toks, q4, TokenKind::RBrace) {
                            Err(e) => Err(e),
                            Ok(q5) => {
                                Ok((Spanned { node: PatternV::Record(fields, open), span: cursor::span_between(start, end) }, q5))
                            },
                        }
                    },
                }
            }
        },
    }
}

/// An argument of a constructor pattern: `label: pattern`, or a pattern alone.
pub open spec fn ctor_pat_arg_at(toks: Seq<TokenV>, p: nat) -> Parsed<
    (Option<Text>, Spanned<PatternV>),
>
    decreases cursor::left(toks, p), 3nat,
{
    match type_syntax::labelled_at(toks, p) {
        Some(name) => match pattern_at(toks, p + 2) {
            Err(e) => Err(e),
            Ok((v, r)) => Ok(((Some(name), v), r)),
        },
        None => match pattern_at(toks, p) {
            Err(e) => Err(e),
            Ok((v, r)) => Ok(((None, v), r)),
        },
    }
}

/// The arguments of a constructor pattern, separated by commas, up to a closing parenthesis.
pub open spec fn ctor_pat_args_at(toks: Seq<TokenV>, p: nat) -> Parsed<Seq<(Option<Text>, Spanned<PatternV>)>>
    decreases cursor::left(toks, p), 4nat,
{
    if cursor::is_at(toks, p, TokenKind::RParen) {
        Ok((Seq::empty(), p))
    } else {
        match ctor_pat_arg_at(toks, p) {
            Err(e) => Err(e),
            Ok((v, r)) => ctor_pat_args_rest_at(toks, cursor::ahead(p, r), seq![v]),
        }
    }
}

/// What follows the first items of such a list, `acc`.
pub open spec fn ctor_pat_args_rest_at(toks: Seq<TokenV>, p: nat, acc: Seq<(Option<Text>, Spanned<PatternV>)>) -> Parsed<Seq<(Option<Text>, Spanned<PatternV>)>>
    decreases cursor::left(toks, p), 0nat,
{
    if cursor::is_at(toks, p, TokenKind::Comma) {
        match ctor_pat_arg_at(toks, p + 1) {
            Err(e) => Err(e),
            Ok((v, r)) => ctor_pat_args_rest_at(toks, cursor::ahead(p, r), acc.push(v)),
        }
    } else {
        Ok((acc, p))
    }
}

/// The pattern of a constructor and its arguments.
pub open spec fn ctor_pattern_at(toks: Seq<TokenV>, p: nat) -> Parsed<Spanned<PatternV>>
    decreases cursor::left(toks, p), 0nat,
{
    let start = cursor::start_at(toks, p);
    if cursor::is_upper(toks, p) {
        let name = cursor::word_text(toks, p);
        let q1: nat = p + 1;
        if cursor::is_at(toks, q1, TokenKind::LParen) {
            let q2: nat = q1 + 1;
            match ctor_pat_args_at(toks, q2) {
                Err(e) => Err(e),
                Ok((args, r3)) => {
                    let q4 = cursor::ahead(p, r3);
                    let end = cursor::end_at(toks, q4);
                    match cursor::expected(toks, q4, TokenKind::RParen) {
                        Err(e) => Err(e),
                        Ok(q5) => {
                            Ok((Spanned { node: PatternV::Constructor(name, args), span: cursor::span_between(start, end) }, q5))
                        },
                    }
                },
            }
        } else {
            let end = cursor::end_before(toks, q1);
            let none = Seq::<(Option<Text>, Spanned<PatternV>)>::empty();
            Ok((Spanned { node: PatternV::Constructor(name, none), span: cursor::span_between(start, end) }, q1))
        }
    } else {
        Err(cursor::parse_error(cursor::unexpected(toks, p, "constructor"@).message, cursor::span_at(toks, p)))
    }
}

/// Patterns, separated by commas, up to a closing bracket.
pub open spec fn patterns_at(toks: Seq<TokenV>, p: nat) -> Parsed<Seq<Spanned<PatternV>>>
    decreases cursor::left(toks, p), 3nat,
{
    if cursor::is_at(toks, p, TokenKind::RBracket) {
        Ok((Seq::empty(), p))
    } else {
        match pattern_at(toks, p) {
            Err(e) => Err(e),
            Ok((v, r)) => patterns_rest_at(toks, cursor::ahead(p, r), seq![v]),
        }
    }
}

/// What follows the first items of such a list, `acc`.
pub open spec fn patterns_rest_at(toks: Seq<TokenV>, p: nat, acc: Seq<Spanned<PatternV>>) -> Parsed<Seq<Spanned<PatternV>>>
    decreases cursor::left(toks, p), 0nat,
{
    if cursor::is_at(toks, p, TokenKind::Comma) {
        if cursor::is_at(toks, p + 1, TokenKind::RBracket) {
            Ok((acc, p + 1))
        } else {
            match pattern_at(toks, p + 1) {
                Err(e) => Err(e),
                Ok((v, r)) => patterns_rest_at(toks, cursor::ahead(p, r), acc.push(v)),
            }
        }
    } else {
        Ok((acc, p))
    }
}

/// The pattern of a list of known length: nested `Cons` and `Nil`.
pub open spec fn list_pattern_at(toks: Seq<TokenV>, p: nat) -> Parsed<Spanned<PatternV>>
    decreases cursor::left(toks, p), 0nat,
{
    let start = cursor::start_at(toks, p);
    match cursor::expected(toks, p, TokenKind::LBracket) {
        Err(e) => Err(e),
        Ok(q1) => {
            match patterns_at(toks, q1) {
                Err(e) => Err(e),
                Ok((pats, r2)) => {
                    let q3 = cursor::ahead(p, r2);
                    let end = cursor::end_at(toks, q3);
                    match cursor::expected(toks, q3, TokenKind::RBracket) {
                        Err(e) => Err(e),
                        Ok(q4) => {
                            Ok((nested_pattern(pats, 0, cursor::span_between(start, end)), q4))
                        },
                    }
                },
            }
        },
    }
}

// ---------------------------------------------------------------------------
// Reading literals and patterns
// ---------------------------------------------------------------------------

/// Reads a literal.
pub fn parse_literal(toks: &Vec<Token>, p: usize) -> (r: Result<(Literal, usize), ParseError>)
    requires
        lexer::well_ended(toks@),
        p < toks.len(),
    ensures
        match r {
            Ok((v, q)) => {
                &&& literal_at(lexer::tokens_view(toks@), p as nat) == Ok::<
                    (LiteralV, nat),
                    ParseErrorV,
                >((v@, q as nat))
                &&& p < q < toks.len()
            },
            Err(e) => literal_at(lexer::tokens_view(toks@), p as nat) == Err::<
                (LiteralV, nat),
                ParseErrorV,
            >(e@),
        },
{
    proof {
        reveal(literal_at);
        reveal(TokenKind::view);
    }
    assert(lexer::tokens_view(toks@)[p as int] == toks@[p as int]@);
    match &toks[p].kind {
        TokenKind::Int(n) => Ok((Literal::Int(*n), p + 1)),
        TokenKind::Float(s) => Ok((Literal::Float(s.clone()), p + 1)),
        TokenKind::CharLit(c) => Ok((Literal::Char(*c), p + 1)),
        TokenKind::StringLit(s) => Ok((Literal::String(s.clone()), p + 1)),
        TokenKind::True => Ok((Literal::Bool(true), p + 1)),
        TokenKind::False => Ok((Literal::Bool(false), p + 1)),
        TokenKind::Minus => {
            assert(lexer::tokens_view(toks@)[p + 1] == toks@[p + 1]@);
            match &toks[p + 1].kind {
                TokenKind::Int(n) => {
                    assert(lexer::kind_fits(lexer::tokens_view(toks@)[p + 1].kind));
                    let m: i64 = -*n;
                    Ok((Literal::Int(m), p + 2))
                },
                TokenKind::Float(s) => {
                    let t = if starts_with_char(s.as_str(), '-') {
                        skip_chars(s.as_str(), 1)
                    } else {
                        cat2("-", s.as_str())
                    };
                    Ok((Literal::Float(t), p + 2))
                },
                _ => Err(unexpected_error(toks, p, "literal")),
            }
        },
        _ => Err(unexpected_error(toks, p, "literal")),
    }
}

fn make_cons_pattern(first: Spanned<Pattern>, rest: Spanned<Pattern>, span: Span) -> (r: Spanned<
    Pattern,
>)
    ensures
        r@ == cons_pattern(first@, rest@, span),
{
    let ghost fv = first@;
    let ghost rv = rest@;
    let mut args: Vec<(Option<String>, Spanned<Pattern>)> = Vec::new();
    args.push((Some(owned("v")), first));
    args.push((Some(owned("rest")), rest));
    assert(ast::ctor_pats_view(args@) =~= seq![(Some("v"@), fv), (Some("rest"@), rv)]);
    Spanned { node: Pattern::Constructor(owned("Cons"), args), span }
}

fn make_nil_pattern(span: Span) -> (r: Spanned<Pattern>)
    ensures
        r@ == nil_pattern(span),
{
    let args: Vec<(Option<String>, Spanned<Pattern>)> = Vec::new();
    assert(ast::ctor_pats_view(args@) =~= Seq::<(Option<Text>, Spanned<PatternV>)>::empty());
    Spanned { node: Pattern::Constructor(owned("Nil"), args), span }
}

fn nest_patterns(pats: Vec<Spanned<Pattern>>, span: Span) -> (r: Spanned<Pattern>)
    ensures
        r@ == nested_pattern(patterns_view(pats@), 0, span),
{
    let ghost pv = patterns_view(pats@);
    let mut rest = pats;
    let mut out = make_nil_pattern(span);
    while rest.len() > 0
        invariant
            rest@ == pats@.take(rest.len() as int),
            rest.len() <= pats.len(),
            pv == patterns_view(pats@),
            out@ == nested_pattern(pv, rest.len() as nat, span),
        decreases rest.len(),
    {
        let ghost k: nat = (rest.len() - 1) as nat;
        match rest.pop() {
            Some(p) => {
                assert(pv[k as int] == p@);
                out = make_cons_pattern(p, out, span);
            },
            None => {},
        }
        assert(rest@ =~= pats@.take(rest.len() as int));
    }
    out
}

pub fn parse_pattern(toks: &Vec<Token>, p: usize) -> (r: Result<(Spanned<Pattern>, usize), ParseError>)
    requires
        lexer::well_ended(toks@),
        p < toks.len(),
    ensures
        match r {
            Ok((v, q)) => {
                &&& pattern_at(lexer::tokens_view(toks@), p as nat) == Ok::<
                    (Spanned<PatternV>, nat),
                    ParseErrorV,
                >((v@, q as nat))
                &&& p < q < toks.len()
            },
            Err(e) => pattern_at(lexer::tokens_view(toks@), p as nat) == Err::<
                (Spanned<PatternV>, nat),
                ParseErrorV,
            >(e@),
        },
    decreases toks.len() - p, 2nat,
{
    proof {
        reveal(pattern_at);
    }
    let (lhs, p) = parse_atom_pattern(toks, p)?;
    if next_is(toks, p, &TokenKind::ColonColon) {
        let p: usize = p + 1;
        let (rhs, p) = parse_pattern(toks, p)?;
        let span = Span { start: lhs.span.start, end: rhs.span.end };
        Ok((make_cons_pattern(lhs, rhs, span), p))
    } else {
        Ok((lhs, p))
    }
}

fn parse_atom_pattern(toks: &Vec<Token>, p: usize) -> (r: Result<(Spanned<Pattern>, usize), ParseError>)
    requires
        lexer::well_ended(toks@),
        p < toks.len(),
    ensures
        match r {
            Ok((v, q)) => {
                &&& atom_pattern_at(lexer::tokens_view(toks@), p as nat) == Ok::<
                    (Spanned<PatternV>, nat),
                    ParseErrorV,
                >((v@, q as nat))
                &&& p < q < toks.len()
            },
            Err(e) => atom_pattern_at(lexer::tokens_view(toks@), p as nat) == Err::<
                (Spanned<PatternV>, nat),
                ParseErrorV,
            >(e@),
        },
    decreases toks.len() - p, 1nat,
{
    if next_is(toks, p, &TokenKind::LBrace) {
        parse_record_pattern(toks, p)
    } else {
        if at_word(toks, p, "_") {
            parse_wildcard(toks, p)
        } else {
            if at_upper(toks, p) {
                parse_ctor_pattern(toks, p)
            } else {
                if next_is(toks, p, &TokenKind::LBracket) {
                    parse_list_pattern(toks, p)
                } else {
                    parse_plain_pattern(toks, p)
                }
            }
        }
    }
}

fn parse_wildcard(toks: &Vec<Token>, p: usize) -> (r: Result<(Spanned<Pattern>, usize), ParseError>)
    requires
        lexer::well_ended(toks@),
        p < toks.len(),
    ensures
        match r {
            Ok((v, q)) => {
                &&& wildcard_at(lexer::tokens_view(toks@), p as nat) == Ok::<
                    (Spanned<PatternV>, nat),
                    ParseErrorV,
                >((v@, q as nat))
                &&& p < q < toks.len()
            },
            Err(e) => wildcard_at(lexer::tokens_view(toks@), p as nat) == Err::<
                (Spanned<PatternV>, nat),
                ParseErrorV,
            >(e@),
        },
{
    let start = toks[p].span.start;
    let p = expect_contextual(toks, p, "_")?;
    let end = toks[p - 1].span.end;
    Ok((Spanned { node: Pattern::Wildcard, span: Span { start, end } }, p))
}

fn parse_plain_pattern(toks: &Vec<Token>, p: usize) -> (r: Result<(Spanned<Pattern>, usize), ParseError>)
    requires
        lexer::well_ended(toks@),
        p < toks.len(),
    ensures
        match r {
            Ok((v, q)) => {
                &&& plain_pattern_at(lexer::tokens_view(toks@), p as nat) == Ok::<
                    (Spanned<PatternV>, nat),
                    ParseErrorV,
                >((v@, q as nat))
                &&& p < q < toks.len()
            },
            Err(e) => plain_pattern_at(lexer::tokens_view(toks@), p as nat) == Err::<
                (Spanned<PatternV>, nat),
                ParseErrorV,
            >(e@),
        },
{
    proof {
        reveal(plain_pattern_at);
    }
    let start = toks[p].span.start;
    match parse_literal(toks, p) {
        Ok((l, q)) => {
            let end = toks[q - 1].span.end;
            Ok((Spanned { node: Pattern::Literal(l), span: Span { start, end } }, q))
        },
        Err(_) => {
            let (sigil, q1) = parse_sigil(toks, p);
            let (name, q2) = expect_ident(toks, q1)?;
            let end = toks[q2 - 1].span.end;
            Ok((Spanned { node: Pattern::Variable(name, sigil), span: Span { start, end } }, q2))
        },
    }
}

#[verifier::loop_isolation(false)]
fn parse_record_pattern_items(toks: &Vec<Token>, p: usize, start: usize) -> (r: Result<
    ((Vec<(String, Spanned<Pattern>)>, bool), usize),
    ParseError,
>)
    requires
        lexer::well_ended(toks@),
        p < toks.len(),
    ensures
        match r {
            Ok((v, q)) => {
                &&& record_pattern_items_at(
                    lexer::tokens_view(toks@),
                    p as nat,
                    start,
                    Seq::empty(),
                    false,
                ) == Ok::<((Seq<(Text, Spanned<PatternV>)>, bool), nat), ParseErrorV>(
                    ((ast::record_pats_view(v.0@), v.1), q as nat),
                )
                &&& p < q < toks.len()
            },
            Err(e) => record_pattern_items_at(
                lexer::tokens_view(toks@),
                p as nat,
                start,
                Seq::empty(),
                false,
            ) == Err::<((Seq<(Text, Spanned<PatternV>)>, bool), nat), ParseErrorV>(e@),
        },
    decreases toks.len() - p, 1nat,
{
    proof {
        reveal(pattern_at);
    }
    let ghost tv = lexer::tokens_view(toks@);
    let ghost all = record_pattern_items_at(tv, p as nat, start, Seq::empty(), false);
    let mut acc: Vec<(String, Spanned<Pattern>)> = Vec::new();
    assert(ast::record_pats_view(acc@) =~= Seq::<(Text, Spanned<PatternV>)>::empty());
    let mut open = false;
    let mut at: usize = p;
    loop
        invariant
            p <= at < toks.len(),
            record_pattern_items_at(tv, at as nat, start, ast::record_pats_view(acc@), open) == all,
        decreases toks.len() - at,
    {
        assert(tv[at as int] == toks@[at as int]@);
        let next: usize;
        if at_word(toks, at, "_") {
            if open {
                return Err(
                    ParseError {
                        message: owned("duplicate _"),
                        span: Span { start, end: toks[at + 1].span.end },
                    },
                );
            }
            open = true;
            next = at + 1;
        } else {
            if open {
                return Err(
                    ParseError {
                        message: owned("_ must be the last element"),
                        span: Span { start, end: toks[at].span.end },
                    },
                );
            }
            let (name, q1) = expect_ident(toks, at)?;
            let q2 = expect(toks, q1, &TokenKind::Colon)?;
            let (pat, q3) = parse_pattern(toks, q2)?;
            let ghost before = ast::record_pats_view(acc@);
            let ghost item = (name@, pat@);
            acc.push((name, pat));
            assert(ast::record_pats_view(acc@) =~= before.push(item));
            next = q3;
        }
        assert(record_pattern_rest_at(
            tv,
            next as nat,
            start,
            ast::record_pats_view(acc@),
            open,
        ) == all);
        if !next_is(toks, next, &TokenKind::Comma) {
            return Ok(((acc, open), next));
        }
        if next_is(toks, next + 1, &TokenKind::RBrace) {
            return Ok(((acc, open), next + 1));
        }
        at = next + 1;
    }
}

fn parse_record_pattern(toks: &Vec<Token>, p: usize) -> (r: Result<(Spanned<Pattern>, usize), ParseError>)
    requires
        lexer::well_ended(toks@),
        p < toks.len(),
    ensures
        match r {
            Ok((v, q)) => {
                &&& record_pattern_at(lexer::tokens_view(toks@), p as nat) == Ok::<
                    (Spanned<PatternV>, nat),
                    ParseErrorV,
                >((v@, q as nat))
                &&& p < q < toks.len()
            },
            Err(e) => record_pattern_at(lexer::tokens_view(toks@), p as nat) == Err::<
                (Spanned<PatternV>, nat),
                ParseErrorV,
            >(e@),
        },
    decreases toks.len() - p, 0nat,
{
    let start = toks[p].span.start;
    let p = expect(toks, p, &TokenKind::LBrace)?;
    if next_is(toks, p, &TokenKind::RBrace) {
        let end = toks[p].span.end;
        let p = expect(toks, p, &TokenKind::RBrace)?;
        let none: Vec<(String, Spanned<Pattern>)> = Vec::new();
        assert(ast::record_pats_view(none@) =~= Seq::<(Text, Spanned<PatternV>)>::empty());
        Ok((Spanned { node: Pattern::Record(none, false), span: Span { start, end } }, p))
    } else {
        let ((fields, open), p) = parse_record_pattern_items(toks, p, start)?;
        let end = toks[p].span.end;
        let p = expect(toks, p, &TokenKind::RBrace)?;
        Ok((Spanned { node: Pattern::Record(fields, open), span: Span { start, end } }, p))
    }
}

fn parse_ctor_pat_arg(toks: &Vec<Token>, p: usize) -> (r: Result<((Option<String>, Spanned<Pattern>), usize), ParseError>)
    requires
        lexer::well_ended(toks@),
        p < toks.len(),
    ensures
        match r {
            Ok((v, q)) => {
                &&& ctor_pat_arg_at(lexer::tokens_view(toks@), p as nat) == Ok::<
                    ((Option<Text>, Spanned<PatternV>), nat),
                    ParseErrorV,
                >(((types::opt_text(v.0), v.1@), q as nat))
                &&& p < q < toks.len()
            },
            Err(e) => ctor_pat_arg_at(lexer::tokens_view(toks@), p as nat) == Err::<
                ((Option<Text>, Spanned<PatternV>), nat),
                ParseErrorV,
            >(e@),
        },
    decreases toks.len() - p, 3nat,
{
    proof {
        reveal(pattern_at);
    }
    match find_label(toks, p) {
        Some(name) => {
            let (v, r) = parse_pattern(toks, p + 2)?;
            Ok(((Some(name), v), r))
        },
        None => {
            let (v, r) = parse_pattern(toks, p)?;
            Ok(((None, v), r))
        },
    }
}

#[verifier::loop_isolation(false)]
fn parse_ctor_pat_args(toks: &Vec<Token>, p: usize) -> (r: Result<(Vec<(Option<String>, Spanned<Pattern>)>, usize), ParseError>)
    requires
        lexer::well_ended(toks@),
        p < toks.len(),
    ensures
        match r {
            Ok((v, q)) => {
                &&& ctor_pat_args_at(lexer::tokens_view(toks@), p as nat) == Ok::<
                    (Seq<(Option<Text>, Spanned<PatternV>)>, nat),
                    ParseErrorV,
                >((ast::ctor_pats_view(v@), q as nat))
                &&& p <= q < toks.len()
            },
            Err(e) => ctor_pat_args_at(lexer::tokens_view(toks@), p as nat) == Err::<
                (Seq<(Option<Text>, Spanned<PatternV>)>, nat),
                ParseErrorV,
            >(e@),
        },
    decreases toks.len() - p, 4nat,
{
    let ghost tv = lexer::tokens_view(toks@);
    let ghost all = ctor_pat_args_at(tv, p as nat);
    if next_is(toks, p, &TokenKind::RParen) {
        let none: Vec<(Option<String>, Spanned<Pattern>)> = Vec::new();
        assert(ast::ctor_pats_view(none@) =~= Seq::<(Option<Text>, Spanned<PatternV>)>::empty());
        return Ok((none, p));
    }
    let (first, next) = parse_ctor_pat_arg(toks, p)?;
    let mut acc: Vec<(Option<String>, Spanned<Pattern>)> = Vec::new();
    let ghost fv = (types::opt_text(first.0), first.1@);
    acc.push(first);
    assert(ast::ctor_pats_view(acc@) =~= seq![fv]);
    let mut at: usize = next;
    while next_is(toks, at, &TokenKind::Comma)
        invariant
            p < at < toks.len(),
            ctor_pat_args_rest_at(tv, at as nat, ast::ctor_pats_view(acc@)) == all,
        decreases toks.len() - at,
    {
        let (item, after) = parse_ctor_pat_arg(toks, at + 1)?;
        let ghost before = ast::ctor_pats_view(acc@);
        let ghost iv = (types::opt_text(item.0), item.1@);
        acc.push(item);
        assert(ast::ctor_pats_view(acc@) =~= before.push(iv));
        at = after;
    }
    Ok((acc, at))
}

fn parse_ctor_pattern(toks: &Vec<Token>, p: usize) -> (r: Result<(Spanned<Pattern>, usize), ParseError>)
    requires
        lexer::well_ended(toks@),
        p < toks.len(),
    ensures
        match r {
            Ok((v, q)) => {
                &&& ctor_pattern_at(lexer::tokens_view(toks@), p as nat) == Ok::<
                    (Spanned<PatternV>, nat),
                    ParseErrorV,
                >((v@, q as nat))
                &&& p < q < toks.len()
            },
            Err(e) => ctor_pattern_at(lexer::tokens_view(toks@), p as nat) == Err::<
                (Spanned<PatternV>, nat),
                ParseErrorV,
            >(e@),
        },
    decreases toks.len() - p, 0nat,
{
    let start = toks[p].span.start;
    if at_upper(toks, p) {
        let name = copy_word(toks, p);
        let p: usize = p + 1;
        if next_is(toks, p, &TokenKind::LParen) {
            let p: usize = p + 1;
            let (args, p) = parse_ctor_pat_args(toks, p)?;
            let end = toks[p].span.end;
            let p = expect(toks, p, &TokenKind::RParen)?;
            Ok((Spanned { node: Pattern::Constructor(name, args), span: Span { start, end } }, p))
        } else {
            let end = toks[p - 1].span.end;
            let none: Vec<(Option<String>, Spanned<Pattern>)> = Vec::new();
            assert(ast::ctor_pats_view(none@) =~= Seq::<(Option<Text>, Spanned<PatternV>)>::empty());
            Ok((Spanned { node: Pattern::Constructor(name, none), span: Span { start, end } }, p))
        }
    } else {
        Err(ParseError { message: unexpected_error(toks, p, "constructor").message, span: toks[p].span })
    }
}

#[verifier::loop_isolation(false)]
fn parse_patterns(toks: &Vec<Token>, p: usize) -> (r: Result<(Vec<Spanned<Pattern>>, usize), ParseError>)
    requires
        lexer::well_ended(toks@),
        p < toks.len(),
    ensures
        match r {
            Ok((v, q)) => {
                &&& patterns_at(lexer::tokens_view(toks@), p as nat) == Ok::<
                    (Seq<Spanned<PatternV>>, nat),
                    ParseErrorV,
                >((patterns_view(v@), q as nat))
                &&& p <= q < toks.len()
            },
            Err(e) => patterns_at(lexer::tokens_view(toks@), p as nat) == Err::<
                (Seq<Spanned<PatternV>>, nat),
                ParseErrorV,
            >(e@),
        },
    decreases toks.len() - p, 3nat,
{
    proof {
        reveal(pattern_at);
    }
    let ghost tv = lexer::tokens_view(toks@);
    let ghost all = patterns_at(tv, p as nat);
    if next_is(toks, p, &TokenKind::RBracket) {
        let none: Vec<Spanned<Pattern>> = Vec::new();
        assert(patterns_view(none@) =~= Seq::<Spanned<PatternV>>::empty());
        return Ok((none, p));
    }
    let (first, next) = parse_pattern(toks, p)?;
    let mut acc: Vec<Spanned<Pattern>> = Vec::new();
    let ghost fv = first@;
    acc.push(first);
    assert(patterns_view(acc@) =~= seq![fv]);
    let mut at: usize = next;
    while next_is(toks, at, &TokenKind::Comma)
        invariant
            p < at < toks.len(),
            patterns_rest_at(tv, at as nat, patterns_view(acc@)) == all,
        decreases toks.len() - at,
    {
        if next_is(toks, at + 1, &TokenKind::RBracket) {
            return Ok((acc, at + 1));
        }
        let (item, after) = parse_pattern(toks, at + 1)?;
        let ghost before = patterns_view(acc@);
        let ghost iv = item@;
        acc.push(item);
        assert(patterns_view(acc@) =~= before.push(iv));
        at = after;
    }
    Ok((acc, at))
}

fn parse_list_pattern(toks: &Vec<Token>, p: usize) -> (r: Result<(Spanned<Pattern>, usize), ParseError>)
    requires
        lexer::well_ended(toks@),
        p < toks.len(),
    ensures
        match r {
            Ok((v, q)) => {
                &&& list_pattern_at(lexer::tokens_view(toks@), p as nat) == Ok::<
                    (Spanned<PatternV>, nat),
                    ParseErrorV,
                >((v@, q as nat))
                &&& p < q < toks.len()
            },
            Err(e) => list_pattern_at(lexer::tokens_view(toks@), p as nat) == Err::<
                (Spanned<PatternV>, nat),
                ParseErrorV,
            >(e@),
        },
    decreases toks.len() - p, 0nat,
{
    let start = toks[p].span.start;
    let p = expect(toks, p, &TokenKind::LBracket)?;
    let (pats, p) = parse_patterns(toks, p)?;
    let end = toks[p].span.end;
    let p = expect(toks, p, &TokenKind::RBracket)?;
    Ok((nest_patterns(pats, Span { start, end }), p))
}

} // verus!
