//! Reading the text of a syntax tree gives the tree back.

use crate::ast::{Expr, ExprV, FunctionV, MatchCaseV, PatternV, StmtV};
use crate::lexer::{KindV, TokenKind, TokenV};
use crate::parser::cursor;
use crate::parser::cursor::ParseErrorV;
use crate::parser::expr_syntax;
use crate::parser::pattern_syntax;
use crate::parser::spelling;
use crate::parser::type_reading;
use crate::parser::type_syntax;
use crate::text;
use crate::text::Text;
use crate::types::{BinaryOp, LiteralV, Sigil, Spanned, TypeV};
use vstd::prelude::*;

verus! {

// ---------------------------------------------------------------------------
// Literals, sigils and names
// ---------------------------------------------------------------------------

pub proof fn lemma_literal(toks: Seq<TokenV>, p: nat, l: LiteralV)
    requires
        spelling::literal_written(l),
        !(l is Unit),
        spelling::spells(toks, p, spelling::spell_literal(l)),
    ensures
        cursor::is_literal(toks, p),
        pattern_syntax::literal_at(toks, p) == Ok::<(LiteralV, nat), ParseErrorV>((l, p + spelling::spell_literal(l).len())),
        p < toks.len(),
{
    reveal(cursor::is_literal);
    reveal(pattern_syntax::literal_at);
    let ks = spelling::spell_literal(l);
    assert(toks[p + 0int].kind == ks[0]);
    match l {
        LiteralV::Int(n) => {
            if n < 0 {
                assert(ks =~= seq![KindV::Plain(TokenKind::Minus), KindV::Int(-(n as int))]);
                assert(toks[p + 1int].kind == ks[1]);
                assert(cursor::kind_at(toks, p + 1) == KindV::Int(-(n as int)));
            }
        },
        LiteralV::Float(s) => {
            if text::begins_with_char(s, '-') {
                assert(ks =~= seq![KindV::Plain(TokenKind::Minus), KindV::Float(s.skip(1))]);
                assert(toks[p + 1int].kind == ks[1]);
                assert(cursor::kind_at(toks, p + 1) == KindV::Float(s.skip(1)));
                reveal_strlit("-");
                assert("-"@ + s.skip(1) =~= s);
            }
        },
        _ => {},
    }
}

pub proof fn lemma_sigil(toks: Seq<TokenV>, p: nat, sigil: Sigil, name: Text, rest: Seq<KindV>)
    requires
        !cursor::reserved(name),
        spelling::spells(toks, p, spelling::spell_sigil(sigil) + (spelling::word(name) + rest)),
    ensures
        cursor::sigil_at(toks, p) == (sigil, p + spelling::spell_sigil(sigil).len()),
        cursor::ident_at(toks, p + spelling::spell_sigil(sigil).len()) == Ok::<(Text, nat), ParseErrorV>(
            (name, p + spelling::spell_sigil(sigil).len() + 1),
        ),
        spelling::spells(toks, p + spelling::spell_sigil(sigil).len() + 1, rest),
        (spelling::spell_sigil(sigil) + (spelling::word(name) + rest)).len() == spelling::spell_sigil(sigil).len() + 1
            + rest.len(),
        sigil is Immutable ==> p < toks.len() && toks[p as int].kind == KindV::Ident(name),
        spelling::spell_sigil(sigil).len() <= 1,
{
    reveal(cursor::kind_is);
    let ks = spelling::spell_sigil(sigil);
    spelling::lemma_spells_both(toks, p, ks, spelling::word(name) + rest);
    spelling::lemma_word(toks, p + ks.len(), name, rest);
    if !(sigil is Immutable) {
        assert(toks[p + 0int].kind == ks[0]);
    }
}

pub proof fn lemma_last_sigil(toks: Seq<TokenV>, p: nat, sigil: Sigil, name: Text)
    requires
        !cursor::reserved(name),
        spelling::spells(toks, p, spelling::spell_sigil(sigil) + spelling::word(name)),
    ensures
        cursor::sigil_at(toks, p) == (sigil, p + spelling::spell_sigil(sigil).len()),
        cursor::ident_at(toks, p + spelling::spell_sigil(sigil).len()) == Ok::<(Text, nat), ParseErrorV>(
            (name, p + spelling::spell_sigil(sigil).len() + 1),
        ),
        (spelling::spell_sigil(sigil) + spelling::word(name)).len() == spelling::spell_sigil(sigil).len() + 1,
        sigil is Immutable ==> p < toks.len() && toks[p as int].kind == KindV::Ident(name),
        spelling::spell_sigil(sigil).len() <= 1,
{
    assert(spelling::word(name) + Seq::<KindV>::empty() =~= spelling::word(name));
    lemma_sigil(toks, p, sigil, name, Seq::empty());
}

// ---------------------------------------------------------------------------
// Patterns
// ---------------------------------------------------------------------------

/// Whether a token can follow a pattern.
pub open spec fn closes_pattern(k: KindV) -> bool {
    match k {
        KindV::Plain(m) => m is Comma || m is RParen || m is RBrace || m is Arrow || m is Eq,
        _ => false,
    }
}

/// Whether a pattern ends at a position.
pub open spec fn pattern_ends_at(toks: Seq<TokenV>, p: nat) -> bool {
    p < toks.len() && closes_pattern(toks[p as int].kind)
}

/// How the text of a pattern begins.
pub proof fn lemma_pattern_begins(toks: Seq<TokenV>, p: nat, pat: PatternV)
    requires
        spelling::pattern_written(pat),
        spelling::spells(toks, p, spelling::spell_pattern(pat)),
        pattern_ends_at(toks, p + spelling::spell_pattern(pat).len()),
    ensures
        spelling::spell_pattern(pat).len() > 0,
        p < toks.len(),
        !cursor::is_at(toks, p, TokenKind::RParen),
        !cursor::is_at(toks, p, TokenKind::RBrace),
        type_syntax::labelled_at(toks, p) is None,
{
    reveal(cursor::kind_is);
    let ks = spelling::spell_pattern(pat);
    match pat {
        PatternV::Wildcard => {
            assert(toks[p + 0int].kind == ks[0]);
        },
        PatternV::Variable(name, sigil) => {
            lemma_last_sigil(toks, p, sigil, name);
            if !(sigil is Immutable) {
                assert(spelling::spell_sigil(sigil)[0] == ks[0]);
                assert(toks[p + 0int].kind == ks[0]);
            }
        },
        PatternV::Literal(l) => {
            lemma_literal(toks, p, l);
            reveal(cursor::is_literal);
            assert(toks[p + 0int].kind == ks[0]);
        },
        PatternV::Constructor(c, args) => {
            if args.len() == 0 {
                assert(toks[p + 0int].kind == ks[0]);
            } else {
                let rest = spelling::spell_pattern_args(args, 0) + spelling::mark(TokenKind::RParen);
                spelling::lemma_word(toks, p, c, spelling::mark(TokenKind::LParen) + rest);
                spelling::lemma_mark(toks, p + 1, TokenKind::LParen, rest);
            }
        },
        PatternV::Record(fs, more) => {
            spelling::lemma_mark(
                toks,
                p,
                TokenKind::LBrace,
                spelling::spell_pattern_fields(fs, more, 0) + spelling::mark(TokenKind::RBrace),
            );
        },
    }
}

/// The text of a pattern reads as the pattern.
#[verifier::spinoff_prover]
#[verifier::rlimit(60)]
pub proof fn lemma_pattern_reads(toks: Seq<TokenV>, p: nat, pat: PatternV)
    requires
        spelling::pattern_written(pat),
        spelling::spells(toks, p, spelling::spell_pattern(pat)),
        pattern_ends_at(toks, p + spelling::spell_pattern(pat).len()),
    ensures
        pattern_syntax::pattern_at(toks, p) matches Ok((v, q)) && q == p + spelling::spell_pattern(pat).len() && spelling::bare_pattern(
            v.node,
        ) == spelling::bare_pattern(pat),
    decreases pat, 1nat,
{
    reveal(cursor::kind_is);
    reveal(pattern_syntax::pattern_at);
    reveal(pattern_syntax::plain_pattern_at);
    let ks = spelling::spell_pattern(pat);
    let q = p + ks.len();
    lemma_pattern_begins(toks, p, pat);
    assert(!cursor::is_at(toks, q, TokenKind::ColonColon));
    assert(!cursor::is_at(toks, q, TokenKind::LParen));
    match pat {
        PatternV::Wildcard => {
            spelling::lemma_last_word(toks, p, "_"@);
            assert(pattern_syntax::atom_pattern_at(toks, p) == pattern_syntax::wildcard_at(toks, p));
        },
        PatternV::Variable(name, sigil) => {
            lemma_last_sigil(toks, p, sigil, name);
            if !(sigil is Immutable) {
                assert(spelling::spell_sigil(sigil)[0] == ks[0]);
                assert(toks[p + 0int].kind == ks[0]);
            }
            assert(pattern_syntax::literal_at(toks, p) is Err) by {
                reveal(pattern_syntax::literal_at);
                match sigil {
                    Sigil::Immutable => {
                        assert(cursor::kind_at(toks, p) == KindV::Ident(name));
                    },
                    Sigil::Mutable => {
                        assert(cursor::kind_at(toks, p) == KindV::Plain(TokenKind::Tilde));
                    },
                    Sigil::Linear => {
                        assert(cursor::kind_at(toks, p) == KindV::Plain(TokenKind::Percent));
                    },
                    Sigil::Borrow => {
                        assert(cursor::kind_at(toks, p) == KindV::Plain(TokenKind::Ampersand));
                    },
                }
            }
            assert(pattern_syntax::atom_pattern_at(toks, p) == pattern_syntax::plain_pattern_at(toks, p));
        },
        PatternV::Literal(l) => {
            lemma_literal(toks, p, l);
            reveal(cursor::is_literal);
            assert(toks[p + 0int].kind == ks[0]);
            assert(pattern_syntax::atom_pattern_at(toks, p) == pattern_syntax::plain_pattern_at(toks, p));
        },
        PatternV::Constructor(c, args) => {
            if args.len() == 0 {
                spelling::lemma_last_word(toks, p, c);
                assert(pattern_syntax::ctor_pattern_at(toks, p) matches Ok((v, r)) && r == q && v.node
                    == PatternV::Constructor(c, Seq::empty()));
                assert(args =~= Seq::empty());
            } else {
                let inner = spelling::spell_pattern_args(args, 0);
                let rest = inner + spelling::mark(TokenKind::RParen);
                spelling::lemma_word(toks, p, c, spelling::mark(TokenKind::LParen) + rest);
                spelling::lemma_mark(toks, p + 1, TokenKind::LParen, rest);
                spelling::lemma_spells_both(toks, p + 2, inner, spelling::mark(TokenKind::RParen));
                spelling::lemma_last_mark(toks, p + 2 + inner.len(), TokenKind::RParen);
                let none = Seq::<(Option<Text>, Spanned<PatternV>)>::empty();
                assert(spelling::bare_pattern_args(none) =~= spelling::bare_pattern_args(args).take(0));
                lemma_pattern_args_read(toks, p + 2, args, 0, none);
                let got = pattern_syntax::ctor_pat_args_at(toks, p + 2)->Ok_0.0;
                assert(pattern_syntax::ctor_pattern_at(toks, p) matches Ok((v, r)) && r == q && v.node
                    == PatternV::Constructor(c, got));
            }
            assert(pattern_syntax::atom_pattern_at(toks, p) == pattern_syntax::ctor_pattern_at(toks, p));
        },
        PatternV::Record(fs, more) => {
            let inner = spelling::spell_pattern_fields(fs, more, 0);
            spelling::lemma_mark(toks, p, TokenKind::LBrace, inner + spelling::mark(TokenKind::RBrace));
            spelling::lemma_spells_both(toks, p + 1, inner, spelling::mark(TokenKind::RBrace));
            spelling::lemma_last_mark(toks, p + 1 + inner.len(), TokenKind::RBrace);
            if fs.len() == 0 && !more {
                assert(inner.len() == 0);
                assert(pattern_syntax::record_pattern_at(toks, p) matches Ok((v, r)) && r == q && v.node
                    == PatternV::Record(Seq::empty(), false));
                assert(fs =~= Seq::empty());
            } else {
                let start = cursor::start_at(toks, p);
                let none = Seq::<(Text, Spanned<PatternV>)>::empty();
                assert(spelling::bare_pattern_fields(none) =~= spelling::bare_pattern_fields(fs).take(0));
                lemma_pattern_fields_read(toks, p + 1, start, fs, more, 0, none);
                let (got, open_end) = pattern_syntax::record_pattern_items_at(
                    toks,
                    p + 1,
                    start,
                    Seq::empty(),
                    false,
                )->Ok_0.0;
                assert(pattern_syntax::record_pattern_at(toks, p) matches Ok((v, r)) && r == q && v.node
                    == PatternV::Record(got, open_end));
            }
            assert(pattern_syntax::atom_pattern_at(toks, p) == pattern_syntax::record_pattern_at(toks, p));
        },
    }
    assert(pattern_syntax::pattern_at(toks, p) == pattern_syntax::atom_pattern_at(toks, p));
}

/// The text of the arguments of a constructor pattern reads as the arguments.
#[verifier::spinoff_prover]
#[verifier::rlimit(60)]
proof fn lemma_pattern_args_read(
    toks: Seq<TokenV>,
    p: nat,
    args: Seq<(Option<Text>, Spanned<PatternV>)>,
    i: nat,
    acc: Seq<(Option<Text>, Spanned<PatternV>)>,
)
    requires
        i <= args.len(),
        args.len() > 0,
        forall|j: int|
            0 <= j < args.len() ==> spelling::label_written((#[trigger] args[j]).0) && spelling::pattern_written(
                args[j].1.node,
            ),
        spelling::spells(toks, p, spelling::spell_pattern_args(args, i)),
        cursor::is_at(toks, p + spelling::spell_pattern_args(args, i).len(), TokenKind::RParen),
        spelling::bare_pattern_args(acc) == spelling::bare_pattern_args(args).take(i as int),
    ensures
        i == 0 ==> (pattern_syntax::ctor_pat_args_at(toks, p) matches Ok((v, q)) && q == p + spelling::spell_pattern_args(
            args,
            i,
        ).len() && spelling::bare_pattern_args(v) == spelling::bare_pattern_args(args)),
        i > 0 ==> (pattern_syntax::ctor_pat_args_rest_at(toks, p, acc) matches Ok((v, q)) && q == p
            + spelling::spell_pattern_args(args, i).len() && spelling::bare_pattern_args(v) == spelling::bare_pattern_args(args)),
    decreases args, args.len() - i,
{
    reveal(cursor::kind_is);
    let all = spelling::bare_pattern_args(args);
    assert(acc.len() == i) by {
        assert(spelling::bare_pattern_args(acc).len() == acc.len());
        assert(all.take(i as int).len() == i);
    }
    if i == args.len() {
        assert(all.take(i as int) =~= all);
    } else {
        let (label, pat) = args[i as int];
        let more = spelling::spell_pattern_args(args, i + 1);
        let body = spelling::spell_pattern(pat.node) + more;
        let item = spelling::spell_label(label) + body;
        spelling::lemma_spells_both(toks, p, spelling::comma_before(i), item);
        let p1 = p + spelling::comma_before(i).len();
        if i > 0 {
            assert(toks[p + 0int].kind == spelling::comma_before(i)[0]);
        }
        spelling::lemma_spells_both(toks, p1, spelling::spell_label(label), body);
        let p2 = p1 + spelling::spell_label(label).len();
        spelling::lemma_spells_both(toks, p2, spelling::spell_pattern(pat.node), more);
        let p3 = p2 + spelling::spell_pattern(pat.node).len();
        if i + 1 < args.len() {
            assert(spelling::comma_before(i + 1) == spelling::mark(TokenKind::Comma));
            assert(more[0] == spelling::comma_before(i + 1)[0]);
            assert(toks[p3 + 0int].kind == more[0]);
        } else {
            assert(more.len() == 0);
        }
        assert(pattern_ends_at(toks, p3));
        lemma_pattern_reads(toks, p2, pat.node);
        lemma_pattern_begins(toks, p2, pat.node);
        let got = pattern_syntax::pattern_at(toks, p2)->Ok_0.0;
        match label {
            Some(name) => {
                spelling::lemma_word(toks, p1, name, spelling::mark(TokenKind::Colon));
                spelling::lemma_last_mark(toks, p1 + 1, TokenKind::Colon);
                assert(type_syntax::labelled_at(toks, p1) == Some(name));
            },
            None => {
                assert(p1 == p2);
            },
        }
        assert(pattern_syntax::ctor_pat_arg_at(toks, p1) == Ok::<
            ((Option<Text>, Spanned<PatternV>), nat),
            ParseErrorV,
        >(((label, got), p3)));
        let next = acc.push((label, got));
        assert(spelling::bare_pattern_args(next) =~= all.take(i as int + 1)) by {
            assert forall|j: int| 0 <= j < next.len() implies #[trigger] spelling::bare_pattern_args(next)[j]
                == all.take(i as int + 1)[j] by {
                if j < i {
                    assert(spelling::bare_pattern_args(acc)[j] == all.take(i as int)[j]);
                    assert(next[j] == acc[j]);
                }
            }
        }
        lemma_pattern_args_read(toks, p3, args, i + 1, next);
        if i == 0 {
            assert(!cursor::is_at(toks, p, TokenKind::RParen));
            assert(next =~= seq![(label, got)]);
            assert(pattern_syntax::ctor_pat_args_at(toks, p) == pattern_syntax::ctor_pat_args_rest_at(toks, p3, next));
        } else {
            assert(pattern_syntax::ctor_pat_args_rest_at(toks, p, acc) == pattern_syntax::ctor_pat_args_rest_at(toks, p3, next));
        }
    }
}

/// The text of the fields of a record pattern reads as the fields.
#[verifier::spinoff_prover]
#[verifier::rlimit(60)]
proof fn lemma_pattern_fields_read(
    toks: Seq<TokenV>,
    p: nat,
    start: usize,
    fs: Seq<(Text, Spanned<PatternV>)>,
    more: bool,
    i: nat,
    acc: Seq<(Text, Spanned<PatternV>)>,
)
    requires
        i <= fs.len(),
        fs.len() > 0 || more,
        forall|j: int|
            0 <= j < fs.len() ==> !cursor::reserved((#[trigger] fs[j]).0) && fs[j].0 != "_"@
                && spelling::pattern_written(fs[j].1.node),
        spelling::spells(toks, p, spelling::spell_pattern_fields(fs, more, i)),
        cursor::is_at(toks, p + spelling::spell_pattern_fields(fs, more, i).len(), TokenKind::RBrace),
        spelling::bare_pattern_fields(acc) == spelling::bare_pattern_fields(fs).take(i as int),
    ensures
        i == 0 ==> (pattern_syntax::record_pattern_items_at(toks, p, start, acc, false) matches Ok(((v, m), q)) && q
            == p + spelling::spell_pattern_fields(fs, more, i).len() && m == more && spelling::bare_pattern_fields(v)
            == spelling::bare_pattern_fields(fs)),
        i > 0 ==> (pattern_syntax::record_pattern_rest_at(toks, p, start, acc, false) matches Ok(((v, m), q)) && q
            == p + spelling::spell_pattern_fields(fs, more, i).len() && m == more && spelling::bare_pattern_fields(v)
            == spelling::bare_pattern_fields(fs)),
        i == 0 ==> !cursor::is_at(toks, p, TokenKind::RBrace),
    decreases fs, fs.len() - i,
{
    reveal(cursor::kind_is);
    let all = spelling::bare_pattern_fields(fs);
    assert(acc.len() == i) by {
        assert(spelling::bare_pattern_fields(acc).len() == acc.len());
        assert(all.take(i as int).len() == i);
    }
    if i == fs.len() {
        assert(all.take(i as int) =~= all);
        if more {
            spelling::lemma_spells_both(toks, p, spelling::comma_before(i), spelling::word("_"@));
            let p1 = p + spelling::comma_before(i).len();
            if i > 0 {
                assert(toks[p + 0int].kind == spelling::comma_before(i)[0]);
            }
            spelling::lemma_last_word(toks, p1, "_"@);
            assert(pattern_syntax::record_pattern_rest_at(toks, p1 + 1, start, acc, true) == Ok::<
                ((Seq<(Text, Spanned<PatternV>)>, bool), nat),
                ParseErrorV,
            >(((acc, true), p1 + 1)));
            assert(pattern_syntax::record_pattern_items_at(toks, p1, start, acc, false) == pattern_syntax::record_pattern_rest_at(
                toks,
                p1 + 1,
                start,
                acc,
                true,
            ));
        }
    } else {
        let (name, pat) = fs[i as int];
        let others = spelling::spell_pattern_fields(fs, more, i + 1);
        let body = spelling::spell_pattern(pat.node) + others;
        let item = spelling::word(name) + (spelling::mark(TokenKind::Colon) + body);
        spelling::lemma_spells_both(toks, p, spelling::comma_before(i), item);
        let p1 = p + spelling::comma_before(i).len();
        if i > 0 {
            assert(toks[p + 0int].kind == spelling::comma_before(i)[0]);
        }
        spelling::lemma_word(toks, p1, name, spelling::mark(TokenKind::Colon) + body);
        spelling::lemma_mark(toks, p1 + 1, TokenKind::Colon, body);
        let p2 = p1 + 2;
        spelling::lemma_spells_both(toks, p2, spelling::spell_pattern(pat.node), others);
        let p3 = p2 + spelling::spell_pattern(pat.node).len();
        if i + 1 < fs.len() || more {
            assert(spelling::comma_before(i + 1) == spelling::mark(TokenKind::Comma));
            assert(others[0] == spelling::comma_before(i + 1)[0]);
            assert(toks[p3 + 0int].kind == others[0]);
        } else {
            assert(others.len() == 0);
        }
        assert(pattern_ends_at(toks, p3));
        lemma_pattern_reads(toks, p2, pat.node);
        let got = pattern_syntax::pattern_at(toks, p2)->Ok_0.0;
        let next = acc.push((name, got));
        assert(spelling::bare_pattern_fields(next) =~= all.take(i as int + 1)) by {
            assert forall|j: int| 0 <= j < next.len() implies #[trigger] spelling::bare_pattern_fields(
                next,
            )[j] == all.take(i as int + 1)[j] by {
                if j < i {
                    assert(spelling::bare_pattern_fields(acc)[j] == all.take(i as int)[j]);
                    assert(next[j] == acc[j]);
                }
            }
        }
        lemma_pattern_begins(toks, p2, pat.node);
        lemma_pattern_fields_read(toks, p3, start, fs, more, i + 1, next);
        assert(pattern_syntax::record_pattern_items_at(toks, p1, start, acc, false) == pattern_syntax::record_pattern_rest_at(
            toks,
            p3,
            start,
            next,
            false,
        ));
    }
}

// ---------------------------------------------------------------------------
// Expressions
// ---------------------------------------------------------------------------

/// Whether a token can begin an expression.
pub open spec fn begins_expr(k: KindV) -> bool {
    match k {
        KindV::Plain(m) => m is True || m is False || m is Minus || m is LParen || m is Raise
            || m is Ampersand || m is LBracketPipe || m is LBracket || m is LBrace || m is If
            || m is Match || m is Tilde || m is Percent || m is Fn || m is Handler,
        _ => true,
    }
}

/// How the text of an expression begins.
#[verifier::spinoff_prover]
#[verifier::rlimit(40)]
pub proof fn lemma_expr_begins(toks: Seq<TokenV>, p: nat, e: ExprV)
    requires
        spelling::expr_written(e),
        spelling::spells(toks, p, spelling::spell_expr(e)),
        spelling::ends_at(toks, p + spelling::spell_expr(e).len()),
    ensures
        spelling::spell_expr(e).len() > 0,
        p < toks.len(),
        toks[p as int].kind == spelling::spell_expr(e)[0],
        begins_expr(toks[p as int].kind),
        !(e is If || e is Match) ==> toks[p as int].kind != KindV::Plain(TokenKind::If)
            && toks[p as int].kind != KindV::Plain(TokenKind::Match),
        cursor::is_at(toks, p + spelling::spell_expr(e).len(), TokenKind::Comma) || cursor::is_at(
            toks,
            p + spelling::spell_expr(e).len(),
            TokenKind::RParen,
        ) ==> type_syntax::labelled_at(toks, p) is None,
{
    reveal(cursor::kind_is);
    let ks = spelling::spell_expr(e);
    match e {
        ExprV::Literal(l) => {
            assert(spelling::spell_literal(l).len() > 0);
        },
        ExprV::Variable(name, sigil) => {
            lemma_last_sigil(toks, p, sigil, name);
            if !(sigil is Immutable) {
                assert(spelling::spell_sigil(sigil)[0] == ks[0]);
            }
        },
        ExprV::Call { func, args } => {
            let rest = spelling::spell_labelled(args, 0) + spelling::mark(TokenKind::RParen);
            spelling::lemma_word(toks, p, func, spelling::mark(TokenKind::LParen) + rest);
            spelling::lemma_mark(toks, p + 1, TokenKind::LParen, rest);
        },
        ExprV::Constructor(c, args) => {
            if args.len() > 0 {
                let rest = spelling::spell_ctor_args(args, 0) + spelling::mark(TokenKind::RParen);
                spelling::lemma_word(toks, p, c, spelling::mark(TokenKind::LParen) + rest);
                spelling::lemma_mark(toks, p + 1, TokenKind::LParen, rest);
            } else {
                spelling::lemma_last_word(toks, p, c);
            }
        },
        ExprV::Match { target, cases } => {},
        _ => {},
    }
    assert(ks.len() > 0);
    assert(toks[p + 0int].kind == ks[0]);
}

/// An expression in parentheses reads as the expression.
#[verifier::spinoff_prover]
#[verifier::rlimit(40)]
proof fn lemma_parens_read(toks: Seq<TokenV>, p: nat, e: ExprV, rest: Seq<KindV>)
    requires
        spelling::expr_written(e),
        spelling::spells(toks, p, spelling::in_parens(spelling::spell_expr(e)) + rest),
    ensures
        expr_syntax::atom_at(toks, p) matches Ok((v, q)) && q == p + spelling::in_parens(spelling::spell_expr(e)).len() && spelling::bare_expr(
            v.node,
        ) == spelling::bare_expr(e),
        spelling::spells(toks, p + spelling::in_parens(spelling::spell_expr(e)).len(), rest),
        (spelling::in_parens(spelling::spell_expr(e)) + rest).len() == spelling::in_parens(spelling::spell_expr(e)).len() + rest.len(),
        spelling::in_parens(spelling::spell_expr(e)).len() > 0,
    decreases e, 4nat,
{
    reveal(cursor::kind_is);
    reveal(cursor::is_literal);
    let ks = spelling::spell_expr(e);
    let inner = ks + spelling::mark(TokenKind::RParen);
    spelling::lemma_spells_both(toks, p, spelling::in_parens(ks), rest);
    spelling::lemma_mark(toks, p, TokenKind::LParen, inner);
    spelling::lemma_spells_both(toks, p + 1, ks, spelling::mark(TokenKind::RParen));
    spelling::lemma_last_mark(toks, p + 1 + ks.len(), TokenKind::RParen);
    spelling::lemma_plain_end(TokenKind::RParen);
    lemma_expr_begins(toks, p + 1, e);
    lemma_expr_reads(toks, p + 1, e);
    assert(!cursor::is_at(toks, p + 1, TokenKind::RParen));
    assert(expr_syntax::atom_at(toks, p) == expr_syntax::paren_at(toks, p));
}

/// The text of an expression reads as the expression.
#[verifier::spinoff_prover]
#[verifier::rlimit(60)]
pub proof fn lemma_expr_reads(toks: Seq<TokenV>, p: nat, e: ExprV)
    requires
        spelling::expr_written(e),
        spelling::spells(toks, p, spelling::spell_expr(e)),
        spelling::ends_at(toks, p + spelling::spell_expr(e).len()),
    ensures
        expr_syntax::expr_at(toks, p) matches Ok((v, q)) && q == p + spelling::spell_expr(e).len() && spelling::bare_expr(v.node)
            == spelling::bare_expr(e),
    decreases e, 3nat,
{
    let ks = spelling::spell_expr(e);
    let q = p + ks.len();
    match e {
        ExprV::BinaryOp(l, op, r) => {
            reveal(cursor::kind_is);
            let right = spelling::in_parens(spelling::spell_expr(r.node));
            let rest = spelling::mark(spelling::operator_token(op)) + right;
            lemma_parens_read(toks, p, l.node, rest);
            let (lhs, p1) = expr_syntax::atom_at(toks, p)->Ok_0;
            spelling::lemma_mark(toks, p1, spelling::operator_token(op), right);
            assert(right + Seq::<KindV>::empty() =~= right);
            lemma_parens_read(toks, p1 + 1, r.node, Seq::empty());
            let (rhs, p2) = expr_syntax::atom_at(toks, p1 + 1)->Ok_0;
            assert(p2 == q);
            spelling::lemma_atom_is_expr(toks, p1 + 1);
            spelling::lemma_operator(op);
            spelling::lemma_ends_at(toks, q);
            let both = Spanned {
                node: ExprV::BinaryOp(Box::new(lhs), op, Box::new(rhs)),
                span: cursor::span_between(lhs.span.start, rhs.span.end),
            };
            assert(expr_syntax::postfix_rest_at(toks, p1, lhs) == Ok::<(Spanned<ExprV>, nat), ParseErrorV>(
                (lhs, p1),
            ));
            assert(expr_syntax::postfix_expr_at(toks, p) == Ok::<(Spanned<ExprV>, nat), ParseErrorV>((lhs, p1)));
            assert(expr_syntax::prec_expr_at(toks, p1 + 1, expr_syntax::precedence(op) + 1) == Ok::<
                (Spanned<ExprV>, nat),
                ParseErrorV,
            >((rhs, q)));
            assert(expr_syntax::prec_rest_at(toks, q, both, 0) == Ok::<(Spanned<ExprV>, nat), ParseErrorV>(
                (both, q),
            ));
            assert(expr_syntax::prec_rest_at(toks, p1, lhs, 0) == expr_syntax::prec_rest_at(toks, q, both, 0));
            assert(expr_syntax::prec_expr_at(toks, p, 0) == expr_syntax::prec_rest_at(toks, p1, lhs, 0));
        },
        ExprV::Index(l, r) => {
            reveal(cursor::kind_is);
            let inner = spelling::spell_expr(r.node);
            let rest = spelling::mark(TokenKind::LBracket) + (inner + spelling::mark(TokenKind::RBracket));
            lemma_parens_read(toks, p, l.node, rest);
            let (lhs, p1) = expr_syntax::atom_at(toks, p)->Ok_0;
            spelling::lemma_mark(toks, p1, TokenKind::LBracket, inner + spelling::mark(TokenKind::RBracket));
            spelling::lemma_spells_both(toks, p1 + 1, inner, spelling::mark(TokenKind::RBracket));
            let p2 = p1 + 1 + inner.len();
            spelling::lemma_last_mark(toks, p2, TokenKind::RBracket);
            spelling::lemma_plain_end(TokenKind::RBracket);
            lemma_expr_begins(toks, p1 + 1, r.node);
            lemma_expr_reads(toks, p1 + 1, r.node);
            let rhs = expr_syntax::expr_at(toks, p1 + 1)->Ok_0.0;
            let both = Spanned {
                node: ExprV::Index(Box::new(lhs), Box::new(rhs)),
                span: cursor::span_between(lhs.span.start, cursor::end_at(toks, p2)),
            };
            assert(p2 + 1 == q);
            lemma_operand_ends(toks, q, both);
            assert(expr_syntax::postfix_rest_at(toks, p1, lhs) == expr_syntax::postfix_rest_at(toks, q, both));
            lemma_postfix_is_expr(toks, p, both, q);
        },
        ExprV::FieldAccess(x, name) => {
            reveal(cursor::kind_is);
            let rest = spelling::mark(TokenKind::Dot) + spelling::word(name);
            lemma_parens_read(toks, p, x.node, rest);
            let (lhs, p1) = expr_syntax::atom_at(toks, p)->Ok_0;
            spelling::lemma_mark(toks, p1, TokenKind::Dot, spelling::word(name));
            spelling::lemma_last_word(toks, p1 + 1, name);
            let both = Spanned {
                node: ExprV::FieldAccess(Box::new(lhs), name),
                span: cursor::span_between(lhs.span.start, cursor::end_before(toks, q)),
            };
            assert(cursor::ident_at(toks, p1 + 1) == Ok::<(Text, nat), ParseErrorV>((name, q)));
            lemma_operand_ends(toks, q, both);
            assert(expr_syntax::postfix_rest_at(toks, p1, lhs) == expr_syntax::postfix_rest_at(toks, q, both));
            lemma_postfix_is_expr(toks, p, both, q);
        },
        _ => {
            lemma_expr_begins(toks, p, e);
            lemma_atom_reads(toks, p, e);
            spelling::lemma_atom_is_expr(toks, p);
        },
    }
}

/// Nothing follows an operand where an expression ends.
pub proof fn lemma_operand_ends(toks: Seq<TokenV>, q: nat, e: Spanned<ExprV>)
    requires
        spelling::ends_at(toks, q),
    ensures
        expr_syntax::postfix_rest_at(toks, q, e) == Ok::<(Spanned<ExprV>, nat), ParseErrorV>((e, q)),
        forall|min: nat| #[trigger]
            expr_syntax::prec_rest_at(toks, q, e, min) == Ok::<(Spanned<ExprV>, nat), ParseErrorV>((e, q)),
{
    spelling::lemma_ends_at(toks, q);
}

/// An operand with what follows it is the whole expression where it ends.
proof fn lemma_postfix_is_expr(toks: Seq<TokenV>, p: nat, e: Spanned<ExprV>, q: nat)
    requires
        expr_syntax::postfix_expr_at(toks, p) == Ok::<(Spanned<ExprV>, nat), ParseErrorV>((e, q)),
        q > p,
        spelling::ends_at(toks, q),
    ensures
        expr_syntax::expr_at(toks, p) == Ok::<(Spanned<ExprV>, nat), ParseErrorV>((e, q)),
{
    lemma_operand_ends(toks, q, e);
    assert(expr_syntax::prec_expr_at(toks, p, 0) == expr_syntax::prec_rest_at(toks, q, e, 0));
}

/// The text of an expression that is no operator, index or field reads as the expression.
#[verifier::spinoff_prover]
#[verifier::rlimit(80)]
pub proof fn lemma_atom_reads(toks: Seq<TokenV>, p: nat, e: ExprV)
    requires
        spelling::expr_written(e),
        !(e is BinaryOp || e is Index || e is FieldAccess),
        spelling::spells(toks, p, spelling::spell_expr(e)),
        spelling::ends_at(toks, p + spelling::spell_expr(e).len()),
    ensures
        expr_syntax::atom_at(toks, p) matches Ok((v, q)) && q == p + spelling::spell_expr(e).len() && spelling::bare_expr(v.node)
            == spelling::bare_expr(e),
    decreases e, 2nat,
{
    reveal(cursor::kind_is);
    let ks = spelling::spell_expr(e);
    let q = p + ks.len();
    lemma_expr_begins(toks, p, e);
    spelling::lemma_ends_at(toks, q);
    match e {
        ExprV::Literal(l) => {
            if l is Unit {
                reveal(cursor::is_literal);
                spelling::lemma_mark(toks, p, TokenKind::LParen, spelling::mark(TokenKind::RParen));
                spelling::lemma_last_mark(toks, p + 1, TokenKind::RParen);
                assert(expr_syntax::atom_at(toks, p) == expr_syntax::paren_at(toks, p));
            } else {
                lemma_literal(toks, p, l);
                assert(expr_syntax::atom_at(toks, p) == expr_syntax::literal_expr_at(toks, p));
            }
        },
        ExprV::Variable(name, sigil) => {
            reveal(cursor::is_literal);
            lemma_last_sigil(toks, p, sigil, name);
            if sigil is Immutable {
                lemma_name_alone(toks, p, name);
                assert(expr_syntax::atom_at(toks, p) == expr_syntax::name_expr_at(toks, p));
            } else {
                assert(spelling::spell_sigil(sigil)[0] == ks[0]);
                assert(ks[1] == KindV::Ident(name));
                assert(toks[p + 1int].kind == ks[1]);
                assert(expr_syntax::atom_at(toks, p) == expr_syntax::sigil_expr_at(toks, p));
            }
        },
        ExprV::Borrow(name, sigil) => {
            reveal(cursor::is_literal);
            spelling::lemma_mark(toks, p, TokenKind::Ampersand, spelling::spell_sigil(sigil) + spelling::word(name));
            lemma_last_sigil(toks, p + 1, sigil, name);
            assert(expr_syntax::atom_at(toks, p) == expr_syntax::borrow_at(toks, p));
        },
        ExprV::Raise(x) => {
            reveal(cursor::is_literal);
            spelling::lemma_mark(toks, p, TokenKind::Raise, spelling::spell_expr(x.node));
            lemma_expr_begins(toks, p + 1, x.node);
            lemma_expr_reads(toks, p + 1, x.node);
            assert(expr_syntax::atom_at(toks, p) == expr_syntax::raise_at(toks, p));
        },
        ExprV::Call { func, args } => {
            reveal(cursor::is_literal);
            let inner = spelling::spell_labelled(args, 0);
            let rest = inner + spelling::mark(TokenKind::RParen);
            spelling::lemma_word(toks, p, func, spelling::mark(TokenKind::LParen) + rest);
            spelling::lemma_mark(toks, p + 1, TokenKind::LParen, rest);
            spelling::lemma_spells_both(toks, p + 2, inner, spelling::mark(TokenKind::RParen));
            spelling::lemma_last_mark(toks, p + 2 + inner.len(), TokenKind::RParen);
            let none = Seq::<(Text, Spanned<ExprV>)>::empty();
            assert(spelling::bare_labelled(none) =~= spelling::bare_labelled(args).take(0));
            lemma_call_items_read(toks, p + 2, args, 0, none);
            assert(expr_syntax::path_rest_at(toks, p + 1, func, 1) == Ok::<((Text, nat), nat), ParseErrorV>(
                ((func, 1), p + 1),
            ));
            let got = expr_syntax::call_items_at(toks, p + 2)->Ok_0.0;
            assert(expr_syntax::name_expr_at(toks, p) matches Ok((v, r)) && r == q && v.node == ExprV::Call {
                func,
                args: got,
            });
            assert(expr_syntax::atom_at(toks, p) == expr_syntax::name_expr_at(toks, p));
        },
        ExprV::Constructor(c, args) => {
            reveal(cursor::is_literal);
            if args.len() == 0 {
                spelling::lemma_last_word(toks, p, c);
                assert(expr_syntax::path_rest_at(toks, p + 1, c, 1) == Ok::<((Text, nat), nat), ParseErrorV>(
                    ((c, 1), p + 1),
                ));
                assert(expr_syntax::name_expr_at(toks, p) matches Ok((v, r)) && r == q && v.node
                    == ExprV::Constructor(c, Seq::empty()));
                assert(args =~= Seq::empty());
            } else {
                let inner = spelling::spell_ctor_args(args, 0);
                let rest = inner + spelling::mark(TokenKind::RParen);
                spelling::lemma_word(toks, p, c, spelling::mark(TokenKind::LParen) + rest);
                spelling::lemma_mark(toks, p + 1, TokenKind::LParen, rest);
                spelling::lemma_spells_both(toks, p + 2, inner, spelling::mark(TokenKind::RParen));
                spelling::lemma_last_mark(toks, p + 2 + inner.len(), TokenKind::RParen);
                let none = Seq::<(Option<Text>, Spanned<ExprV>)>::empty();
                assert(spelling::bare_ctor_args(none) =~= spelling::bare_ctor_args(args).take(0));
                lemma_ctor_items_read(toks, p + 2, args, 0, none);
                assert(expr_syntax::path_rest_at(toks, p + 1, c, 1) == Ok::<((Text, nat), nat), ParseErrorV>(
                    ((c, 1), p + 1),
                ));
                let got = expr_syntax::ctor_items_at(toks, p + 2)->Ok_0.0;
                assert(expr_syntax::name_expr_at(toks, p) matches Ok((v, r)) && r == q && v.node
                    == ExprV::Constructor(c, got));
            }
            assert(expr_syntax::atom_at(toks, p) == expr_syntax::name_expr_at(toks, p));
        },
        ExprV::Record(fs) => {
            reveal(cursor::is_literal);
            let inner = spelling::spell_labelled(fs, 0);
            spelling::lemma_mark(toks, p, TokenKind::LBrace, inner + spelling::mark(TokenKind::RBrace));
            spelling::lemma_spells_both(toks, p + 1, inner, spelling::mark(TokenKind::RBrace));
            spelling::lemma_last_mark(toks, p + 1 + inner.len(), TokenKind::RBrace);
            let none = Seq::<(Text, Spanned<ExprV>)>::empty();
            assert(spelling::bare_labelled(none) =~= spelling::bare_labelled(fs).take(0));
            lemma_record_fields_read(toks, p + 1, fs, 0, none);
            assert(expr_syntax::atom_at(toks, p) == expr_syntax::record_expr_at(toks, p));
        },
        ExprV::Array(es) => {
            reveal(cursor::is_literal);
            let inner = spelling::spell_exprs(es, 0);
            spelling::lemma_mark(toks, p, TokenKind::LBracketPipe, inner + spelling::mark(TokenKind::RBracketPipe));
            spelling::lemma_spells_both(toks, p + 1, inner, spelling::mark(TokenKind::RBracketPipe));
            spelling::lemma_last_mark(toks, p + 1 + inner.len(), TokenKind::RBracketPipe);
            let none = Seq::<Spanned<ExprV>>::empty();
            assert(spelling::bare_exprs(none) =~= spelling::bare_exprs(es).take(0));
            lemma_array_items_read(toks, p + 1, es, 0, none);
            assert(expr_syntax::atom_at(toks, p) == expr_syntax::array_expr_at(toks, p));
        },
        ExprV::List(es) => {
            reveal(cursor::is_literal);
            let inner = spelling::spell_exprs(es, 0);
            spelling::lemma_mark(toks, p, TokenKind::LBracket, inner + spelling::mark(TokenKind::RBracket));
            spelling::lemma_spells_both(toks, p + 1, inner, spelling::mark(TokenKind::RBracket));
            spelling::lemma_last_mark(toks, p + 1 + inner.len(), TokenKind::RBracket);
            let none = Seq::<Spanned<ExprV>>::empty();
            assert(spelling::bare_exprs(none) =~= spelling::bare_exprs(es).take(0));
            lemma_list_items_read(toks, p + 1, es, 0, none);
            assert(expr_syntax::atom_at(toks, p) == expr_syntax::list_expr_at(toks, p));
        },
        ExprV::If { cond, then_branch, else_branch } => {
            reveal(cursor::is_literal);
            lemma_if_reads(toks, p, e);
            assert(expr_syntax::atom_at(toks, p) == expr_syntax::if_expr_at(toks, p));
        },
        ExprV::Match { target, cases } => {
            reveal(cursor::is_literal);
            if spelling::are_branches(cases) {
                lemma_branches_read(toks, p, e);
                assert(expr_syntax::atom_at(toks, p) == expr_syntax::if_expr_at(toks, p));
            } else {
                lemma_match_reads(toks, p, e, false);
                assert(expr_syntax::atom_at(toks, p) == expr_syntax::match_expr_at(toks, p, false));
            }
        },
        ExprV::Lambda { type_params: _, params: _, ret_type: _, requires: _, throws: _, body: _ } => {
            reveal(cursor::is_literal);
            lemma_lambda_reads(toks, p, e);
            assert(expr_syntax::atom_at(toks, p) == expr_syntax::lambda_at(toks, p));
        },
        ExprV::Handler { coeffect_name: _, requires: _, functions: _ } => {
            reveal(cursor::is_literal);
            lemma_handler_reads(toks, p, e);
            assert(expr_syntax::atom_at(toks, p) == expr_syntax::handler_expr_at(toks, p));
        },
        _ => {},
    }
}

/// A name alone reads as a variable.
proof fn lemma_name_alone(toks: Seq<TokenV>, p: nat, name: Text)
    requires
        spelling::variable_name(name),
        p < toks.len(),
        toks[p as int].kind == KindV::Ident(name),
        spelling::ends_at(toks, p + 1),
    ensures
        expr_syntax::name_expr_at(toks, p) matches Ok((v, q)) && q == p + 1 && v.node == ExprV::Variable(
            name,
            Sigil::Immutable,
        ),
{
    spelling::lemma_ends_at(toks, p + 1);
    assert(expr_syntax::path_rest_at(toks, p + 1, name, 1) == Ok::<((Text, nat), nat), ParseErrorV>(
        ((name, 1), p + 1),
    ));
}

/// The text of the items of a list reads as the items.
#[verifier::spinoff_prover]
#[verifier::rlimit(60)]
proof fn lemma_call_items_read(
    toks: Seq<TokenV>,
    p: nat,
    xs: Seq<(Text, Spanned<ExprV>)>,
    i: nat,
    acc: Seq<(Text, Spanned<ExprV>)>,
)
    requires
        i <= xs.len(),
        spelling::labelled_written(xs),
        spelling::spells(toks, p, spelling::spell_labelled(xs, i)),
        cursor::is_at(toks, p + spelling::spell_labelled(xs, i).len(), TokenKind::RParen),
        spelling::bare_labelled(acc) == spelling::bare_labelled(xs).take(i as int),
    ensures
        i == 0 ==> (expr_syntax::call_items_at(toks, p) matches Ok((v, q)) && q == p + spelling::spell_labelled(xs, i).len()
            && spelling::bare_labelled(v) == spelling::bare_labelled(xs)),
        i > 0 ==> (expr_syntax::call_items_rest_at(toks, p, acc) matches Ok((v, q)) && q == p + spelling::spell_labelled(
            xs,
            i,
        ).len() && spelling::bare_labelled(v) == spelling::bare_labelled(xs)),
    decreases xs, xs.len() - i,
{
    reveal(cursor::kind_is);
    let all = spelling::bare_labelled(xs);
    assert(acc.len() == i) by {
        assert(spelling::bare_labelled(acc).len() == acc.len());
        assert(all.take(i as int).len() == i);
    }
    if i == xs.len() {
        assert(all.take(i as int) =~= all);
        if i == 0 {
            assert(spelling::bare_labelled(Seq::<(Text, Spanned<ExprV>)>::empty()) =~= all);
        }
    } else {
        let x = xs[i as int];
        let more = spelling::spell_labelled(xs, i + 1);
        let p1 = p + spelling::comma_before(i).len();
        let body = spelling::spell_expr(x.1.node) + more;
        spelling::lemma_spells_both(toks, p, spelling::comma_before(i), spelling::spell_label(Some(x.0)) + body);
        spelling::lemma_spells_both(toks, p1, spelling::spell_label(Some(x.0)), body);
        let p2 = p1 + spelling::spell_label(Some(x.0)).len();
        spelling::lemma_spells_both(toks, p2, spelling::spell_expr(x.1.node), more);
        let p3 = p2 + spelling::spell_expr(x.1.node).len();
        if i > 0 {
            assert(toks[p + 0int].kind == spelling::comma_before(i)[0]);
        }
        if i + 1 < xs.len() {
            assert(spelling::comma_before(i + 1) == spelling::mark(TokenKind::Comma));
            assert(more[0] == spelling::comma_before(i + 1)[0]);
            assert(toks[p3 + 0int].kind == more[0]);
            spelling::lemma_plain_end(TokenKind::Comma);
        } else {
            assert(more.len() == 0);
            spelling::lemma_plain_end(TokenKind::RParen);
        }
        assert(spelling::ends_at(toks, p3));
        lemma_expr_begins(toks, p2, x.1.node);
        lemma_expr_reads(toks, p2, x.1.node);
        let got = expr_syntax::expr_at(toks, p2)->Ok_0.0;
        let v = (x.0, got);
        spelling::lemma_word(toks, p1, x.0, spelling::mark(TokenKind::Colon));
        spelling::lemma_last_mark(toks, p1 + 1, TokenKind::Colon);
        assert(expr_syntax::labelled_expr_at(toks, p1) == Ok::<((Text, Spanned<ExprV>), nat), ParseErrorV>(
            (v, p3),
        ));
        let next = acc.push(v);
        assert(spelling::bare_labelled(next) =~= all.take(i as int + 1)) by {
            assert forall|j: int| 0 <= j < next.len() implies #[trigger] spelling::bare_labelled(next)[j]
                == all.take(i as int + 1)[j] by {
                if j < i {
                    assert(spelling::bare_labelled(acc)[j] == all.take(i as int)[j]);
                    assert(next[j] == acc[j]);
                }
            }
        }
        lemma_call_items_read(toks, p3, xs, i + 1, next);
        if i == 0 {
            assert(!cursor::is_at(toks, p, TokenKind::RParen));
            assert(next =~= seq![v]);
            assert(expr_syntax::call_items_at(toks, p) == expr_syntax::call_items_rest_at(toks, p3, next));
        } else {
            assert(!cursor::is_at(toks, p + 1, TokenKind::RParen));
            assert(expr_syntax::call_items_rest_at(toks, p, acc) == expr_syntax::call_items_rest_at(toks, p3, next));
        }
    }
}

/// The text of the items of a list reads as the items.
#[verifier::spinoff_prover]
#[verifier::rlimit(60)]
proof fn lemma_record_fields_read(
    toks: Seq<TokenV>,
    p: nat,
    xs: Seq<(Text, Spanned<ExprV>)>,
    i: nat,
    acc: Seq<(Text, Spanned<ExprV>)>,
)
    requires
        i <= xs.len(),
        spelling::labelled_written(xs),
        spelling::spells(toks, p, spelling::spell_labelled(xs, i)),
        cursor::is_at(toks, p + spelling::spell_labelled(xs, i).len(), TokenKind::RBrace),
        spelling::bare_labelled(acc) == spelling::bare_labelled(xs).take(i as int),
    ensures
        i == 0 ==> (expr_syntax::record_fields_at(toks, p) matches Ok((v, q)) && q == p + spelling::spell_labelled(xs, i).len()
            && spelling::bare_labelled(v) == spelling::bare_labelled(xs)),
        i > 0 ==> (expr_syntax::record_fields_rest_at(toks, p, acc) matches Ok((v, q)) && q == p + spelling::spell_labelled(
            xs,
            i,
        ).len() && spelling::bare_labelled(v) == spelling::bare_labelled(xs)),
    decreases xs, xs.len() - i,
{
    reveal(cursor::kind_is);
    let all = spelling::bare_labelled(xs);
    assert(acc.len() == i) by {
        assert(spelling::bare_labelled(acc).len() == acc.len());
        assert(all.take(i as int).len() == i);
    }
    if i == xs.len() {
        assert(all.take(i as int) =~= all);
        if i == 0 {
            assert(spelling::bare_labelled(Seq::<(Text, Spanned<ExprV>)>::empty()) =~= all);
        }
    } else {
        let x = xs[i as int];
        let more = spelling::spell_labelled(xs, i + 1);
        let p1 = p + spelling::comma_before(i).len();
        let body = spelling::spell_expr(x.1.node) + more;
        spelling::lemma_spells_both(toks, p, spelling::comma_before(i), spelling::spell_label(Some(x.0)) + body);
        spelling::lemma_spells_both(toks, p1, spelling::spell_label(Some(x.0)), body);
        let p2 = p1 + spelling::spell_label(Some(x.0)).len();
        spelling::lemma_spells_both(toks, p2, spelling::spell_expr(x.1.node), more);
        let p3 = p2 + spelling::spell_expr(x.1.node).len();
        if i > 0 {
            assert(toks[p + 0int].kind == spelling::comma_before(i)[0]);
        }
        if i + 1 < xs.len() {
            assert(spelling::comma_before(i + 1) == spelling::mark(TokenKind::Comma));
            assert(more[0] == spelling::comma_before(i + 1)[0]);
            assert(toks[p3 + 0int].kind == more[0]);
            spelling::lemma_plain_end(TokenKind::Comma);
        } else {
            assert(more.len() == 0);
            spelling::lemma_plain_end(TokenKind::RBrace);
        }
        assert(spelling::ends_at(toks, p3));
        lemma_expr_begins(toks, p2, x.1.node);
        lemma_expr_reads(toks, p2, x.1.node);
        let got = expr_syntax::expr_at(toks, p2)->Ok_0.0;
        let v = (x.0, got);
        spelling::lemma_word(toks, p1, x.0, spelling::mark(TokenKind::Colon));
        spelling::lemma_last_mark(toks, p1 + 1, TokenKind::Colon);
        assert(expr_syntax::labelled_expr_at(toks, p1) == Ok::<((Text, Spanned<ExprV>), nat), ParseErrorV>(
            (v, p3),
        ));
        let next = acc.push(v);
        assert(spelling::bare_labelled(next) =~= all.take(i as int + 1)) by {
            assert forall|j: int| 0 <= j < next.len() implies #[trigger] spelling::bare_labelled(next)[j]
                == all.take(i as int + 1)[j] by {
                if j < i {
                    assert(spelling::bare_labelled(acc)[j] == all.take(i as int)[j]);
                    assert(next[j] == acc[j]);
                }
            }
        }
        lemma_record_fields_read(toks, p3, xs, i + 1, next);
        if i == 0 {
            assert(!cursor::is_at(toks, p, TokenKind::RBrace));
            assert(next =~= seq![v]);
            assert(expr_syntax::record_fields_at(toks, p) == expr_syntax::record_fields_rest_at(toks, p3, next));
        } else {
            assert(!cursor::is_at(toks, p + 1, TokenKind::RBrace));
            assert(expr_syntax::record_fields_rest_at(toks, p, acc) == expr_syntax::record_fields_rest_at(toks, p3, next));
        }
    }
}

/// The text of the items of a list reads as the items.
#[verifier::spinoff_prover]
#[verifier::rlimit(60)]
proof fn lemma_ctor_items_read(
    toks: Seq<TokenV>,
    p: nat,
    xs: Seq<(Option<Text>, Spanned<ExprV>)>,
    i: nat,
    acc: Seq<(Option<Text>, Spanned<ExprV>)>,
)
    requires
        i <= xs.len(),
        spelling::ctor_args_written(xs),
        spelling::spells(toks, p, spelling::spell_ctor_args(xs, i)),
        cursor::is_at(toks, p + spelling::spell_ctor_args(xs, i).len(), TokenKind::RParen),
        spelling::bare_ctor_args(acc) == spelling::bare_ctor_args(xs).take(i as int),
    ensures
        i == 0 ==> (expr_syntax::ctor_items_at(toks, p) matches Ok((v, q)) && q == p + spelling::spell_ctor_args(xs, i).len()
            && spelling::bare_ctor_args(v) == spelling::bare_ctor_args(xs)),
        i > 0 ==> (expr_syntax::ctor_items_rest_at(toks, p, acc) matches Ok((v, q)) && q == p + spelling::spell_ctor_args(
            xs,
            i,
        ).len() && spelling::bare_ctor_args(v) == spelling::bare_ctor_args(xs)),
    decreases xs, xs.len() - i,
{
    reveal(cursor::kind_is);
    let all = spelling::bare_ctor_args(xs);
    assert(acc.len() == i) by {
        assert(spelling::bare_ctor_args(acc).len() == acc.len());
        assert(all.take(i as int).len() == i);
    }
    if i == xs.len() {
        assert(all.take(i as int) =~= all);
        if i == 0 {
            assert(spelling::bare_ctor_args(Seq::<(Option<Text>, Spanned<ExprV>)>::empty()) =~= all);
        }
    } else {
        let x = xs[i as int];
        let more = spelling::spell_ctor_args(xs, i + 1);
        let p1 = p + spelling::comma_before(i).len();
        let body = spelling::spell_expr(x.1.node) + more;
        spelling::lemma_spells_both(toks, p, spelling::comma_before(i), spelling::spell_label(x.0) + body);
        spelling::lemma_spells_both(toks, p1, spelling::spell_label(x.0), body);
        let p2 = p1 + spelling::spell_label(x.0).len();
        spelling::lemma_spells_both(toks, p2, spelling::spell_expr(x.1.node), more);
        let p3 = p2 + spelling::spell_expr(x.1.node).len();
        if i > 0 {
            assert(toks[p + 0int].kind == spelling::comma_before(i)[0]);
        }
        if i + 1 < xs.len() {
            assert(spelling::comma_before(i + 1) == spelling::mark(TokenKind::Comma));
            assert(more[0] == spelling::comma_before(i + 1)[0]);
            assert(toks[p3 + 0int].kind == more[0]);
            spelling::lemma_plain_end(TokenKind::Comma);
        } else {
            assert(more.len() == 0);
            spelling::lemma_plain_end(TokenKind::RParen);
        }
        assert(spelling::ends_at(toks, p3));
        lemma_expr_begins(toks, p2, x.1.node);
        lemma_expr_reads(toks, p2, x.1.node);
        let got = expr_syntax::expr_at(toks, p2)->Ok_0.0;
        let v = (x.0, got);
        match x.0 {
            Some(name) => {
                spelling::lemma_word(toks, p1, name, spelling::mark(TokenKind::Colon));
                spelling::lemma_last_mark(toks, p1 + 1, TokenKind::Colon);
                assert(type_syntax::labelled_at(toks, p1) == Some(name));
            },
            None => {
                assert(p1 == p2);
            },
        }
        assert(expr_syntax::ctor_arg_at(toks, p1) == Ok::<((Option<Text>, Spanned<ExprV>), nat), ParseErrorV>(
            (v, p3),
        ));
        let next = acc.push(v);
        assert(spelling::bare_ctor_args(next) =~= all.take(i as int + 1)) by {
            assert forall|j: int| 0 <= j < next.len() implies #[trigger] spelling::bare_ctor_args(next)[j]
                == all.take(i as int + 1)[j] by {
                if j < i {
                    assert(spelling::bare_ctor_args(acc)[j] == all.take(i as int)[j]);
                    assert(next[j] == acc[j]);
                }
            }
        }
        lemma_ctor_items_read(toks, p3, xs, i + 1, next);
        if i == 0 {
            assert(!cursor::is_at(toks, p, TokenKind::RParen));
            assert(next =~= seq![v]);
            assert(expr_syntax::ctor_items_at(toks, p) == expr_syntax::ctor_items_rest_at(toks, p3, next));
        } else {
            assert(!cursor::is_at(toks, p + 1, TokenKind::RParen));
            assert(expr_syntax::ctor_items_rest_at(toks, p, acc) == expr_syntax::ctor_items_rest_at(toks, p3, next));
        }
    }
}

/// The text of the items of a list reads as the items.
#[verifier::spinoff_prover]
#[verifier::rlimit(60)]
proof fn lemma_array_items_read(
    toks: Seq<TokenV>,
    p: nat,
    xs: Seq<Spanned<ExprV>>,
    i: nat,
    acc: Seq<Spanned<ExprV>>,
)
    requires
        i <= xs.len(),
        spelling::exprs_written(xs),
        spelling::spells(toks, p, spelling::spell_exprs(xs, i)),
        cursor::is_at(toks, p + spelling::spell_exprs(xs, i).len(), TokenKind::RBracketPipe),
        spelling::bare_exprs(acc) == spelling::bare_exprs(xs).take(i as int),
    ensures
        i == 0 ==> (expr_syntax::array_items_at(toks, p) matches Ok((v, q)) && q == p + spelling::spell_exprs(xs, i).len()
            && spelling::bare_exprs(v) == spelling::bare_exprs(xs)),
        i > 0 ==> (expr_syntax::array_items_rest_at(toks, p, acc) matches Ok((v, q)) && q == p + spelling::spell_exprs(
            xs,
            i,
        ).len() && spelling::bare_exprs(v) == spelling::bare_exprs(xs)),
    decreases xs, xs.len() - i,
{
    reveal(cursor::kind_is);
    let all = spelling::bare_exprs(xs);
    assert(acc.len() == i) by {
        assert(spelling::bare_exprs(acc).len() == acc.len());
        assert(all.take(i as int).len() == i);
    }
    if i == xs.len() {
        assert(all.take(i as int) =~= all);
        if i == 0 {
            assert(spelling::bare_exprs(Seq::<Spanned<ExprV>>::empty()) =~= all);
        }
    } else {
        let x = xs[i as int];
        let more = spelling::spell_exprs(xs, i + 1);
        let p1 = p + spelling::comma_before(i).len();
        let body = spelling::spell_expr(x.node) + more;
        spelling::lemma_spells_both(toks, p, spelling::comma_before(i), body);
        let p2 = p1;
        spelling::lemma_spells_both(toks, p2, spelling::spell_expr(x.node), more);
        let p3 = p2 + spelling::spell_expr(x.node).len();
        if i > 0 {
            assert(toks[p + 0int].kind == spelling::comma_before(i)[0]);
        }
        if i + 1 < xs.len() {
            assert(spelling::comma_before(i + 1) == spelling::mark(TokenKind::Comma));
            assert(more[0] == spelling::comma_before(i + 1)[0]);
            assert(toks[p3 + 0int].kind == more[0]);
            spelling::lemma_plain_end(TokenKind::Comma);
        } else {
            assert(more.len() == 0);
            spelling::lemma_plain_end(TokenKind::RBracketPipe);
        }
        assert(spelling::ends_at(toks, p3));
        lemma_expr_begins(toks, p2, x.node);
        lemma_expr_reads(toks, p2, x.node);
        let got = expr_syntax::expr_at(toks, p2)->Ok_0.0;
        let v = got;
        let next = acc.push(v);
        assert(spelling::bare_exprs(next) =~= all.take(i as int + 1)) by {
            assert forall|j: int| 0 <= j < next.len() implies #[trigger] spelling::bare_exprs(next)[j]
                == all.take(i as int + 1)[j] by {
                if j < i {
                    assert(spelling::bare_exprs(acc)[j] == all.take(i as int)[j]);
                    assert(next[j] == acc[j]);
                }
            }
        }
        lemma_array_items_read(toks, p3, xs, i + 1, next);
        if i == 0 {
            assert(!cursor::is_at(toks, p, TokenKind::RBracketPipe));
            assert(next =~= seq![v]);
            assert(expr_syntax::array_items_at(toks, p) == expr_syntax::array_items_rest_at(toks, p3, next));
        } else {
            assert(!cursor::is_at(toks, p + 1, TokenKind::RBracketPipe));
            assert(expr_syntax::array_items_rest_at(toks, p, acc) == expr_syntax::array_items_rest_at(toks, p3, next));
        }
    }
}

/// The text of the items of a list reads as the items.
#[verifier::spinoff_prover]
#[verifier::rlimit(60)]
proof fn lemma_list_items_read(
    toks: Seq<TokenV>,
    p: nat,
    xs: Seq<Spanned<ExprV>>,
    i: nat,
    acc: Seq<Spanned<ExprV>>,
)
    requires
        i <= xs.len(),
        spelling::exprs_written(xs),
        spelling::spells(toks, p, spelling::spell_exprs(xs, i)),
        cursor::is_at(toks, p + spelling::spell_exprs(xs, i).len(), TokenKind::RBracket),
        spelling::bare_exprs(acc) == spelling::bare_exprs(xs).take(i as int),
    ensures
        i == 0 ==> (expr_syntax::list_items_at(toks, p) matches Ok((v, q)) && q == p + spelling::spell_exprs(xs, i).len()
            && spelling::bare_exprs(v) == spelling::bare_exprs(xs)),
        i > 0 ==> (expr_syntax::list_items_rest_at(toks, p, acc) matches Ok((v, q)) && q == p + spelling::spell_exprs(
            xs,
            i,
        ).len() && spelling::bare_exprs(v) == spelling::bare_exprs(xs)),
    decreases xs, xs.len() - i,
{
    reveal(cursor::kind_is);
    let all = spelling::bare_exprs(xs);
    assert(acc.len() == i) by {
        assert(spelling::bare_exprs(acc).len() == acc.len());
        assert(all.take(i as int).len() == i);
    }
    if i == xs.len() {
        assert(all.take(i as int) =~= all);
        if i == 0 {
            assert(spelling::bare_exprs(Seq::<Spanned<ExprV>>::empty()) =~= all);
        }
    } else {
        let x = xs[i as int];
        let more = spelling::spell_exprs(xs, i + 1);
        let p1 = p + spelling::comma_before(i).len();
        let body = spelling::spell_expr(x.node) + more;
        spelling::lemma_spells_both(toks, p, spelling::comma_before(i), body);
        let p2 = p1;
        spelling::lemma_spells_both(toks, p2, spelling::spell_expr(x.node), more);
        let p3 = p2 + spelling::spell_expr(x.node).len();
        if i > 0 {
            assert(toks[p + 0int].kind == spelling::comma_before(i)[0]);
        }
        if i + 1 < xs.len() {
            assert(spelling::comma_before(i + 1) == spelling::mark(TokenKind::Comma));
            assert(more[0] == spelling::comma_before(i + 1)[0]);
            assert(toks[p3 + 0int].kind == more[0]);
            spelling::lemma_plain_end(TokenKind::Comma);
        } else {
            assert(more.len() == 0);
            spelling::lemma_plain_end(TokenKind::RBracket);
        }
        assert(spelling::ends_at(toks, p3));
        lemma_expr_begins(toks, p2, x.node);
        lemma_expr_reads(toks, p2, x.node);
        let got = expr_syntax::expr_at(toks, p2)->Ok_0.0;
        let v = got;
        let next = acc.push(v);
        assert(spelling::bare_exprs(next) =~= all.take(i as int + 1)) by {
            assert forall|j: int| 0 <= j < next.len() implies #[trigger] spelling::bare_exprs(next)[j]
                == all.take(i as int + 1)[j] by {
                if j < i {
                    assert(spelling::bare_exprs(acc)[j] == all.take(i as int)[j]);
                    assert(next[j] == acc[j]);
                }
            }
        }
        lemma_list_items_read(toks, p3, xs, i + 1, next);
        if i == 0 {
            assert(!cursor::is_at(toks, p, TokenKind::RBracket));
            assert(next =~= seq![v]);
            assert(expr_syntax::list_items_at(toks, p) == expr_syntax::list_items_rest_at(toks, p3, next));
        } else {
            assert(!cursor::is_at(toks, p + 1, TokenKind::RBracket));
            assert(expr_syntax::list_items_rest_at(toks, p, acc) == expr_syntax::list_items_rest_at(toks, p3, next));
        }
    }
}


// ---------------------------------------------------------------------------
// Branches, matches and loops
// ---------------------------------------------------------------------------

/// A branch without an `else` reads as the branch.
#[verifier::spinoff_prover]
#[verifier::rlimit(60)]
proof fn lemma_if_reads(toks: Seq<TokenV>, p: nat, e: ExprV)
    requires
        e is If,
        spelling::expr_written(e),
        spelling::spells(toks, p, spelling::spell_expr(e)),
    ensures
        expr_syntax::if_expr_at(toks, p) matches Ok((v, q)) && q == p + spelling::spell_expr(e).len() && spelling::bare_expr(v.node)
            == spelling::bare_expr(e),
    decreases e, 1nat,
{
    reveal(cursor::kind_is);
    match e {
        ExprV::If { cond, then_branch, else_branch } => {
            let c = spelling::spell_expr(cond.node);
            let yes = spelling::spell_stmts(then_branch, 0);
            let t3 = yes + spelling::mark(TokenKind::End);
            let t2 = spelling::word("then"@) + t3;
            let t1 = c + t2;
            spelling::lemma_mark(toks, p, TokenKind::If, t1);
            spelling::lemma_spells_both(toks, p + 1, c, t2);
            let p1 = p + 1 + c.len();
            spelling::lemma_word(toks, p1, "then"@, t3);
            spelling::lemma_spells_both(toks, p1 + 1, yes, spelling::mark(TokenKind::End));
            let p2 = p1 + 1 + yes.len();
            spelling::lemma_last_mark(toks, p2, TokenKind::End);
            assert(spelling::ends_at(toks, p1));
            lemma_expr_begins(toks, p + 1, cond.node);
            lemma_expr_reads(toks, p + 1, cond.node);
            let none = Seq::<Spanned<StmtV>>::empty();
            assert(spelling::bare_stmts(none) =~= spelling::bare_stmts(then_branch).take(0));
            lemma_stmts_read(toks, p1 + 1, then_branch, 0, none);
            let (got_c, r1) = expr_syntax::expr_at(toks, p + 1)->Ok_0;
            let (got_y, r2) = expr_syntax::stmts_at(toks, p1 + 1, none)->Ok_0;
            assert(r1 == p1 && r2 == p2);
            assert(!cursor::is_at(toks, p2, TokenKind::Else));
            assert(expr_syntax::if_expr_at(toks, p) matches Ok((v, q)) && q == p2 + 1 && v.node == ExprV::If {
                cond: Box::new(got_c),
                then_branch: got_y,
                else_branch: None,
            });
        },
        _ => {},
    }
}

/// A branch with an `else` reads as the match on the truth value: the statements behind `then`
/// are those of the case for true, and the statements behind `else` those of the case for false.
#[verifier::spinoff_prover]
#[verifier::rlimit(60)]
proof fn lemma_branches_read(toks: Seq<TokenV>, p: nat, e: ExprV)
    requires
        e is Match,
        spelling::are_branches(e->Match_cases),
        spelling::expr_written(e),
        spelling::spells(toks, p, spelling::spell_expr(e)),
    ensures
        expr_syntax::if_expr_at(toks, p) matches Ok((v, q)) && q == p + spelling::spell_expr(e).len() && spelling::bare_expr(v.node)
            == spelling::bare_expr(e),
    decreases e, 1nat,
{
    reveal(cursor::kind_is);
    match e {
        ExprV::Match { target, cases } => {
            let c = spelling::spell_expr(target.node);
            let yes = spelling::spell_stmts(cases[0].body, 0);
            let no = spelling::spell_stmts(cases[1].body, 0);
            let t5 = no + spelling::mark(TokenKind::End);
            let t4 = spelling::mark(TokenKind::Else) + t5;
            let t3 = yes + t4;
            let t2 = spelling::word("then"@) + t3;
            let t1 = c + t2;
            spelling::lemma_mark(toks, p, TokenKind::If, t1);
            spelling::lemma_spells_both(toks, p + 1, c, t2);
            let p1 = p + 1 + c.len();
            spelling::lemma_word(toks, p1, "then"@, t3);
            spelling::lemma_spells_both(toks, p1 + 1, yes, t4);
            let p2 = p1 + 1 + yes.len();
            spelling::lemma_mark(toks, p2, TokenKind::Else, t5);
            spelling::lemma_spells_both(toks, p2 + 1, no, spelling::mark(TokenKind::End));
            let p3 = p2 + 1 + no.len();
            spelling::lemma_last_mark(toks, p3, TokenKind::End);
            assert(spelling::ends_at(toks, p1));
            lemma_expr_begins(toks, p + 1, target.node);
            lemma_expr_reads(toks, p + 1, target.node);
            let none = Seq::<Spanned<StmtV>>::empty();
            assert(spelling::cases_written(cases));
            assert(spelling::stmts_written(cases[0].body));
            assert(spelling::stmts_written(cases[1].body));
            assert(spelling::bare_stmts(none) =~= spelling::bare_stmts(cases[0].body).take(0));
            assert(spelling::bare_stmts(none) =~= spelling::bare_stmts(cases[1].body).take(0));
            lemma_stmts_read(toks, p1 + 1, cases[0].body, 0, none);
            lemma_stmts_read(toks, p2 + 1, cases[1].body, 0, none);
            let (got_c, r1) = expr_syntax::expr_at(toks, p + 1)->Ok_0;
            let (got_y, r2) = expr_syntax::stmts_at(toks, p1 + 1, none)->Ok_0;
            let (got_n, r3) = expr_syntax::stmts_at(toks, p2 + 1, none)->Ok_0;
            assert(r1 == p1 && r2 == p2 && r3 == p3);
            assert(expr_syntax::if_expr_at(toks, p) matches Ok((v, q)) && q == p3 + 1 && v == expr_syntax::bool_match(
                got_c,
                got_y,
                got_n,
                v.span,
            ));
            let v = expr_syntax::if_expr_at(toks, p)->Ok_0.0;
            let got = v.node->Match_cases;
            assert(spelling::bare_cases(got) =~= spelling::bare_cases(cases)) by {
                assert(spelling::bare_cases(got)[0] == spelling::bare_cases(cases)[0]);
                assert(spelling::bare_cases(got)[1] == spelling::bare_cases(cases)[1]);
            }
        },
        _ => {},
    }
}

/// A match reads as the match.
#[verifier::spinoff_prover]
#[verifier::rlimit(60)]
proof fn lemma_match_reads(toks: Seq<TokenV>, p: nat, e: ExprV, strict: bool)
    requires
        e is Match,
        !spelling::are_branches(e->Match_cases),
        spelling::expr_written(e),
        spelling::spells(toks, p, spelling::spell_expr(e)),
    ensures
        expr_syntax::match_expr_at(toks, p, strict) matches Ok((v, q)) && q == p + spelling::spell_expr(e).len()
            && spelling::bare_expr(v.node) == spelling::bare_expr(e),
    decreases e, 1nat,
{
    reveal(cursor::kind_is);
    match e {
        ExprV::Match { target, cases } => {
            let c = spelling::spell_expr(target.node);
            let inner = spelling::spell_cases(cases, 0);
            let t3 = inner + spelling::mark(TokenKind::End);
            let t2 = spelling::mark(TokenKind::Do) + t3;
            spelling::lemma_mark(toks, p, TokenKind::Match, c + t2);
            spelling::lemma_spells_both(toks, p + 1, c, t2);
            let p1 = p + 1 + c.len();
            spelling::lemma_mark(toks, p1, TokenKind::Do, t3);
            spelling::lemma_spells_both(toks, p1 + 1, inner, spelling::mark(TokenKind::End));
            let p2 = p1 + 1 + inner.len();
            spelling::lemma_last_mark(toks, p2, TokenKind::End);
            spelling::lemma_plain_end(TokenKind::Do);
            lemma_expr_begins(toks, p + 1, target.node);
            lemma_expr_reads(toks, p + 1, target.node);
            let none = Seq::<MatchCaseV>::empty();
            assert(spelling::bare_cases(none) =~= spelling::bare_cases(cases).take(0));
            lemma_cases_read(toks, p1 + 1, cases, 0, none);
            let (got_c, r1) = expr_syntax::expr_at(toks, p + 1)->Ok_0;
            let (got, r2) = expr_syntax::cases_at(toks, p1 + 1, none)->Ok_0;
            assert(r1 == p1 && r2 == p2);
            assert(expr_syntax::match_expr_at(toks, p, strict) matches Ok((v, q)) && q == p2 + 1 && v.node
                == ExprV::Match { target: Box::new(got_c), cases: got });
        },
        _ => {},
    }
}

/// The cases of a match read as the cases.
#[verifier::spinoff_prover]
#[verifier::rlimit(60)]
proof fn lemma_cases_read(
    toks: Seq<TokenV>,
    p: nat,
    cs: Seq<MatchCaseV>,
    i: nat,
    acc: Seq<MatchCaseV>,
)
    requires
        i <= cs.len(),
        spelling::cases_written(cs),
        spelling::spells(toks, p, spelling::spell_cases(cs, i)),
        cursor::is_at(toks, p + spelling::spell_cases(cs, i).len(), TokenKind::End),
        spelling::bare_cases(acc) == spelling::bare_cases(cs).take(i as int),
    ensures
        expr_syntax::cases_at(toks, p, acc) matches Ok((v, q)) && q == p + spelling::spell_cases(cs, i).len()
            && spelling::bare_cases(v) == spelling::bare_cases(cs),
    decreases cs, cs.len() - i,
{
    reveal(cursor::kind_is);
    let all = spelling::bare_cases(cs);
    assert(acc.len() == i) by {
        assert(spelling::bare_cases(acc).len() == acc.len());
        assert(all.take(i as int).len() == i);
    }
    if i == cs.len() {
        assert(all.take(i as int) =~= all);
    } else {
        let c = cs[i as int];
        let more = spelling::spell_cases(cs, i + 1);
        let pat = spelling::spell_pattern(c.pattern.node);
        let body = spelling::spell_stmts(c.body, 0);
        let t3 = body + more;
        let t2 = spelling::mark(TokenKind::Arrow) + t3;
        spelling::lemma_mark(toks, p, TokenKind::Case, pat + t2);
        spelling::lemma_spells_both(toks, p + 1, pat, t2);
        let p1 = p + 1 + pat.len();
        spelling::lemma_mark(toks, p1, TokenKind::Arrow, t3);
        spelling::lemma_spells_both(toks, p1 + 1, body, more);
        let p2 = p1 + 1 + body.len();
        if i + 1 < cs.len() {
            assert(more[0] == KindV::Plain(TokenKind::Case));
            assert(toks[p2 + 0int].kind == more[0]);
        } else {
            assert(more.len() == 0);
        }
        assert(pattern_ends_at(toks, p1));
        assert(spelling::pattern_written(c.pattern.node));
        assert(spelling::stmts_written(c.body));
        lemma_pattern_begins(toks, p + 1, c.pattern.node);
        lemma_pattern_reads(toks, p + 1, c.pattern.node);
        let none = Seq::<Spanned<StmtV>>::empty();
        assert(spelling::bare_stmts(none) =~= spelling::bare_stmts(c.body).take(0));
        lemma_stmts_read(toks, p1 + 1, c.body, 0, none);
        let (got_p, r1) = pattern_syntax::pattern_at(toks, p + 1)->Ok_0;
        let (got_b, r2) = expr_syntax::stmts_at(toks, p1 + 1, none)->Ok_0;
        let got = MatchCaseV { pattern: got_p, body: got_b };
        assert(r1 == p1 && r2 == p2);
        assert(expr_syntax::case_at(toks, p) == Ok::<(MatchCaseV, nat), ParseErrorV>((got, p2)));
        let next = acc.push(got);
        assert(spelling::bare_cases(next) =~= all.take(i as int + 1)) by {
            assert forall|j: int| 0 <= j < next.len() implies #[trigger] spelling::bare_cases(next)[j]
                == all.take(i as int + 1)[j] by {
                if j < i {
                    assert(spelling::bare_cases(acc)[j] == all.take(i as int)[j]);
                    assert(next[j] == acc[j]);
                }
            }
        }
        lemma_cases_read(toks, p2, cs, i + 1, next);
        assert(expr_syntax::cases_at(toks, p, acc) == expr_syntax::cases_at(toks, p2, next));
    }
}

/// A loop on a condition reads as the loop.
#[verifier::spinoff_prover]
#[verifier::rlimit(60)]
proof fn lemma_while_reads(toks: Seq<TokenV>, p: nat, e: ExprV)
    requires
        e matches ExprV::While { cond, body } && spelling::expr_written(cond.node) && spelling::stmts_written(body),
        spelling::spells(toks, p, spelling::spell_expr(e)),
    ensures
        expr_syntax::while_at(toks, p) matches Ok((v, q)) && q == p + spelling::spell_expr(e).len() && spelling::bare_expr(v.node)
            == spelling::bare_expr(e),
    decreases e, 1nat,
{
    reveal(cursor::kind_is);
    match e {
        ExprV::While { cond, body } => {
            let c = spelling::spell_expr(cond.node);
            let inner = spelling::spell_stmts(body, 0);
            let t3 = inner + spelling::mark(TokenKind::End);
            let t2 = spelling::mark(TokenKind::Do) + t3;
            spelling::lemma_mark(toks, p, TokenKind::While, c + t2);
            spelling::lemma_spells_both(toks, p + 1, c, t2);
            let p1 = p + 1 + c.len();
            spelling::lemma_mark(toks, p1, TokenKind::Do, t3);
            spelling::lemma_spells_both(toks, p1 + 1, inner, spelling::mark(TokenKind::End));
            let p2 = p1 + 1 + inner.len();
            spelling::lemma_last_mark(toks, p2, TokenKind::End);
            spelling::lemma_plain_end(TokenKind::Do);
            lemma_expr_begins(toks, p + 1, cond.node);
            lemma_expr_reads(toks, p + 1, cond.node);
            let none = Seq::<Spanned<StmtV>>::empty();
            assert(spelling::bare_stmts(none) =~= spelling::bare_stmts(body).take(0));
            lemma_stmts_read(toks, p1 + 1, body, 0, none);
            let (got_c, r1) = expr_syntax::expr_at(toks, p + 1)->Ok_0;
            let (got, r2) = expr_syntax::stmts_at(toks, p1 + 1, none)->Ok_0;
            assert(r1 == p1 && r2 == p2);
            assert(expr_syntax::while_at(toks, p) matches Ok((v, q)) && q == p2 + 1 && v.node == ExprV::While {
                cond: Box::new(got_c),
                body: got,
            });
        },
        _ => {},
    }
}

/// A loop over a range reads as the loop.
#[verifier::spinoff_prover]
#[verifier::rlimit(60)]
proof fn lemma_for_reads(toks: Seq<TokenV>, p: nat, e: ExprV)
    requires
        e matches ExprV::For { var, start, end_expr, body } && !cursor::reserved(var) && spelling::expr_written(
            start.node,
        ) && spelling::expr_written(end_expr.node) && spelling::stmts_written(body),
        spelling::spells(toks, p, spelling::spell_expr(e)),
    ensures
        expr_syntax::for_at(toks, p) matches Ok((v, q)) && q == p + spelling::spell_expr(e).len() && spelling::bare_expr(v.node)
            == spelling::bare_expr(e),
    decreases e, 1nat,
{
    reveal(cursor::kind_is);
    match e {
        ExprV::For { var, start, end_expr, body } => {
            let a = spelling::spell_expr(start.node);
            let b = spelling::spell_expr(end_expr.node);
            let inner = spelling::spell_stmts(body, 0);
            let t7 = inner + spelling::mark(TokenKind::End);
            let t6 = spelling::mark(TokenKind::Do) + t7;
            let t5 = b + t6;
            let t4 = spelling::word("to"@) + t5;
            let t3 = a + t4;
            let t2 = spelling::mark(TokenKind::Eq) + t3;
            spelling::lemma_mark(toks, p, TokenKind::For, spelling::word(var) + t2);
            spelling::lemma_word(toks, p + 1, var, t2);
            spelling::lemma_mark(toks, p + 2, TokenKind::Eq, t3);
            spelling::lemma_spells_both(toks, p + 3, a, t4);
            let p1 = p + 3 + a.len();
            spelling::lemma_word(toks, p1, "to"@, t5);
            spelling::lemma_spells_both(toks, p1 + 1, b, t6);
            let p2 = p1 + 1 + b.len();
            spelling::lemma_mark(toks, p2, TokenKind::Do, t7);
            spelling::lemma_spells_both(toks, p2 + 1, inner, spelling::mark(TokenKind::End));
            let p3 = p2 + 1 + inner.len();
            spelling::lemma_last_mark(toks, p3, TokenKind::End);
            spelling::lemma_plain_end(TokenKind::Do);
            assert(spelling::ends_at(toks, p1));
            lemma_expr_begins(toks, p + 3, start.node);
            lemma_expr_reads(toks, p + 3, start.node);
            lemma_expr_begins(toks, p1 + 1, end_expr.node);
            lemma_expr_reads(toks, p1 + 1, end_expr.node);
            let none = Seq::<Spanned<StmtV>>::empty();
            assert(spelling::bare_stmts(none) =~= spelling::bare_stmts(body).take(0));
            lemma_stmts_read(toks, p2 + 1, body, 0, none);
            let (got_a, r1) = expr_syntax::expr_at(toks, p + 3)->Ok_0;
            let (got_b, r2) = expr_syntax::expr_at(toks, p1 + 1)->Ok_0;
            let (got, r3) = expr_syntax::stmts_at(toks, p2 + 1, none)->Ok_0;
            assert(r1 == p1 && r2 == p2 && r3 == p3);
            assert(cursor::ident_at(toks, p + 1) == Ok::<(Text, nat), ParseErrorV>((var, p + 2)));
            assert(expr_syntax::for_at(toks, p) matches Ok((v, q)) && q == p3 + 1 && v.node == ExprV::For {
                var,
                start: Box::new(got_a),
                end_expr: Box::new(got_b),
                body: got,
            });
        },
        _ => {},
    }
}

// ---------------------------------------------------------------------------
// Functions
// ---------------------------------------------------------------------------

/// A closure reads as the closure.
#[verifier::spinoff_prover]
#[verifier::rlimit(60)]
proof fn lemma_lambda_reads(toks: Seq<TokenV>, p: nat, e: ExprV)
    requires
        e is Lambda,
        spelling::expr_written(e),
        spelling::spells(toks, p, spelling::spell_expr(e)),
    ensures
        expr_syntax::lambda_at(toks, p) matches Ok((v, q)) && q == p + spelling::spell_expr(e).len() && spelling::bare_expr(v.node)
            == spelling::bare_expr(e),
    decreases e, 1nat,
{
    reveal(cursor::kind_is);
    match e {
        ExprV::Lambda { type_params, params, ret_type, requires: reqs, throws, body } => {
            let tp = type_reading::spell_type_params(type_params);
            let sig = type_reading::spell_signature(params, ret_type, reqs, throws);
            let b = spelling::spell_stmts(body, 0);
            let t4 = b + spelling::mark(TokenKind::End);
            let t3 = spelling::mark(TokenKind::Do) + t4;
            let t2 = sig + t3;
            spelling::lemma_mark(toks, p, TokenKind::Fn, tp + t2);
            spelling::lemma_spells_both(toks, p + 1, tp, t2);
            let p1 = p + 1 + tp.len();
            spelling::lemma_spells_both(toks, p1, sig, t3);
            let p2 = p1 + sig.len();
            spelling::lemma_mark(toks, p2, TokenKind::Do, t4);
            spelling::lemma_spells_both(toks, p2 + 1, b, spelling::mark(TokenKind::End));
            let p3 = p2 + 1 + b.len();
            spelling::lemma_last_mark(toks, p3, TokenKind::End);
            assert(sig[0] == KindV::Plain(TokenKind::LParen));
            assert(toks[p1 + 0int].kind == sig[0]);
            type_reading::lemma_type_params_read(toks, p + 1, type_params);
            type_reading::lemma_signature_reads(toks, p1, params, ret_type, reqs, throws);
            let none = Seq::<Spanned<StmtV>>::empty();
            assert(spelling::bare_stmts(none) =~= spelling::bare_stmts(body).take(0));
            lemma_stmts_read(toks, p2 + 1, body, 0, none);
            let (got, r) = expr_syntax::stmts_at(toks, p2 + 1, none)->Ok_0;
            assert(r == p3);
            assert(got.len() == body.len()) by {
                assert(spelling::bare_stmts(got).len() == got.len());
                assert(spelling::bare_stmts(body).len() == body.len());
            }
            assert(expr_syntax::lambda_at(toks, p) matches Ok((v, q)) && q == p3 + 1 && v.node == ExprV::Lambda {
                type_params,
                params,
                ret_type,
                requires: reqs,
                throws,
                body: got,
            });
        },
        _ => {},
    }
}

/// A handler reads as the handler.
#[verifier::spinoff_prover]
#[verifier::rlimit(60)]
proof fn lemma_handler_reads(toks: Seq<TokenV>, p: nat, e: ExprV)
    requires
        e is Handler,
        spelling::expr_written(e),
        spelling::spells(toks, p, spelling::spell_expr(e)),
    ensures
        expr_syntax::handler_expr_at(toks, p) matches Ok((v, q)) && q == p + spelling::spell_expr(e).len() && spelling::bare_expr(
            v.node,
        ) == spelling::bare_expr(e),
    decreases e, 1nat,
{
    reveal(cursor::kind_is);
    match e {
        ExprV::Handler { coeffect_name, requires: reqs, functions } => {
            let c = type_reading::spell_clause(TokenKind::Require, reqs);
            let b = spelling::spell_functions(functions, 0);
            let t3 = b + spelling::mark(TokenKind::End);
            let t2 = spelling::mark(TokenKind::Do) + t3;
            let t1 = c + t2;
            spelling::lemma_mark(toks, p, TokenKind::Handler, spelling::word(coeffect_name) + t1);
            spelling::lemma_word(toks, p + 1, coeffect_name, t1);
            spelling::lemma_spells_both(toks, p + 2, c, t2);
            let p1 = p + 2 + c.len();
            spelling::lemma_mark(toks, p1, TokenKind::Do, t3);
            spelling::lemma_spells_both(toks, p1 + 1, b, spelling::mark(TokenKind::End));
            let p2 = p1 + 1 + b.len();
            spelling::lemma_last_mark(toks, p2, TokenKind::End);
            type_reading::lemma_require_reads(toks, p + 2, reqs);
            let none = Seq::<FunctionV>::empty();
            assert(spelling::bare_functions(none) =~= spelling::bare_functions(functions).take(0));
            lemma_functions_read(toks, p1 + 1, functions, 0, none);
            let (got, r) = expr_syntax::handler_functions_at(toks, p1 + 1, none)->Ok_0;
            assert(r == p2);
            assert(cursor::ident_at(toks, p + 1) == Ok::<(Text, nat), ParseErrorV>((coeffect_name, p + 2)));
            assert(expr_syntax::handler_expr_at(toks, p) matches Ok((v, q)) && q == p2 + 1 && v.node
                == ExprV::Handler { coeffect_name, requires: reqs, functions: got });
        },
        _ => {},
    }
}

/// The functions of a handler read as the functions.
#[verifier::spinoff_prover]
#[verifier::rlimit(60)]
proof fn lemma_functions_read(
    toks: Seq<TokenV>,
    p: nat,
    fs: Seq<FunctionV>,
    i: nat,
    acc: Seq<FunctionV>,
)
    requires
        i <= fs.len(),
        spelling::functions_written(fs),
        spelling::spells(toks, p, spelling::spell_functions(fs, i)),
        cursor::is_at(toks, p + spelling::spell_functions(fs, i).len(), TokenKind::End),
        spelling::bare_functions(acc) == spelling::bare_functions(fs).take(i as int),
    ensures
        expr_syntax::handler_functions_at(toks, p, acc) matches Ok((v, q)) && q == p + spelling::spell_functions(
            fs,
            i,
        ).len() && spelling::bare_functions(v) == spelling::bare_functions(fs),
    decreases fs, fs.len() - i,
{
    reveal(cursor::kind_is);
    let all = spelling::bare_functions(fs);
    assert(acc.len() == i) by {
        assert(spelling::bare_functions(acc).len() == acc.len());
        assert(all.take(i as int).len() == i);
    }
    if i == fs.len() {
        assert(all.take(i as int) =~= all);
    } else {
        let f = fs[i as int];
        let more = spelling::spell_functions(fs, i + 1);
        let tp = type_reading::spell_type_params(f.type_params);
        let sig = type_reading::spell_signature(f.params, f.ret_type, f.requires, f.throws);
        let b = spelling::spell_stmts(f.body, 0);
        let t6 = spelling::mark(TokenKind::End) + more;
        let t5 = b + t6;
        let t4 = spelling::mark(TokenKind::Do) + t5;
        let t3 = sig + t4;
        let t2 = tp + t3;
        spelling::lemma_mark(toks, p, TokenKind::Fn, spelling::word(f.name) + t2);
        spelling::lemma_word(toks, p + 1, f.name, t2);
        spelling::lemma_spells_both(toks, p + 2, tp, t3);
        let p1 = p + 2 + tp.len();
        spelling::lemma_spells_both(toks, p1, sig, t4);
        let p2 = p1 + sig.len();
        spelling::lemma_mark(toks, p2, TokenKind::Do, t5);
        spelling::lemma_spells_both(toks, p2 + 1, b, t6);
        let p3 = p2 + 1 + b.len();
        spelling::lemma_mark(toks, p3, TokenKind::End, more);
        assert(sig[0] == KindV::Plain(TokenKind::LParen));
        assert(toks[p1 + 0int].kind == sig[0]);
        assert(!cursor::reserved(fs[i as int].name));
        type_reading::lemma_type_params_read(toks, p + 2, f.type_params);
        type_reading::lemma_signature_reads(toks, p1, f.params, f.ret_type, f.requires, f.throws);
        let none = Seq::<Spanned<StmtV>>::empty();
        assert(spelling::bare_stmts(none) =~= spelling::bare_stmts(f.body).take(0));
        lemma_stmts_read(toks, p2 + 1, f.body, 0, none);
        let (got_b, r) = expr_syntax::stmts_at(toks, p2 + 1, none)->Ok_0;
        assert(r == p3);
        assert(got_b.len() == f.body.len()) by {
            assert(spelling::bare_stmts(got_b).len() == got_b.len());
            assert(spelling::bare_stmts(f.body).len() == f.body.len());
        }
        let got = FunctionV { body: got_b, ..f };
        assert(cursor::ident_at(toks, p + 1) == Ok::<(Text, nat), ParseErrorV>((f.name, p + 2)));
        assert(expr_syntax::handler_function_at(toks, p) == Ok::<(FunctionV, nat), ParseErrorV>((got, p3 + 1)));
        let next = acc.push(got);
        assert(spelling::bare_functions(next) =~= all.take(i as int + 1)) by {
            assert forall|j: int| 0 <= j < next.len() implies #[trigger] spelling::bare_functions(next)[j]
                == all.take(i as int + 1)[j] by {
                if j < i {
                    assert(spelling::bare_functions(acc)[j] == all.take(i as int)[j]);
                    assert(next[j] == acc[j]);
                }
            }
        }
        lemma_functions_read(toks, p3 + 1, fs, i + 1, next);
        assert(expr_syntax::handler_functions_at(toks, p, acc) == expr_syntax::handler_functions_at(toks, p3 + 1, next));
    }
}

/// The tasks of a `conc` read as the tasks.
#[verifier::spinoff_prover]
#[verifier::rlimit(60)]
proof fn lemma_tasks_read(
    toks: Seq<TokenV>,
    p: nat,
    fs: Seq<FunctionV>,
    i: nat,
    acc: Seq<FunctionV>,
)
    requires
        i <= fs.len(),
        spelling::tasks_written(fs),
        spelling::spells(toks, p, spelling::spell_tasks(fs, i)),
        cursor::is_at(toks, p + spelling::spell_tasks(fs, i).len(), TokenKind::End),
        spelling::bare_functions(acc) == spelling::bare_functions(fs).take(i as int),
    ensures
        expr_syntax::tasks_at(toks, p, acc) matches Ok((v, q)) && q == p + spelling::spell_tasks(fs, i).len()
            && spelling::bare_functions(v) == spelling::bare_functions(fs),
    decreases fs, fs.len() - i,
{
    reveal(cursor::kind_is);
    let all = spelling::bare_functions(fs);
    assert(acc.len() == i) by {
        assert(spelling::bare_functions(acc).len() == acc.len());
        assert(all.take(i as int).len() == i);
    }
    if i == fs.len() {
        assert(all.take(i as int) =~= all);
    } else {
        let f = fs[i as int];
        let more = spelling::spell_tasks(fs, i + 1);
        let b = spelling::spell_stmts(f.body, 0);
        let t4 = spelling::mark(TokenKind::End) + more;
        let t3 = b + t4;
        let t2 = spelling::mark(TokenKind::Do) + t3;
        spelling::lemma_mark(toks, p, TokenKind::Task, spelling::word(f.name) + t2);
        spelling::lemma_word(toks, p + 1, f.name, t2);
        spelling::lemma_mark(toks, p + 2, TokenKind::Do, t3);
        spelling::lemma_spells_both(toks, p + 3, b, t4);
        let p1 = p + 3 + b.len();
        spelling::lemma_mark(toks, p1, TokenKind::End, more);
        assert(!cursor::reserved(fs[i as int].name));
        let none = Seq::<Spanned<StmtV>>::empty();
        assert(spelling::bare_stmts(none) =~= spelling::bare_stmts(f.body).take(0));
        lemma_stmts_read(toks, p + 3, f.body, 0, none);
        let (got_b, r) = expr_syntax::stmts_at(toks, p + 3, none)->Ok_0;
        assert(r == p1);
        let got = FunctionV { body: got_b, ..f };
        assert(f.type_params =~= Seq::empty());
        assert(f.params =~= Seq::empty());
        assert(cursor::ident_at(toks, p + 1) == Ok::<(Text, nat), ParseErrorV>((f.name, p + 2)));
        assert(expr_syntax::task_at(toks, p) == Ok::<(FunctionV, nat), ParseErrorV>((got, p1 + 1)));
        let next = acc.push(got);
        assert(spelling::bare_functions(next) =~= all.take(i as int + 1)) by {
            assert forall|j: int| 0 <= j < next.len() implies #[trigger] spelling::bare_functions(next)[j]
                == all.take(i as int + 1)[j] by {
                if j < i {
                    assert(spelling::bare_functions(acc)[j] == all.take(i as int)[j]);
                    assert(next[j] == acc[j]);
                }
            }
        }
        lemma_tasks_read(toks, p1 + 1, fs, i + 1, next);
        assert(expr_syntax::tasks_at(toks, p, acc) == expr_syntax::tasks_at(toks, p1 + 1, next));
    }
}

// ---------------------------------------------------------------------------
// Statements
// ---------------------------------------------------------------------------

/// How the text of a statement begins.
#[verifier::spinoff_prover]
#[verifier::rlimit(60)]
proof fn lemma_stmt_begins(toks: Seq<TokenV>, p: nat, s: Spanned<StmtV>)
    requires
        spelling::stmt_written(s),
        spelling::spells(toks, p, spelling::spell_stmt(s)),
        spelling::closed_stmt(s.node) || spelling::ends_at(toks, p + spelling::spell_stmt(s).len()),
    ensures
        spelling::spell_stmt(s).len() > 0,
        p < toks.len(),
        toks[p as int].kind == spelling::spell_stmt(s)[0],
        !expr_syntax::ends_stmts(toks, p),
{
    reveal(cursor::kind_is);
    let ks = spelling::spell_stmt(s);
    match s.node {
        StmtV::Expr(value) => {
            if !spelling::closed_stmt(s.node) {
                lemma_expr_begins(toks, p, value.node);
            } else {
                assert(ks.len() > 0);
                assert(toks[p + 0int].kind == ks[0]);
            }
        },
        StmtV::Assign { target, value } => {
            let rest = spelling::mark(TokenKind::Assign) + spelling::spell_expr(value.node);
            spelling::lemma_spells_both(toks, p, spelling::spell_expr(target.node), rest);
            let p1 = p + spelling::spell_expr(target.node).len();
            spelling::lemma_mark(toks, p1, TokenKind::Assign, spelling::spell_expr(value.node));
            spelling::lemma_plain_end(TokenKind::Assign);
            lemma_expr_begins(toks, p, target.node);
            assert(ks[0] == spelling::spell_expr(target.node)[0]);
        },
        _ => {
            assert(ks.len() > 0);
            assert(toks[p + 0int].kind == ks[0]);
        },
    }
}

/// A `let` of a name reads as the statement.
#[verifier::spinoff_prover]
#[verifier::rlimit(60)]
proof fn lemma_let_reads(toks: Seq<TokenV>, p: nat, s: Spanned<StmtV>)
    requires
        s.node is Let,
        spelling::stmt_written(s),
        spelling::spells(toks, p, spelling::spell_stmt(s)),
        spelling::closed_stmt(s.node) || (spelling::ends_at(toks, p + spelling::spell_stmt(s).len()) && !cursor::is_at(
            toks,
            p + spelling::spell_stmt(s).len(),
            TokenKind::Assign,
        )),
    ensures
        expr_syntax::stmt_at(toks, p) matches Ok((v, q)) && q == p + spelling::spell_stmt(s).len() && spelling::bare_stmt(v)
            == spelling::bare_stmt(s),
    decreases s, 4nat,
{
    reveal(cursor::kind_is);
    let ks = spelling::spell_stmt(s);
    let q = p + ks.len();
    lemma_stmt_begins(toks, p, s);
    let none = Seq::<Spanned<StmtV>>::empty();
    match s.node {
        StmtV::Let { name, sigil, typ, value } => {
            let v = spelling::spell_expr(value.node);
            let a = spelling::spell_annotation(typ);
            let t4 = spelling::mark(TokenKind::Eq) + v;
            let t3 = a + t4;
            let t2 = spelling::word(name) + t3;
            spelling::lemma_mark(toks, p, TokenKind::Let, spelling::spell_sigil(sigil) + t2);
            lemma_sigil(toks, p + 1, sigil, name, t3);
            let p1 = p + 1 + spelling::spell_sigil(sigil).len();
            spelling::lemma_spells_both(toks, p1 + 1, a, t4);
            let p2 = p1 + 1 + a.len();
            spelling::lemma_mark(toks, p2, TokenKind::Eq, v);
            lemma_expr_begins(toks, p2 + 1, value.node);
            lemma_expr_reads(toks, p2 + 1, value.node);
            let got = expr_syntax::expr_at(toks, p2 + 1)->Ok_0.0;
            if !(sigil is Immutable) {
                assert((spelling::spell_sigil(sigil) + t2)[0] == spelling::spell_sigil(sigil)[0]);
                assert(toks[p + 1 + 0int].kind == (spelling::spell_sigil(sigil) + t2)[0]);
            }
            match typ {
                Some(t) => {
                    spelling::lemma_mark(toks, p1 + 1, TokenKind::Colon, type_reading::spell_type(t));
                    type_reading::lemma_type_reads(toks, p1 + 2, t);
                },
                None => {
                    assert(a.len() == 0);
                },
            }
            assert(expr_syntax::let_type_at(toks, p1 + 1) == Ok::<(Option<TypeV>, nat), ParseErrorV>((typ, p2)));
            assert(expr_syntax::let_name_at(toks, p) matches Ok((v, r)) && r == q && v.node == StmtV::Let {
                name,
                sigil,
                typ,
                value: got,
            });
            assert(expr_syntax::let_at(toks, p) == expr_syntax::let_name_at(toks, p));
            assert(expr_syntax::stmt_at(toks, p) == expr_syntax::let_at(toks, p));
        },
        _ => {},
    }
}

/// A `let` of a pattern reads as the statement.
#[verifier::spinoff_prover]
#[verifier::rlimit(60)]
proof fn lemma_let_pattern_reads(toks: Seq<TokenV>, p: nat, s: Spanned<StmtV>)
    requires
        s.node is LetPattern,
        spelling::stmt_written(s),
        spelling::spells(toks, p, spelling::spell_stmt(s)),
        spelling::closed_stmt(s.node) || (spelling::ends_at(toks, p + spelling::spell_stmt(s).len()) && !cursor::is_at(
            toks,
            p + spelling::spell_stmt(s).len(),
            TokenKind::Assign,
        )),
    ensures
        expr_syntax::stmt_at(toks, p) matches Ok((v, q)) && q == p + spelling::spell_stmt(s).len() && spelling::bare_stmt(v)
            == spelling::bare_stmt(s),
    decreases s, 4nat,
{
    reveal(cursor::kind_is);
    let ks = spelling::spell_stmt(s);
    let q = p + ks.len();
    lemma_stmt_begins(toks, p, s);
    let none = Seq::<Spanned<StmtV>>::empty();
    match s.node {
        StmtV::LetPattern { pattern, value } => {
            let pat = spelling::spell_pattern(pattern.node);
            let v = spelling::spell_expr(value.node);
            let t2 = spelling::mark(TokenKind::Eq) + v;
            spelling::lemma_mark(toks, p, TokenKind::Let, pat + t2);
            spelling::lemma_spells_both(toks, p + 1, pat, t2);
            let p1 = p + 1 + pat.len();
            spelling::lemma_mark(toks, p1, TokenKind::Eq, v);
            lemma_pattern_begins(toks, p + 1, pattern.node);
            lemma_pattern_reads(toks, p + 1, pattern.node);
            lemma_expr_begins(toks, p1 + 1, value.node);
            lemma_expr_reads(toks, p1 + 1, value.node);
            match pattern.node {
                PatternV::Record(fs, more) => {
                    spelling::lemma_mark(
                        toks,
                        p + 1,
                        TokenKind::LBrace,
                        spelling::spell_pattern_fields(fs, more, 0) + spelling::mark(TokenKind::RBrace),
                    );
                },
                PatternV::Constructor(c, args) => {
                    let rest = spelling::spell_pattern_args(args, 0) + spelling::mark(TokenKind::RParen);
                    spelling::lemma_word(toks, p + 1, c, spelling::mark(TokenKind::LParen) + rest);
                    spelling::lemma_mark(toks, p + 2, TokenKind::LParen, rest);
                },
                _ => {},
            }
            let got_p = pattern_syntax::pattern_at(toks, p + 1)->Ok_0.0;
            let got = expr_syntax::expr_at(toks, p1 + 1)->Ok_0.0;
            assert(expr_syntax::let_pattern_at(toks, p) matches Ok((v, r)) && r == q && v.node
                == StmtV::LetPattern { pattern: got_p, value: got });
            assert(expr_syntax::let_at(toks, p) == expr_syntax::let_pattern_at(toks, p));
            assert(expr_syntax::stmt_at(toks, p) == expr_syntax::let_at(toks, p));
        },
        _ => {},
    }
}

/// A `return` reads as the statement.
#[verifier::spinoff_prover]
#[verifier::rlimit(60)]
proof fn lemma_return_reads(toks: Seq<TokenV>, p: nat, s: Spanned<StmtV>)
    requires
        s.node is Return,
        spelling::stmt_written(s),
        spelling::spells(toks, p, spelling::spell_stmt(s)),
        spelling::closed_stmt(s.node) || (spelling::ends_at(toks, p + spelling::spell_stmt(s).len()) && !cursor::is_at(
            toks,
            p + spelling::spell_stmt(s).len(),
            TokenKind::Assign,
        )),
    ensures
        expr_syntax::stmt_at(toks, p) matches Ok((v, q)) && q == p + spelling::spell_stmt(s).len() && spelling::bare_stmt(v)
            == spelling::bare_stmt(s),
    decreases s, 4nat,
{
    reveal(cursor::kind_is);
    let ks = spelling::spell_stmt(s);
    let q = p + ks.len();
    lemma_stmt_begins(toks, p, s);
    let none = Seq::<Spanned<StmtV>>::empty();
    match s.node {
        StmtV::Return(value) => {
            spelling::lemma_mark(toks, p, TokenKind::Return, spelling::spell_expr(value.node));
            lemma_expr_begins(toks, p + 1, value.node);
            lemma_expr_reads(toks, p + 1, value.node);
            assert(expr_syntax::stmt_at(toks, p) == expr_syntax::return_at(toks, p));
        },
        _ => {},
    }
}

/// An assignment reads as the statement.
#[verifier::spinoff_prover]
#[verifier::rlimit(60)]
proof fn lemma_assign_reads(toks: Seq<TokenV>, p: nat, s: Spanned<StmtV>)
    requires
        s.node is Assign,
        spelling::stmt_written(s),
        spelling::spells(toks, p, spelling::spell_stmt(s)),
        spelling::closed_stmt(s.node) || (spelling::ends_at(toks, p + spelling::spell_stmt(s).len()) && !cursor::is_at(
            toks,
            p + spelling::spell_stmt(s).len(),
            TokenKind::Assign,
        )),
    ensures
        expr_syntax::stmt_at(toks, p) matches Ok((v, q)) && q == p + spelling::spell_stmt(s).len() && spelling::bare_stmt(v)
            == spelling::bare_stmt(s),
    decreases s, 4nat,
{
    reveal(cursor::kind_is);
    let ks = spelling::spell_stmt(s);
    let q = p + ks.len();
    lemma_stmt_begins(toks, p, s);
    let none = Seq::<Spanned<StmtV>>::empty();
    match s.node {
        StmtV::Assign { target, value } => {
            let rest = spelling::mark(TokenKind::Assign) + spelling::spell_expr(value.node);
            spelling::lemma_spells_both(toks, p, spelling::spell_expr(target.node), rest);
            let p1 = p + spelling::spell_expr(target.node).len();
            spelling::lemma_mark(toks, p1, TokenKind::Assign, spelling::spell_expr(value.node));
            spelling::lemma_plain_end(TokenKind::Assign);
            lemma_expr_begins(toks, p, target.node);
            lemma_expr_reads(toks, p, target.node);
            lemma_expr_begins(toks, p1 + 1, value.node);
            lemma_expr_reads(toks, p1 + 1, value.node);
            assert(expr_syntax::stmt_at(toks, p) == expr_syntax::expr_stmt_at(toks, p));
        },
        _ => {},
    }
}

/// A `try` reads as the statement.
#[verifier::spinoff_prover]
#[verifier::rlimit(60)]
proof fn lemma_try_reads(toks: Seq<TokenV>, p: nat, s: Spanned<StmtV>)
    requires
        s.node is Try,
        spelling::stmt_written(s),
        spelling::spells(toks, p, spelling::spell_stmt(s)),
        spelling::closed_stmt(s.node) || (spelling::ends_at(toks, p + spelling::spell_stmt(s).len()) && !cursor::is_at(
            toks,
            p + spelling::spell_stmt(s).len(),
            TokenKind::Assign,
        )),
    ensures
        expr_syntax::stmt_at(toks, p) matches Ok((v, q)) && q == p + spelling::spell_stmt(s).len() && spelling::bare_stmt(v)
            == spelling::bare_stmt(s),
    decreases s, 4nat,
{
    reveal(cursor::kind_is);
    let ks = spelling::spell_stmt(s);
    let q = p + ks.len();
    lemma_stmt_begins(toks, p, s);
    let none = Seq::<Spanned<StmtV>>::empty();
    match s.node {
        StmtV::Try { body, catch_param, catch_body } => {
            let a = spelling::spell_stmts(body, 0);
            let b = spelling::spell_stmts(catch_body, 0);
            let t5 = b + spelling::mark(TokenKind::End);
            let t4 = spelling::mark(TokenKind::Arrow) + t5;
            let t3 = spelling::word(catch_param) + t4;
            let t2 = spelling::mark(TokenKind::Catch) + t3;
            spelling::lemma_mark(toks, p, TokenKind::Try, a + t2);
            spelling::lemma_spells_both(toks, p + 1, a, t2);
            let p1 = p + 1 + a.len();
            spelling::lemma_mark(toks, p1, TokenKind::Catch, t3);
            spelling::lemma_word(toks, p1 + 1, catch_param, t4);
            spelling::lemma_mark(toks, p1 + 2, TokenKind::Arrow, t5);
            spelling::lemma_spells_both(toks, p1 + 3, b, spelling::mark(TokenKind::End));
            let p2 = p1 + 3 + b.len();
            spelling::lemma_last_mark(toks, p2, TokenKind::End);
            assert(spelling::bare_stmts(none) =~= spelling::bare_stmts(body).take(0));
            assert(spelling::bare_stmts(none) =~= spelling::bare_stmts(catch_body).take(0));
            lemma_stmts_read(toks, p + 1, body, 0, none);
            lemma_stmts_read(toks, p1 + 3, catch_body, 0, none);
            let (got_a, r1) = expr_syntax::stmts_at(toks, p + 1, none)->Ok_0;
            let (got_b, r2) = expr_syntax::stmts_at(toks, p1 + 3, none)->Ok_0;
            assert(r1 == p1 && r2 == p2);
            assert(cursor::ident_at(toks, p1 + 1) == Ok::<(Text, nat), ParseErrorV>((catch_param, p1 + 2)));
            assert(expr_syntax::try_at(toks, p) matches Ok((v, r)) && r == q && v.node == StmtV::Try {
                body: got_a,
                catch_param,
                catch_body: got_b,
            });
            assert(expr_syntax::stmt_at(toks, p) == expr_syntax::try_at(toks, p));
        },
        _ => {},
    }
}

/// A `conc` reads as the statement.
#[verifier::spinoff_prover]
#[verifier::rlimit(60)]
proof fn lemma_conc_reads(toks: Seq<TokenV>, p: nat, s: Spanned<StmtV>)
    requires
        s.node is Conc,
        spelling::stmt_written(s),
        spelling::spells(toks, p, spelling::spell_stmt(s)),
    ensures
        expr_syntax::stmt_at(toks, p) matches Ok((v, q)) && q == p + spelling::spell_stmt(s).len() && spelling::bare_stmt(v)
            == spelling::bare_stmt(s),
    decreases s, 4nat,
{
    reveal(cursor::kind_is);
    let q = p + spelling::spell_stmt(s).len();
    match s.node {
        StmtV::Conc(tasks) => {
            let b = spelling::spell_tasks(tasks, 0);
            let t2 = b + spelling::mark(TokenKind::End);
            spelling::lemma_mark(toks, p, TokenKind::Conc, spelling::mark(TokenKind::Do) + t2);
            spelling::lemma_mark(toks, p + 1, TokenKind::Do, t2);
            spelling::lemma_spells_both(toks, p + 2, b, spelling::mark(TokenKind::End));
            let p1 = p + 2 + b.len();
            spelling::lemma_last_mark(toks, p1, TokenKind::End);
            let none = Seq::<FunctionV>::empty();
            assert(spelling::bare_functions(none) =~= spelling::bare_functions(tasks).take(0));
            lemma_tasks_read(toks, p + 2, tasks, 0, none);
            let (got, r) = expr_syntax::tasks_at(toks, p + 2, none)->Ok_0;
            assert(r == p1);
            assert(expr_syntax::conc_at(toks, p) matches Ok((v, r2)) && r2 == q && v.node == StmtV::Conc(got));
            assert(expr_syntax::stmt_at(toks, p) == expr_syntax::conc_at(toks, p));
        },
        _ => {},
    }
}

/// An `inject` reads as the statement.
#[verifier::spinoff_prover]
#[verifier::rlimit(60)]
proof fn lemma_inject_reads(toks: Seq<TokenV>, p: nat, s: Spanned<StmtV>)
    requires
        s.node is Inject,
        spelling::stmt_written(s),
        spelling::spells(toks, p, spelling::spell_stmt(s)),
        spelling::closed_stmt(s.node) || (spelling::ends_at(toks, p + spelling::spell_stmt(s).len()) && !cursor::is_at(
            toks,
            p + spelling::spell_stmt(s).len(),
            TokenKind::Assign,
        )),
    ensures
        expr_syntax::stmt_at(toks, p) matches Ok((v, q)) && q == p + spelling::spell_stmt(s).len() && spelling::bare_stmt(v)
            == spelling::bare_stmt(s),
    decreases s, 4nat,
{
    reveal(cursor::kind_is);
    let ks = spelling::spell_stmt(s);
    let q = p + ks.len();
    lemma_stmt_begins(toks, p, s);
    let none = Seq::<Spanned<StmtV>>::empty();
    match s.node {
        StmtV::Inject { handlers, body } => {
            let a = spelling::spell_names(handlers, 0);
            let b = spelling::spell_stmts(body, 0);
            let t3 = b + spelling::mark(TokenKind::End);
            let t2 = spelling::mark(TokenKind::Do) + t3;
            spelling::lemma_mark(toks, p, TokenKind::Inject, a + t2);
            spelling::lemma_spells_both(toks, p + 1, a, t2);
            let p1 = p + 1 + a.len();
            spelling::lemma_mark(toks, p1, TokenKind::Do, t3);
            spelling::lemma_spells_both(toks, p1 + 1, b, spelling::mark(TokenKind::End));
            let p2 = p1 + 1 + b.len();
            spelling::lemma_last_mark(toks, p2, TokenKind::End);
            assert(spelling::bare_stmts(none) =~= spelling::bare_stmts(body).take(0));
            lemma_names_read(toks, p + 1, handlers, 0);
            lemma_stmts_read(toks, p1 + 1, body, 0, none);
            let (got, r2) = expr_syntax::stmts_at(toks, p1 + 1, none)->Ok_0;
            assert(r2 == p2);
            assert(expr_syntax::inject_at(toks, p) matches Ok((v, r)) && r == q && v.node == StmtV::Inject {
                handlers,
                body: got,
            });
            assert(expr_syntax::stmt_at(toks, p) == expr_syntax::inject_at(toks, p));
        },
        _ => {},
    }
}

/// An expression as a statement reads as the statement, where it is no branch, match or loop.
#[verifier::spinoff_prover]
#[verifier::rlimit(60)]
proof fn lemma_plain_expr_stmt_reads(toks: Seq<TokenV>, p: nat, s: Spanned<StmtV>)
    requires
        s.node is Expr,
        !spelling::closed_stmt(s.node),
        spelling::stmt_written(s),
        spelling::spells(toks, p, spelling::spell_stmt(s)),
        spelling::ends_at(toks, p + spelling::spell_stmt(s).len()),
        !cursor::is_at(toks, p + spelling::spell_stmt(s).len(), TokenKind::Assign),
    ensures
        expr_syntax::stmt_at(toks, p) matches Ok((v, q)) && q == p + spelling::spell_stmt(s).len() && spelling::bare_stmt(v)
            == spelling::bare_stmt(s),
    decreases s, 3nat,
{
    reveal(cursor::kind_is);
    match s.node {
        StmtV::Expr(value) => {
            assert(spelling::expr_written(value.node));
            assert(spelling::spell_stmt(s) == spelling::spell_expr(value.node));
            lemma_expr_begins(toks, p, value.node);
            lemma_expr_reads(toks, p, value.node);
            let got = expr_syntax::expr_at(toks, p)->Ok_0.0;
            assert(expr_syntax::expr_stmt_at(toks, p) matches Ok((v, q)) && q == p + spelling::spell_stmt(s).len()
                && v.node == StmtV::Expr(got));
            assert(expr_syntax::stmt_at(toks, p) == expr_syntax::expr_stmt_at(toks, p));
        },
        _ => {},
    }
}

/// An expression as a statement reads as the statement.
#[verifier::spinoff_prover]
#[verifier::rlimit(60)]
proof fn lemma_expr_stmt_reads(toks: Seq<TokenV>, p: nat, s: Spanned<StmtV>)
    requires
        s.node is Expr,
        spelling::stmt_written(s),
        spelling::spells(toks, p, spelling::spell_stmt(s)),
        spelling::closed_stmt(s.node) || (spelling::ends_at(toks, p + spelling::spell_stmt(s).len()) && !cursor::is_at(
            toks,
            p + spelling::spell_stmt(s).len(),
            TokenKind::Assign,
        )),
    ensures
        expr_syntax::stmt_at(toks, p) matches Ok((v, q)) && q == p + spelling::spell_stmt(s).len() && spelling::bare_stmt(v)
            == spelling::bare_stmt(s),
    decreases s, 4nat,
{
    reveal(cursor::kind_is);
    let ks = spelling::spell_stmt(s);
    let q = p + ks.len();
    lemma_stmt_begins(toks, p, s);
    let none = Seq::<Spanned<StmtV>>::empty();
    match s.node {
        StmtV::Expr(value) => {
            match value.node {
                ExprV::If { cond: _, then_branch: _, else_branch: _ } => {
                    lemma_if_reads(toks, p, value.node);
                    assert(expr_syntax::stmt_at(toks, p) == expr_syntax::as_stmt(expr_syntax::if_expr_at(toks, p)));
                },
                ExprV::Match { target: _, cases } => {
                    if spelling::are_branches(cases) {
                        lemma_branches_read(toks, p, value.node);
                        assert(expr_syntax::stmt_at(toks, p) == expr_syntax::as_stmt(expr_syntax::if_expr_at(toks, p)));
                    } else {
                        lemma_match_reads(toks, p, value.node, true);
                        assert(expr_syntax::stmt_at(toks, p) == expr_syntax::as_stmt(expr_syntax::match_expr_at(toks, p, true)));
                    }
                },
                ExprV::While { cond: _, body: _ } => {
                    lemma_while_reads(toks, p, value.node);
                    assert(expr_syntax::stmt_at(toks, p) == expr_syntax::as_stmt(expr_syntax::while_at(toks, p)));
                },
                ExprV::For { var: _, start: _, end_expr: _, body: _ } => {
                    lemma_for_reads(toks, p, value.node);
                    assert(expr_syntax::stmt_at(toks, p) == expr_syntax::as_stmt(expr_syntax::for_at(toks, p)));
                },
                _ => lemma_plain_expr_stmt_reads(toks, p, s),
            }
        },
        _ => {},
    }
}

/// The text of a statement reads as the statement.
proof fn lemma_stmt_reads(toks: Seq<TokenV>, p: nat, s: Spanned<StmtV>)
    requires
        spelling::stmt_written(s),
        spelling::spells(toks, p, spelling::spell_stmt(s)),
        spelling::closed_stmt(s.node) || (spelling::ends_at(toks, p + spelling::spell_stmt(s).len()) && !cursor::is_at(
            toks,
            p + spelling::spell_stmt(s).len(),
            TokenKind::Assign,
        )),
    ensures
        expr_syntax::stmt_at(toks, p) matches Ok((v, q)) && q == p + spelling::spell_stmt(s).len() && spelling::bare_stmt(v)
            == spelling::bare_stmt(s),
    decreases s, 5nat,
{
    match s.node {
        StmtV::Let { name: _, sigil: _, typ: _, value: _ } => lemma_let_reads(toks, p, s),
        StmtV::LetPattern { pattern: _, value: _ } => lemma_let_pattern_reads(toks, p, s),
        StmtV::Return(_) => lemma_return_reads(toks, p, s),
        StmtV::Assign { target: _, value: _ } => lemma_assign_reads(toks, p, s),
        StmtV::Try { body: _, catch_param: _, catch_body: _ } => lemma_try_reads(toks, p, s),
        StmtV::Inject { handlers: _, body: _ } => lemma_inject_reads(toks, p, s),
        StmtV::Expr(_) => lemma_expr_stmt_reads(toks, p, s),
        StmtV::Conc(_) => lemma_conc_reads(toks, p, s),
    }
}

/// Names read as the names.
pub proof fn lemma_names_read(toks: Seq<TokenV>, p: nat, ns: Seq<Text>, i: nat)
    requires
        i <= ns.len(),
        ns.len() > 0,
        forall|j: int| 0 <= j < ns.len() ==> !cursor::reserved(#[trigger] ns[j]),
        spelling::spells(toks, p, spelling::spell_names(ns, i)),
        cursor::is_at(toks, p + spelling::spell_names(ns, i).len(), TokenKind::Do),
    ensures
        i == 0 ==> expr_syntax::dotted_idents_at(toks, p) == Ok::<(Seq<Text>, nat), ParseErrorV>(
            (ns, p + spelling::spell_names(ns, i).len()),
        ),
        i > 0 ==> expr_syntax::dotted_idents_rest_at(toks, p, ns.take(i as int)) == Ok::<
            (Seq<Text>, nat),
            ParseErrorV,
        >((ns, p + spelling::spell_names(ns, i).len())),
    decreases ns.len() - i,
{
    reveal(cursor::kind_is);
    if i == ns.len() {
        assert(ns.take(i as int) =~= ns);
    } else {
        let name = ns[i as int];
        let more = spelling::spell_names(ns, i + 1);
        spelling::lemma_spells_both(toks, p, spelling::comma_before(i), spelling::word(name) + more);
        let p1 = p + spelling::comma_before(i).len();
        if i > 0 {
            assert(toks[p + 0int].kind == spelling::comma_before(i)[0]);
        }
        spelling::lemma_word(toks, p1, name, more);
        if i + 1 < ns.len() {
            assert(more[0] == spelling::comma_before(i + 1)[0]);
            assert(toks[p1 + 1 + 0int].kind == more[0]);
        } else {
            assert(more.len() == 0);
        }
        assert(expr_syntax::dotted_ident_at(toks, p1) == Ok::<(Text, nat), ParseErrorV>((name, p1 + 1)));
        lemma_names_read(toks, p1 + 1, ns, i + 1);
        assert(ns.take(i as int + 1) =~= ns.take(i as int).push(name));
        if i == 0 {
            assert(ns.take(1) =~= seq![name]);
        }
    }
}

/// The text of statements reads as the statements.
#[verifier::spinoff_prover]
#[verifier::rlimit(60)]
pub proof fn lemma_stmts_read(
    toks: Seq<TokenV>,
    p: nat,
    ss: Seq<Spanned<StmtV>>,
    i: nat,
    acc: Seq<Spanned<StmtV>>,
)
    requires
        i <= ss.len(),
        spelling::stmts_written(ss),
        spelling::spells(toks, p, spelling::spell_stmts(ss, i)),
        p + spelling::spell_stmts(ss, i).len() < toks.len(),
        expr_syntax::ends_stmts(toks, p + spelling::spell_stmts(ss, i).len()),
        spelling::bare_stmts(acc) == spelling::bare_stmts(ss).take(i as int),
    ensures
        expr_syntax::stmts_at(toks, p, acc) matches Ok((v, q)) && q == p + spelling::spell_stmts(ss, i).len()
            && spelling::bare_stmts(v) == spelling::bare_stmts(ss),
    decreases ss, ss.len() - i,
{
    reveal(cursor::kind_is);
    let all = spelling::bare_stmts(ss);
    assert(acc.len() == i) by {
        assert(spelling::bare_stmts(acc).len() == acc.len());
        assert(all.take(i as int).len() == i);
    }
    if i == ss.len() {
        assert(all.take(i as int) =~= all);
    } else {
        let s = ss[i as int];
        let more = spelling::spell_stmts(ss, i + 1);
        spelling::lemma_spells_both(toks, p, spelling::spell_stmt(s), more);
        let p1 = p + spelling::spell_stmt(s).len();
        assert(spelling::stmt_written(s));
        if !spelling::closed_stmt(s.node) {
            if i + 1 < ss.len() {
                let k = i as int + 1;
                let s2 = ss[k];
                assert(spelling::closed_stmt(ss[k - 1].node) || spelling::ends_kind(spelling::spell_stmt(ss[k])[0]));
                assert(spelling::stmt_written(s2));
                lemma_stmt_has_text(s2);
                assert(more[0] == spelling::spell_stmt(s2)[0]);
                assert(toks[p1 + 0int].kind == more[0]);
            } else {
                assert(more.len() == 0);
                spelling::lemma_plain_end(TokenKind::End);
                spelling::lemma_plain_end(TokenKind::Else);
                spelling::lemma_plain_end(TokenKind::Catch);
                spelling::lemma_plain_end(TokenKind::Case);
                spelling::lemma_plain_end(TokenKind::Eof);
            }
            assert(spelling::ends_at(toks, p1));
            assert(!cursor::is_at(toks, p1, TokenKind::Assign));
        }
        lemma_stmt_begins(toks, p, s);
        lemma_stmt_reads(toks, p, s);
        let got = expr_syntax::stmt_at(toks, p)->Ok_0.0;
        let next = acc.push(got);
        assert(spelling::bare_stmts(next) =~= all.take(i as int + 1)) by {
            assert forall|j: int| 0 <= j < next.len() implies #[trigger] spelling::bare_stmts(next)[j]
                == all.take(i as int + 1)[j] by {
                if j < i {
                    assert(spelling::bare_stmts(acc)[j] == all.take(i as int)[j]);
                    assert(next[j] == acc[j]);
                }
            }
        }
        lemma_stmts_read(toks, p1, ss, i + 1, next);
        assert(expr_syntax::stmts_at(toks, p, acc) == expr_syntax::stmts_at(toks, p1, next));
    }
}

/// A statement that can be written has a text.
proof fn lemma_stmt_has_text(s: Spanned<StmtV>)
    requires
        spelling::stmt_written(s),
    ensures
        spelling::spell_stmt(s).len() > 0,
        spelling::spell_stmt(s)[0] != KindV::Plain(TokenKind::Assign),
{
    match s.node {
        StmtV::Expr(value) => lemma_expr_has_text(value.node),
        StmtV::Assign { target, value } => {
            lemma_expr_has_text(target.node);
            assert(spelling::spell_stmt(s)[0] == spelling::spell_expr(target.node)[0]);
        },
        _ => {},
    }
}

proof fn lemma_expr_has_text(e: ExprV)
    requires
        spelling::expr_written(e) || e is While || e is For,
    ensures
        spelling::spell_expr(e).len() > 0,
        spelling::spell_expr(e)[0] != KindV::Plain(TokenKind::Assign),
{
    match e {
        ExprV::Literal(l) => {
            assert(spelling::spell_literal(l).len() > 0);
        },
        ExprV::Variable(name, sigil) => {
            assert(spelling::spell_expr(e) == spelling::spell_sigil(sigil) + spelling::word(name));
            if !(sigil is Immutable) {
                assert(spelling::spell_expr(e)[0] == spelling::spell_sigil(sigil)[0]);
            }
        },
        _ => {},
    }
}

// ---------------------------------------------------------------------------
// The laws
// ---------------------------------------------------------------------------

/// The tree follows the text: the tokens of an expression, where a token follows that ends it,
/// read as the expression, places aside. So what stands between `then` and `else` are the
/// statements of the case for true, and what stands between `else` and `end` those of the case
/// for false.
pub proof fn law_expression_reads_back(toks: Seq<TokenV>, p: nat, e: ExprV)
    requires
        spelling::expr_written(e),
        spelling::spells(toks, p, spelling::spell_expr(e)),
        spelling::ends_at(toks, p + spelling::spell_expr(e).len()),
    ensures
        expr_syntax::expr_at(toks, p) matches Ok((v, q)) && q == p + spelling::spell_expr(e).len() && spelling::bare_expr(v.node)
            == spelling::bare_expr(e),
{
    lemma_expr_reads(toks, p, e);
}

/// Between `then` and `else` stand the statements for the case that the condition is true, and
/// between `else` and `end` those for the case that it is false: the tokens of a condition and of
/// two lists of statements, with these words around them, read as a match on the condition whose
/// case for true has the first statements and whose case for false has the second, places aside.
pub proof fn law_branches_follow_the_text(
    toks: Seq<TokenV>,
    p: nat,
    cond: Spanned<ExprV>,
    yes: Seq<Spanned<StmtV>>,
    no: Seq<Spanned<StmtV>>,
)
    requires
        spelling::expr_written(cond.node),
        spelling::stmts_written(yes),
        spelling::stmts_written(no),
        spelling::spells(
            toks,
            p,
            spelling::mark(TokenKind::If) + (spelling::spell_expr(cond.node) + (spelling::word("then"@) + (spelling::spell_stmts(yes, 0) + (
            spelling::mark(TokenKind::Else) + (spelling::spell_stmts(no, 0) + spelling::mark(TokenKind::End)))))),
        ),
    ensures
        expr_syntax::if_expr_at(toks, p) matches Ok((v, q)) && (v.node matches ExprV::Match { target, cases }
            && spelling::bare_expr(target.node) == spelling::bare_expr(cond.node) && cases.len() == 2
            && cases[0].pattern.node == PatternV::Literal(LiteralV::Bool(true))
            && cases[1].pattern.node == PatternV::Literal(LiteralV::Bool(false)) && spelling::bare_stmts(
            cases[0].body,
        ) == spelling::bare_stmts(yes) && spelling::bare_stmts(cases[1].body) == spelling::bare_stmts(no)),
{
    let t = Spanned { node: PatternV::Literal(LiteralV::Bool(true)), span: spelling::nowhere() };
    let f = Spanned { node: PatternV::Literal(LiteralV::Bool(false)), span: spelling::nowhere() };
    let cases = seq![
        MatchCaseV { pattern: t, body: yes },
        MatchCaseV { pattern: f, body: no },
    ];
    let e = ExprV::Match { target: Box::new(cond), cases };
    assert(cases[0].body == yes && cases[1].body == no);
    assert(spelling::cases_written(cases)) by {
        assert forall|i: int| 0 <= i < cases.len() implies spelling::pattern_written(
            (#[trigger] cases[i]).pattern.node,
        ) && spelling::stmts_written(cases[i].body) by {}
    }
    assert(spelling::are_branches(cases));
    lemma_branches_read(toks, p, e);
    let v = expr_syntax::if_expr_at(toks, p)->Ok_0.0;
    match spelling::bare_expr(v.node) {
        ExprV::Match { target, cases: bare } => {
            let got = v.node->Match_cases;
            assert(spelling::bare_cases(got) == spelling::bare_cases(cases));
            assert(spelling::bare_cases(got).len() == got.len());
            assert(spelling::bare_cases(cases).len() == 2);
            assert(spelling::bare_cases(got)[0] == spelling::bare_cases(cases)[0]);
            assert(spelling::bare_cases(got)[1] == spelling::bare_cases(cases)[1]);
            assert(spelling::bare_pattern(got[0].pattern.node) == spelling::bare_pattern(t.node));
            assert(spelling::bare_pattern(got[1].pattern.node) == spelling::bare_pattern(f.node));
        },
        _ => {},
    }
}

/// The tokens of a pattern read as the pattern, places aside.
pub proof fn law_pattern_reads_back(toks: Seq<TokenV>, p: nat, pat: PatternV)
    requires
        spelling::pattern_written(pat),
        spelling::spells(toks, p, spelling::spell_pattern(pat)),
        pattern_ends_at(toks, p + spelling::spell_pattern(pat).len()),
    ensures
        pattern_syntax::pattern_at(toks, p) matches Ok((v, q)) && q == p + spelling::spell_pattern(pat).len() && spelling::bare_pattern(
            v.node,
        ) == spelling::bare_pattern(pat),
{
    lemma_pattern_reads(toks, p, pat);
}

/// The tokens of statements, up to a token that ends them, read as the statements, places aside.
pub proof fn law_statements_read_back(toks: Seq<TokenV>, p: nat, ss: Seq<Spanned<StmtV>>)
    requires
        spelling::stmts_written(ss),
        spelling::spells(toks, p, spelling::spell_stmts(ss, 0)),
        p + spelling::spell_stmts(ss, 0).len() < toks.len(),
        expr_syntax::ends_stmts(toks, p + spelling::spell_stmts(ss, 0).len()),
    ensures
        expr_syntax::stmts_at(toks, p, Seq::empty()) matches Ok((v, q)) && q == p + spelling::spell_stmts(ss, 0).len()
            && spelling::bare_stmts(v) == spelling::bare_stmts(ss),
{
    let none = Seq::<Spanned<StmtV>>::empty();
    assert(spelling::bare_stmts(none) =~= spelling::bare_stmts(ss).take(0));
    lemma_stmts_read(toks, p, ss, 0, none);
}

} // verus!
