//! What the lexer promises of the tokens of a text.

use crate::lexer;
use crate::lexer::{CharClass, KindV, LexErrorV, StepV, StringV, TokenKind, TokenV};
use crate::offsets;
use crate::text;
use crate::text::Text;
use vstd::prelude::*;
use vstd::utf8::encode_utf8;

verus! {

// ---------------------------------------------------------------------------
// Scanning moves forward and stays inside the text
// ---------------------------------------------------------------------------

proof fn lemma_spaces_end(ks: Seq<CharClass>, p: nat)
    requires
        p <= ks.len(),
    ensures
        p <= lexer::spaces_end(ks, p) <= ks.len(),
    decreases ks.len() - p,
{
    if p < ks.len() && ks[p as int].space {
        lemma_spaces_end(ks, p + 1);
    }
}

proof fn lemma_line_end(cs: Text, p: nat)
    requires
        p <= cs.len(),
    ensures
        p <= lexer::line_end(cs, p) <= cs.len(),
    decreases cs.len() - p,
{
    if p < cs.len() && cs[p as int] != '\n' {
        lemma_line_end(cs, p + 1);
    }
}

proof fn lemma_comment_end(cs: Text, p: nat, depth: nat)
    requires
        p <= cs.len(),
    ensures
        p <= lexer::comment_end(cs, p, depth).0 <= cs.len(),
    decreases cs.len() - p,
{
    if depth == 0 || p >= cs.len() {
    } else if cs[p as int] == '/' && lexer::char_at(cs, p + 1) == Some('*') {
        lemma_comment_end(cs, p + 2, depth + 1);
    } else if cs[p as int] == '*' && lexer::char_at(cs, p + 1) == Some('/') {
        lemma_comment_end(cs, p + 2, (depth - 1) as nat);
    } else {
        lemma_comment_end(cs, p + 1, depth);
    }
}

proof fn lemma_skipped(cs: Text, ks: Seq<CharClass>, p: nat, errs: Seq<LexErrorV>)
    requires
        p <= cs.len(),
        ks.len() == cs.len(),
    ensures
        p <= lexer::skipped(cs, ks, p, errs).0 <= cs.len(),
    decreases cs.len() - p,
{
    lemma_spaces_end(ks, p);
    let q = lexer::spaces_end(ks, p);
    if lexer::char_at(cs, q) == Some('/') && lexer::char_at(cs, q + 1) == Some('/') {
        lemma_line_end(cs, q);
        let r = lexer::line_end(cs, q);
        if q < r {
            lemma_skipped(cs, ks, r, errs);
        }
    } else if lexer::char_at(cs, q) == Some('/') && lexer::char_at(cs, q + 1) == Some('*') {
        lemma_comment_end(cs, q + 2, 1);
        let (r, closed) = lexer::comment_end(cs, q + 2, 1);
        let next = if closed {
            errs
        } else {
            errs.push(
                LexErrorV { message: "unterminated block comment"@, span: lexer::span_of(r, r) },
            )
        };
        lemma_skipped(cs, ks, r, next);
    }
}

proof fn lemma_digits_end(cs: Text, p: nat)
    requires
        p <= cs.len(),
    ensures
        p <= lexer::digits_end(cs, p) <= cs.len(),
    decreases cs.len() - p,
{
    if p < cs.len() && lexer::is_digit(cs[p as int]) {
        lemma_digits_end(cs, p + 1);
    }
}

proof fn lemma_number_at(cs: Text, p: nat)
    requires
        p < cs.len(),
    ensures
        p < lexer::number_at(cs, p).1 <= cs.len(),
        !(lexer::number_at(cs, p).0 is Ident),
{
    lemma_digits_end(cs, p + 1);
    let q = lexer::digits_end(cs, p + 1);
    if q + 1 <= cs.len() {
        lemma_digits_end(cs, q + 1);
    }
}

proof fn lemma_name_end(cs: Text, ks: Seq<CharClass>, p: nat)
    requires
        p <= cs.len(),
    ensures
        p <= lexer::name_end(cs, ks, p) <= cs.len(),
    decreases cs.len() - p,
{
    if p < cs.len() && (ks[p as int].alphanumeric || cs[p as int] == '_') {
        lemma_name_end(cs, ks, p + 1);
    }
}

proof fn lemma_equals_end(cs: Text, p: nat)
    requires
        p <= cs.len(),
    ensures
        p <= lexer::equals_end(cs, p) <= cs.len(),
    decreases cs.len() - p,
{
    if p < cs.len() && cs[p as int] == '=' {
        lemma_equals_end(cs, p + 1);
    }
}

proof fn lemma_quoted_at(cs: Text, start: nat, p: nat, content: Text, errs: Seq<LexErrorV>)
    requires
        p <= cs.len(),
    ensures
        p <= lexer::quoted_at(cs, start, p, content, errs).next <= cs.len(),
    decreases cs.len() - p,
{
    if p < cs.len() {
        let c = cs[p as int];
        if c == '\n' || c == '\r' || c == '"' {
        } else if c == '\\' {
            if p + 1 >= cs.len() {
                lemma_quoted_at(
                    cs,
                    start,
                    p + 1,
                    content,
                    lexer::string_error(errs, "unterminated escape in string"@, start, p + 1),
                );
            } else {
                lemma_quoted_at(
                    cs,
                    start,
                    p + 2,
                    content.push(lexer::escaped(cs[(p + 1) as int])),
                    errs,
                );
            }
        } else {
            lemma_quoted_at(cs, start, p + 1, content.push(c), errs);
        }
    }
}

proof fn lemma_bracketed_at(
    cs: Text,
    start: nat,
    level: nat,
    p: nat,
    content: Text,
    errs: Seq<LexErrorV>,
)
    requires
        p <= cs.len(),
    ensures
        p <= lexer::bracketed_at(cs, start, level, p, content, errs).next <= cs.len(),
    decreases cs.len() - p,
{
    if !lexer::closes_at(cs, p, level) && p < cs.len() {
        let c = cs[p as int];
        if c == '\n' || c == '\r' {
        } else if c == '\\' && level < 2 {
            if p + 1 >= cs.len() {
                lemma_bracketed_at(
                    cs,
                    start,
                    level,
                    p + 1,
                    content,
                    lexer::string_error(errs, "unterminated escape in string"@, start, p + 1),
                );
            } else {
                lemma_bracketed_at(
                    cs,
                    start,
                    level,
                    p + 2,
                    content.push(lexer::escaped(cs[(p + 1) as int])),
                    errs,
                );
            }
        } else {
            lemma_bracketed_at(cs, start, level, p + 1, content.push(c), errs);
        }
    }
}

proof fn lemma_symbol_at(cs: Text, p: nat)
    requires
        p < cs.len(),
    ensures
        lexer::symbol_at(cs, p) matches Some((_, n)) ==> 0 < n && p + n <= cs.len(),
{
}

/// The text of a keyword or of a symbol.
#[verifier::opaque]
pub open spec fn mark_text(k: TokenKind) -> Option<Text> {
    match k {
        TokenKind::Let => Some("let"@),
        TokenKind::Fn => Some("fn"@),
        TokenKind::Do => Some("do"@),
        TokenKind::End => Some("end"@),
        TokenKind::Return => Some("return"@),
        TokenKind::If => Some("if"@),
        TokenKind::Else => Some("else"@),
        TokenKind::Match => Some("match"@),
        TokenKind::Case => Some("case"@),
        TokenKind::Task => Some("task"@),
        TokenKind::Conc => Some("conc"@),
        TokenKind::Port => Some("port"@),
        TokenKind::Type => Some("type"@),
        TokenKind::Import => Some("import"@),
        TokenKind::From => Some("from"@),
        TokenKind::Pub => Some("pub"@),
        TokenKind::Require => Some("require"@),
        TokenKind::Effect => Some("effect"@),
        TokenKind::Raise => Some("raise"@),
        TokenKind::Try => Some("try"@),
        TokenKind::Catch => Some("catch"@),
        TokenKind::Handler => Some("handler"@),
        TokenKind::Inject => Some("inject"@),
        TokenKind::Exception => Some("exception"@),
        TokenKind::External => Some("external"@),
        TokenKind::True => Some("true"@),
        TokenKind::False => Some("false"@),
        TokenKind::LParen => Some(seq!['(']),
        TokenKind::RParen => Some(seq![')']),
        TokenKind::LBrace => Some(seq!['{']),
        TokenKind::RBrace => Some(seq!['}']),
        TokenKind::RBracket => Some(seq![']']),
        TokenKind::LBracket => Some(seq!['[']),
        TokenKind::LBracketPipe => Some(seq!['[', '|']),
        TokenKind::RBracketPipe => Some(seq!['|', ']']),
        TokenKind::Colon => Some(seq![':']),
        TokenKind::Comma => Some(seq![',']),
        TokenKind::Dot => Some(seq!['.']),
        TokenKind::Tilde => Some(seq!['~']),
        TokenKind::Percent => Some(seq!['%']),
        TokenKind::Pipe => Some(seq!['|']),
        TokenKind::OrOr => Some(seq!['|', '|']),
        TokenKind::AndAnd => Some(seq!['&', '&']),
        TokenKind::Ampersand => Some(seq!['&']),
        TokenKind::Plus => Some(seq!['+']),
        TokenKind::PlusDot => Some(seq!['+', '.']),
        TokenKind::PlusPlus => Some(seq!['+', '+']),
        TokenKind::Minus => Some(seq!['-']),
        TokenKind::MinusDot => Some(seq!['-', '.']),
        TokenKind::Arrow => Some(seq!['-', '>']),
        TokenKind::Star => Some(seq!['*']),
        TokenKind::StarDot => Some(seq!['*', '.']),
        TokenKind::Slash => Some(seq!['/']),
        TokenKind::SlashDot => Some(seq!['/', '.']),
        TokenKind::Eq => Some(seq!['=']),
        TokenKind::EqEq => Some(seq!['=', '=']),
        TokenKind::EqDot => Some(seq!['=', '=', '.']),
        TokenKind::FatArrow => Some(seq!['=', '>']),
        TokenKind::Ne => Some(seq!['!', '=']),
        TokenKind::NeDot => Some(seq!['!', '=', '.']),
        TokenKind::Lt => Some(seq!['<']),
        TokenKind::Le => Some(seq!['<', '=']),
        TokenKind::LtDot => Some(seq!['<', '.']),
        TokenKind::LeDot => Some(seq!['<', '=', '.']),
        TokenKind::Gt => Some(seq!['>']),
        TokenKind::Ge => Some(seq!['>', '=']),
        TokenKind::GtDot => Some(seq!['>', '.']),
        TokenKind::GeDot => Some(seq!['>', '=', '.']),
        TokenKind::Assign => Some(seq!['<', '-']),
        _ => None,
    }
}

/// The digit that a character stands for.
pub open spec fn digit_value(c: char) -> nat {
    if lexer::is_digit(c) {
        (c as int - '0' as int) as nat
    } else {
        0
    }
}

/// The number that digits stand for, the last one for the units.
pub open spec fn number_value(digits: Text) -> nat
    decreases digits.len(),
{
    if digits.len() == 0 {
        0
    } else {
        number_value(digits.drop_last()) * 10 + digit_value(digits.last())
    }
}

/// Whether a token is what a text stands for: a name for itself, a keyword or a symbol for its
/// mark, an integer for its digits, a number with a point for its text.
pub open spec fn stands_for(text: Text, k: KindV) -> bool {
    match k {
        KindV::Ident(s) => s == text,
        KindV::Plain(m) => m is Eof || mark_text(m) == Some(text),
        KindV::Int(n) => if text::begins_with_char(text, '-') {
            n == -(number_value(text.skip(1)) as int)
        } else {
            n == number_value(text)
        },
        KindV::Float(s) => s == text,
        _ => true,
    }
}

proof fn lemma_digits_value(cs: Text, a: nat, p: nat, end: nat)
    requires
        a <= p <= end <= cs.len(),
        forall|j: int| a <= j < end ==> lexer::is_digit(#[trigger] cs[j]),
    ensures
        lexer::digits_value(cs, p, end, number_value(cs.subrange(a as int, p as int))) == number_value(
            cs.subrange(a as int, end as int),
        ),
    decreases end - p,
{
    if p < end {
        let next = cs.subrange(a as int, p as int + 1);
        assert(next.drop_last() =~= cs.subrange(a as int, p as int));
        assert(next.last() == cs[p as int]);
        lemma_digits_value(cs, a, p + 1, end);
    }
}

proof fn lemma_all_digits(cs: Text, p: nat)
    ensures
        forall|j: int| p <= j < lexer::digits_end(cs, p) ==> lexer::is_digit(#[trigger] cs[j]),
    decreases cs.len() - p,
{
    if p < cs.len() && lexer::is_digit(cs[p as int]) {
        lemma_all_digits(cs, p + 1);
    }
}

/// A number stands for its digits.
proof fn lemma_number_stands(cs: Text, p: nat)
    requires
        p < cs.len(),
        lexer::is_digit(cs[p as int]),
    ensures
        match lexer::number_at(cs, p).0 {
            KindV::Int(n) => n == number_value(cs.subrange(p as int, lexer::number_at(cs, p).1 as int)),
            KindV::Float(s) => s == cs.subrange(p as int, lexer::number_at(cs, p).1 as int),
            _ => false,
        },
        p < lexer::number_at(cs, p).1 <= cs.len(),
{
    lemma_number_at(cs, p);
    lemma_all_digits(cs, p + 1);
    lemma_digits_end(cs, p + 1);
    let q = lexer::digits_end(cs, p + 1);
    assert(cs.subrange(p as int, p as int) =~= Seq::empty());
    lemma_digits_value(cs, p, p, q);
}

/// A symbol stands for its mark.
#[verifier::spinoff_prover]
#[verifier::rlimit(60)]
proof fn lemma_symbol_stands(cs: Text, p: nat)
    requires
        p < cs.len(),
    ensures
        lexer::symbol_at(cs, p) matches Some((k, n)) ==> mark_text(k) == Some(
            cs.subrange(p as int, (p + n) as int),
        ),
{
    reveal(mark_text);
    lemma_symbol_at(cs, p);
    match lexer::symbol_at(cs, p) {
        Some((k, n)) => {
            let t = cs.subrange(p as int, (p + n) as int);
            assert(t[0] == cs[p as int]);
            if n == 1 {
                assert(t =~= seq![cs[p as int]]);
            } else if n == 2 {
                assert(t =~= seq![cs[p as int], cs[p as int + 1]]);
            } else {
                assert(t =~= seq![cs[p as int], cs[p as int + 1], cs[p as int + 2]]);
            }
        },
        None => {},
    }
}

/// A word stands for itself.
proof fn lemma_word_stands(s: Text)
    ensures
        stands_for(s, lexer::word_kind(s)),
{
    reveal(mark_text);
}

/// What stands at a position ends behind it and inside the text, and stands for the text that it
/// takes up.
proof fn lemma_token_at(cs: Text, ks: Seq<CharClass>, p: nat, errs: Seq<LexErrorV>)
    requires
        p < cs.len(),
    ensures
        p < lexer::token_at(cs, ks, p, errs).next <= cs.len(),
        lexer::token_at(cs, ks, p, errs).kind matches Some(k) ==> stands_for(
            cs.subrange(p as int, lexer::token_at(cs, ks, p, errs).next as int),
            k,
        ),
{
    let c = cs[p as int];
    if c == '[' {
        lemma_equals_end(cs, p + 1);
        let e = lexer::equals_end(cs, p + 1);
        reveal(mark_text);
        if lexer::char_at(cs, p + 1) == Some('|') {
            assert(cs.subrange(p as int, p as int + 2) =~= seq!['[', '|']);
        } else if lexer::char_at(cs, e) == Some('[') {
            lemma_bracketed_at(cs, p, (e - (p + 1)) as nat, e + 1, Seq::empty(), errs);
        } else {
            assert(cs.subrange(p as int, p as int + 1) =~= seq!['[']);
        }
    } else if c == '"' {
        lemma_quoted_at(cs, p, p + 1, Seq::empty(), errs);
    } else if c == '-' && p + 1 < cs.len() && lexer::is_digit(cs[(p + 1) as int]) {
        lemma_number_stands(cs, p + 1);
        let end = lexer::number_at(cs, p + 1).1;
        let text = cs.subrange(p as int, end as int);
        assert(text[0] == '-');
        assert(text.skip(1) =~= cs.subrange(p as int + 1, end as int));
        reveal_strlit("-");
        assert("-"@ + text.skip(1) =~= text);
    } else {
        lemma_symbol_at(cs, p);
        lemma_symbol_stands(cs, p);
        if lexer::symbol_at(cs, p) is None {
            if lexer::is_digit(c) {
                lemma_number_stands(cs, p);
                let end = lexer::number_at(cs, p).1;
                assert(cs.subrange(p as int, end as int)[0] == c);
            } else if ks[p as int].alphabetic || c == '_' {
                lemma_name_end(cs, ks, p + 1);
                lemma_word_stands(cs.subrange(p as int, lexer::name_end(cs, ks, p + 1) as int));
            }
        }
    }
}

// ---------------------------------------------------------------------------
// Tokens
// ---------------------------------------------------------------------------

/// Whether a token lies in the first `p` characters of a text, and is what the text at its place
/// stands for.
pub open spec fn token_lies_in(cs: Text, t: TokenV, p: nat) -> bool {
    &&& t.span.start <= t.span.end <= p
    &&& stands_for(cs.subrange(t.span.start as int, t.span.end as int), t.kind)
}

/// Whether tokens lie in the first `p` characters of a text, one behind the other.
pub open spec fn tokens_lie_in(cs: Text, toks: Seq<TokenV>, p: nat) -> bool {
    &&& forall|i: int| 0 <= i < toks.len() ==> token_lies_in(cs, #[trigger] toks[i], p)
    &&& forall|i: int, j: int|
        0 <= i < j < toks.len() ==> (#[trigger] toks[i]).span.end <= (#[trigger] toks[j]).span.start
}

/// Whether each of the first `n` tokens takes up something of the text.
pub open spec fn tokens_are_filled(toks: Seq<TokenV>, n: int) -> bool {
    forall|i: int| 0 <= i < n ==> (#[trigger] toks[i]).span.start < toks[i].span.end
}

proof fn lemma_lexed(
    cs: Text,
    ks: Seq<CharClass>,
    p: nat,
    toks: Seq<TokenV>,
    errs: Seq<LexErrorV>,
)
    requires
        p <= cs.len() <= usize::MAX,
        ks.len() == cs.len(),
        tokens_lie_in(cs, toks, p),
        tokens_are_filled(toks, toks.len() as int),
    ensures
        ({
            let all = lexer::lexed(cs, ks, p, toks, errs).0;
            &&& tokens_lie_in(cs, all, cs.len())
            &&& all.len() > 0
            &&& tokens_are_filled(all, all.len() - 1)
            &&& all.last() == TokenV {
                kind: KindV::Plain(TokenKind::Eof),
                span: lexer::span_of(cs.len(), cs.len()),
            }
        }),
    decreases cs.len() - p,
{
    lemma_skipped(cs, ks, p, errs);
    let (q, errs1) = lexer::skipped(cs, ks, p, errs);
    if q < cs.len() {
        lemma_token_at(cs, ks, q, errs1);
        let step = lexer::token_at(cs, ks, q, errs1);
        let toks1 = match step.kind {
            Some(kind) => toks.push(TokenV { kind, span: lexer::span_of(q, step.next) }),
            None => toks,
        };
        lemma_pushed(cs, toks, p, q, step);
        lemma_lexed(cs, ks, step.next, toks1, step.errs);
    } else {
        let eof = TokenV { kind: KindV::Plain(TokenKind::Eof), span: lexer::span_of(q, q) };
        let all = toks.push(eof);
        assert forall|i: int| 0 <= i < all.len() implies token_lies_in(
            cs,
            #[trigger] all[i],
            cs.len(),
        ) by {
            if i < toks.len() {
                assert(token_lies_in(cs, toks[i], p));
            }
        }
        assert forall|i: int, j: int| 0 <= i < j < all.len() implies (#[trigger] all[i]).span.end
            <= (#[trigger] all[j]).span.start by {
            assert(token_lies_in(cs, toks[i], p));
        }
    }
}

proof fn lemma_pushed(cs: Text, toks: Seq<TokenV>, p: nat, q: nat, step: StepV)
    requires
        p <= q < step.next <= cs.len() <= usize::MAX,
        tokens_lie_in(cs, toks, p),
        step.kind matches Some(k) ==> stands_for(cs.subrange(q as int, step.next as int), k),
    ensures
        tokens_lie_in(
            cs,
            match step.kind {
                Some(kind) => toks.push(TokenV { kind, span: lexer::span_of(q, step.next) }),
                None => toks,
            },
            step.next,
        ),
{
    let all = match step.kind {
        Some(kind) => toks.push(TokenV { kind, span: lexer::span_of(q, step.next) }),
        None => toks,
    };
    assert forall|i: int| 0 <= i < all.len() implies token_lies_in(
        cs,
        #[trigger] all[i],
        step.next,
    ) by {
        if i < toks.len() {
            assert(token_lies_in(cs, toks[i], p));
        }
    }
    assert forall|i: int, j: int| 0 <= i < j < all.len() implies (#[trigger] all[i]).span.end
        <= (#[trigger] all[j]).span.start by {
        assert(token_lies_in(cs, toks[i], p));
    }
}

/// The tokens of a text lie in it one behind the other, each name, keyword, symbol and number is
/// what the text at its place stands for, and
/// the last token is the end of the source, behind the last character. Each of the others takes
/// up at least one character.
pub proof fn law_tokens_follow_the_text(cs: Text, ks: Seq<CharClass>)
    requires
        cs.len() <= usize::MAX,
        ks.len() == cs.len(),
    ensures
        lexer::tokens_of(cs, ks) matches Ok(toks) ==> {
            &&& tokens_lie_in(cs, toks, cs.len())
            &&& toks.len() > 0
            &&& tokens_are_filled(toks, toks.len() - 1)
            &&& toks.last() == TokenV {
                kind: KindV::Plain(TokenKind::Eof),
                span: lexer::span_of(cs.len(), cs.len()),
            }
        },
{
    lemma_lexed(cs, ks, 0, Seq::empty(), Seq::empty());
}

/// Whether a token lies in a text of the given bytes, and stands for its text where it is a name.
pub open spec fn token_stands_in(bytes: Seq<u8>, t: TokenV) -> bool {
    &&& t.span.start <= t.span.end <= bytes.len()
    &&& t.kind matches KindV::Ident(s) ==> encode_utf8(s) == bytes.subrange(
        t.span.start as int,
        t.span.end as int,
    )
}

/// Whether tokens lie in a text of the given bytes, one behind the other.
pub open spec fn tokens_stand_in(bytes: Seq<u8>, toks: Seq<TokenV>) -> bool {
    &&& forall|i: int| 0 <= i < toks.len() ==> token_stands_in(bytes, #[trigger] toks[i])
    &&& forall|i: int, j: int|
        0 <= i < j < toks.len() ==> (#[trigger] toks[i]).span.end <= (#[trigger] toks[j]).span.start
}

/// The tokens of a source text lie among its bytes one behind the other, the bytes at the place
/// of a name are those of the name, and the last token is the end of the source, behind the last
/// byte. Each of the others takes up at least one byte.
pub proof fn law_tokens_follow_the_bytes(cs: Text, ks: Seq<CharClass>)
    requires
        encode_utf8(cs).len() <= usize::MAX,
        ks.len() == cs.len(),
    ensures
        lexer::source_tokens(cs, ks) matches Ok(toks) ==> {
            &&& tokens_stand_in(encode_utf8(cs), toks)
            &&& toks.len() > 0
            &&& tokens_are_filled(toks, toks.len() - 1)
            &&& toks.last() == TokenV {
                kind: KindV::Plain(TokenKind::Eof),
                span: lexer::span_of(encode_utf8(cs).len(), encode_utf8(cs).len()),
            }
        },
{
    offsets::lemma_chars_have_bytes(cs);
    law_tokens_follow_the_text(cs, ks);
    let bytes = encode_utf8(cs);
    if let Ok(toks) = lexer::tokens_of(cs, ks) {
        let all = lexer::source_tokens(cs, ks)->Ok_0;
        assert forall|i: int| 0 <= i < all.len() implies token_stands_in(
            bytes,
            #[trigger] all[i],
        ) by {
            let t = toks[i];
            assert(token_lies_in(cs, t, cs.len()));
            offsets::lemma_bytes_of_part(cs, t.span.start as nat, t.span.end as nat);
        }
        assert forall|i: int, j: int| 0 <= i < j < all.len() implies (#[trigger] all[i]).span.end
            <= (#[trigger] all[j]).span.start by {
            assert(token_lies_in(cs, toks[i], cs.len()));
            assert(token_lies_in(cs, toks[j], cs.len()));
            offsets::lemma_bytes_of_part(cs, toks[i].span.end as nat, toks[j].span.start as nat);
            offsets::lemma_bytes_of_part(cs, toks[i].span.end as nat, toks[i].span.end as nat);
            offsets::lemma_bytes_of_part(cs, toks[j].span.start as nat, toks[j].span.start as nat);
        }
        assert forall|i: int| 0 <= i < all.len() - 1 implies (#[trigger] all[i]).span.start
            < all[i].span.end by {
            let t = toks[i];
            assert(token_lies_in(cs, t, cs.len()));
            offsets::lemma_bytes_of_part(cs, t.span.start as nat, t.span.end as nat);
            offsets::lemma_chars_have_bytes(cs.subrange(t.span.start as int, t.span.end as int));
        }
    }
}

// ---------------------------------------------------------------------------
// Spaces
// ---------------------------------------------------------------------------

proof fn lemma_all_spaces(ks: Seq<CharClass>, p: nat)
    requires
        p <= ks.len(),
        forall|i: int| 0 <= i < ks.len() ==> (#[trigger] ks[i]).space,
    ensures
        lexer::spaces_end(ks, p) == ks.len(),
    decreases ks.len() - p,
{
    if p < ks.len() {
        lemma_all_spaces(ks, p + 1);
    }
}

/// A text of spaces alone has no tokens but the end of the source.
pub proof fn law_spaces_are_no_tokens(cs: Text, ks: Seq<CharClass>)
    requires
        ks.len() == cs.len(),
        forall|i: int| 0 <= i < ks.len() ==> (#[trigger] ks[i]).space,
    ensures
        lexer::tokens_of(cs, ks) == Ok::<Seq<TokenV>, Seq<LexErrorV>>(
            seq![
                TokenV {
                    kind: KindV::Plain(TokenKind::Eof),
                    span: lexer::span_of(cs.len(), cs.len()),
                },
            ],
        ),
{
    lemma_all_spaces(ks, 0);
    assert(lexer::skipped(cs, ks, 0, Seq::empty()).0 == cs.len());
    assert(lexer::tokens_of(cs, ks)->Ok_0 =~= seq![
        TokenV { kind: KindV::Plain(TokenKind::Eof), span: lexer::span_of(cs.len(), cs.len()) },
    ]);
}

// ---------------------------------------------------------------------------
// String literals
// ---------------------------------------------------------------------------

/// A character as it is written in a string literal.
pub open spec fn string_char(c: char) -> Text {
    if c == '\n' {
        seq!['\\', 'n']
    } else if c == '\r' {
        seq!['\\', 'r']
    } else if c == '\t' {
        seq!['\\', 't']
    } else if c == '"' {
        seq!['\\', '"']
    } else if c == '\\' {
        seq!['\\', '\\']
    } else {
        seq![c]
    }
}

/// The characters of a text from index `i` on as they are written in a string literal.
pub open spec fn string_chars_from(s: Text, i: nat) -> Text
    decreases s.len() - i,
{
    if i >= s.len() {
        Seq::empty()
    } else {
        string_char(s[i as int]) + string_chars_from(s, i + 1)
    }
}

/// Whether a text stands in another one at a position.
pub open spec fn written_at(cs: Text, p: nat, t: Text) -> bool {
    p + t.len() <= cs.len() && forall|i: int|
        0 <= i < t.len() ==> cs[p + i] == #[trigger] t[i]
}

proof fn lemma_stands_both(cs: Text, p: nat, a: Text, b: Text)
    requires
        written_at(cs, p, a + b),
    ensures
        written_at(cs, p, a),
        written_at(cs, p + a.len(), b),
        (a + b).len() == a.len() + b.len(),
{
    let t = a + b;
    assert forall|i: int| 0 <= i < a.len() implies cs[p + i] == #[trigger] a[i] by {
        assert(t[i] == a[i]);
    }
    assert forall|i: int| 0 <= i < b.len() implies cs[p + a.len() + i] == #[trigger] b[i] by {
        assert(t[a.len() + i] == b[i]);
    }
}

proof fn lemma_quoted_reads(
    cs: Text,
    start: nat,
    p: nat,
    s: Text,
    i: nat,
    errs: Seq<LexErrorV>,
)
    requires
        i <= s.len(),
        written_at(cs, p, string_chars_from(s, i) + seq!['"']),
    ensures
        lexer::quoted_at(cs, start, p, s.take(i as int), errs) == (StringV {
            content: s,
            next: p + string_chars_from(s, i).len() + 1,
            errs,
        }),
    decreases s.len() - i,
{
    lemma_stands_both(cs, p, string_chars_from(s, i), seq!['"']);
    if i == s.len() {
        assert(s.take(i as int) =~= s);
        assert(cs[p + 0int] == seq!['"'][0]);
    } else {
        let c = s[i as int];
        let first = string_char(c);
        let rest = string_chars_from(s, i + 1);
        assert(first + rest + seq!['"'] =~= first + (rest + seq!['"']));
        lemma_stands_both(cs, p, first, rest + seq!['"']);
        assert(cs[p + 0int] == first[0]);
        if first.len() == 2 {
            assert(cs[p + 1int] == first[1]);
        }
        assert(s.take(i as int + 1) =~= s.take(i as int).push(c));
        lemma_quoted_reads(cs, start, p + first.len(), s, i + 1, errs);
    }
}

/// A text that is written between double quotes, with a backslash before quotes and backslashes
/// and for line ends and tabs, reads as a string literal of that text.
pub proof fn law_string_literal_reads_back(
    cs: Text,
    ks: Seq<CharClass>,
    p: nat,
    s: Text,
    errs: Seq<LexErrorV>,
)
    requires
        p < cs.len(),
        cs[p as int] == '"',
        written_at(cs, p + 1, string_chars_from(s, 0) + seq!['"']),
    ensures
        lexer::token_at(cs, ks, p, errs) == (StepV {
            kind: Some(KindV::StringLit(s)),
            next: p + string_chars_from(s, 0).len() + 2,
            errs,
        }),
{
    assert(s.take(0) =~= Seq::empty());
    lemma_quoted_reads(cs, p, p + 1, s, 0, errs);
}

} // verus!
