//! Reading tokens: what the parser asks of the token at a position, and what it reports.

use crate::lexer;
use crate::lexer::{
    KindV, Token, TokenKind, TokenV, kind_to_text, name_of_plain, same_kind, span_to_text,
};
use crate::text::{Text, cat3, cat4, str_eq};
use crate::types;
use crate::types::{Sigil, Span};
use vstd::prelude::*;

verus! {

/// What the parser reports.
#[derive(Debug)]
pub struct ParseError {
    pub message: String,
    pub span: Span,
}

/// The model of what the parser reports.
pub struct ParseErrorV {
    pub message: Text,
    pub span: Span,
}

impl ParseError {
    /// The model of this report.
    pub open spec fn view(&self) -> ParseErrorV {
        ParseErrorV { message: self.message@, span: self.span }
    }

    /// The report as a line of text.
    pub fn to_text(&self) -> (r: String)
        ensures
            r@ == "Parse error at "@ + lexer::span_text(self.span) + ": "@ + self.message@,
    {
        let s = span_to_text(&self.span);
        cat4("Parse error at ", s.as_str(), ": ", self.message.as_str())
    }
}

/// A report.
pub open spec fn parse_error(message: Text, span: Span) -> ParseErrorV {
    ParseErrorV { message, span }
}

/// What reading yields: a value and the position behind it, or a report.
pub type Parsed<V> = Result<(V, nat), ParseErrorV>;

/// The number of tokens from a position on.
pub open spec fn left(toks: Seq<TokenV>, p: nat) -> nat {
    if p < toks.len() {
        (toks.len() - p) as nat
    } else {
        0
    }
}

/// The position `q`, which is behind `p` in all that the parser reads.
pub open spec fn ahead(p: nat, q: nat) -> nat {
    if q > p {
        q
    } else {
        p + 1
    }
}

/// The kind of the token at a position.
pub open spec fn kind_at(toks: Seq<TokenV>, p: nat) -> KindV {
    if p < toks.len() {
        toks[p as int].kind
    } else {
        KindV::Plain(TokenKind::Eof)
    }
}

/// The place of the token at a position.
pub open spec fn span_at(toks: Seq<TokenV>, p: nat) -> Span {
    toks[p as int].span
}

/// Where the token at a position begins.
pub open spec fn start_at(toks: Seq<TokenV>, p: nat) -> usize {
    toks[p as int].span.start
}

/// Where the token at a position ends.
pub open spec fn end_at(toks: Seq<TokenV>, p: nat) -> usize {
    toks[p as int].span.end
}

/// Where the token before a position ends.
pub open spec fn end_before(toks: Seq<TokenV>, p: nat) -> usize {
    toks[p - 1].span.end
}

/// A span from a start to an end.
pub open spec fn span_between(start: usize, end: usize) -> Span {
    Span { start, end }
}

/// Whether a model is that of a kind that carries nothing.
#[verifier::opaque]
pub open spec fn kind_is(m: KindV, k: TokenKind) -> bool {
    m == KindV::Plain(k)
}

/// Whether the token at a position is of a kind that carries nothing.
pub open spec fn is_at(toks: Seq<TokenV>, p: nat, k: TokenKind) -> bool {
    p < toks.len() && kind_is(toks[p as int].kind, k)
}

/// Whether the token at a position is a name.
pub open spec fn is_name(toks: Seq<TokenV>, p: nat) -> bool {
    p < toks.len() && toks[p as int].kind is Ident
}

/// Whether a literal begins at a position.
#[verifier::opaque]
pub open spec fn is_literal(toks: Seq<TokenV>, p: nat) -> bool {
    &&& p < toks.len()
    &&& match toks[p as int].kind {
        KindV::Int(_) => true,
        KindV::Float(_) => true,
        KindV::CharLit(_) => true,
        KindV::StringLit(_) => true,
        KindV::Plain(TokenKind::True) => true,
        KindV::Plain(TokenKind::False) => true,
        KindV::Plain(TokenKind::Minus) => true,
        _ => false,
    }
}

/// Whether the token at a position is a given word.
pub open spec fn is_word(toks: Seq<TokenV>, p: nat, w: Text) -> bool {
    kind_at(toks, p) == KindV::Ident(w)
}

/// The report for a token of another kind than the expected one.
pub open spec fn unexpected(toks: Seq<TokenV>, p: nat, what: Text) -> ParseErrorV {
    parse_error("expected "@ + what + ", got "@ + lexer::kind_text(kind_at(toks, p)), span_at(toks, p))
}

/// The position behind a token of the given kind.
pub open spec fn expected(toks: Seq<TokenV>, p: nat, k: TokenKind) -> Result<nat, ParseErrorV> {
    if is_at(toks, p, k) {
        Ok(p + 1)
    } else {
        Err(unexpected(toks, p, lexer::plain_name(k)))
    }
}

/// The position behind the given word.
pub open spec fn word_expected(toks: Seq<TokenV>, p: nat, w: Text) -> Result<nat, ParseErrorV> {
    if is_word(toks, p, w) {
        Ok(p + 1)
    } else {
        Err(unexpected(toks, p, "'"@ + w + "'"@))
    }
}

/// Whether a word cannot be a name.
#[verifier::opaque]
pub open spec fn reserved(s: Text) -> bool {
    ||| s == "let"@
    ||| s == "fn"@
    ||| s == "do"@
    ||| s == "end"@
    ||| s == "return"@
    ||| s == "if"@
    ||| s == "else"@
    ||| s == "match"@
    ||| s == "case"@
    ||| s == "task"@
    ||| s == "conc"@
    ||| s == "port"@
    ||| s == "type"@
    ||| s == "import"@
    ||| s == "from"@
    ||| s == "export"@
    ||| s == "require"@
    ||| s == "throws"@
    ||| s == "raise"@
    ||| s == "try"@
    ||| s == "catch"@
    ||| s == "handler"@
    ||| s == "inject"@
    ||| s == "exception"@
    ||| s == "external"@
}

/// The name at a position.
pub open spec fn ident_at(toks: Seq<TokenV>, p: nat) -> Parsed<Text> {
    match kind_at(toks, p) {
        KindV::Ident(s) => {
            if reserved(s) {
                Err(parse_error("Keyword '"@ + s + "' is reserved"@, span_at(toks, p)))
            } else {
                Ok((s, p + 1))
            }
        },
        _ => Err(unexpected(toks, p, "identifier"@)),
    }
}

/// Whether a name begins with an uppercase letter of ASCII.
pub open spec fn begins_uppercase(s: Text) -> bool {
    s.len() > 0 && 'A' as int <= s[0] as int <= 'Z' as int
}

/// Whether the token at a position is a name that begins with an uppercase letter.
pub open spec fn is_upper(toks: Seq<TokenV>, p: nat) -> bool {
    kind_at(toks, p) matches KindV::Ident(s) && begins_uppercase(s)
}

/// The sigil at a position; none is an immutable binding.
pub open spec fn sigil_at(toks: Seq<TokenV>, p: nat) -> (Sigil, nat) {
    if is_at(toks, p, TokenKind::Tilde) {
        (Sigil::Mutable, p + 1)
    } else if is_at(toks, p, TokenKind::Percent) {
        (Sigil::Linear, p + 1)
    } else if is_at(toks, p, TokenKind::Ampersand) {
        (Sigil::Borrow, p + 1)
    } else {
        (Sigil::Immutable, p)
    }
}

/// Reports a token of another kind than the expected one.
pub fn unexpected_error(toks: &Vec<Token>, p: usize, what: &str) -> (r: ParseError)
    requires
        p < toks.len(),
    ensures
        r@ == unexpected(lexer::tokens_view(toks@), p as nat, what@),
{
    let got = kind_to_text(&toks[p].kind);
    assert(lexer::tokens_view(toks@)[p as int] == toks@[p as int]@);
    ParseError {
        message: cat4("expected ", what, ", got ", got.as_str()),
        span: toks[p].span,
    }
}

/// Whether the token at a position is of the given kind.
pub fn next_is(toks: &Vec<Token>, p: usize, k: &TokenKind) -> (r: bool)
    requires
        lexer::well_ended(toks@),
        p < toks.len(),
        !(k is Int || k is Float || k is CharLit || k is StringLit || k is Ident),
    ensures
        r == is_at(lexer::tokens_view(toks@), p as nat, *k),
        r && !(*k is Eof) ==> p + 1 < toks.len(),
{
    proof {
        reveal(kind_is);
        reveal(TokenKind::view);
        assert(lexer::tokens_view(toks@)[p as int] == toks@[p as int]@);
    }
    same_kind(&toks[p].kind, k)
}

/// Whether the token at a position is a name.
pub fn next_is_name(toks: &Vec<Token>, p: usize) -> (r: bool)
    requires
        lexer::well_ended(toks@),
        p < toks.len(),
    ensures
        r == is_name(lexer::tokens_view(toks@), p as nat),
        r ==> p + 1 < toks.len(),
{
    proof {
        reveal(TokenKind::view);
        assert(lexer::tokens_view(toks@)[p as int] == toks@[p as int]@);
    }
    matches!(toks[p].kind, TokenKind::Ident(_))
}

/// Whether a literal begins at a position.
pub fn next_is_literal(toks: &Vec<Token>, p: usize) -> (r: bool)
    requires
        lexer::well_ended(toks@),
        p < toks.len(),
    ensures
        r == is_literal(lexer::tokens_view(toks@), p as nat),
        r ==> p + 1 < toks.len(),
{
    proof {
        reveal(is_literal);
        reveal(TokenKind::view);
        assert(lexer::tokens_view(toks@)[p as int] == toks@[p as int]@);
    }
    match &toks[p].kind {
        TokenKind::Int(_) => true,
        TokenKind::Float(_) => true,
        TokenKind::CharLit(_) => true,
        TokenKind::StringLit(_) => true,
        TokenKind::True => true,
        TokenKind::False => true,
        TokenKind::Minus => true,
        _ => false,
    }
}

/// Moves behind a token of the given kind, or reports the one that is there.
pub fn expect(toks: &Vec<Token>, p: usize, k: &TokenKind) -> (r: Result<usize, ParseError>)
    requires
        lexer::well_ended(toks@),
        p < toks.len(),
        !(k is Int || k is Float || k is CharLit || k is StringLit || k is Ident || k is Eof),
    ensures
        match r {
            Ok(q) => {
                &&& expected(lexer::tokens_view(toks@), p as nat, *k) == Ok::<nat, ParseErrorV>(
                    q as nat,
                )
                &&& q == p + 1
                &&& q < toks.len()
            },
            Err(e) => expected(lexer::tokens_view(toks@), p as nat, *k) == Err::<nat, ParseErrorV>(e@),
        },
{
    if next_is(toks, p, k) {
        Ok(p + 1)
    } else {
        let name = name_of_plain(k);
        Err(unexpected_error(toks, p, name))
    }
}

/// Whether the token at a position is a given word.
pub fn at_word(toks: &Vec<Token>, p: usize, w: &str) -> (r: bool)
    requires
        lexer::well_ended(toks@),
        p < toks.len(),
    ensures
        r == is_word(lexer::tokens_view(toks@), p as nat, w@),
        r ==> p + 1 < toks.len(),
{
    proof {
        reveal(TokenKind::view);
    }
    assert(lexer::tokens_view(toks@)[p as int] == toks@[p as int]@);
    match &toks[p].kind {
        TokenKind::Ident(s) => str_eq(s.as_str(), w),
        _ => false,
    }
}

/// Moves behind a given word, or reports the token at a position.
pub fn expect_contextual(toks: &Vec<Token>, p: usize, w: &str) -> (r: Result<usize, ParseError>)
    requires
        lexer::well_ended(toks@),
        p < toks.len(),
    ensures
        match r {
            Ok(q) => {
                &&& word_expected(lexer::tokens_view(toks@), p as nat, w@) == Ok::<nat, ParseErrorV>(
                    q as nat,
                )
                &&& p < q < toks.len()
            },
            Err(e) => word_expected(lexer::tokens_view(toks@), p as nat, w@) == Err::<
                nat,
                ParseErrorV,
            >(e@),
        },
{
    proof {
        reveal(TokenKind::view);
    }
    if at_word(toks, p, w) {
        assert(lexer::tokens_view(toks@)[p as int] == toks@[p as int]@);
        Ok(p + 1)
    } else {
        let what = cat3("'", w, "'");
        Err(unexpected_error(toks, p, what.as_str()))
    }
}

fn is_keyword(s: &str) -> (r: bool)
    ensures
        r == reserved(s@),
{
    proof {
        reveal(reserved);
    }
    str_eq(s, "let") || str_eq(s, "fn") || str_eq(s, "do") || str_eq(s, "end") || str_eq(
        s,
        "return",
    ) || str_eq(s, "if") || str_eq(s, "else") || str_eq(s, "match") || str_eq(s, "case")
        || str_eq(s, "task") || str_eq(s, "conc") || str_eq(s, "port") || str_eq(s, "type")
        || str_eq(s, "import") || str_eq(s, "from") || str_eq(s, "export") || str_eq(
        s,
        "require",
    ) || str_eq(s, "throws") || str_eq(s, "raise") || str_eq(s, "try") || str_eq(s, "catch")
        || str_eq(s, "handler") || str_eq(s, "inject") || str_eq(s, "exception") || str_eq(
        s,
        "external",
    )
}

/// Reads a name.
pub fn expect_ident(toks: &Vec<Token>, p: usize) -> (r: Result<(String, usize), ParseError>)
    requires
        lexer::well_ended(toks@),
        p < toks.len(),
    ensures
        match r {
            Ok((v, q)) => {
                &&& ident_at(lexer::tokens_view(toks@), p as nat) == Ok::<(Text, nat), ParseErrorV>(
                    (v@, q as nat),
                )
                &&& p < q < toks.len()
            },
            Err(e) => ident_at(lexer::tokens_view(toks@), p as nat) == Err::<(Text, nat), ParseErrorV>(
                e@,
            ),
        },
{
    proof {
        reveal(TokenKind::view);
    }
    assert(lexer::tokens_view(toks@)[p as int] == toks@[p as int]@);
    match &toks[p].kind {
        TokenKind::Ident(s) => {
            if is_keyword(s.as_str()) {
                Err(
                    ParseError {
                        message: cat3("Keyword '", s.as_str(), "' is reserved"),
                        span: toks[p].span,
                    },
                )
            } else {
                Ok((s.clone(), p + 1))
            }
        },
        _ => Err(unexpected_error(toks, p, "identifier")),
    }
}

/// Whether a name begins with an uppercase letter of ASCII.
pub fn is_uppercase_ident(s: &str) -> (r: bool)
    ensures
        r == begins_uppercase(s@),
{
    if s.unicode_len() == 0 {
        return false;
    }
    let c = s.get_char(0);
    c >= 'A' && c <= 'Z'
}

/// Whether the token at a position is a name that begins with an uppercase letter.
pub fn at_upper(toks: &Vec<Token>, p: usize) -> (r: bool)
    requires
        lexer::well_ended(toks@),
        p < toks.len(),
    ensures
        r == is_upper(lexer::tokens_view(toks@), p as nat),
        r ==> p + 1 < toks.len(),
{
    proof {
        reveal(TokenKind::view);
    }
    assert(lexer::tokens_view(toks@)[p as int] == toks@[p as int]@);
    match &toks[p].kind {
        TokenKind::Ident(s) => is_uppercase_ident(s.as_str()),
        _ => false,
    }
}

/// Reads a sigil.
pub fn parse_sigil(toks: &Vec<Token>, p: usize) -> (r: (Sigil, usize))
    requires
        lexer::well_ended(toks@),
        p < toks.len(),
    ensures
        (r.0, r.1 as nat) == sigil_at(lexer::tokens_view(toks@), p as nat),
        p <= r.1 < toks.len(),
{
    proof {
        reveal(TokenKind::view);
        reveal(kind_is);
    }
    assert(lexer::tokens_view(toks@)[p as int] == toks@[p as int]@);
    match &toks[p].kind {
        TokenKind::Tilde => (Sigil::Mutable, p + 1),
        TokenKind::Percent => (Sigil::Linear, p + 1),
        TokenKind::Ampersand => (Sigil::Borrow, p + 1),
        _ => (Sigil::Immutable, p),
    }
}

/// The word at a position.
pub open spec fn word_text(toks: Seq<TokenV>, p: nat) -> Text {
    match kind_at(toks, p) {
        KindV::Ident(s) => s,
        _ => Seq::empty(),
    }
}

/// A copy of the word at a position.
pub fn copy_word(toks: &Vec<Token>, p: usize) -> (r: String)
    requires
        p < toks.len(),
    ensures
        r@ == word_text(lexer::tokens_view(toks@), p as nat),
{
    proof {
        reveal(TokenKind::view);
    }
    assert(lexer::tokens_view(toks@)[p as int] == toks@[p as int]@);
    match &toks[p].kind {
        TokenKind::Ident(s) => s.clone(),
        _ => String::new(),
    }
}

/// The string literal at a position.
pub open spec fn string_at(toks: Seq<TokenV>, p: nat) -> Option<Text> {
    match kind_at(toks, p) {
        KindV::StringLit(s) => Some(s),
        _ => None,
    }
}

/// Finds the string literal at a position.
pub fn next_string(toks: &Vec<Token>, p: usize) -> (r: Option<String>)
    requires
        lexer::well_ended(toks@),
        p < toks.len(),
    ensures
        types::opt_text(r) == string_at(lexer::tokens_view(toks@), p as nat),
        r is Some ==> p + 1 < toks.len(),
{
    proof {
        reveal(TokenKind::view);
        assert(lexer::tokens_view(toks@)[p as int] == toks@[p as int]@);
    }
    match &toks[p].kind {
        TokenKind::StringLit(s) => Some(s.clone()),
        _ => None,
    }
}

} // verus!
