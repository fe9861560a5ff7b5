//! The lexer: from a source text to its tokens.

use crate::ast::{Import, Port};
use crate::offsets;
use crate::offsets::byte_offsets;
use crate::text;
use crate::text::{
    Text, cat2, cat3, cat4, chars_of, i64_to_text, owned, quoted, str_eq, string_of, usize_to_text,
};
use crate::types::{Span, Type};
use vstd::prelude::*;

verus! {

// ---------------------------------------------------------------------------
// Tokens
// ---------------------------------------------------------------------------

/// The kind of a token, with what it carries. A floating-point literal is kept as its text.
#[derive(Debug, PartialEq)]
pub enum TokenKind {
    // Literals
    Int(i64),
    Float(String),
    CharLit(char),
    StringLit(String),
    True,
    False,
    // Keywords
    Let,
    Fn,
    Do,
    End,
    Return,
    If,
    Else,
    Match,
    Case,
    Task,
    Conc,
    Port,
    Type,
    Import,
    From,
    Pub,
    Require,
    Effect,
    Raise,
    Try,
    Catch,
    Handler,
    Inject,
    Exception,
    External,
    Throws,
    Export,
    While,
    For,
    // Sigils and operators
    Tilde,
    Percent,
    Ampersand,
    Arrow,
    FatArrow,
    Star,
    Plus,
    Minus,
    Slash,
    PlusDot,
    MinusDot,
    StarDot,
    SlashDot,
    PlusPlus,
    Caret,
    Shl,
    Shr,
    // Comparison
    EqEq,
    Ne,
    Lt,
    Le,
    Gt,
    Ge,
    EqDot,
    NeDot,
    LtDot,
    LeDot,
    GtDot,
    GeDot,
    // Boolean
    AndAnd,
    OrOr,
    // Assignment
    Assign,
    Eq,
    // Delimiters
    LParen,
    RParen,
    LBrace,
    RBrace,
    LBracketPipe,
    RBracketPipe,
    LBracket,
    RBracket,
    // Punctuation
    Colon,
    ColonColon,
    Comma,
    Dot,
    Pipe,
    // Names, and the end of the source
    Ident(String),
    Eof,
}

/// The model of a kind. `Plain` holds the kinds that carry nothing.
pub enum KindV {
    Int(int),
    Float(Text),
    CharLit(char),
    StringLit(Text),
    Ident(Text),
    Plain(TokenKind),
}

/// A token and its place, in characters.
#[derive(Debug, PartialEq)]
pub struct Token {
    pub kind: TokenKind,
    pub span: Span,
}

/// The model of a token.
pub struct TokenV {
    pub kind: KindV,
    pub span: Span,
}

/// What the lexer reports.
#[derive(Debug)]
pub struct LexError {
    pub message: String,
    pub span: Span,
}

/// The model of what the lexer reports.
pub struct LexErrorV {
    pub message: Text,
    pub span: Span,
}

impl TokenKind {
    /// The model of this kind.
    #[verifier::opaque]
    pub open spec fn view(&self) -> KindV {
        match self {
            TokenKind::Int(n) => KindV::Int(*n as int),
            TokenKind::Float(s) => KindV::Float(s@),
            TokenKind::CharLit(c) => KindV::CharLit(*c),
            TokenKind::StringLit(s) => KindV::StringLit(s@),
            TokenKind::Ident(s) => KindV::Ident(s@),
            k => KindV::Plain(*k),
        }
    }
}

impl Token {
    /// The model of this token.
    pub open spec fn view(&self) -> TokenV {
        TokenV { kind: self.kind@, span: self.span }
    }
}

impl LexError {
    /// The model of this report.
    pub open spec fn view(&self) -> LexErrorV {
        LexErrorV { message: self.message@, span: self.span }
    }

    /// The report as a line of text.
    pub fn to_text(&self) -> (r: String)
        ensures
            r@ == "Lex error at "@ + span_text(self.span) + ": "@ + self.message@,
    {
        let s = span_to_text(&self.span);
        cat4("Lex error at ", s.as_str(), ": ", self.message.as_str())
    }
}

/// A span as `start..end`.
pub open spec fn span_text(s: Span) -> Text {
    text::decimal(s.start as nat) + ".."@ + text::decimal(s.end as nat)
}

/// A span as `start..end`.
pub fn span_to_text(s: &Span) -> (r: String)
    ensures
        r@ == span_text(*s),
{
    let a = usize_to_text(s.start);
    let b = usize_to_text(s.end);
    cat3(a.as_str(), "..", b.as_str())
}

/// The models of a list of tokens.
pub open spec fn tokens_view(v: Seq<Token>) -> Seq<TokenV> {
    v.map_values(|t: Token| t@)
}

/// The models of a list of reports.
pub open spec fn lex_errors_view(v: Seq<LexError>) -> Seq<LexErrorV> {
    v.map_values(|e: LexError| e@)
}

/// A span of positions.
pub open spec fn span_of(start: nat, end: nat) -> Span {
    Span { start: start as usize, end: end as usize }
}

/// The name of a kind that carries nothing.
#[verifier::opaque]
pub open spec fn plain_name(k: TokenKind) -> Text {
    match k {
        TokenKind::True => "True"@,
        TokenKind::False => "False"@,
        TokenKind::Let => "Let"@,
        TokenKind::Fn => "Fn"@,
        TokenKind::Do => "Do"@,
        TokenKind::End => "End"@,
        TokenKind::Return => "Return"@,
        TokenKind::If => "If"@,
        TokenKind::Else => "Else"@,
        TokenKind::Match => "Match"@,
        TokenKind::Case => "Case"@,
        TokenKind::Task => "Task"@,
        TokenKind::Conc => "Conc"@,
        TokenKind::Port => "Port"@,
        TokenKind::Type => "Type"@,
        TokenKind::Import => "Import"@,
        TokenKind::From => "From"@,
        TokenKind::Pub => "Pub"@,
        TokenKind::Require => "Require"@,
        TokenKind::Effect => "Effect"@,
        TokenKind::Raise => "Raise"@,
        TokenKind::Try => "Try"@,
        TokenKind::Catch => "Catch"@,
        TokenKind::Handler => "Handler"@,
        TokenKind::Inject => "Inject"@,
        TokenKind::Exception => "Exception"@,
        TokenKind::External => "External"@,
        TokenKind::Throws => "Throws"@,
        TokenKind::Export => "Export"@,
        TokenKind::While => "While"@,
        TokenKind::For => "For"@,
        TokenKind::Tilde => "Tilde"@,
        TokenKind::Percent => "Percent"@,
        TokenKind::Ampersand => "Ampersand"@,
        TokenKind::Arrow => "Arrow"@,
        TokenKind::FatArrow => "FatArrow"@,
        TokenKind::Star => "Star"@,
        TokenKind::Plus => "Plus"@,
        TokenKind::Minus => "Minus"@,
        TokenKind::Slash => "Slash"@,
        TokenKind::PlusDot => "PlusDot"@,
        TokenKind::MinusDot => "MinusDot"@,
        TokenKind::StarDot => "StarDot"@,
        TokenKind::SlashDot => "SlashDot"@,
        TokenKind::PlusPlus => "PlusPlus"@,
        TokenKind::Caret => "Caret"@,
        TokenKind::Shl => "Shl"@,
        TokenKind::Shr => "Shr"@,
        TokenKind::EqEq => "EqEq"@,
        TokenKind::Ne => "Ne"@,
        TokenKind::Lt => "Lt"@,
        TokenKind::Le => "Le"@,
        TokenKind::Gt => "Gt"@,
        TokenKind::Ge => "Ge"@,
        TokenKind::EqDot => "EqDot"@,
        TokenKind::NeDot => "NeDot"@,
        TokenKind::LtDot => "LtDot"@,
        TokenKind::LeDot => "LeDot"@,
        TokenKind::GtDot => "GtDot"@,
        TokenKind::GeDot => "GeDot"@,
        TokenKind::AndAnd => "AndAnd"@,
        TokenKind::OrOr => "OrOr"@,
        TokenKind::Assign => "Assign"@,
        TokenKind::Eq => "Eq"@,
        TokenKind::LParen => "LParen"@,
        TokenKind::RParen => "RParen"@,
        TokenKind::LBrace => "LBrace"@,
        TokenKind::RBrace => "RBrace"@,
        TokenKind::LBracketPipe => "LBracketPipe"@,
        TokenKind::RBracketPipe => "RBracketPipe"@,
        TokenKind::LBracket => "LBracket"@,
        TokenKind::RBracket => "RBracket"@,
        TokenKind::Colon => "Colon"@,
        TokenKind::ColonColon => "ColonColon"@,
        TokenKind::Comma => "Comma"@,
        TokenKind::Dot => "Dot"@,
        TokenKind::Pipe => "Pipe"@,
        TokenKind::Eof => "Eof"@,
        _ => Seq::empty(),
    }
}

/// A kind as messages show it.
#[verifier::opaque]
pub open spec fn kind_text(k: KindV) -> Text {
    match k {
        KindV::Int(n) => "Int("@ + text::decimal_int(n) + ")"@,
        KindV::Float(s) => "Float("@ + s + ")"@,
        KindV::CharLit(c) => "CharLit("@ + quoted_char_text(c) + ")"@,
        KindV::StringLit(s) => "StringLit("@ + text::quoted_text(s) + ")"@,
        KindV::Ident(s) => "Ident("@ + text::quoted_text(s) + ")"@,
        KindV::Plain(t) => plain_name(t),
    }
}

/// What `format!("{:?}", c)` gives on a character.
pub uninterp spec fn quoted_char_text(c: char) -> Seq<char>;

/// `format!("{:?}", c)` on a character. Its result depends on the character alone; the
/// escaping rules of the standard library are not restated.
#[verifier::external_body]
fn quoted_char(c: char) -> (r: String)
    ensures
        r@ == quoted_char_text(c),
{
    format!("{:?}", c)
}

/// Whether two kinds have the same model, where the second carries nothing.
pub fn same_kind(a: &TokenKind, b: &TokenKind) -> (r: bool)
    requires
        b@ == KindV::Plain(*b),
    ensures
        r == (a@ == b@),
{
    proof {
        reveal(TokenKind::view);
    }
    match b {
        TokenKind::True => matches!(a, TokenKind::True),
        TokenKind::False => matches!(a, TokenKind::False),
        TokenKind::Let => matches!(a, TokenKind::Let),
        TokenKind::Fn => matches!(a, TokenKind::Fn),
        TokenKind::Do => matches!(a, TokenKind::Do),
        TokenKind::End => matches!(a, TokenKind::End),
        TokenKind::Return => matches!(a, TokenKind::Return),
        TokenKind::If => matches!(a, TokenKind::If),
        TokenKind::Else => matches!(a, TokenKind::Else),
        TokenKind::Match => matches!(a, TokenKind::Match),
        TokenKind::Case => matches!(a, TokenKind::Case),
        TokenKind::Task => matches!(a, TokenKind::Task),
        TokenKind::Conc => matches!(a, TokenKind::Conc),
        TokenKind::Port => matches!(a, TokenKind::Port),
        TokenKind::Type => matches!(a, TokenKind::Type),
        TokenKind::Import => matches!(a, TokenKind::Import),
        TokenKind::From => matches!(a, TokenKind::From),
        TokenKind::Pub => matches!(a, TokenKind::Pub),
        TokenKind::Require => matches!(a, TokenKind::Require),
        TokenKind::Effect => matches!(a, TokenKind::Effect),
        TokenKind::Raise => matches!(a, TokenKind::Raise),
        TokenKind::Try => matches!(a, TokenKind::Try),
        TokenKind::Catch => matches!(a, TokenKind::Catch),
        TokenKind::Handler => matches!(a, TokenKind::Handler),
        TokenKind::Inject => matches!(a, TokenKind::Inject),
        TokenKind::Exception => matches!(a, TokenKind::Exception),
        TokenKind::External => matches!(a, TokenKind::External),
        TokenKind::Throws => matches!(a, TokenKind::Throws),
        TokenKind::Export => matches!(a, TokenKind::Export),
        TokenKind::While => matches!(a, TokenKind::While),
        TokenKind::For => matches!(a, TokenKind::For),
        TokenKind::Tilde => matches!(a, TokenKind::Tilde),
        TokenKind::Percent => matches!(a, TokenKind::Percent),
        TokenKind::Ampersand => matches!(a, TokenKind::Ampersand),
        TokenKind::Arrow => matches!(a, TokenKind::Arrow),
        TokenKind::FatArrow => matches!(a, TokenKind::FatArrow),
        TokenKind::Star => matches!(a, TokenKind::Star),
        TokenKind::Plus => matches!(a, TokenKind::Plus),
        TokenKind::Minus => matches!(a, TokenKind::Minus),
        TokenKind::Slash => matches!(a, TokenKind::Slash),
        TokenKind::PlusDot => matches!(a, TokenKind::PlusDot),
        TokenKind::MinusDot => matches!(a, TokenKind::MinusDot),
        TokenKind::StarDot => matches!(a, TokenKind::StarDot),
        TokenKind::SlashDot => matches!(a, TokenKind::SlashDot),
        TokenKind::PlusPlus => matches!(a, TokenKind::PlusPlus),
        TokenKind::Caret => matches!(a, TokenKind::Caret),
        TokenKind::Shl => matches!(a, TokenKind::Shl),
        TokenKind::Shr => matches!(a, TokenKind::Shr),
        TokenKind::EqEq => matches!(a, TokenKind::EqEq),
        TokenKind::Ne => matches!(a, TokenKind::Ne),
        TokenKind::Lt => matches!(a, TokenKind::Lt),
        TokenKind::Le => matches!(a, TokenKind::Le),
        TokenKind::Gt => matches!(a, TokenKind::Gt),
        TokenKind::Ge => matches!(a, TokenKind::Ge),
        TokenKind::EqDot => matches!(a, TokenKind::EqDot),
        TokenKind::NeDot => matches!(a, TokenKind::NeDot),
        TokenKind::LtDot => matches!(a, TokenKind::LtDot),
        TokenKind::LeDot => matches!(a, TokenKind::LeDot),
        TokenKind::GtDot => matches!(a, TokenKind::GtDot),
        TokenKind::GeDot => matches!(a, TokenKind::GeDot),
        TokenKind::AndAnd => matches!(a, TokenKind::AndAnd),
        TokenKind::OrOr => matches!(a, TokenKind::OrOr),
        TokenKind::Assign => matches!(a, TokenKind::Assign),
        TokenKind::Eq => matches!(a, TokenKind::Eq),
        TokenKind::LParen => matches!(a, TokenKind::LParen),
        TokenKind::RParen => matches!(a, TokenKind::RParen),
        TokenKind::LBrace => matches!(a, TokenKind::LBrace),
        TokenKind::RBrace => matches!(a, TokenKind::RBrace),
        TokenKind::LBracketPipe => matches!(a, TokenKind::LBracketPipe),
        TokenKind::RBracketPipe => matches!(a, TokenKind::RBracketPipe),
        TokenKind::LBracket => matches!(a, TokenKind::LBracket),
        TokenKind::RBracket => matches!(a, TokenKind::RBracket),
        TokenKind::Colon => matches!(a, TokenKind::Colon),
        TokenKind::ColonColon => matches!(a, TokenKind::ColonColon),
        TokenKind::Comma => matches!(a, TokenKind::Comma),
        TokenKind::Dot => matches!(a, TokenKind::Dot),
        TokenKind::Pipe => matches!(a, TokenKind::Pipe),
        TokenKind::Eof => matches!(a, TokenKind::Eof),
        _ => false,
    }
}

/// The name of a kind that carries nothing.
pub fn name_of_plain(k: &TokenKind) -> (r: &'static str)
    ensures
        r@ == plain_name(*k),
{
    proof {
        reveal(plain_name);
    }
    match k {
        TokenKind::True => "True",
        TokenKind::False => "False",
        TokenKind::Let => "Let",
        TokenKind::Fn => "Fn",
        TokenKind::Do => "Do",
        TokenKind::End => "End",
        TokenKind::Return => "Return",
        TokenKind::If => "If",
        TokenKind::Else => "Else",
        TokenKind::Match => "Match",
        TokenKind::Case => "Case",
        TokenKind::Task => "Task",
        TokenKind::Conc => "Conc",
        TokenKind::Port => "Port",
        TokenKind::Type => "Type",
        TokenKind::Import => "Import",
        TokenKind::From => "From",
        TokenKind::Pub => "Pub",
        TokenKind::Require => "Require",
        TokenKind::Effect => "Effect",
        TokenKind::Raise => "Raise",
        TokenKind::Try => "Try",
        TokenKind::Catch => "Catch",
        TokenKind::Handler => "Handler",
        TokenKind::Inject => "Inject",
        TokenKind::Exception => "Exception",
        TokenKind::External => "External",
        TokenKind::Throws => "Throws",
        TokenKind::Export => "Export",
        TokenKind::While => "While",
        TokenKind::For => "For",
        TokenKind::Tilde => "Tilde",
        TokenKind::Percent => "Percent",
        TokenKind::Ampersand => "Ampersand",
        TokenKind::Arrow => "Arrow",
        TokenKind::FatArrow => "FatArrow",
        TokenKind::Star => "Star",
        TokenKind::Plus => "Plus",
        TokenKind::Minus => "Minus",
        TokenKind::Slash => "Slash",
        TokenKind::PlusDot => "PlusDot",
        TokenKind::MinusDot => "MinusDot",
        TokenKind::StarDot => "StarDot",
        TokenKind::SlashDot => "SlashDot",
        TokenKind::PlusPlus => "PlusPlus",
        TokenKind::Caret => "Caret",
        TokenKind::Shl => "Shl",
        TokenKind::Shr => "Shr",
        TokenKind::EqEq => "EqEq",
        TokenKind::Ne => "Ne",
        TokenKind::Lt => "Lt",
        TokenKind::Le => "Le",
        TokenKind::Gt => "Gt",
        TokenKind::Ge => "Ge",
        TokenKind::EqDot => "EqDot",
        TokenKind::NeDot => "NeDot",
        TokenKind::LtDot => "LtDot",
        TokenKind::LeDot => "LeDot",
        TokenKind::GtDot => "GtDot",
        TokenKind::GeDot => "GeDot",
        TokenKind::AndAnd => "AndAnd",
        TokenKind::OrOr => "OrOr",
        TokenKind::Assign => "Assign",
        TokenKind::Eq => "Eq",
        TokenKind::LParen => "LParen",
        TokenKind::RParen => "RParen",
        TokenKind::LBrace => "LBrace",
        TokenKind::RBrace => "RBrace",
        TokenKind::LBracketPipe => "LBracketPipe",
        TokenKind::RBracketPipe => "RBracketPipe",
        TokenKind::LBracket => "LBracket",
        TokenKind::RBracket => "RBracket",
        TokenKind::Colon => "Colon",
        TokenKind::ColonColon => "ColonColon",
        TokenKind::Comma => "Comma",
        TokenKind::Dot => "Dot",
        TokenKind::Pipe => "Pipe",
        TokenKind::Eof => "Eof",
        _ => {
            proof {
                reveal_strlit("");
                assert(""@ =~= Seq::<char>::empty());
            }
            ""
        },
    }
}

/// A kind as messages show it.
pub fn kind_to_text(k: &TokenKind) -> (r: String)
    ensures
        r@ == kind_text(k@),
{
    proof {
        reveal(kind_text);
        reveal(TokenKind::view);
    }
    match k {
        TokenKind::Int(n) => {
            let d = i64_to_text(*n);
            cat3("Int(", d.as_str(), ")")
        },
        TokenKind::Float(s) => cat3("Float(", s.as_str(), ")"),
        TokenKind::CharLit(c) => {
            let q = quoted_char(*c);
            cat3("CharLit(", q.as_str(), ")")
        },
        TokenKind::StringLit(s) => {
            let q = quoted(s.as_str());
            cat3("StringLit(", q.as_str(), ")")
        },
        TokenKind::Ident(s) => {
            let q = quoted(s.as_str());
            cat3("Ident(", q.as_str(), ")")
        },
        _ => {
            assert(k@ == KindV::Plain(*k));
            owned(name_of_plain(k))
        },
    }
}

// ---------------------------------------------------------------------------
// Classes of characters
// ---------------------------------------------------------------------------

/// What the lexer asks of a character outside its own alphabet.
#[derive(Clone, Copy)]
pub struct CharClass {
    pub space: bool,
    pub alphabetic: bool,
    pub alphanumeric: bool,
}

/// Whether a character is white space: the characters with that property in Unicode, which is
/// a fixed set.
pub open spec fn is_space(c: char) -> bool {
    ||| 0x09 <= c as u32 <= 0x0D
    ||| c as u32 == 0x20
    ||| c as u32 == 0x85
    ||| c as u32 == 0xA0
    ||| c as u32 == 0x1680
    ||| 0x2000 <= c as u32 <= 0x200A
    ||| 0x2028 <= c as u32 <= 0x2029
    ||| c as u32 == 0x202F
    ||| c as u32 == 0x205F
    ||| c as u32 == 0x3000
}

/// Whether a character is one of ASCII.
pub open spec fn is_ascii_char(c: char) -> bool {
    (c as u32) < 0x80
}

/// Whether a character is a letter of ASCII.
pub open spec fn is_ascii_letter(c: char) -> bool {
    ('a' <= c && c <= 'z') || ('A' <= c && c <= 'Z')
}

/// What `char::is_alphabetic` says of a character.
pub uninterp spec fn is_letter(c: char) -> bool;

/// What `char::is_alphanumeric` says of a character.
pub uninterp spec fn is_letter_or_number(c: char) -> bool;

/// `char::is_whitespace`: whether a character has the Unicode property of white space.
#[verifier::external_body]
pub(crate) fn char_is_space(c: char) -> (r: bool)
    ensures
        r == is_space(c),
{
    c.is_whitespace()
}

/// `char::is_alphabetic`, a table of Unicode: in ASCII the letters, and elsewhere what is not
/// restated.
#[verifier::external_body]
fn char_is_letter(c: char) -> (r: bool)
    ensures
        r == is_letter(c),
        is_ascii_char(c) ==> r == is_ascii_letter(c),
{
    c.is_alphabetic()
}

/// `char::is_alphanumeric`, a table of Unicode: in ASCII the letters and the digits, and
/// elsewhere what is not restated.
#[verifier::external_body]
fn char_is_letter_or_number(c: char) -> (r: bool)
    ensures
        r == is_letter_or_number(c),
        is_ascii_char(c) ==> r == (is_ascii_letter(c) || is_digit(c)),
{
    c.is_alphanumeric()
}

/// The class of a character.
pub open spec fn class_of(c: char) -> CharClass {
    if is_ascii_char(c) {
        CharClass {
            space: is_space(c),
            alphabetic: is_ascii_letter(c),
            alphanumeric: is_ascii_letter(c) || is_digit(c),
        }
    } else {
        CharClass {
            space: is_space(c),
            alphabetic: is_letter(c),
            alphanumeric: is_letter_or_number(c),
        }
    }
}

/// The classes of the characters of a text.
pub open spec fn classes(cs: Text) -> Seq<CharClass> {
    cs.map_values(|c: char| class_of(c))
}

fn classify(cs: &Vec<char>) -> (r: Vec<CharClass>)
    ensures
        r@ == classes(cs@),
        r.len() == cs.len(),
{
    let mut out: Vec<CharClass> = Vec::new();
    let mut i: usize = 0;
    while i < cs.len()
        invariant
            i <= cs.len(),
            out.len() == i,
            forall|j: int| 0 <= j < i ==> #[trigger] out@[j] == class_of(cs@[j]),
        decreases cs.len() - i,
    {
        let c = cs[i];
        out.push(
            CharClass {
                space: char_is_space(c),
                alphabetic: char_is_letter(c),
                alphanumeric: char_is_letter_or_number(c),
            },
        );
        i = i + 1;
    }
    assert(out@ =~= classes(cs@));
    out
}

// ---------------------------------------------------------------------------
// Scanning
// ---------------------------------------------------------------------------

/// The character at a position.
pub open spec fn char_at(cs: Text, p: nat) -> Option<char> {
    if p < cs.len() {
        Some(cs[p as int])
    } else {
        None
    }
}

fn peek_char(cs: &Vec<char>, p: usize) -> (r: Option<char>)
    ensures
        r == char_at(cs@, p as nat),
{
    if p < cs.len() {
        Some(cs[p])
    } else {
        None
    }
}

/// Whether a character is an ASCII digit.
pub open spec fn is_digit(c: char) -> bool {
    '0' as int <= c as int <= '9' as int
}

fn char_is_digit(c: char) -> (r: bool)
    ensures
        r == is_digit(c),
{
    c >= '0' && c <= '9'
}

/// The first position at or after `p` without a space.
pub open spec fn spaces_end(ks: Seq<CharClass>, p: nat) -> nat
    decreases ks.len() - p,
{
    if p < ks.len() && ks[p as int].space {
        spaces_end(ks, p + 1)
    } else {
        p
    }
}

/// The position behind the line at `p`.
pub open spec fn line_end(cs: Text, p: nat) -> nat
    decreases cs.len() - p,
{
    if p >= cs.len() {
        p
    } else if cs[p as int] == '\n' {
        p + 1
    } else {
        line_end(cs, p + 1)
    }
}

/// The position behind the block comment whose inside begins at `p`, `depth` levels deep; and
/// whether it is closed. Block comments nest.
pub open spec fn comment_end(cs: Text, p: nat, depth: nat) -> (nat, bool)
    decreases cs.len() - p,
{
    if depth == 0 {
        (p, true)
    } else if p >= cs.len() {
        (p, false)
    } else if cs[p as int] == '/' && char_at(cs, p + 1) == Some('*') {
        comment_end(cs, p + 2, depth + 1)
    } else if cs[p as int] == '*' && char_at(cs, p + 1) == Some('/') {
        comment_end(cs, p + 2, (depth - 1) as nat)
    } else {
        comment_end(cs, p + 1, depth)
    }
}

/// The position of the next token at or after `p`, behind spaces and comments; and the reports
/// so far.
pub open spec fn skipped(cs: Text, ks: Seq<CharClass>, p: nat, errs: Seq<LexErrorV>) -> (
    nat,
    Seq<LexErrorV>,
)
    decreases cs.len() - p,
{
    let q = spaces_end(ks, p);
    if q < p {
        (q, errs)
    } else if char_at(cs, q) == Some('/') && char_at(cs, q + 1) == Some('/') {
        let r = line_end(cs, q);
        if r <= q || r > cs.len() {
            (r, errs)
        } else {
            skipped(cs, ks, r, errs)
        }
    } else if char_at(cs, q) == Some('/') && char_at(cs, q + 1) == Some('*') {
        let (r, closed) = comment_end(cs, q + 2, 1);
        let next = if closed {
            errs
        } else {
            errs.push(
                LexErrorV { message: "unterminated block comment"@, span: span_of(r, r) },
            )
        };
        if r <= q || r > cs.len() {
            (r, next)
        } else {
            skipped(cs, ks, r, next)
        }
    } else {
        (q, errs)
    }
}

/// The first position at or after `p` without a digit.
pub open spec fn digits_end(cs: Text, p: nat) -> nat
    decreases cs.len() - p,
{
    if p < cs.len() && is_digit(cs[p as int]) {
        digits_end(cs, p + 1)
    } else {
        p
    }
}

/// The value of the digits from `p` up to `end`, behind those of `acc`.
pub open spec fn digits_value(cs: Text, p: nat, end: nat, acc: nat) -> nat
    decreases end - p,
{
    if p >= end {
        acc
    } else {
        digits_value(
            cs,
            p + 1,
            end,
            (acc * 10 + (cs[p as int] as int - '0' as int)) as nat,
        )
    }
}

/// The number that begins with the digit at `p`: its kind, and the position behind it.
pub open spec fn number_at(cs: Text, p: nat) -> (KindV, nat) {
    let q = digits_end(cs, p + 1);
    if char_at(cs, q) == Some('.') && q + 1 < cs.len() && is_digit(cs[(q + 1) as int]) {
        let end = digits_end(cs, q + 1);
        (KindV::Float(cs.subrange(p as int, end as int)), end)
    } else {
        (KindV::Int(digits_value(cs, p, q, 0) as int), q)
    }
}

/// The kind of a negated number.
pub open spec fn negated(k: KindV) -> KindV {
    match k {
        KindV::Int(n) => KindV::Int(-n),
        KindV::Float(s) => KindV::Float("-"@ + s),
        _ => k,
    }
}

/// The first position at or after `p` that does not go on with a name.
pub open spec fn name_end(cs: Text, ks: Seq<CharClass>, p: nat) -> nat
    decreases cs.len() - p,
{
    if p < cs.len() && (ks[p as int].alphanumeric || cs[p as int] == '_') {
        name_end(cs, ks, p + 1)
    } else {
        p
    }
}

/// The kind of a word: a keyword, or a name.
pub open spec fn word_kind(s: Text) -> KindV {
    if s == "let"@ {
        KindV::Plain(TokenKind::Let)
    } else if s == "fn"@ {
        KindV::Plain(TokenKind::Fn)
    } else if s == "do"@ {
        KindV::Plain(TokenKind::Do)
    } else if s == "end"@ {
        KindV::Plain(TokenKind::End)
    } else if s == "return"@ {
        KindV::Plain(TokenKind::Return)
    } else if s == "if"@ {
        KindV::Plain(TokenKind::If)
    } else if s == "else"@ {
        KindV::Plain(TokenKind::Else)
    } else if s == "match"@ {
        KindV::Plain(TokenKind::Match)
    } else if s == "case"@ {
        KindV::Plain(TokenKind::Case)
    } else if s == "task"@ {
        KindV::Plain(TokenKind::Task)
    } else if s == "conc"@ {
        KindV::Plain(TokenKind::Conc)
    } else if s == "port"@ {
        KindV::Plain(TokenKind::Port)
    } else if s == "type"@ {
        KindV::Plain(TokenKind::Type)
    } else if s == "import"@ {
        KindV::Plain(TokenKind::Import)
    } else if s == "from"@ {
        KindV::Plain(TokenKind::From)
    } else if s == "pub"@ {
        KindV::Plain(TokenKind::Pub)
    } else if s == "require"@ {
        KindV::Plain(TokenKind::Require)
    } else if s == "effect"@ {
        KindV::Plain(TokenKind::Effect)
    } else if s == "raise"@ {
        KindV::Plain(TokenKind::Raise)
    } else if s == "try"@ {
        KindV::Plain(TokenKind::Try)
    } else if s == "catch"@ {
        KindV::Plain(TokenKind::Catch)
    } else if s == "handler"@ {
        KindV::Plain(TokenKind::Handler)
    } else if s == "inject"@ {
        KindV::Plain(TokenKind::Inject)
    } else if s == "exception"@ {
        KindV::Plain(TokenKind::Exception)
    } else if s == "external"@ {
        KindV::Plain(TokenKind::External)
    } else if s == "true"@ {
        KindV::Plain(TokenKind::True)
    } else if s == "false"@ {
        KindV::Plain(TokenKind::False)
    } else {
        KindV::Ident(s)
    }
}

/// The character that an escape stands for.
pub open spec fn escaped(c: char) -> char {
    if c == 'n' {
        '\n'
    } else if c == 'r' {
        '\r'
    } else if c == 't' {
        '\t'
    } else {
        c
    }
}

/// What a string literal yields: its content, the position behind it, and the reports so far.
pub struct StringV {
    pub content: Text,
    pub next: nat,
    pub errs: Seq<LexErrorV>,
}

/// `errs` extended by a report about a string literal.
pub open spec fn string_error(
    errs: Seq<LexErrorV>,
    message: Text,
    start: nat,
    end: nat,
) -> Seq<LexErrorV> {
    errs.push(LexErrorV { message, span: span_of(start, end) })
}

/// A double-quoted string that begins at `start`, from position `p` inside it on.
pub open spec fn quoted_at(
    cs: Text,
    start: nat,
    p: nat,
    content: Text,
    errs: Seq<LexErrorV>,
) -> StringV
    decreases cs.len() - p,
{
    if p >= cs.len() {
        StringV {
            content,
            next: p,
            errs: string_error(errs, "unterminated string literal"@, start, p),
        }
    } else {
        let c = cs[p as int];
        if c == '\n' || c == '\r' {
            StringV {
                content,
                next: p + 1,
                errs: string_error(errs, "unclosed string literal"@, start, p + 1),
            }
        } else if c == '"' {
            StringV { content, next: p + 1, errs }
        } else if c == '\\' {
            if p + 1 >= cs.len() {
                quoted_at(
                    cs,
                    start,
                    p + 1,
                    content,
                    string_error(errs, "unterminated escape in string"@, start, p + 1),
                )
            } else {
                quoted_at(cs, start, p + 2, content.push(escaped(cs[(p + 1) as int])), errs)
            }
        } else {
            quoted_at(cs, start, p + 1, content.push(c), errs)
        }
    }
}

/// The first position at or after `p` without `=`.
pub open spec fn equals_end(cs: Text, p: nat) -> nat
    decreases cs.len() - p,
{
    if p < cs.len() && cs[p as int] == '=' {
        equals_end(cs, p + 1)
    } else {
        p
    }
}

/// Whether a bracket string with `level` equals signs closes at `p`.
pub open spec fn closes_at(cs: Text, p: nat, level: nat) -> bool {
    &&& p + level + 2 <= cs.len()
    &&& cs[p as int] == ']'
    &&& forall|i: int| p < i <= p + level ==> #[trigger] cs[i] == '='
    &&& cs[(p + level + 1) as int] == ']'
}

/// A bracket string that begins at `start`, from position `p` inside it on. With two equals
/// signs or more, a backslash is an ordinary character.
pub open spec fn bracketed_at(
    cs: Text,
    start: nat,
    level: nat,
    p: nat,
    content: Text,
    errs: Seq<LexErrorV>,
) -> StringV
    decreases cs.len() - p,
{
    if closes_at(cs, p, level) {
        StringV { content, next: p + level + 2, errs }
    } else if p >= cs.len() {
        StringV {
            content,
            next: p,
            errs: string_error(errs, "unterminated bracket string"@, start, p),
        }
    } else {
        let c = cs[p as int];
        if c == '\n' || c == '\r' {
            StringV {
                content,
                next: p + 1,
                errs: string_error(errs, "unclosed string literal"@, start, p + 1),
            }
        } else if c == '\\' && level < 2 {
            if p + 1 >= cs.len() {
                bracketed_at(
                    cs,
                    start,
                    level,
                    p + 1,
                    content,
                    string_error(errs, "unterminated escape in string"@, start, p + 1),
                )
            } else {
                bracketed_at(
                    cs,
                    start,
                    level,
                    p + 2,
                    content.push(escaped(cs[(p + 1) as int])),
                    errs,
                )
            }
        } else {
            bracketed_at(cs, start, level, p + 1, content.push(c), errs)
        }
    }
}

/// The symbol at `p`, the longest that fits, and its length.
pub open spec fn symbol_at(cs: Text, p: nat) -> Option<(TokenKind, nat)> {
    let c = cs[p as int];
    let d = char_at(cs, p + 1);
    let e = char_at(cs, p + 2);
    if c == '(' {
        Some((TokenKind::LParen, 1))
    } else if c == ')' {
        Some((TokenKind::RParen, 1))
    } else if c == '{' {
        Some((TokenKind::LBrace, 1))
    } else if c == '}' {
        Some((TokenKind::RBrace, 1))
    } else if c == ']' {
        Some((TokenKind::RBracket, 1))
    } else if c == ':' {
        Some((TokenKind::Colon, 1))
    } else if c == ',' {
        Some((TokenKind::Comma, 1))
    } else if c == '.' {
        Some((TokenKind::Dot, 1))
    } else if c == '~' {
        Some((TokenKind::Tilde, 1))
    } else if c == '%' {
        Some((TokenKind::Percent, 1))
    } else if c == '|' {
        if d == Some(']') {
            Some((TokenKind::RBracketPipe, 2))
        } else if d == Some('|') {
            Some((TokenKind::OrOr, 2))
        } else {
            Some((TokenKind::Pipe, 1))
        }
    } else if c == '+' {
        if d == Some('.') {
            Some((TokenKind::PlusDot, 2))
        } else if d == Some('+') {
            Some((TokenKind::PlusPlus, 2))
        } else {
            Some((TokenKind::Plus, 1))
        }
    } else if c == '-' {
        if d == Some('>') {
            Some((TokenKind::Arrow, 2))
        } else if d == Some('.') {
            Some((TokenKind::MinusDot, 2))
        } else {
            Some((TokenKind::Minus, 1))
        }
    } else if c == '*' {
        if d == Some('.') {
            Some((TokenKind::StarDot, 2))
        } else {
            Some((TokenKind::Star, 1))
        }
    } else if c == '/' {
        if d == Some('.') {
            Some((TokenKind::SlashDot, 2))
        } else {
            Some((TokenKind::Slash, 1))
        }
    } else if c == '=' {
        if d == Some('=') && e == Some('.') {
            Some((TokenKind::EqDot, 3))
        } else if d == Some('=') {
            Some((TokenKind::EqEq, 2))
        } else if d == Some('>') {
            Some((TokenKind::FatArrow, 2))
        } else {
            Some((TokenKind::Eq, 1))
        }
    } else if c == '!' {
        if d == Some('=') && e == Some('.') {
            Some((TokenKind::NeDot, 3))
        } else if d == Some('=') {
            Some((TokenKind::Ne, 2))
        } else {
            None
        }
    } else if c == '<' {
        if d == Some('-') {
            Some((TokenKind::Assign, 2))
        } else if d == Some('=') && e == Some('.') {
            Some((TokenKind::LeDot, 3))
        } else if d == Some('=') {
            Some((TokenKind::Le, 2))
        } else if d == Some('.') {
            Some((TokenKind::LtDot, 2))
        } else {
            Some((TokenKind::Lt, 1))
        }
    } else if c == '>' {
        if d == Some('=') && e == Some('.') {
            Some((TokenKind::GeDot, 3))
        } else if d == Some('=') {
            Some((TokenKind::Ge, 2))
        } else if d == Some('.') {
            Some((TokenKind::GtDot, 2))
        } else {
            Some((TokenKind::Gt, 1))
        }
    } else if c == '&' {
        if d == Some('&') {
            Some((TokenKind::AndAnd, 2))
        } else {
            Some((TokenKind::Ampersand, 1))
        }
    } else {
        None
    }
}

/// What stands at a position: a kind, or nothing where there is only something to report; the
/// position behind it; and the reports so far.
pub struct StepV {
    pub kind: Option<KindV>,
    pub next: nat,
    pub errs: Seq<LexErrorV>,
}

/// A string literal as a step.
pub open spec fn string_step(s: StringV) -> StepV {
    StepV { kind: Some(KindV::StringLit(s.content)), next: s.next, errs: s.errs }
}

/// A character that begins no token.
pub open spec fn stray_step(cs: Text, p: nat, errs: Seq<LexErrorV>) -> StepV {
    StepV {
        kind: None,
        next: p + 1,
        errs: errs.push(
            LexErrorV {
                message: "unexpected character '"@ + seq![cs[p as int]] + "'"@,
                span: span_of(p, p + 1),
            },
        ),
    }
}

/// What an opening bracket at `p` begins: an array, a bracket string, or a list.
pub open spec fn bracket_step(cs: Text, p: nat, errs: Seq<LexErrorV>) -> StepV {
    let e = equals_end(cs, p + 1);
    if char_at(cs, p + 1) == Some('|') {
        StepV { kind: Some(KindV::Plain(TokenKind::LBracketPipe)), next: p + 2, errs }
    } else if char_at(cs, e) == Some('[') {
        string_step(bracketed_at(cs, p, (e - (p + 1)) as nat, e + 1, Seq::empty(), errs))
    } else {
        StepV { kind: Some(KindV::Plain(TokenKind::LBracket)), next: p + 1, errs }
    }
}

/// What stands at `p`, where neither a space nor a comment begins.
pub open spec fn token_at(cs: Text, ks: Seq<CharClass>, p: nat, errs: Seq<LexErrorV>) -> StepV {
    let c = cs[p as int];
    if c == '[' {
        bracket_step(cs, p, errs)
    } else if c == '"' {
        string_step(quoted_at(cs, p, p + 1, Seq::empty(), errs))
    } else if c == '-' && p + 1 < cs.len() && is_digit(cs[(p + 1) as int]) {
        let (k, next) = number_at(cs, p + 1);
        StepV { kind: Some(negated(k)), next, errs }
    } else {
        match symbol_at(cs, p) {
            Some((k, n)) => StepV { kind: Some(KindV::Plain(k)), next: p + n, errs },
            None => {
                if is_digit(c) {
                    let (k, next) = number_at(cs, p);
                    StepV { kind: Some(k), next, errs }
                } else if ks[p as int].alphabetic || c == '_' {
                    let next = name_end(cs, ks, p + 1);
                    StepV {
                        kind: Some(word_kind(cs.subrange(p as int, next as int))),
                        next,
                        errs,
                    }
                } else {
                    stray_step(cs, p, errs)
                }
            },
        }
    }
}

/// The tokens from position `p` on, behind those of `toks`, with the end of the source as the
/// last; and the reports.
pub open spec fn lexed(
    cs: Text,
    ks: Seq<CharClass>,
    p: nat,
    toks: Seq<TokenV>,
    errs: Seq<LexErrorV>,
) -> (Seq<TokenV>, Seq<LexErrorV>)
    decreases cs.len() - p,
{
    let (q, errs1) = skipped(cs, ks, p, errs);
    if q >= cs.len() || q < p {
        (
            toks.push(
                TokenV { kind: KindV::Plain(TokenKind::Eof), span: span_of(q, q) },
            ),
            errs1,
        )
    } else {
        let step = token_at(cs, ks, q, errs1);
        let toks1 = match step.kind {
            Some(kind) => toks.push(TokenV { kind, span: span_of(q, step.next) }),
            None => toks,
        };
        if step.next <= q || step.next > cs.len() {
            (toks1, step.errs)
        } else {
            lexed(cs, ks, step.next, toks1, step.errs)
        }
    }
}

/// Whether a kind holds a number that fits a machine integer.
pub open spec fn kind_fits(k: KindV) -> bool {
    k matches KindV::Int(n) ==> -(i64::MAX as int) <= n <= i64::MAX as int
}

/// Whether each integer among the tokens from index `i` on fits a machine integer.
pub open spec fn tokens_fit(toks: Seq<TokenV>) -> bool {
    forall|i: int| 0 <= i < toks.len() ==> kind_fits(#[trigger] toks[i].kind)
}

/// Whether the last token of a list is the end of the source, and each integer can be negated.
pub open spec fn well_ended(toks: Seq<Token>) -> bool {
    &&& toks.len() > 0
    &&& toks[toks.len() - 1].kind is Eof
    &&& tokens_fit(tokens_view(toks))
}

/// Whether each integer literal of a text fits a machine integer.
pub open spec fn literals_fit(cs: Text) -> bool {
    tokens_fit(lexed(cs, classes(cs), 0, Seq::empty(), Seq::empty()).0)
}

/// The tokens of a text, or the reports about it; spans are those of its characters.
pub open spec fn tokens_of(cs: Text, ks: Seq<CharClass>) -> Result<
    Seq<TokenV>,
    Seq<LexErrorV>,
> {
    let (toks, errs) = lexed(cs, ks, 0, Seq::empty(), Seq::empty());
    if errs.len() == 0 {
        Ok(toks)
    } else {
        Err(errs)
    }
}

/// A span of characters as a span of bytes.
pub open spec fn byte_span(cs: Text, s: Span) -> Span {
    Span { start: offsets::byte_at(cs, s.start as nat) as usize, end: offsets::byte_at(cs, s.end as nat) as usize }
}

/// A token whose span counts characters, with the span in bytes.
pub open spec fn byte_token(cs: Text, t: TokenV) -> TokenV {
    TokenV { kind: t.kind, span: byte_span(cs, t.span) }
}

/// A report whose span counts characters, with the span in bytes.
pub open spec fn byte_report(cs: Text, e: LexErrorV) -> LexErrorV {
    LexErrorV { message: e.message, span: byte_span(cs, e.span) }
}

/// The tokens of a source text, or the reports about it; spans are those of its bytes.
pub open spec fn source_tokens(cs: Text, ks: Seq<CharClass>) -> Result<
    Seq<TokenV>,
    Seq<LexErrorV>,
> {
    match tokens_of(cs, ks) {
        Ok(toks) => Ok(toks.map_values(|t: TokenV| byte_token(cs, t))),
        Err(errs) => Err(errs.map_values(|e: LexErrorV| byte_report(cs, e))),
    }
}

/// Whether an outcome is the one that its model says.
pub open spec fn lex_matches(
    r: Result<Vec<Token>, Vec<LexError>>,
    m: Result<Seq<TokenV>, Seq<LexErrorV>>,
) -> bool {
    match r {
        Ok(toks) => m == Ok::<Seq<TokenV>, Seq<LexErrorV>>(tokens_view(toks@)),
        Err(errs) => m == Err::<Seq<TokenV>, Seq<LexErrorV>>(lex_errors_view(errs@)),
    }
}

// ---------------------------------------------------------------------------
// The lexer
// ---------------------------------------------------------------------------

fn push_error(errs: &mut Vec<LexError>, message: &str, start: usize, end: usize)
    ensures
        lex_errors_view(final(errs)@) == lex_errors_view(old(errs)@).push(
            LexErrorV { message: message@, span: span_of(start as nat, end as nat) },
        ),
{
    let ghost before = lex_errors_view(errs@);
    errs.push(LexError { message: owned(message), span: Span { start, end } });
    assert(lex_errors_view(errs@) =~= before.push(
        LexErrorV { message: message@, span: span_of(start as nat, end as nat) },
    ));
}

fn find_spaces_end(ks: &Vec<CharClass>, p: usize) -> (r: usize)
    requires
        p <= ks.len(),
    ensures
        r == spaces_end(ks@, p as nat),
        p <= r <= ks.len(),
{
    let mut q: usize = p;
    while q < ks.len() && ks[q].space
        invariant
            p <= q <= ks.len(),
            spaces_end(ks@, q as nat) == spaces_end(ks@, p as nat),
        decreases ks.len() - q,
    {
        q = q + 1;
    }
    q
}

fn find_line_end(cs: &Vec<char>, p: usize) -> (r: usize)
    requires
        p <= cs.len(),
    ensures
        r == line_end(cs@, p as nat),
        p <= r <= cs.len(),
        p < cs.len() ==> p < r,
{
    let mut q: usize = p;
    while q < cs.len()
        invariant
            p <= q <= cs.len(),
            line_end(cs@, q as nat) == line_end(cs@, p as nat),
        decreases cs.len() - q,
    {
        if cs[q] == '\n' {
            return q + 1;
        }
        q = q + 1;
    }
    q
}

fn find_comment_end(cs: &Vec<char>, p: usize) -> (r: (usize, bool))
    requires
        2 <= p <= cs.len(),
    ensures
        (r.0 as nat, r.1) == comment_end(cs@, p as nat, 1),
        p <= r.0 <= cs.len(),
{
    let mut q: usize = p;
    let mut depth: usize = 1;
    while depth > 0
        invariant
            p <= q <= cs.len(),
            depth < q,
            comment_end(cs@, q as nat, depth as nat) == comment_end(cs@, p as nat, 1),
        decreases cs.len() - q, depth,
    {
        if q >= cs.len() {
            return (q, false);
        }
        if cs[q] == '/' && peek_char(cs, q + 1) == Some('*') {
            q = q + 2;
            depth = depth + 1;
        } else if cs[q] == '*' && peek_char(cs, q + 1) == Some('/') {
            q = q + 2;
            depth = depth - 1;
        } else {
            q = q + 1;
        }
    }
    (q, true)
}

fn skip_whitespace_and_comments(
    cs: &Vec<char>,
    ks: &Vec<CharClass>,
    p: usize,
    errs: &mut Vec<LexError>,
) -> (r: usize)
    requires
        p <= cs.len(),
        cs.len() == ks.len(),
    ensures
        (r as nat, lex_errors_view(final(errs)@)) == skipped(
            cs@,
            ks@,
            p as nat,
            lex_errors_view(old(errs)@),
        ),
        p <= r <= cs.len(),
{
    let mut q: usize = p;
    loop
        invariant
            p <= q <= cs.len(),
            cs.len() == ks.len(),
            skipped(cs@, ks@, q as nat, lex_errors_view(errs@)) == skipped(
                cs@,
                ks@,
                p as nat,
                lex_errors_view(old(errs)@),
            ),
        decreases cs.len() - q,
    {
        let a = find_spaces_end(ks, q);
        if a < cs.len() && cs[a] == '/' && peek_char(cs, a + 1) == Some('/') {
            q = find_line_end(cs, a);
        } else if a < cs.len() && cs[a] == '/' && peek_char(cs, a + 1) == Some('*') {
            let (b, closed) = find_comment_end(cs, a + 2);
            if !closed {
                push_error(errs, "unterminated block comment", b, b);
            }
            q = b;
        } else {
            return a;
        }
    }
}

fn find_digits_end(cs: &Vec<char>, p: usize) -> (r: usize)
    requires
        p <= cs.len(),
    ensures
        r == digits_end(cs@, p as nat),
        p <= r <= cs.len(),
        forall|i: int| p <= i < r ==> is_digit(#[trigger] cs@[i]),
{
    let mut q: usize = p;
    while q < cs.len() && char_is_digit(cs[q])
        invariant
            p <= q <= cs.len(),
            digits_end(cs@, q as nat) == digits_end(cs@, p as nat),
            forall|i: int| p <= i < q ==> is_digit(#[trigger] cs@[i]),
        decreases cs.len() - q,
    {
        q = q + 1;
    }
    q
}

proof fn lemma_digits_value_grows(cs: Text, p: nat, end: nat, acc: nat)
    requires
        end <= cs.len(),
        forall|i: int| p <= i < end ==> is_digit(#[trigger] cs[i]),
    ensures
        digits_value(cs, p, end, acc) >= acc,
    decreases end - p,
{
    if p < end {
        let d = cs[p as int] as int - '0' as int;
        lemma_digits_value_grows(cs, p + 1, end, (acc * 10 + d) as nat);
    }
}

/// The value of a run of digits, where it fits a machine integer.
fn read_digits(cs: &Vec<char>, p: usize, end: usize) -> (r: Option<i64>)
    requires
        p <= end <= cs.len(),
        forall|i: int| p <= i < end ==> is_digit(#[trigger] cs@[i]),
    ensures
        match r {
            Some(n) => n == digits_value(cs@, p as nat, end as nat, 0),
            None => digits_value(cs@, p as nat, end as nat, 0) > i64::MAX,
        },
{
    let mut acc: i64 = 0;
    let mut i: usize = p;
    while i < end
        invariant
            p <= i <= end <= cs.len(),
            0 <= acc,
            forall|i: int| p <= i < end ==> is_digit(#[trigger] cs@[i]),
            digits_value(cs@, i as nat, end as nat, acc as nat) == digits_value(
                cs@,
                p as nat,
                end as nat,
                0,
            ),
        decreases end - i,
    {
        assert(is_digit(cs@[i as int]));
        let d: i64 = cs[i] as i64 - '0' as i64;
        proof {
            lemma_digits_value_grows(
                cs@,
                (i + 1) as nat,
                end as nat,
                (acc as nat * 10 + d as nat) as nat,
            );
        }
        if acc > (i64::MAX - d) / 10 {
            assert(acc * 10 + d > i64::MAX);
            return None;
        }
        acc = acc * 10 + d;
        i = i + 1;
    }
    Some(acc)
}

/// Reads the number that begins with the digit at `p`. The kind is missing where an integer
/// does not fit.
fn lex_number(cs: &Vec<char>, p: usize) -> (r: (Option<TokenKind>, usize))
    requires
        p < cs.len(),
        is_digit(cs@[p as int]),
    ensures
        r.1 == number_at(cs@, p as nat).1,
        p < r.1 <= cs.len(),
        match r.0 {
            Some(k) => {
                &&& k@ == number_at(cs@, p as nat).0
                &&& k is Int || k is Float
                &&& kind_fits(k@)
                &&& k matches TokenKind::Int(n) ==> n >= 0
            },
            None => !kind_fits(number_at(cs@, p as nat).0) && !kind_fits(
                negated(number_at(cs@, p as nat).0),
            ),
        },
{
    proof {
        reveal(TokenKind::view);
    }
    let q = find_digits_end(cs, p + 1);
    if q < cs.len() && cs[q] == '.' && q + 1 < cs.len() && char_is_digit(cs[q + 1]) {
        let end = find_digits_end(cs, q + 1);
        (Some(TokenKind::Float(string_of(cs, p, end))), end)
    } else {
        match read_digits(cs, p, q) {
            Some(n) => (Some(TokenKind::Int(n)), q),
            None => (None, q),
        }
    }
}

fn find_name_end(cs: &Vec<char>, ks: &Vec<CharClass>, p: usize) -> (r: usize)
    requires
        p <= cs.len(),
        cs.len() == ks.len(),
    ensures
        r == name_end(cs@, ks@, p as nat),
        p <= r <= cs.len(),
{
    let mut q: usize = p;
    while q < cs.len() && (ks[q].alphanumeric || cs[q] == '_')
        invariant
            p <= q <= cs.len(),
            cs.len() == ks.len(),
            name_end(cs@, ks@, q as nat) == name_end(cs@, ks@, p as nat),
        decreases cs.len() - q,
    {
        q = q + 1;
    }
    q
}

fn lex_word(s: String) -> (r: TokenKind)
    ensures
        r@ == word_kind(s@),
        kind_fits(r@),
{
    proof {
        reveal(TokenKind::view);
    }
    if str_eq(s.as_str(), "let") {
        TokenKind::Let
    } else if str_eq(s.as_str(), "fn") {
        TokenKind::Fn
    } else if str_eq(s.as_str(), "do") {
        TokenKind::Do
    } else if str_eq(s.as_str(), "end") {
        TokenKind::End
    } else if str_eq(s.as_str(), "return") {
        TokenKind::Return
    } else if str_eq(s.as_str(), "if") {
        TokenKind::If
    } else if str_eq(s.as_str(), "else") {
        TokenKind::Else
    } else if str_eq(s.as_str(), "match") {
        TokenKind::Match
    } else if str_eq(s.as_str(), "case") {
        TokenKind::Case
    } else if str_eq(s.as_str(), "task") {
        TokenKind::Task
    } else if str_eq(s.as_str(), "conc") {
        TokenKind::Conc
    } else if str_eq(s.as_str(), "port") {
        TokenKind::Port
    } else if str_eq(s.as_str(), "type") {
        TokenKind::Type
    } else if str_eq(s.as_str(), "import") {
        TokenKind::Import
    } else if str_eq(s.as_str(), "from") {
        TokenKind::From
    } else if str_eq(s.as_str(), "pub") {
        TokenKind::Pub
    } else if str_eq(s.as_str(), "require") {
        TokenKind::Require
    } else if str_eq(s.as_str(), "effect") {
        TokenKind::Effect
    } else if str_eq(s.as_str(), "raise") {
        TokenKind::Raise
    } else if str_eq(s.as_str(), "try") {
        TokenKind::Try
    } else if str_eq(s.as_str(), "catch") {
        TokenKind::Catch
    } else if str_eq(s.as_str(), "handler") {
        TokenKind::Handler
    } else if str_eq(s.as_str(), "inject") {
        TokenKind::Inject
    } else if str_eq(s.as_str(), "exception") {
        TokenKind::Exception
    } else if str_eq(s.as_str(), "external") {
        TokenKind::External
    } else if str_eq(s.as_str(), "true") {
        TokenKind::True
    } else if str_eq(s.as_str(), "false") {
        TokenKind::False
    } else {
        TokenKind::Ident(s)
    }
}

fn lex_ident_or_keyword(cs: &Vec<char>, ks: &Vec<CharClass>, p: usize) -> (r: (TokenKind, usize))
    requires
        p < cs.len(),
        cs.len() == ks.len(),
    ensures
        r.1 == name_end(cs@, ks@, (p + 1) as nat),
        r.0@ == word_kind(cs@.subrange(p as int, r.1 as int)),
        kind_fits(r.0@),
        p < r.1 <= cs.len(),
{
    let next = find_name_end(cs, ks, p + 1);
    (lex_word(string_of(cs, p, next)), next)
}

fn unescape(c: char) -> (r: char)
    ensures
        r == escaped(c),
{
    if c == 'n' {
        '\n'
    } else if c == 'r' {
        '\r'
    } else if c == 't' {
        '\t'
    } else {
        c
    }
}

fn lex_double_quoted_string(cs: &Vec<char>, start: usize, errs: &mut Vec<LexError>) -> (r: (
    String,
    usize,
))
    requires
        start < cs.len(),
    ensures
        (StringV { content: r.0@, next: r.1 as nat, errs: lex_errors_view(final(errs)@) })
            == quoted_at(
            cs@,
            start as nat,
            (start + 1) as nat,
            Seq::empty(),
            lex_errors_view(old(errs)@),
        ),
        start < r.1 <= cs.len(),
{
    let mut content = String::new();
    assert(content@ =~= Seq::<char>::empty());
    let mut p: usize = start + 1;
    while p < cs.len()
        invariant
            start < p <= cs.len(),
            quoted_at(cs@, start as nat, p as nat, content@, lex_errors_view(errs@))
                == quoted_at(cs@, start as nat, (start + 1) as nat, Seq::empty(), lex_errors_view(old(errs)@)),
        decreases cs.len() - p,
    {
        let c = cs[p];
        if c == '\n' || c == '\r' {
            push_error(errs, "unclosed string literal", start, p + 1);
            return (content, p + 1);
        } else if c == '"' {
            return (content, p + 1);
        } else if c == '\\' {
            if p + 1 >= cs.len() {
                push_error(errs, "unterminated escape in string", start, p + 1);
                p = p + 1;
            } else {
                content.push(unescape(cs[p + 1]));
                p = p + 2;
            }
        } else {
            content.push(c);
            p = p + 1;
        }
    }
    push_error(errs, "unterminated string literal", start, p);
    (content, p)
}

fn find_equals_end(cs: &Vec<char>, p: usize) -> (r: usize)
    requires
        p <= cs.len(),
    ensures
        r == equals_end(cs@, p as nat),
        p <= r <= cs.len(),
{
    let mut q: usize = p;
    while q < cs.len() && cs[q] == '='
        invariant
            p <= q <= cs.len(),
            equals_end(cs@, q as nat) == equals_end(cs@, p as nat),
        decreases cs.len() - q,
    {
        q = q + 1;
    }
    q
}

fn bracket_closes(cs: &Vec<char>, p: usize, level: usize) -> (r: bool)
    requires
        p <= cs.len(),
        level < cs.len(),
    ensures
        r == closes_at(cs@, p as nat, level as nat),
{
    let left: usize = cs.len() - p;
    if left < 2 || left - 2 < level {
        return false;
    }
    if cs[p] != ']' {
        return false;
    }
    let mut i: usize = 0;
    while i < level
        invariant
            i <= level,
            p + level + 2 <= cs.len(),
            forall|j: int| p < j <= p + i ==> #[trigger] cs@[j] == '=',
        decreases level - i,
    {
        if cs[p + 1 + i] != '=' {
            assert(cs@[p + 1 + i] != '=');
            return false;
        }
        i = i + 1;
    }
    cs[p + level + 1] == ']'
}

fn lex_bracket_string(
    cs: &Vec<char>,
    start: usize,
    level: usize,
    from: usize,
    errs: &mut Vec<LexError>,
) -> (r: (String, usize))
    requires
        start < from <= cs.len(),
        level < cs.len(),
    ensures
        (StringV { content: r.0@, next: r.1 as nat, errs: lex_errors_view(final(errs)@) })
            == bracketed_at(
            cs@,
            start as nat,
            level as nat,
            from as nat,
            Seq::empty(),
            lex_errors_view(old(errs)@),
        ),
        start < r.1 <= cs.len(),
{
    let mut content = String::new();
    assert(content@ =~= Seq::<char>::empty());
    let mut p: usize = from;
    loop
        invariant
            start < p <= cs.len(),
            level < cs.len(),
            bracketed_at(
                cs@,
                start as nat,
                level as nat,
                p as nat,
                content@,
                lex_errors_view(errs@),
            ) == bracketed_at(
                cs@,
                start as nat,
                level as nat,
                from as nat,
                Seq::empty(),
                lex_errors_view(old(errs)@),
            ),
        decreases cs.len() - p,
    {
        if bracket_closes(cs, p, level) {
            return (content, p + level + 2);
        }
        if p >= cs.len() {
            push_error(errs, "unterminated bracket string", start, p);
            return (content, p);
        }
        let c = cs[p];
        if c == '\n' || c == '\r' {
            push_error(errs, "unclosed string literal", start, p + 1);
            return (content, p + 1);
        } else if c == '\\' && level < 2 {
            if p + 1 >= cs.len() {
                push_error(errs, "unterminated escape in string", start, p + 1);
                p = p + 1;
            } else {
                content.push(unescape(cs[p + 1]));
                p = p + 2;
            }
        } else {
            content.push(c);
            p = p + 1;
        }
    }
}

fn find_symbol(cs: &Vec<char>, p: usize) -> (r: Option<(TokenKind, usize)>)
    requires
        p < cs.len(),
    ensures
        match r {
            Some((k, n)) => {
                &&& symbol_at(cs@, p as nat) == Some((k, n as nat))
                &&& k@ == KindV::Plain(k)
                &&& 1 <= n <= cs.len() - p
            },
            None => symbol_at(cs@, p as nat) is None,
        },
{
    proof {
        reveal(TokenKind::view);
    }
    let c = cs[p];
    let d = peek_char(cs, p + 1);
    let e = if p + 1 < cs.len() {
        peek_char(cs, p + 2)
    } else {
        None
    };
    if c == '(' {
        Some((TokenKind::LParen, 1))
    } else if c == ')' {
        Some((TokenKind::RParen, 1))
    } else if c == '{' {
        Some((TokenKind::LBrace, 1))
    } else if c == '}' {
        Some((TokenKind::RBrace, 1))
    } else if c == ']' {
        Some((TokenKind::RBracket, 1))
    } else if c == ':' {
        Some((TokenKind::Colon, 1))
    } else if c == ',' {
        Some((TokenKind::Comma, 1))
    } else if c == '.' {
        Some((TokenKind::Dot, 1))
    } else if c == '~' {
        Some((TokenKind::Tilde, 1))
    } else if c == '%' {
        Some((TokenKind::Percent, 1))
    } else if c == '|' {
        if d == Some(']') {
            Some((TokenKind::RBracketPipe, 2))
        } else if d == Some('|') {
            Some((TokenKind::OrOr, 2))
        } else {
            Some((TokenKind::Pipe, 1))
        }
    } else if c == '+' {
        if d == Some('.') {
            Some((TokenKind::PlusDot, 2))
        } else if d == Some('+') {
            Some((TokenKind::PlusPlus, 2))
        } else {
            Some((TokenKind::Plus, 1))
        }
    } else if c == '-' {
        if d == Some('>') {
            Some((TokenKind::Arrow, 2))
        } else if d == Some('.') {
            Some((TokenKind::MinusDot, 2))
        } else {
            Some((TokenKind::Minus, 1))
        }
    } else if c == '*' {
        if d == Some('.') {
            Some((TokenKind::StarDot, 2))
        } else {
            Some((TokenKind::Star, 1))
        }
    } else if c == '/' {
        if d == Some('.') {
            Some((TokenKind::SlashDot, 2))
        } else {
            Some((TokenKind::Slash, 1))
        }
    } else if c == '=' {
        if d == Some('=') && e == Some('.') {
            Some((TokenKind::EqDot, 3))
        } else if d == Some('=') {
            Some((TokenKind::EqEq, 2))
        } else if d == Some('>') {
            Some((TokenKind::FatArrow, 2))
        } else {
            Some((TokenKind::Eq, 1))
        }
    } else if c == '!' {
        if d == Some('=') && e == Some('.') {
            Some((TokenKind::NeDot, 3))
        } else if d == Some('=') {
            Some((TokenKind::Ne, 2))
        } else {
            None
        }
    } else if c == '<' {
        if d == Some('-') {
            Some((TokenKind::Assign, 2))
        } else if d == Some('=') && e == Some('.') {
            Some((TokenKind::LeDot, 3))
        } else if d == Some('=') {
            Some((TokenKind::Le, 2))
        } else if d == Some('.') {
            Some((TokenKind::LtDot, 2))
        } else {
            Some((TokenKind::Lt, 1))
        }
    } else if c == '>' {
        if d == Some('=') && e == Some('.') {
            Some((TokenKind::GeDot, 3))
        } else if d == Some('=') {
            Some((TokenKind::Ge, 2))
        } else if d == Some('.') {
            Some((TokenKind::GtDot, 2))
        } else {
            Some((TokenKind::Gt, 1))
        }
    } else if c == '&' {
        if d == Some('&') {
            Some((TokenKind::AndAnd, 2))
        } else {
            Some((TokenKind::Ampersand, 1))
        }
    } else {
        None
    }
}

/// What stands at a position, as the lexer hands it on.
struct Step {
    kind: Option<TokenKind>,
    next: usize,
    fits: bool,
}

impl Step {
    spec fn matches(&self, errs: Seq<LexErrorV>, m: StepV) -> bool {
        &&& self.next == m.next
        &&& errs == m.errs
        &&& self.fits ==> match self.kind {
            Some(k) => m.kind == Some(k@) && kind_fits(k@),
            None => m.kind is None,
        }
        &&& !self.fits ==> (m.kind matches Some(k) && !kind_fits(k))
    }
}

fn lex_bracket(cs: &Vec<char>, p: usize, errs: &mut Vec<LexError>) -> (r: Step)
    requires
        p < cs.len(),
    ensures
        r.matches(
            lex_errors_view(final(errs)@),
            bracket_step(cs@, p as nat, lex_errors_view(old(errs)@)),
        ),
        p < r.next <= cs.len(),
{
    proof {
        reveal(TokenKind::view);
    }
    if peek_char(cs, p + 1) == Some('|') {
        return Step { kind: Some(TokenKind::LBracketPipe), next: p + 2, fits: true };
    }
    let e = find_equals_end(cs, p + 1);
    if e < cs.len() && cs[e] == '[' {
        let level: usize = e - (p + 1);
        let (content, next) = lex_bracket_string(cs, p, level, e + 1, errs);
        Step { kind: Some(TokenKind::StringLit(content)), next, fits: true }
    } else {
        Step { kind: Some(TokenKind::LBracket), next: p + 1, fits: true }
    }
}

fn lex_stray(cs: &Vec<char>, p: usize, errs: &mut Vec<LexError>) -> (r: Step)
    requires
        p < cs.len(),
    ensures
        r.matches(
            lex_errors_view(final(errs)@),
            stray_step(cs@, p as nat, lex_errors_view(old(errs)@)),
        ),
        p < r.next <= cs.len(),
{
    proof {
        reveal(TokenKind::view);
    }
    let c = string_of(cs, p, p + 1);
    assert(c@ =~= seq![cs@[p as int]]);
    let m = cat3("unexpected character '", c.as_str(), "'");
    push_error(errs, m.as_str(), p, p + 1);
    Step { kind: None, next: p + 1, fits: true }
}

fn lex_token(cs: &Vec<char>, ks: &Vec<CharClass>, p: usize, errs: &mut Vec<LexError>) -> (r: Step)
    requires
        p < cs.len(),
        cs.len() == ks.len(),
    ensures
        r.matches(
            lex_errors_view(final(errs)@),
            token_at(cs@, ks@, p as nat, lex_errors_view(old(errs)@)),
        ),
        p < r.next <= cs.len(),
{
    proof {
        reveal(TokenKind::view);
    }
    let c = cs[p];
    if c == '[' {
        return lex_bracket(cs, p, errs);
    }
    if c == '"' {
        let (content, next) = lex_double_quoted_string(cs, p, errs);
        return Step { kind: Some(TokenKind::StringLit(content)), next, fits: true };
    }
    if c == '-' && p + 1 < cs.len() && char_is_digit(cs[p + 1]) {
        let (kind, next) = lex_number(cs, p + 1);
        return match kind {
            Some(TokenKind::Int(n)) => Step {
                kind: Some(TokenKind::Int(-n)),
                next,
                fits: true,
            },
            Some(TokenKind::Float(s)) => Step {
                kind: Some(TokenKind::Float(cat2("-", s.as_str()))),
                next,
                fits: true,
            },
            _ => Step { kind: None, next, fits: false },
        };
    }
    match find_symbol(cs, p) {
        Some((k, n)) => Step { kind: Some(k), next: p + n, fits: true },
        None => {
            if char_is_digit(c) {
                let (kind, next) = lex_number(cs, p);
                match kind {
                    Some(k) => Step { kind: Some(k), next, fits: true },
                    None => Step { kind: None, next, fits: false },
                }
            } else if ks[p].alphabetic || c == '_' {
                let (k, next) = lex_ident_or_keyword(cs, ks, p);
                Step { kind: Some(k), next, fits: true }
            } else {
                lex_stray(cs, p, errs)
            }
        },
    }
}

proof fn lemma_lexed_keeps(
    cs: Text,
    ks: Seq<CharClass>,
    p: nat,
    toks: Seq<TokenV>,
    errs: Seq<LexErrorV>,
)
    ensures
        toks.len() <= lexed(cs, ks, p, toks, errs).0.len(),
        forall|i: int|
            0 <= i < toks.len() ==> #[trigger] lexed(cs, ks, p, toks, errs).0[i] == toks[i],
    decreases cs.len() - p,
{
    let (q, errs1) = skipped(cs, ks, p, errs);
    if !(q >= cs.len() || q < p) {
        let step = token_at(cs, ks, q, errs1);
        let toks1 = match step.kind {
            Some(kind) => toks.push(TokenV { kind, span: span_of(q, step.next) }),
            None => toks,
        };
        if q < step.next <= cs.len() {
            lemma_lexed_keeps(cs, ks, step.next, toks1, step.errs);
            assert forall|i: int| 0 <= i < toks.len() implies #[trigger] lexed(
                cs,
                ks,
                p,
                toks,
                errs,
            ).0[i] == toks[i] by {
                assert(toks1[i] == toks[i]);
            }
        }
    }
}

/// Reads the tokens of a text whose characters have the given classes. The result is missing
/// where an integer literal does not fit a machine integer.
pub fn lex_chars(cs: &Vec<char>, ks: &Vec<CharClass>) -> (r: Option<
    Result<Vec<Token>, Vec<LexError>>,
>)
    requires
        cs.len() == ks.len(),
    ensures
        match r {
            Some(out) => {
                &&& tokens_fit(lexed(cs@, ks@, 0, Seq::empty(), Seq::empty()).0)
                &&& lex_matches(out, tokens_of(cs@, ks@))
                &&& out matches Ok(toks) ==> well_ended(toks@)
            },
            None => !tokens_fit(lexed(cs@, ks@, 0, Seq::empty(), Seq::empty()).0),
        },
{
    let ghost all = lexed(cs@, ks@, 0, Seq::empty(), Seq::empty());
    let mut toks: Vec<Token> = Vec::new();
    let mut errs: Vec<LexError> = Vec::new();
    proof {
        assert(tokens_view(toks@) =~= Seq::<TokenV>::empty());
        assert(lex_errors_view(errs@) =~= Seq::<LexErrorV>::empty());
    }
    let mut p: usize = 0;
    loop
        invariant
            p <= cs.len(),
            cs.len() == ks.len(),
            all == lexed(cs@, ks@, 0, Seq::empty(), Seq::empty()),
            lexed(
                cs@,
                ks@,
                p as nat,
                tokens_view(toks@),
                lex_errors_view(errs@),
            ) == all,
            tokens_fit(tokens_view(toks@)),
        decreases cs.len() - p,
    {
        proof {
            reveal(TokenKind::view);
        }
        let ghost before = tokens_view(toks@);
        let q = skip_whitespace_and_comments(cs, ks, p, &mut errs);
        if q >= cs.len() {
            let eof = Token { kind: TokenKind::Eof, span: Span { start: q, end: q } };
            let ghost tv = eof@;
            toks.push(eof);
            assert(tokens_view(toks@) =~= before.push(tv));
            assert(lex_errors_view(errs@).len() == errs.len());
            if errs.len() == 0 {
                return Some(Ok(toks));
            } else {
                return Some(Err(errs));
            }
        }
        let ghost e1 = lex_errors_view(errs@);
        let step = lex_token(cs, ks, q, &mut errs);
        if !step.fits {
            proof {
                let m = token_at(cs@, ks@, q as nat, e1);
                let toks1 = before.push(
                    TokenV { kind: m.kind->0, span: span_of(q as nat, m.next) },
                );
                lemma_lexed_keeps(cs@, ks@, m.next, toks1, m.errs);
                assert(all.0[before.len() as int] == toks1[before.len() as int]);
                assert(!kind_fits(all.0[before.len() as int].kind));
            }
            return None;
        }
        match step.kind {
            Some(kind) => {
                let tok = Token { kind, span: Span { start: q, end: step.next } };
                let ghost tv = tok@;
                toks.push(tok);
                assert(tokens_view(toks@) =~= before.push(tv));
            },
            None => {},
        }
        p = step.next;
    }
}

/// Whether a list holds where each character of a text begins among its bytes, and where the
/// last one ends.
spec fn starts_of(cs: Text, starts: Seq<usize>) -> bool {
    &&& starts.len() == cs.len() + 1
    &&& forall|k: int| 0 <= k < starts.len() ==> (#[trigger] starts[k]) == offsets::byte_at(cs, k as nat)
}

fn span_in_bytes(cs: &Vec<char>, starts: &Vec<usize>, s: Span) -> (r: Span)
    requires
        starts_of(cs@, starts@),
    ensures
        r == byte_span(cs@, s),
{
    let last: usize = cs.len();
    let start: usize = if s.start < last {
        s.start
    } else {
        last
    };
    let end: usize = if s.end < last {
        s.end
    } else {
        last
    };
    Span { start: starts[start], end: starts[end] }
}

fn tokens_in_bytes(cs: &Vec<char>, starts: &Vec<usize>, toks: Vec<Token>) -> (r: Vec<Token>)
    requires
        starts_of(cs@, starts@),
    ensures
        tokens_view(r@) == tokens_view(toks@).map_values(|t: TokenV| byte_token(cs@, t)),
        well_ended(toks@) ==> well_ended(r@),
{
    let ghost first = toks@;
    let mut out = toks;
    let mut i: usize = 0;
    while i < out.len()
        invariant
            i <= out.len(),
            out.len() == first.len(),
            starts_of(cs@, starts@),
            forall|k: int|
                0 <= k < first.len() ==> (#[trigger] out@[k]).kind == first[k].kind && out@[k].span
                    == if k < i {
                    byte_span(cs@, first[k].span)
                } else {
                    first[k].span
                },
        decreases out.len() - i,
    {
        let span = span_in_bytes(cs, starts, out[i].span);
        let token = &mut out[i];
        token.span = span;
        i = i + 1;
    }
    proof {
        let a = tokens_view(out@);
        let b = tokens_view(first).map_values(|t: TokenV| byte_token(cs@, t));
        assert forall|k: int| 0 <= k < a.len() implies a[k] == b[k] by {
            assert(out@[k].kind == first[k].kind);
        }
        assert(a =~= b);
        if well_ended(first) {
            assert(out@[out.len() - 1].kind == first[first.len() - 1].kind);
            assert forall|k: int| 0 <= k < a.len() implies kind_fits((#[trigger] a[k]).kind) by {
                assert(kind_fits(tokens_view(first)[k].kind));
            }
        }
    }
    out
}

fn reports_in_bytes(cs: &Vec<char>, starts: &Vec<usize>, errs: Vec<LexError>) -> (r: Vec<LexError>)
    requires
        starts_of(cs@, starts@),
    ensures
        lex_errors_view(r@) == lex_errors_view(errs@).map_values(
            |e: LexErrorV| byte_report(cs@, e),
        ),
{
    let ghost first = errs@;
    let mut out = errs;
    let mut i: usize = 0;
    while i < out.len()
        invariant
            i <= out.len(),
            out.len() == first.len(),
            starts_of(cs@, starts@),
            forall|k: int|
                0 <= k < first.len() ==> (#[trigger] out@[k]).message == first[k].message
                    && out@[k].span == if k < i {
                    byte_span(cs@, first[k].span)
                } else {
                    first[k].span
                },
        decreases out.len() - i,
    {
        let span = span_in_bytes(cs, starts, out[i].span);
        let report = &mut out[i];
        report.span = span;
        i = i + 1;
    }
    assert(lex_errors_view(out@) =~= lex_errors_view(first).map_values(
        |e: LexErrorV| byte_report(cs@, e),
    ));
    out
}

/// Reads the tokens of a source text: the tokens, with the end of the source as the last, or
/// what there is to report. Spans are those of the bytes of the text.
pub fn tokenize(source: &str) -> (r: Result<Vec<Token>, Vec<LexError>>)
    requires
        literals_fit(source@),
    ensures
        lex_matches(r, source_tokens(source@, classes(source@))),
        r matches Ok(toks) ==> well_ended(toks@),
{
    match tokenize_checked(source) {
        Some(r) => r,
        None => {
            assert(false);
            Ok(Vec::new())
        },
    }
}

/// Reads the tokens of a source text; nothing where an integer literal does not fit a machine
/// integer.
pub fn tokenize_checked(source: &str) -> (r: Option<Result<Vec<Token>, Vec<LexError>>>)
    ensures
        match r {
            Some(out) => {
                &&& literals_fit(source@)
                &&& lex_matches(out, source_tokens(source@, classes(source@)))
                &&& out matches Ok(toks) ==> well_ended(toks@)
            },
            None => !literals_fit(source@),
        },
{
    let cs = chars_of(source);
    let ks = classify(&cs);
    match lex_chars(&cs, &ks) {
        None => None,
        Some(Ok(toks)) => {
            let starts = byte_offsets(source, &cs);
            Some(Ok(tokens_in_bytes(&cs, &starts, toks)))
        },
        Some(Err(errs)) => {
            let starts = byte_offsets(source, &cs);
            Some(Err(reports_in_bytes(&cs, &starts, errs)))
        },
    }
}

} // verus!
