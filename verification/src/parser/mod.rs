//! The parser: from a source text to a program.

pub mod cursor;
pub mod definition_reading;
pub mod expr_syntax;
pub mod pattern_syntax;
pub mod precedence_laws;
pub mod reading_laws;
pub mod spelling;
pub mod top_level;
pub mod type_reading;
pub mod type_syntax;

use crate::ast::{Program, ProgramV, Stmt, StmtV};
use crate::lexer;
use crate::lexer::{
    CharClass, KindV, LexError, LexErrorV, Token, TokenV, tokenize, tokenize_checked,
};
use crate::lexer_laws;
use crate::parser::cursor::{ParseError, ParseErrorV};
use crate::parser::expr_syntax::parse_stmt;
use crate::parser::top_level::parse_definitions;
use crate::runtime::bytes::byte_len;
use crate::text::Text;
use crate::types::Spanned;
use vstd::prelude::*;
use vstd::utf8::encode_utf8;

verus! {

/// The reports of the lexer as reports of the parser.
pub open spec fn lex_reports(errs: Seq<LexErrorV>) -> Seq<ParseErrorV> {
    errs.map_values(|e: LexErrorV| cursor::parse_error(e.message, e.span))
}

/// The models of a list of reports.
pub open spec fn parse_errors_view(v: Seq<ParseError>) -> Seq<ParseErrorV> {
    v.map_values(|e: ParseError| e@)
}

/// The program of a source text whose characters have the given classes, or the reports about
/// it.
pub open spec fn program_of(cs: Text, ks: Seq<CharClass>) -> Result<ProgramV, Seq<ParseErrorV>> {
    match lexer::source_tokens(cs, ks) {
        Err(errs) => Err(lex_reports(errs)),
        Ok(toks) => match top_level::definitions_at(toks, 0, Seq::empty()) {
            Err(e) => Err(seq![e]),
            Ok((definitions, _)) => Ok(ProgramV { definitions }),
        },
    }
}

/// The first statement of a source text whose characters have the given classes, or the
/// reports about it.
pub open spec fn stmt_of(cs: Text, ks: Seq<CharClass>) -> Result<
    Spanned<StmtV>,
    Seq<ParseErrorV>,
> {
    match lexer::source_tokens(cs, ks) {
        Err(errs) => Err(lex_reports(errs)),
        Ok(toks) => match expr_syntax::stmt_at(toks, 0) {
            Err(e) => Err(seq![e]),
            Ok((s, _)) => Ok(s),
        },
    }
}

/// Whether an outcome is the one that its model says.
pub open spec fn program_matches(
    r: Result<Program, Vec<ParseError>>,
    m: Result<ProgramV, Seq<ParseErrorV>>,
) -> bool {
    match r {
        Ok(p) => m == Ok::<ProgramV, Seq<ParseErrorV>>(p@),
        Err(errs) => m == Err::<ProgramV, Seq<ParseErrorV>>(parse_errors_view(errs@)),
    }
}

/// Whether an outcome is the one that its model says.
pub open spec fn stmt_matches(
    r: Result<Spanned<Stmt>, Vec<ParseError>>,
    m: Result<Spanned<StmtV>, Seq<ParseErrorV>>,
) -> bool {
    match r {
        Ok(s) => m == Ok::<Spanned<StmtV>, Seq<ParseErrorV>>(s@),
        Err(errs) => m == Err::<Spanned<StmtV>, Seq<ParseErrorV>>(parse_errors_view(errs@)),
    }
}

fn report_lex_errors(errs: Vec<LexError>) -> (r: Vec<ParseError>)
    ensures
        parse_errors_view(r@) == lex_reports(lexer::lex_errors_view(errs@)),
{
    let mut out: Vec<ParseError> = Vec::new();
    let mut i: usize = 0;
    while i < errs.len()
        invariant
            i <= errs.len(),
            out.len() == i,
            forall|j: int|
                0 <= j < i ==> (#[trigger] out@[j])@ == cursor::parse_error(
                    errs@[j].message@,
                    errs@[j].span,
                ),
        decreases errs.len() - i,
    {
        out.push(ParseError { message: errs[i].message.clone(), span: errs[i].span });
        i = i + 1;
    }
    assert(parse_errors_view(out@) =~= lex_reports(lexer::lex_errors_view(errs@)));
    out
}

fn one_report(e: ParseError) -> (r: Vec<ParseError>)
    ensures
        parse_errors_view(r@) == seq![e@],
{
    let mut out: Vec<ParseError> = Vec::new();
    let ghost ev = e@;
    out.push(e);
    assert(parse_errors_view(out@) =~= seq![ev]);
    out
}

/// Reads a program from the outcome of the lexer.
pub fn parse_tokens(lexed: Result<Vec<Token>, Vec<LexError>>) -> (r: Result<
    Program,
    Vec<ParseError>,
>)
    requires
        lexed matches Ok(toks) ==> lexer::well_ended(toks@),
    ensures
        match lexed {
            Err(errs) => r matches Err(out) && parse_errors_view(out@) == lex_reports(
                lexer::lex_errors_view(errs@),
            ),
            Ok(toks) => match r {
                Ok(p) => {
                    &&& top_level::definitions_at(lexer::tokens_view(toks@), 0, Seq::empty()) matches Ok((d, _))
                        && p@ == (ProgramV { definitions: d })
                    &&& top_level::tokens_in_order(lexer::tokens_view(toks@)) ==> top_level::definitions_in_order(
                        p@.definitions,
                        lexer::tokens_view(toks@).last().span.end as nat,
                    )
                },
                Err(out) => top_level::definitions_at(lexer::tokens_view(toks@), 0, Seq::empty()) matches Err(e)
                    && parse_errors_view(out@) == seq![e],
            },
        },
{
    match lexed {
        Err(errs) => Err(report_lex_errors(errs)),
        Ok(toks) => match parse_definitions(&toks, 0) {
            Ok((definitions, _)) => Ok(Program { definitions }),
            Err(e) => Err(one_report(e)),
        },
    }
}

/// Parses a source text into a program. Its definitions come one behind the other in the text.
pub fn parse(source: &str) -> (r: Result<Program, Vec<ParseError>>)
    requires
        lexer::literals_fit(source@),
    ensures
        program_matches(r, program_of(source@, lexer::classes(source@))),
        r matches Ok(p) ==> top_level::definitions_in_order(p@.definitions, encode_utf8(source@).len()),
{
    let size = byte_len(source);
    proof {
        assert(size == encode_utf8(source@).len());
        lexer_laws::law_tokens_follow_the_bytes(source@, lexer::classes(source@));
        if let Ok(toks) = lexer::source_tokens(source@, lexer::classes(source@)) {
            assert(lexer_laws::tokens_stand_in(encode_utf8(source@), toks));
            assert forall|i: int| 0 <= i < toks.len() implies (#[trigger] toks[i]).span.start
                <= toks[i].span.end by {
                assert(lexer_laws::token_stands_in(encode_utf8(source@), toks[i]));
            }
            assert(top_level::tokens_in_order(toks));
        }
    }
    parse_tokens(tokenize(source))
}

/// Parses a source text into a program; nothing where an integer literal does not fit a machine
/// integer.
pub fn parse_checked(source: &str) -> (r: Option<Result<Program, Vec<ParseError>>>)
    ensures
        match r {
            Some(out) => {
                &&& lexer::literals_fit(source@)
                &&& program_matches(out, program_of(source@, lexer::classes(source@)))
            },
            None => !lexer::literals_fit(source@),
        },
{
    match tokenize_checked(source) {
        Some(_) => Some(parse(source)),
        None => None,
    }
}

/// The parser of programs.
pub struct ParserWrapper;

/// The parser of programs.
pub fn parser() -> (r: ParserWrapper)
    ensures
        r == ParserWrapper,
{
    ParserWrapper
}

impl ParserWrapper {
    /// Parses a source text into a program.
    pub fn parse(&self, source: &str) -> (r: Result<Program, Vec<ParseError>>)
        requires
            lexer::literals_fit(source@),
        ensures
            program_matches(r, program_of(source@, lexer::classes(source@))),
    {
        parse(source)
    }

    /// Parses a source text into a program; nothing where an integer literal does not fit a
    /// machine integer.
    pub fn parse_checked(&self, source: &str) -> (r: Option<Result<Program, Vec<ParseError>>>)
        ensures
            match r {
                Some(out) => {
                    &&& lexer::literals_fit(source@)
                    &&& program_matches(out, program_of(source@, lexer::classes(source@)))
                },
                None => !lexer::literals_fit(source@),
            },
    {
        match tokenize_checked(source) {
            Some(_) => Some(self.parse(source)),
            None => None,
        }
    }
}

/// The parser of statements at a prompt.
pub struct StmtParserWrapper;

/// The parser of statements at a prompt.
pub fn stmt_parser() -> (r: StmtParserWrapper)
    ensures
        r == StmtParserWrapper,
{
    StmtParserWrapper
}

impl StmtParserWrapper {
    /// Parses the first statement of a source text.
    pub fn parse(&self, source: &str) -> (r: Result<Spanned<Stmt>, Vec<ParseError>>)
        requires
            lexer::literals_fit(source@),
        ensures
            stmt_matches(r, stmt_of(source@, lexer::classes(source@))),
    {
        match tokenize(source) {
            Err(errs) => Err(report_lex_errors(errs)),
            Ok(toks) => match parse_stmt(&toks, 0) {
                Ok((s, _)) => Ok(s),
                Err(e) => Err(one_report(e)),
            },
        }
    }

    /// Parses the first statement of a source text; nothing where an integer literal does not
    /// fit a machine integer.
    pub fn parse_checked(&self, source: &str) -> (r: Option<
        Result<Spanned<Stmt>, Vec<ParseError>>,
    >)
        ensures
            match r {
                Some(out) => {
                    &&& lexer::literals_fit(source@)
                    &&& stmt_matches(out, stmt_of(source@, lexer::classes(source@)))
                },
                None => !lexer::literals_fit(source@),
            },
    {
        match tokenize_checked(source) {
            Some(_) => Some(self.parse(source)),
            None => None,
        }
    }
}

/// What the lexer reports about a text is what the parser reports; where the lexer has nothing
/// to report, the parser reports one thing at most.
pub proof fn law_reports_of_the_parser(cs: Text, ks: Seq<CharClass>)
    ensures
        match lexer::source_tokens(cs, ks) {
            Err(errs) => program_of(cs, ks) == Err::<ProgramV, Seq<ParseErrorV>>(
                lex_reports(errs),
            ),
            Ok(_) => program_of(cs, ks) matches Err(errs) ==> errs.len() == 1,
        },
        program_of(cs, ks) matches Err(errs) ==> errs.len() > 0,
{
}

/// A reserved word is never read as a name.
pub proof fn law_reserved_words_are_no_names(toks: Seq<TokenV>, p: nat, word: Text)
    requires
        cursor::reserved(word),
        cursor::kind_at(toks, p) == KindV::Ident(word),
    ensures
        cursor::ident_at(toks, p) == Err::<(Text, nat), ParseErrorV>(
            cursor::parse_error("Keyword '"@ + word + "' is reserved"@, cursor::span_at(toks, p)),
        ),
{
}

} // verus!
