//! Checking a source text: what there is to report, and what an editor asks about later.

use crate::ast::{Program, ProgramV};
use crate::lexer;
use crate::lexer::tokenize_checked;
use crate::lsp::position;
use crate::lsp::position::{CheckRange, LineIndex, LineIndexV};
use crate::lsp::symbols;
use crate::lsp::symbols::{DocumentSymbol, SymbolKind, SymbolV, extract};
use crate::parser;
use crate::parser::parser;
use crate::parser::cursor::{ParseError, ParseErrorV};
use crate::text::{Text, owned, str_eq};
use crate::typecheck::env;
use crate::typecheck::env::{EnvV, TypeEnv, TypeErrorV, TypeWarning, TypeWarningV};
use crate::typecheck::program;
use crate::typecheck::program::{CheckerV, TypeChecker, World, WorldV};
use crate::types;
use crate::types::{Span, copy_opt_text};
use vstd::prelude::*;

verus! {

/// What checking a file gave.
#[derive(Debug)]
pub struct CheckResult {
    pub file: String,
    pub ok: bool,
    pub diagnostics: Vec<CheckDiagnostic>,
    pub symbols: Vec<CheckSymbol>,
}

/// One report: `severity` is `"error"` or `"warning"`.
#[derive(Debug)]
pub struct CheckDiagnostic {
    pub range: CheckRange,
    pub severity: &'static str,
    pub message: String,
}

/// One symbol of a checked file.
#[derive(Debug)]
pub struct CheckSymbol {
    pub name: String,
    pub kind: &'static str,
    pub detail: Option<String>,
    pub range: CheckRange,
}

/// All that is known about a source text.
pub struct AnalysisResult {
    pub check: CheckResult,
    pub env: Option<TypeEnv>,
    pub program: Option<Program>,
    pub line_index: LineIndex,
}

/// The model of a report.
pub struct DiagnosticV {
    pub range: CheckRange,
    pub severity: Text,
    pub message: Text,
}

/// The model of a symbol of a checked file.
pub struct CheckSymbolV {
    pub name: Text,
    pub kind: Text,
    pub detail: Option<Text>,
    pub range: CheckRange,
}

/// The model of what checking a file gave.
pub struct CheckResultV {
    pub file: Text,
    pub ok: bool,
    pub diagnostics: Seq<DiagnosticV>,
    pub symbols: Seq<CheckSymbolV>,
}

/// The model of all that is known about a source text.
pub struct AnalysisV {
    pub check: CheckResultV,
    pub env: Option<EnvV>,
    pub program: Option<ProgramV>,
    pub index: LineIndexV,
}

impl CheckDiagnostic {
    /// The model of this report.
    pub open spec fn view(&self) -> DiagnosticV {
        DiagnosticV {
            range: self.range,
            severity: self.severity@,
            message: self.message@,
        }
    }
}

/// The models of a list of reports.
pub open spec fn diagnostics_view(v: Seq<CheckDiagnostic>) -> Seq<DiagnosticV> {
    v.map_values(|d: CheckDiagnostic| d@)
}

impl CheckSymbol {
    /// The model of this symbol.
    pub open spec fn view(&self) -> CheckSymbolV {
        CheckSymbolV {
            name: self.name@,
            kind: self.kind@,
            detail: types::opt_text(self.detail),
            range: self.range,
        }
    }
}

/// The models of a list of symbols.
pub open spec fn check_symbols_view(v: Seq<CheckSymbol>) -> Seq<CheckSymbolV> {
    v.map_values(|s: CheckSymbol| s@)
}

impl CheckResult {
    /// The model of this result.
    pub open spec fn view(&self) -> CheckResultV {
        CheckResultV {
            file: self.file@,
            ok: self.ok,
            diagnostics: diagnostics_view(self.diagnostics@),
            symbols: check_symbols_view(self.symbols@),
        }
    }
}

/// The model of an environment that may be missing.
pub open spec fn opt_env(e: Option<TypeEnv>) -> Option<EnvV> {
    match e {
        Some(e) => Some(e@),
        None => None,
    }
}

/// The model of a program that may be missing.
pub open spec fn opt_program(p: Option<Program>) -> Option<ProgramV> {
    match p {
        Some(p) => Some(p@),
        None => None,
    }
}

impl AnalysisResult {
    /// The model of this result.
    pub open spec fn view(&self) -> AnalysisV {
        AnalysisV {
            check: self.check@,
            env: opt_env(self.env),
            program: opt_program(self.program),
            index: self.line_index@,
        }
    }
}

// ---------------------------------------------------------------------------
// What is reported
// ---------------------------------------------------------------------------

/// A report about a span.
pub open spec fn diagnostic(
    ix: LineIndexV,
    span: Span,
    severity: Text,
    message: Text,
) -> DiagnosticV {
    DiagnosticV { range: position::range_of(ix, span), severity, message }
}

/// The reports for warnings.
pub open spec fn warning_diagnostics(ix: LineIndexV, ws: Seq<TypeWarningV>) -> Seq<DiagnosticV> {
    ws.map_values(|w: TypeWarningV| diagnostic(ix, w.span, "warning"@, w.message))
}

/// The reports for a text that is not a program.
pub open spec fn parse_diagnostics(ix: LineIndexV, errs: Seq<ParseErrorV>) -> Seq<DiagnosticV> {
    errs.map_values(|e: ParseErrorV| diagnostic(ix, e.span, "error"@, e.message))
}

/// The word for a kind of symbol.
pub open spec fn symbol_word(k: SymbolKind) -> Text {
    match k {
        SymbolKind::Function => "function"@,
        SymbolKind::Constant => "constant"@,
        SymbolKind::Struct => "type"@,
        SymbolKind::Enum => "enum"@,
        SymbolKind::EnumMember => "variant"@,
        SymbolKind::Event => "exception"@,
        SymbolKind::Interface => "port"@,
        SymbolKind::Method => "method"@,
    }
}

/// A symbol of a program as one of a checked file.
pub open spec fn check_symbol(s: SymbolV) -> CheckSymbolV {
    CheckSymbolV {
        name: s.name,
        kind: symbol_word(s.kind),
        detail: s.detail,
        range: s.range,
    }
}

/// Whether one of the reports is an error.
pub open spec fn has_error(ds: Seq<DiagnosticV>) -> bool {
    exists|i: int| 0 <= i < ds.len() && (#[trigger] ds[i]).severity == "error"@
}

/// The outcome of checking a program on its own.
pub open spec fn checked_afresh(w: WorldV, p: ProgramV) -> (Result<(), TypeErrorV>, CheckerV) {
    program::program_checked(w, program::fresh_checker(w.stdlib), p, usize::MAX as nat)
}

/// The reports about a program: the warnings, then the error that stopped the checker.
pub open spec fn check_diagnostics(
    ix: LineIndexV,
    outcome: (Result<(), TypeErrorV>, CheckerV),
) -> Seq<DiagnosticV> {
    let ws = warning_diagnostics(ix, outcome.1.warnings);
    match outcome.0 {
        Ok(_) => ws,
        Err(e) => ws.push(diagnostic(ix, e.span, "error"@, e.message)),
    }
}

/// All that is known about a text, given its index and what the parser made of it.
pub open spec fn analysis_of(
    file: Text,
    ix: LineIndexV,
    parsed: Result<ProgramV, Seq<ParseErrorV>>,
    w: WorldV,
) -> AnalysisV {
    match parsed {
        Ok(p) => {
            let outcome = checked_afresh(w, p);
            let ds = check_diagnostics(ix, outcome);
            AnalysisV {
                check: CheckResultV {
                    file,
                    ok: !has_error(ds),
                    diagnostics: ds,
                    symbols: symbols::symbols_of(p, ix).map_values(|s: SymbolV| check_symbol(s)),
                },
                env: if outcome.0 is Ok {
                    Some(outcome.1.env)
                } else {
                    None
                },
                program: Some(p),
                index: ix,
            }
        },
        Err(errs) => {
            let ds = parse_diagnostics(ix, errs);
            AnalysisV {
                check: CheckResultV {
                    file,
                    ok: !has_error(ds),
                    diagnostics: ds,
                    symbols: Seq::empty(),
                },
                env: None,
                program: None,
                index: ix,
            }
        },
    }
}

// ---------------------------------------------------------------------------
// Analysis
// ---------------------------------------------------------------------------

fn to_check_diag(
    idx: &LineIndex,
    span: &Span,
    severity: &'static str,
    message: &str,
) -> (r: CheckDiagnostic)
    ensures
        r@ == diagnostic(idx@, *span, severity@, message@),
{
    CheckDiagnostic { range: idx.span_to_range(span), severity, message: owned(message) }
}

fn warnings_to_diags(idx: &LineIndex, ws: &Vec<TypeWarning>) -> (r: Vec<CheckDiagnostic>)
    ensures
        diagnostics_view(r@) == warning_diagnostics(idx@, env::warnings_view(ws@)),
{
    let mut out: Vec<CheckDiagnostic> = Vec::new();
    let mut i: usize = 0;
    while i < ws.len()
        invariant
            i <= ws.len(),
            out.len() == i,
            forall|j: int|
                0 <= j < i ==> (#[trigger] out@[j])@ == diagnostic(
                    idx@,
                    ws@[j].span,
                    "warning"@,
                    ws@[j].message@,
                ),
        decreases ws.len() - i,
    {
        out.push(to_check_diag(idx, &ws[i].span, "warning", ws[i].message.as_str()));
        i = i + 1;
    }
    assert(diagnostics_view(out@) =~= warning_diagnostics(idx@, env::warnings_view(ws@)));
    out
}

fn parse_errors_to_diags(idx: &LineIndex, errs: &Vec<ParseError>) -> (r: Vec<CheckDiagnostic>)
    ensures
        diagnostics_view(r@) == parse_diagnostics(idx@, parser::parse_errors_view(errs@)),
{
    let mut out: Vec<CheckDiagnostic> = Vec::new();
    let mut i: usize = 0;
    while i < errs.len()
        invariant
            i <= errs.len(),
            out.len() == i,
            forall|j: int|
                0 <= j < i ==> (#[trigger] out@[j])@ == diagnostic(
                    idx@,
                    errs@[j].span,
                    "error"@,
                    errs@[j].message@,
                ),
        decreases errs.len() - i,
    {
        out.push(to_check_diag(idx, &errs[i].span, "error", errs[i].message.as_str()));
        i = i + 1;
    }
    assert(diagnostics_view(out@) =~= parse_diagnostics(idx@, parser::parse_errors_view(errs@)));
    out
}

fn symbol_to_word(k: SymbolKind) -> (r: &'static str)
    ensures
        r@ == symbol_word(k),
{
    match k {
        SymbolKind::Function => "function",
        SymbolKind::Constant => "constant",
        SymbolKind::Struct => "type",
        SymbolKind::Enum => "enum",
        SymbolKind::EnumMember => "variant",
        SymbolKind::Event => "exception",
        SymbolKind::Interface => "port",
        SymbolKind::Method => "method",
    }
}

fn to_check_symbol(s: &DocumentSymbol) -> (r: CheckSymbol)
    ensures
        r@ == check_symbol(s@),
{
    CheckSymbol {
        name: s.name.clone(),
        kind: symbol_to_word(s.kind),
        detail: copy_opt_text(&s.detail),
        range: s.range,
    }
}

fn to_check_symbols(v: &Vec<DocumentSymbol>) -> (r: Vec<CheckSymbol>)
    ensures
        check_symbols_view(r@) == symbols::symbols_view(v@).map_values(|s: SymbolV| check_symbol(s)),
{
    let mut out: Vec<CheckSymbol> = Vec::new();
    let mut i: usize = 0;
    while i < v.len()
        invariant
            i <= v.len(),
            out.len() == i,
            forall|j: int| 0 <= j < i ==> (#[trigger] out@[j])@ == check_symbol(v@[j]@),
        decreases v.len() - i,
    {
        out.push(to_check_symbol(&v[i]));
        i = i + 1;
    }
    assert(check_symbols_view(out@) =~= symbols::symbols_view(v@).map_values(
        |s: SymbolV| check_symbol(s),
    ));
    out
}

fn any_error(ds: &Vec<CheckDiagnostic>) -> (r: bool)
    ensures
        r == has_error(diagnostics_view(ds@)),
{
    let ghost dv = diagnostics_view(ds@);
    let mut i: usize = 0;
    while i < ds.len()
        invariant
            i <= ds.len(),
            dv == diagnostics_view(ds@),
            forall|j: int| 0 <= j < i ==> (#[trigger] dv[j]).severity != "error"@,
        decreases ds.len() - i,
    {
        assert(dv[i as int] == ds@[i as int]@);
        if str_eq(ds[i].severity, "error") {
            return true;
        }
        i = i + 1;
    }
    false
}

/// Checks what the parser made of a text.
pub fn analyze_parsed(
    filename: &str,
    line_index: LineIndex,
    parsed: Result<Program, Vec<ParseError>>,
    world: &World,
) -> (r: AnalysisResult)
    ensures
        match parsed {
            Ok(p) => r@ == analysis_of(filename@, line_index@, Ok(p@), world@),
            Err(errs) => r@ == analysis_of(
                filename@,
                line_index@,
                Err(parser::parse_errors_view(errs@)),
                world@,
            ),
        },
{
    match parsed {
        Ok(program) => {
            let doc_syms = extract(&program, &line_index);
            let symbols = to_check_symbols(&doc_syms);
            let mut checker = TypeChecker::new(&world.stdlib);
            let outcome = checker.check_program(&program, world);
            let warnings = checker.take_warnings();
            let mut diagnostics = warnings_to_diags(&line_index, &warnings);
            let env = match outcome {
                Ok(_) => Some(checker.env),
                Err(e) => {
                    let ghost before = diagnostics_view(diagnostics@);
                    let d = to_check_diag(&line_index, &e.span, "error", e.message.as_str());
                    let ghost dv = d@;
                    diagnostics.push(d);
                    assert(diagnostics_view(diagnostics@) =~= before.push(dv));
                    None
                },
            };
            let ok = !any_error(&diagnostics);
            AnalysisResult {
                check: CheckResult { file: owned(filename), ok, diagnostics, symbols },
                env,
                program: Some(program),
                line_index,
            }
        },
        Err(errs) => {
            let diagnostics = parse_errors_to_diags(&line_index, &errs);
            let ok = !any_error(&diagnostics);
            let symbols: Vec<CheckSymbol> = Vec::new();
            assert(check_symbols_view(symbols@) =~= Seq::<CheckSymbolV>::empty());
            AnalysisResult {
                check: CheckResult { file: owned(filename), ok, diagnostics, symbols },
                env: None,
                program: None,
                line_index,
            }
        },
    }
}

/// Parses and checks a source text against the modules that it can import.
pub fn analyze(filename: &str, source: &str, world: &World) -> (r: AnalysisResult)
    requires
        lexer::literals_fit(source@),
    ensures
        r@ == analysis_of(
            filename@,
            position::index_of_source(source@),
            parser::program_of(source@, lexer::classes(source@)),
            world@,
        ),
{
    let parsed = parser().parse(source);
    analyze_parsed(filename, LineIndex::new(source), parsed, world)
}

/// Parses and checks a source text; nothing where an integer literal does not fit a machine
/// integer.
pub fn analyze_checked(filename: &str, source: &str, world: &World) -> (r: Option<
    AnalysisResult,
>)
    ensures
        match r {
            Some(out) => {
                &&& lexer::literals_fit(source@)
                &&& out@ == analysis_of(
                    filename@,
                    position::index_of_source(source@),
                    parser::program_of(source@, lexer::classes(source@)),
                    world@,
                )
            },
            None => !lexer::literals_fit(source@),
        },
{
    match tokenize_checked(source) {
        Some(_) => Some(analyze(filename, source, world)),
        None => None,
    }
}

// ---------------------------------------------------------------------------
// Reports for an editor
// ---------------------------------------------------------------------------

/// How serious an editor takes a report.
#[derive(Debug, Clone, Copy, PartialEq, Eq, Structural)]
pub enum DiagnosticSeverity {
    Error,
    Warning,
}

/// A report as it is published to an editor.
#[derive(Debug)]
pub struct LspDiagnostic {
    pub range: CheckRange,
    pub severity: DiagnosticSeverity,
    pub source: String,
    pub message: String,
}

/// The model of a report as it is published.
pub struct PublishedV {
    pub range: CheckRange,
    pub severity: DiagnosticSeverity,
    pub source: Text,
    pub message: Text,
}

impl LspDiagnostic {
    /// The model of this report.
    pub open spec fn view(&self) -> PublishedV {
        PublishedV {
            range: self.range,
            severity: self.severity,
            source: self.source@,
            message: self.message@,
        }
    }
}

/// A report as it is published: what is not an error is a warning.
pub open spec fn published(d: DiagnosticV) -> PublishedV {
    PublishedV {
        range: d.range,
        severity: if d.severity == "error"@ {
            DiagnosticSeverity::Error
        } else {
            DiagnosticSeverity::Warning
        },
        source: "nexus"@,
        message: d.message,
    }
}

/// Turns a report into the one that is published.
pub fn to_lsp_diagnostic(d: &CheckDiagnostic) -> (r: LspDiagnostic)
    ensures
        r@ == published(d@),
{
    LspDiagnostic {
        range: d.range,
        severity: if str_eq(d.severity, "error") {
            DiagnosticSeverity::Error
        } else {
            DiagnosticSeverity::Warning
        },
        source: owned("nexus"),
        message: d.message.clone(),
    }
}

// ---------------------------------------------------------------------------
// Laws
// ---------------------------------------------------------------------------

/// A program is found in order exactly where the checker accepts it, and exactly then its
/// environment is kept.
pub proof fn law_ok_means_accepted(file: Text, ix: LineIndexV, p: ProgramV, w: WorldV)
    ensures
        analysis_of(file, ix, Ok(p), w).check.ok <==> checked_afresh(w, p).0 is Ok,
        analysis_of(file, ix, Ok(p), w).check.ok <==> analysis_of(file, ix, Ok(p), w).env is Some,
{
    reveal_strlit("error");
    reveal_strlit("warning");
    assert("error"@ != "warning"@) by {
        assert("error"@.len() != "warning"@.len());
    }
    let outcome = checked_afresh(w, p);
    let ws = warning_diagnostics(ix, outcome.1.warnings);
    let ds = check_diagnostics(ix, outcome);
    assert forall|i: int| 0 <= i < ws.len() implies (#[trigger] ws[i]).severity == "warning"@ by {}
    if outcome.0 is Err {
        assert(ds[ws.len() as int].severity == "error"@);
    }
}

/// A text that is not a program is never found in order.
pub proof fn law_malformed_is_not_ok(file: Text, ix: LineIndexV, errs: Seq<ParseErrorV>, w: WorldV)
    requires
        errs.len() > 0,
    ensures
        !analysis_of(file, ix, Err(errs), w).check.ok,
{
    let ds = parse_diagnostics(ix, errs);
    assert(ds[0].severity == "error"@);
}

} // verus!
