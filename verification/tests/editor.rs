use nexus::lexer::tokenize;
use nexus::lsp::analysis::{
    analyze, analyze_checked, to_lsp_diagnostic, AnalysisResult, CheckDiagnostic,
    DiagnosticSeverity,
};
use nexus::lsp::completion::{completions, keywords, CompletionKind};
use nexus::lsp::hover::{find_definition, find_ident_among, hover_at, hover_name};
use nexus::lsp::position::{CheckPosition, CheckRange};
use nexus::lsp::project::find_project_root;
use nexus::lsp::references::{find_all_references, references_among};
use nexus::lsp::server::{
    handle_notification, handle_request, update_document, DocumentState, Notification,
    RefusalKind, Reply, RequestParams,
};
use nexus::lsp::symbols::{extract, SymbolKind};
use nexus::lsp::uri::{hex_val, percent_decode, uri_to_filename};
use nexus::nxc_cache::{hash_line, hash_text, is_cache_valid, source_files};
use nexus::typecheck::program::World;

const SOURCE: &str = "type C = Red | Green\nlet one = 1\nlet f = fn (c: C) -> i64 do\n  let y = one\n  return y\nend\n";

fn world() -> World {
    World { stdlib: vec![], sources: vec![] }
}

fn analyzed(source: &str) -> AnalysisResult {
    analyze("f.nx", source, &world())
}

fn params(uri: &str, line: u32, character: u32) -> Result<RequestParams, String> {
    Ok(RequestParams {
        uri: uri.to_string(),
        position: CheckPosition { line, character },
        new_name: "two".to_string(),
    })
}

fn opened(source: &str) -> Vec<(String, DocumentState)> {
    let mut docs = vec![];
    let p = update_document(&mut docs, "file:///f.nx".to_string(), source.to_string(), &world());
    assert!(p.is_some());
    docs
}

// Analysis

#[test]
fn programs_in_order_are_ok() {
    let a = analyzed(SOURCE);
    assert!(a.check.ok);
    assert_eq!(a.check.file, "f.nx");
    assert!(a.env.is_some());
    assert!(a.program.is_some());
    assert_eq!(a.check.symbols.len(), 3);
    assert_eq!(a.check.symbols[0].kind, "enum");
    assert_eq!(a.check.symbols[1].kind, "constant");
    assert_eq!(a.check.symbols[2].kind, "function");
    assert_eq!(a.line_index.line_count(), 7);
}

#[test]
fn type_errors_are_reported_with_their_range() {
    let a = analyzed("let a = 1\nlet x: bool = 42");
    assert!(!a.check.ok);
    assert!(a.env.is_none());
    assert!(a.program.is_some());
    let d = &a.check.diagnostics[a.check.diagnostics.len() - 1];
    assert_eq!(d.severity, "error");
    assert_eq!(d.range.start.line, 1);
}

#[test]
fn parse_errors_are_reported() {
    let a = analyzed("let");
    assert!(!a.check.ok);
    assert!(a.program.is_none());
    assert_eq!(a.check.symbols.len(), 0);
    assert_eq!(a.check.diagnostics.len(), 1);
}

#[test]
fn analysis_notices_numbers_that_do_not_fit() {
    assert!(analyze_checked("f.nx", "let a = 99999999999999999999", &world()).is_none());
    assert!(analyze_checked("f.nx", "let a = 9", &world()).is_some());
}

#[test]
fn reports_for_an_editor() {
    let zero = CheckPosition { line: 0, character: 0 };
    let range = CheckRange { start: zero, end: zero };
    let e = CheckDiagnostic { range, severity: "error", message: "m".to_string() };
    let w = CheckDiagnostic { range, severity: "warning", message: "m".to_string() };
    assert_eq!(to_lsp_diagnostic(&e).severity, DiagnosticSeverity::Error);
    assert_eq!(to_lsp_diagnostic(&w).severity, DiagnosticSeverity::Warning);
    assert_eq!(to_lsp_diagnostic(&e).source, "nexus");
    assert_eq!(to_lsp_diagnostic(&e).message, "m");
}

// Symbols

#[test]
fn symbols_have_details_and_children() {
    let src = "type P<T> = { x: T }\nport Log do\n  fn put(m: string) -> unit\nend\nexception Oops\nlet a: i64 = 1\nimport external \"x\"";
    let a = analyzed(src);
    let p = a.program.unwrap();
    let s = extract(&p, &a.line_index);
    assert_eq!(s.len(), 4);
    assert_eq!(s[0].kind, SymbolKind::Struct);
    assert_eq!(s[0].detail, Some("<T>".to_string()));
    assert_eq!(s[1].kind, SymbolKind::Interface);
    let methods = s[1].children.as_ref().unwrap();
    assert_eq!(methods[0].name, "put");
    assert_eq!(methods[0].detail, Some("(m: string) -> unit".to_string()));
    assert_eq!(s[2].kind, SymbolKind::Event);
    assert_eq!(s[3].detail, Some("i64".to_string()));
    assert_eq!(s[3].range.start.line, 5);
}

// Names under a cursor

#[test]
fn names_are_found_inside_and_behind() {
    let toks = tokenize("ab + cd").unwrap();
    assert_eq!(find_ident_among(&toks, 0), Some("ab".to_string()));
    assert_eq!(find_ident_among(&toks, 2), Some("ab".to_string()));
    assert_eq!(find_ident_among(&toks, 3), None);
    assert_eq!(find_ident_among(&toks, 7), Some("cd".to_string()));
}

#[test]
fn hover_shows_types() {
    let a = analyzed(SOURCE);
    let (p, env) = (a.program.unwrap(), a.env.unwrap());
    assert_eq!(
        hover_at(SOURCE, 25, &p, &env),
        Some("```nexus\none: i64\n```".to_string())
    );
    assert_eq!(
        hover_name("C", &p, &env),
        Some("```nexus\nenum C\n  | Red\n  | Green\nend\n```".to_string())
    );
    assert_eq!(hover_name("nothing", &p, &env), None);
}

#[test]
fn hover_shows_definitions() {
    let src = "type P = { x: i64 }\ntype W<T> = Some2(v: T) | None2";
    let a = analyzed(src);
    let (p, env) = (a.program.unwrap(), a.env.unwrap());
    assert_eq!(
        hover_name("P", &p, &env),
        Some("```nexus\ntype P\n  x: i64\nend\n```".to_string())
    );
    assert!(hover_name("W", &p, &env).unwrap().contains("enum W<T>\n  | Some2(v: "));
}

#[test]
fn definitions_are_found() {
    let a = analyzed(SOURCE);
    let p = a.program.unwrap();
    let one = find_definition(&p, SOURCE, SOURCE.find("= one").unwrap() + 2).unwrap();
    assert_eq!(one.start, 21);
    let local = find_definition(&p, SOURCE, SOURCE.find("return y").unwrap() + 7).unwrap();
    assert_eq!(local.start, SOURCE.find("let y").unwrap());
    let variant = find_definition(&p, SOURCE, SOURCE.find("Green").unwrap()).unwrap();
    assert_eq!(variant.start, 0);
    assert!(find_definition(&p, SOURCE, SOURCE.find("i64").unwrap()).is_none());
}

#[test]
fn references_are_all_occurrences() {
    let (name, origin, places) = find_all_references("a b a c a", 4).unwrap();
    assert_eq!(name, "a");
    assert_eq!((origin.start, origin.end), (4, 5));
    assert_eq!(places.len(), 3);
    assert_eq!((places[2].start, places[2].end), (8, 9));
    assert!(find_all_references("1 + 2", 0).is_none());
    let toks = tokenize("x y").unwrap();
    assert!(references_among(&toks, 2).is_some());
}

// Completion

#[test]
fn completions_offer_keywords_and_bindings() {
    let none = completions(None);
    assert_eq!(none.len(), keywords().len());
    assert_eq!(none.len(), 32);
    assert_eq!(none[0].label, "let");
    assert_eq!(none[0].kind, CompletionKind::Keyword);
    let a = analyzed(SOURCE);
    let env = a.env.unwrap();
    let all = completions(Some(&env));
    assert!(all.iter().any(|c| c.label == "f" && c.kind == CompletionKind::Function));
    assert!(all.iter().any(|c| c.label == "one" && c.detail == Some("i64".to_string())));
    assert!(all.iter().any(|c| c.label == "C" && c.kind == CompletionKind::Enum));
    assert!(all.iter().any(|c| c.label == "Red" && c.kind == CompletionKind::EnumMember));
    assert!(!all.iter().any(|c| c.label.starts_with("__")));
}

// Addresses

#[test]
fn addresses_become_file_names() {
    assert_eq!(uri_to_filename("file:///a%20b.nx"), "/a b.nx");
    assert_eq!(uri_to_filename("untitled:1"), "untitled:1");
    assert_eq!(percent_decode("%41%zz%4"), "A");
    assert_eq!(percent_decode("%e4x"), "\u{e4}x");
    assert_eq!(hex_val(b'F'), Some(15));
    assert_eq!(hex_val(b'g'), None);
}

#[test]
fn the_nearest_root_is_found() {
    let up = vec![
        ("/r/a/f.nx".to_string(), true),
        ("/r/a".to_string(), false),
        ("/r".to_string(), true),
        ("/".to_string(), true),
    ];
    assert_eq!(find_project_root(true, &up), Some("/r".to_string()));
    assert_eq!(find_project_root(false, &up), Some("/r/a/f.nx".to_string()));
    assert_eq!(find_project_root(true, &vec![]), None);
}

// Requests

#[test]
fn requests_are_answered_from_the_last_text() {
    let mut docs = opened(SOURCE);
    let r = handle_request(&docs, "textDocument/hover", params("file:///f.nx", 1, 4));
    assert!(matches!(r, Reply::Hover(Some(ref t)) if t.contains("one: i64")));
    update_document(
        &mut docs,
        "file:///f.nx".to_string(),
        "let one = true".to_string(),
        &world(),
    );
    assert_eq!(docs.len(), 1);
    let r = handle_request(&docs, "textDocument/hover", params("file:///f.nx", 0, 4));
    assert!(matches!(r, Reply::Hover(Some(ref t)) if t.contains("one: bool")));
}

#[test]
fn every_request_has_its_reply() {
    let docs = opened(SOURCE);
    let uri = "file:///f.nx";
    let r = handle_request(&docs, "textDocument/documentSymbol", params(uri, 0, 0));
    assert!(matches!(r, Reply::Symbols(Some(ref s)) if s.len() == 3));
    let r = handle_request(&docs, "textDocument/definition", params(uri, 3, 10));
    assert!(matches!(r, Reply::Definition(Some(range)) if range.start.line == 1));
    let r = handle_request(&docs, "textDocument/references", params(uri, 1, 4));
    assert!(matches!(r, Reply::References(Some(ref v)) if v.len() == 2));
    let r = handle_request(&docs, "textDocument/rename", params(uri, 1, 4));
    assert!(matches!(r, Reply::Rename(Some(ref v)) if v.len() == 2 && v[1].1 == "two"));
    let r = handle_request(&docs, "textDocument/prepareRename", params(uri, 1, 4));
    assert!(matches!(r, Reply::PrepareRename(Some((_, ref n))) if n == "one"));
    let r = handle_request(&docs, "textDocument/completion", params(uri, 1, 4));
    assert!(matches!(r, Reply::Completions(ref v) if v.len() > 32));
}

#[test]
fn a_renaming_hits_the_name_behind_other_letters() {
    let source = "let größe = 1\nlet a = \"é\" let b = größe\n";
    let docs = opened(source);
    let r = handle_request(&docs, "textDocument/rename", params("file:///f.nx", 0, 5));
    let Reply::Rename(Some(edits)) = r else { panic!("no renaming") };
    let lines: Vec<&str> = source.split('\n').collect();
    assert_eq!(edits.len(), 2);
    for (range, new_name) in edits {
        assert_eq!(range.start.line, range.end.line);
        let line = lines[range.start.line as usize];
        let (from, to) = (range.start.character as usize, range.end.character as usize);
        assert_eq!(&line[from..to], "größe");
        assert_eq!(new_name, "two");
    }
}

#[test]
fn documents_that_are_not_open_give_nothing() {
    let docs = opened(SOURCE);
    let uri = "file:///g.nx";
    let r = handle_request(&docs, "textDocument/hover", params(uri, 0, 0));
    assert!(matches!(r, Reply::Hover(None)));
    let r = handle_request(&docs, "textDocument/completion", params(uri, 0, 0));
    assert!(matches!(r, Reply::Completions(ref v) if v.is_empty()));
}

#[test]
fn requests_are_refused_with_a_reason() {
    let docs = opened(SOURCE);
    let r = handle_request(&docs, "textDocument/foo", params("file:///f.nx", 0, 0));
    assert!(matches!(
        r,
        Reply::Refused(RefusalKind::MethodNotFound, ref m) if m == "method not found: textDocument/foo"
    ));
    let r = handle_request(&docs, "textDocument/hover", Err("missing field".to_string()));
    assert!(matches!(
        r,
        Reply::Refused(RefusalKind::InvalidParams, ref m) if m == "missing field"
    ));
}

#[test]
fn notifications_keep_the_documents() {
    let mut docs = vec![];
    let uri = || "file:///f.nx".to_string();
    let open = Notification::Opened { uri: uri(), text: "let a: bool = 1".to_string() };
    let p = handle_notification(&mut docs, open, &world()).unwrap();
    assert_eq!(p.uri, uri());
    assert_eq!(p.diagnostics.len(), 1);
    let change = Notification::Changed {
        uri: uri(),
        texts: vec!["let".to_string(), "let a = 1".to_string()],
    };
    let p = handle_notification(&mut docs, change, &world()).unwrap();
    assert!(p.diagnostics.iter().all(|d| d.severity == DiagnosticSeverity::Warning));
    let nothing = Notification::Changed { uri: uri(), texts: vec![] };
    assert!(handle_notification(&mut docs, nothing, &world()).is_none());
    assert!(handle_notification(&mut docs, Notification::Other, &world()).is_none());
    let big = Notification::Opened { uri: uri(), text: "99999999999999999999".to_string() };
    assert!(handle_notification(&mut docs, big, &world()).is_none());
    assert_eq!(docs.len(), 1);
    let close = Notification::Closed { uri: uri() };
    let p = handle_notification(&mut docs, close, &world()).unwrap();
    assert!(p.diagnostics.is_empty());
    assert!(docs.is_empty());
}

// The cache of the compiler driver

#[test]
fn cached_builds_follow_the_hash() {
    assert_eq!(hash_text(0xAB), "00000000000000ab");
    assert_eq!(hash_line("ab"), "ab\n");
    assert!(is_cache_valid(true, &Some("00ab\n".to_string()), "00ab"));
    assert!(!is_cache_valid(true, &Some("00ac\n".to_string()), "00ab"));
    assert!(!is_cache_valid(false, &Some("00ab\n".to_string()), "00ab"));
    assert!(!is_cache_valid(true, &None, "00ab"));
    for written in [0, 1, 0xAB, u64::MAX] {
        for hash in [0, 1, 0xAB, u64::MAX] {
            let line = Some(hash_line(&hash_text(written)));
            assert_eq!(is_cache_valid(true, &line, &hash_text(hash)), written == hash);
        }
    }
}

#[test]
fn sources_are_told_by_their_extension() {
    let paths = vec![
        "nxc/b.nx".to_string(),
        "nxc/a.nx".to_string(),
        "nxc/.nx".to_string(),
        "nxc/x.nx/readme".to_string(),
    ];
    assert_eq!(source_files(&paths), vec!["nxc/a.nx", "nxc/b.nx"]);
}

#[test]
fn sources_stand_in_the_order_of_their_parts() {
    let paths: Vec<String> =
        ["r/a.nx", "r/a/c.nx", "r/a-b/x.nx", "r/a/b.nx", "r/b.nx", "r/a/b/z.nx"]
            .iter()
            .map(|p| p.to_string())
            .collect();
    assert_eq!(
        source_files(&paths),
        vec!["r/a/b/z.nx", "r/a/b.nx", "r/a/c.nx", "r/a-b/x.nx", "r/a.nx", "r/b.nx"]
    );
}
