use nexus::ast::{Expr, Program, Stmt, TopLevel};
use nexus::parser::{parse, parse_checked, parser, stmt_parser};
use nexus::stdlib::{
    is_nx_name, list_stdlib_nx_paths, load_stdlib_nx_programs, load_stdlib_nx_programs_checked,
    load_stdlib_once, resolve_import_path,
};
use nexus::text::sort_texts;
use nexus::typecheck::env::{mono_scheme, Scheme, TypeEnv, TypeError};
use nexus::typecheck::helpers::{exn_enum_def, list_enum_def};
use nexus::typecheck::program::{missing_sources, Source, TypeChecker, World};
use nexus::typecheck::render::type_to_text;
use nexus::typecheck::subst::{
    apply_subst_type, compose_subst, get_free_vars_type, occurs_check,
};
use nexus::types::{BinaryOp, Span, Type};

fn empty_world() -> World {
    World { stdlib: vec![], sources: vec![] }
}

fn program(src: &str) -> Program {
    match parse(src) {
        Ok(p) => p,
        Err(e) => panic!("{}", e[0].to_text()),
    }
}

fn check(src: &str) -> Result<TypeChecker, String> {
    let p = program(src);
    let mut c = TypeChecker::new(&vec![]);
    match c.check_program(&p, &empty_world()) {
        Ok(()) => Ok(c),
        Err(e) => Err(e.message),
    }
}

fn refusal(src: &str) -> String {
    match check(src) {
        Ok(_) => panic!("accepted: {}", src),
        Err(e) => e,
    }
}

fn type_of(src: &str, name: &str) -> String {
    match check(src) {
        Ok(c) => type_to_text(&c.env.get(name).unwrap().typ),
        Err(e) => panic!("{}", e),
    }
}

fn var(n: &str) -> Type {
    Type::Var(n.to_string())
}

// Parsing

#[test]
fn definitions_have_their_spans() {
    let p = program("let a = 1\nlet b = 2");
    assert_eq!(p.definitions.len(), 2);
    assert_eq!((p.definitions[0].span.start, p.definitions[0].span.end), (0, 9));
    assert_eq!((p.definitions[1].span.start, p.definitions[1].span.end), (10, 19));
}

#[test]
fn operators_bind_by_precedence() {
    let p = program("let a = 1 + 2 * 3");
    let TopLevel::Let(gl) = &p.definitions[0].node else { panic!("no binding") };
    let Expr::BinaryOp(l, op, r) = &gl.value.node else { panic!("no operation") };
    assert_eq!(*op, BinaryOp::Add);
    assert!(matches!(l.node, Expr::Literal(_)));
    assert!(matches!(&r.node, Expr::BinaryOp(_, BinaryOp::Mul, _)));
}

#[test]
fn operators_of_one_level_group_to_the_left() {
    let p = program("let a = 1 - 2 - 3");
    let TopLevel::Let(gl) = &p.definitions[0].node else { panic!("no binding") };
    let Expr::BinaryOp(l, BinaryOp::Sub, _) = &gl.value.node else { panic!("no operation") };
    assert!(matches!(&l.node, Expr::BinaryOp(_, BinaryOp::Sub, _)));
}

#[test]
fn an_if_with_two_branches_is_a_match() {
    let p = program("let f = fn (c: bool) -> i64 do if c then return 1 else return 2 end end");
    let TopLevel::Let(gl) = &p.definitions[0].node else { panic!("no binding") };
    let Expr::Lambda { body, .. } = &gl.value.node else { panic!("no function") };
    let Stmt::Expr(e) = &body[0].node else { panic!("no expression") };
    let Expr::Match { cases, .. } = &e.node else { panic!("no match") };
    assert_eq!(cases.len(), 2);
}

#[test]
fn sum_types_and_records_are_told_apart() {
    let p = program("type P = { x: i64 }\ntype C = Red | Rgb(r: i64, g: i64, b: i64)");
    assert!(matches!(&p.definitions[0].node, TopLevel::TypeDef(d) if d.fields.len() == 1));
    assert!(matches!(&p.definitions[1].node, TopLevel::Enum(d) if d.variants.len() == 2));
}

#[test]
fn parse_errors_name_what_was_expected() {
    let errs = parser().parse("let = 1").unwrap_err();
    assert_eq!(errs.len(), 1);
    assert!(errs[0].message.starts_with("expected identifier"));
    let errs = parse("1").unwrap_err();
    assert!(errs[0].message.starts_with("expected top-level definition"));
    let errs = parse("let f = fn () -> unit do end").unwrap_err();
    assert_eq!(errs[0].message, "Function body cannot be empty");
}

#[test]
fn reserved_words_are_no_names() {
    let errs = parse("let throws = 1").unwrap_err();
    assert_eq!(errs[0].message, "Keyword 'throws' is reserved");
}

#[test]
fn lexer_reports_come_through_the_parser() {
    let errs = parse("let a = @ #").unwrap_err();
    assert_eq!(errs.len(), 2);
    assert_eq!(errs[0].message, "unexpected character '@'");
    assert_eq!(errs[0].to_text(), "Parse error at 8..9: unexpected character '@'");
}

#[test]
fn numbers_that_do_not_fit_are_noticed_before_parsing() {
    assert!(parse_checked("let a = 99999999999999999999").is_none());
    assert!(parser().parse_checked("let a = 1").is_some());
    assert!(stmt_parser().parse_checked("let a = 1").is_some());
}

#[test]
fn statements_are_read_at_a_prompt() {
    let s = stmt_parser().parse("let y = 5").unwrap();
    assert!(matches!(&s.node, Stmt::Let { name, .. } if name == "y"));
}

// Checking

#[test]
fn integers_default_to_sixty_four_bits() {
    assert_eq!(type_of("let x = 42", "x"), "i64");
    assert_eq!(type_of("let x: i32 = 42", "x"), "i32");
    assert_eq!(type_of("let x = \"a\"", "x"), "string");
}

#[test]
fn functions_get_the_types_they_declare() {
    let src = "let f = fn (a: i64, b: bool) -> string do return \"x\" end";
    assert!(type_of(src, "f").starts_with("(a: i64, b: bool) -> string"));
}

#[test]
fn mismatches_are_refused() {
    assert!(refusal("let x: bool = 42").contains("Mismatch"));
    assert!(refusal("let f = fn () -> i64 do return true end").contains("Mismatch"));
    assert!(check("let f = fn () -> i64 do return y end").is_err());
    assert!(check("let f = fn () -> i64 do return g() end").is_err());
}

#[test]
fn linear_values_have_to_be_consumed() {
    let src = "type Box = { v: i64 }\nlet f = fn (x: %Box) -> unit do return () end";
    assert_eq!(refusal(src), "Unused linear: [\"x\"]");
}

#[test]
fn linear_values_that_can_be_dropped_may_stay() {
    assert!(check("let f = fn (x: %string) -> unit do return () end").is_ok());
}

#[test]
fn matches_have_to_cover_every_constructor() {
    let all = "type C = Red | Green\nlet f = fn (c: C) -> i64 do match c do case Red -> return 1 case Green -> return 2 end end";
    assert!(check(all).is_ok());
    let some = "type C = Red | Green\nlet f = fn (c: C) -> i64 do match c do case Red -> return 1 end end";
    assert!(refusal(some).contains("missing constructor `Green`"));
    let wild = "type C = Red | Green\nlet f = fn (c: C) -> i64 do match c do case Red -> return 1 case _ -> return 2 end end";
    assert!(check(wild).is_ok());
}

#[test]
fn the_entry_point_has_its_shapes() {
    assert!(check("let main = fn () -> unit do return () end").is_ok());
    assert!(check("let main = fn (args: [string]) -> unit do return () end").is_ok());
    assert_eq!(
        refusal("let main = fn () -> i64 do return 1 end"),
        "main must be '() -> unit' or '(args: [string]) -> unit'"
    );
}

#[test]
fn a_public_entry_point_is_refused() {
    let mut p = program("let main = fn () -> unit do return () end");
    if let TopLevel::Let(gl) = &mut p.definitions[0].node {
        gl.is_public = true;
    }
    let mut c = TypeChecker::new_without_stdlib();
    let e = c.check_program(&p, &empty_world()).unwrap_err();
    assert_eq!(e.message, "main function must be private (remove 'pub')");
}

fn library() -> Program {
    let mut p = program("let twice = fn (n: i64) -> i64 do return n + n end");
    if let TopLevel::Let(gl) = &mut p.definitions[0].node {
        gl.is_public = true;
    }
    p
}

#[test]
fn imported_names_can_be_used() {
    let p = program("import { twice } from \"lib.nx\"\nlet x = twice(n: 4)");
    assert_eq!(missing_sources(&empty_world(), &p), vec!["lib.nx"]);
    let world = World {
        stdlib: vec![],
        sources: vec![("lib.nx".to_string(), Source::Parsed(library()))],
    };
    assert!(missing_sources(&world, &p).is_empty());
    let mut c = TypeChecker::new(&vec![]);
    assert!(c.check_program(&p, &world).is_ok());
    assert_eq!(type_to_text(&c.env.get("x").unwrap().typ), "i64");
}

#[test]
fn modules_can_have_a_name() {
    let p = program("import * as m from \"lib.nx\"\nlet x = m.twice(n: 4)");
    let world = World {
        stdlib: vec![],
        sources: vec![("lib.nx".to_string(), Source::Parsed(library()))],
    };
    let mut c = TypeChecker::new(&vec![]);
    assert!(c.check_program(&p, &world).is_ok());
    assert!(c.env.get("m.twice").is_some());
}

#[test]
fn imports_that_cannot_be_read_are_refused() {
    let p = program("import * as m from \"stdlib/a.nx\"");
    let mut c = TypeChecker::new(&vec![]);
    let e = c.check_program(&p, &empty_world()).unwrap_err();
    assert_eq!(e.message, "Failed to read nxlib/stdlib/a.nx: no such module");
    let world = World {
        stdlib: vec![],
        sources: vec![("nxlib/stdlib/a.nx".to_string(), Source::Malformed)],
    };
    let mut c = TypeChecker::new(&vec![]);
    let e = c.check_program(&p, &world).unwrap_err();
    assert_eq!(e.message, "Failed to parse stdlib/a.nx");
}

#[test]
fn the_standard_library_brings_types_alone() {
    let mut p = program("type Pair = { a: i64 }\ntype Mood = Good | Bad\nlet f = fn () -> i64 do return 1 end");
    for d in p.definitions.iter_mut() {
        match &mut d.node {
            TopLevel::TypeDef(t) => t.is_public = true,
            TopLevel::Enum(e) => e.is_public = true,
            TopLevel::Let(l) => l.is_public = true,
            _ => {}
        }
    }
    let c = TypeChecker::new(&vec![p]);
    assert!(c.env.get_type("Pair").is_some());
    assert!(c.env.get_enum("Mood").is_some());
    assert!(c.env.get("Good").is_some());
    assert!(c.env.get("f").is_none());
}

#[test]
fn statements_at_a_prompt_keep_their_bindings() {
    let mut c = TypeChecker::new_without_stdlib();
    let s = stmt_parser().parse("let y = 5").unwrap();
    assert_eq!(type_to_text(&c.check_repl_stmt(&s).unwrap()), "unit");
    let t = stmt_parser().parse("y + 1").unwrap();
    assert_eq!(type_to_text(&c.check_repl_stmt(&t).unwrap()), "i64");
    assert!(c.take_warnings().is_empty());
}

// Environments

#[test]
fn linear_bindings_are_consumed_once() {
    let mut env = TypeEnv::new();
    env.insert("h".to_string(), mono_scheme(Type::Linear(Box::new(var("T")))));
    assert!(env.check_unused_linear(&Span { start: 0, end: 1 }).is_err());
    assert_eq!(env.consume("h"), Ok(()));
    assert_eq!(env.consume("h"), Err("Linear variable h already consumed".to_string()));
    assert!(env.check_unused_linear(&Span { start: 0, end: 1 }).is_ok());
    assert_eq!(env.consume("z"), Err("Variable z not found".to_string()));
}

#[test]
fn linear_bindings_answer_to_their_sigil() {
    let mut env = TypeEnv::new();
    env.insert("h".to_string(), mono_scheme(Type::Linear(Box::new(Type::I64))));
    assert!(env.get("%h").is_some());
    assert_eq!(env.consume("%h"), Ok(()));
}

#[test]
fn linear_data_is_found_inside_types() {
    let env = TypeEnv::new();
    assert!(env.contains_linear_type(&Type::Linear(Box::new(Type::I64))));
    assert!(env.contains_linear_type(&Type::Record(vec![(
        "a".to_string(),
        Type::Array(Box::new(Type::I64))
    )])));
    assert!(!env.contains_linear_type(&Type::List(Box::new(Type::I64))));
    assert!(env.contains_linear_type(&Type::List(Box::new(Type::Linear(Box::new(Type::I64))))));
    assert!(env.contains_linear_type(&Type::Ref(Box::new(Type::List(Box::new(Type::Lazy(
        Box::new(Type::I64)
    )))))));
}

#[test]
fn substitutions_enter_lazy_types() {
    let s = vec![("a".to_string(), Type::I64)];
    let lazy = |t: Type| Type::Lazy(Box::new(t));
    assert_eq!(apply_subst_type(&s, &lazy(var("a"))), lazy(Type::I64));
    assert_eq!(apply_subst_type(&s, &lazy(lazy(var("b")))), lazy(lazy(var("b"))));
    assert!(!occurs_check("a", &lazy(var("a"))));
    assert!(occurs_check("a", &Type::List(Box::new(var("a")))));
    assert!(get_free_vars_type(&lazy(var("a"))).is_empty());
    assert_eq!(get_free_vars_type(&Type::List(Box::new(var("a")))), vec!["a"]);
}

#[test]
fn substitutions_apply_and_compose() {
    let s1 = vec![("a".to_string(), Type::List(Box::new(var("b"))))];
    let s2 = vec![("b".to_string(), Type::I64)];
    let t = Type::Ref(Box::new(var("a")));
    let step = apply_subst_type(&s2, &apply_subst_type(&s1, &t));
    let both = apply_subst_type(&compose_subst(&s1, &s2), &t);
    assert_eq!(step, both);
    assert_eq!(type_to_text(&both), "ref([i64])");
    assert_eq!(apply_subst_type(&vec![], &t), t);
    let mut env = TypeEnv::new();
    env.insert("x".to_string(), Scheme { vars: vec![], typ: var("b") });
    env.apply(&s2);
    assert_eq!(env.get("x").unwrap().typ, Type::I64);
}

#[test]
fn builtin_sum_types() {
    let list = list_enum_def();
    assert_eq!(list.name, "List");
    assert_eq!(list.variants.len(), 2);
    assert_eq!(exn_enum_def().name, "Exn");
}

#[test]
fn errors_carry_labels() {
    let span = Span { start: 1, end: 2 };
    let e = TypeError::new("no".to_string(), span).with_labels(vec![(span, "here".to_string())]);
    assert_eq!(e.message, "no");
    assert_eq!(e.labels.len(), 1);
    let plain = TypeError::from(("no".to_string(), span));
    assert_eq!(plain.message, "no");
    assert!(plain.labels.is_empty());
}

// The standard library

#[test]
fn import_paths_are_resolved() {
    assert_eq!(resolve_import_path("stdlib/io.nx"), "nxlib/stdlib/io.nx");
    assert_eq!(resolve_import_path("a/stdlib/io.nx"), "a/stdlib/io.nx");
}

#[test]
fn stdlib_sources_are_listed_in_order() {
    let listing = Ok(vec![
        Ok("b.nx".to_string()),
        Ok("readme.md".to_string()),
        Ok(".nx".to_string()),
        Ok("a.nx".to_string()),
    ]);
    assert_eq!(
        list_stdlib_nx_paths(listing),
        Ok(vec!["nxlib/stdlib/a.nx".to_string(), "nxlib/stdlib/b.nx".to_string()])
    );
    assert_eq!(
        list_stdlib_nx_paths(Err("gone".to_string())),
        Err("Failed to read nxlib/stdlib: gone".to_string())
    );
    assert_eq!(
        list_stdlib_nx_paths(Ok(vec![Ok("a.nx".to_string()), Err("bad".to_string())])),
        Err("Failed to read nxlib/stdlib entry: bad".to_string())
    );
    assert!(is_nx_name("a.nx"));
    assert!(!is_nx_name("a.nxx"));
}

#[test]
fn stdlib_sources_are_loaded() {
    let good = vec![("a.nx".to_string(), Ok("let a = 1".to_string()))];
    assert_eq!(load_stdlib_nx_programs(&good).unwrap().len(), 1);
    let unread = vec![("a.nx".to_string(), Err("denied".to_string()))];
    assert_eq!(
        load_stdlib_nx_programs(&unread).unwrap_err(),
        "Failed to read a.nx: denied"
    );
    let broken = vec![("a.nx".to_string(), Ok("let \"q\"".to_string()))];
    let e = load_stdlib_nx_programs(&broken).unwrap_err();
    assert!(e.starts_with("Failed to parse a.nx: [ParseError { message: \"expected identifier"));
    assert!(e.ends_with(", span: 4..7 }]"));
    let big = vec![("a.nx".to_string(), Ok("let a = 99999999999999999999".to_string()))];
    assert!(load_stdlib_nx_programs_checked(&big).is_none());
    assert!(load_stdlib_nx_programs_checked(&good).is_some());
}

#[test]
fn stdlib_is_loaded_until_that_succeeds() {
    let entry = |name: &str| -> Result<String, String> { Ok(name.to_string()) };
    let text = |src: &str| -> Result<String, String> { Ok(src.to_string()) };
    let mut kept = None;
    assert_eq!(
        load_stdlib_once(&mut kept, Err("gone".to_string()), &vec![]).unwrap().unwrap_err(),
        "Failed to read nxlib/stdlib: gone"
    );
    let denied = vec![Err("denied".to_string())];
    assert_eq!(
        load_stdlib_once(&mut kept, Ok(vec![entry("a.nx")]), &denied).unwrap().unwrap_err(),
        "Failed to read nxlib/stdlib/a.nx: denied"
    );
    let broken = vec![text("let \"q\"")];
    assert!(load_stdlib_once(&mut kept, Ok(vec![entry("a.nx")]), &broken).unwrap().is_err());
    let big = vec![text("let a = 99999999999999999999")];
    assert!(load_stdlib_once(&mut kept, Ok(vec![entry("a.nx")]), &big).is_none());
    assert!(kept.is_none());

    let listing = vec![entry("b.nx"), entry("readme"), entry("a.nx")];
    let contents = vec![text("let x = 1\nlet y = 2"), text("let z = 3")];
    let first = load_stdlib_once(&mut kept, Ok(listing), &contents).unwrap().unwrap();
    let shape = |loaded: &Vec<(String, Program)>| -> Vec<(String, usize)> {
        loaded.iter().map(|(place, p)| (place.clone(), p.definitions.len())).collect()
    };
    let expected =
        vec![("nxlib/stdlib/a.nx".to_string(), 2), ("nxlib/stdlib/b.nx".to_string(), 1)];
    assert_eq!(shape(&first), expected);
    assert!(kept.is_some());
    let later = load_stdlib_once(&mut kept, Err("gone".to_string()), &vec![]).unwrap().unwrap();
    assert_eq!(shape(&later), expected);
    let empty = load_stdlib_once(&mut kept, Ok(vec![]), &vec![]).unwrap().unwrap();
    assert_eq!(shape(&empty), expected);
}

#[test]
fn stdlib_sources_behind_a_failure_are_not_parsed() {
    let files = vec![
        ("a.nx".to_string(), Err("denied".to_string())),
        ("b.nx".to_string(), Ok("let a = 99999999999999999999".to_string())),
    ];
    assert_eq!(
        load_stdlib_nx_programs_checked(&files).unwrap().unwrap_err(),
        "Failed to read a.nx: denied"
    );
}

#[test]
fn environments_hold_a_key_once() {
    let mut env = TypeEnv::new();
    let linear = || mono_scheme(Type::Linear(Box::new(Type::I64)));
    env.insert("x".to_string(), linear());
    env.insert("x".to_string(), linear());
    env.insert("y".to_string(), linear());
    assert_eq!(env.vars.len(), 2);
    assert_eq!(env.linear_vars, vec!["x", "y"]);
    assert_eq!(env.consume("x"), Ok(()));
    assert_eq!(env.linear_vars, vec!["y"]);
    assert!(env.consume("x").is_err());
    let mut c = TypeChecker::new(&vec![]);
    let world = World { stdlib: vec![], sources: vec![] };
    let twice = parse("type T = { a: i64 }\ntype T = { b: bool }").unwrap();
    assert!(c.check_program(&twice, &world).is_ok());
    let names: Vec<&str> = c.env.types.iter().map(|e| e.0.as_str()).collect();
    assert_eq!(names.iter().filter(|n| **n == "T").count(), 1);
}

#[test]
fn texts_are_sorted_by_code_points() {
    let v = vec!["b".to_string(), "ab".to_string(), "a".to_string(), "Z".to_string()];
    assert_eq!(sort_texts(&v), vec!["Z", "a", "ab", "b"]);
}
