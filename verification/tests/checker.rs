use nexus::ast::Program;
use nexus::lexer::{tokenize, Token, TokenKind};
use nexus::parser::parse_tokens;
use nexus::typecheck::env::{generalize, mono_scheme, TypeEnv};
use nexus::typecheck::helpers::merge_type_rows;
use nexus::typecheck::program::{missing_sources, Source, TypeChecker, World};
use nexus::typecheck::render::type_to_text;
use nexus::typecheck::subst::{apply_subst_type, occurs_check};
use nexus::typecheck::unify::unify_types;
use nexus::types::Type;

/// A program whose words `export`, `throws`, `while` and `for` are keywords.
fn program(src: &str) -> Program {
    let mut tokens: Vec<Token> = tokenize(src).unwrap();
    for t in tokens.iter_mut() {
        let keyword = match &t.kind {
            TokenKind::Ident(w) if w == "export" => Some(TokenKind::Export),
            TokenKind::Ident(w) if w == "throws" => Some(TokenKind::Throws),
            TokenKind::Ident(w) if w == "while" => Some(TokenKind::While),
            TokenKind::Ident(w) if w == "for" => Some(TokenKind::For),
            _ => None,
        };
        if let Some(k) = keyword {
            t.kind = k;
        }
    }
    match parse_tokens(Ok(tokens)) {
        Ok(p) => p,
        Err(e) => panic!("{}", e[0].to_text()),
    }
}

fn check_in(world: &World, src: &str) -> Result<TypeChecker, String> {
    let mut c = TypeChecker::new(&vec![]);
    match c.check_program(&program(src), world) {
        Ok(()) => Ok(c),
        Err(e) => Err(e.message),
    }
}

fn check(src: &str) -> Result<TypeChecker, String> {
    check_in(&World { stdlib: vec![], sources: vec![] }, src)
}

fn accepted(src: &str) {
    if let Err(e) = check(src) {
        panic!("{}", e);
    }
}

fn refused(src: &str, message: &str) {
    match check(src) {
        Ok(_) => panic!("accepted: {}", src),
        Err(e) => assert_eq!(e, message),
    }
}

fn body_refused(body: &str, message: &str) {
    refused(&format!("let f = fn () -> unit do {} return () end", body), message);
}

fn body_accepted(body: &str) {
    accepted(&format!("let f = fn () -> unit do {} return () end", body));
}

fn warnings(src: &str) -> Vec<String> {
    match check(src) {
        Ok(mut c) => c.take_warnings().into_iter().map(|w| w.message).collect(),
        Err(e) => panic!("{}", e),
    }
}

fn var(n: &str) -> Type {
    Type::Var(n.to_string())
}

fn named(n: &str) -> Type {
    Type::UserDefined(n.to_string(), vec![])
}

// Expressions

#[test]
fn names_have_to_be_bound() {
    body_refused("let a = b", "Not found: b");
    body_refused("let a = g()", "Fn g not found");
    body_refused("let a = &b", "Not found");
    body_refused("let a = Unheard", "Unknown ctor Unheard");
    body_refused("~b <- 1", "Not found");
}

#[test]
fn operands_have_to_fit() {
    body_refused("let a = 1 + true", "Integer op expects i32/i64, got int literal and bool");
    body_refused("let a = 1 +. 2.0", "Float op expects f32/f64, got int literal and float literal");
    body_refused("let a = 1 == true", "Equality comparison expects matching types, got int literal and bool");
    body_refused("let a = true < false", "Ordered comparison expects i32/i64/char, got bool and bool");
    body_refused("let a = 1 <. 2.0", "Float comparison expects f32/f64, got int literal and float literal");
    body_accepted("let a = \"x\" ++ \"y\" let b = a == a && 1 < 2 || 2.0 >. 1.0");
}

#[test]
fn calls_have_to_fit() {
    let g = "let g = fn (n: i64) -> i64 do return n end\n";
    refused(
        &format!("{}let x = g()", g),
        "Arity mismatch in call to `g`: expected 1 arguments, got 0.\nExpected parameters: (n)\nProvided arguments: ()",
    );
    refused(&format!("{}let x = g(m: 1)", g), "Label mismatch: missing n");
    refused(&format!("{}let x = g(n: true)", g), "Mismatch: bool vs i64");
    accepted(&format!("{}let x = g(n: 1)", g));
}

#[test]
fn labels_may_come_in_any_order() {
    accepted("let g = fn (a: i64, b: bool) -> i64 do return a end\nlet x = g(b: true, a: 1)");
}

#[test]
fn constructors_have_to_be_complete() {
    let p = "type P = Pair(a: i64, b: i64)\n";
    refused(
        &format!("{}let x = Pair(1)", p),
        "Arity mismatch in constructor `Pair`: expected 2 arguments, got 1.\nExpected fields: #1 label `a`, #2 label `b`\nProvided arguments: #1 positional",
    );
    assert!(check(&format!("{}let x = Pair(a: 1, a: 2)", p))
        .err()
        .unwrap()
        .starts_with("Duplicate labeled argument `a` in constructor `Pair`."));
    assert!(check(&format!("{}let x = Pair(a: 1, c: 2)", p))
        .err()
        .unwrap()
        .starts_with("Unknown label `c` for constructor `Pair`."));
    assert!(check(&format!("{}let x = Pair(a: 1, b: true)", p))
        .err()
        .unwrap()
        .starts_with("Type mismatch in constructor `Pair` at #2 label `b`.\nDetails: Mismatch: "));
    accepted(&format!("{}let x = Pair(b: 1, 2)", p));
    assert!(check(&format!("{}let x = Pair(1, a: 2)", p))
        .err()
        .unwrap()
        .starts_with("Duplicate labeled argument `a` in constructor `Pair`."));
}

#[test]
fn records_and_their_fields() {
    let p = "type P = { x: i64 }\n";
    accepted(&format!("{}let f = fn (p: P) -> i64 do return p.x end", p));
    refused(
        &format!("{}let f = fn (p: P) -> i64 do return p.y end", p),
        "Field y not found",
    );
    accepted(&format!("{}let r: P = {{ x: 1 }}", p));
}

#[test]
fn arrays_and_lists() {
    let drop = "external drop = \"drop\": (x: %[| i64 |]) -> unit\n";
    accepted(&format!(
        "{}let f = fn () -> unit do let %a = [| 1, 2 |] drop(x: %a) return () end",
        drop
    ));
    body_refused("let %a = [| 1, 2 |] let b = a", "Variable a not found");
    body_accepted("let %a = [| 1, 2 |]");
    body_accepted("let l = [1, 2] let m = [l, l]");
    assert!(check("let f = fn () -> unit do let l = [1, true] return () end").is_err());
    body_refused("let a = 1 let b = &a let c = b[0]", "Indexing non-array");
    body_refused("1 <- 2", "Invalid assignment target");
    body_refused("let a = 1 a[0] <- 2", "Not an array");
}

// Statements

#[test]
fn mutable_bindings() {
    body_accepted("let ~n = 1 ~n <- 2");
    body_refused("let n = 1 n <- 2", "Mutating immutable");
    body_refused("let ~n = 1 ~n <- true", "Mismatch: bool vs i64");
    body_refused("let ~n = [| 1 |]", "Mutable linear");
    refused("let f = fn () -> ref(i64) do return 1 end", "Cannot return Ref");
}

#[test]
fn lambdas_and_what_they_capture() {
    body_refused(
        "let ~n = 1 let g = fn () -> i64 do return ~n end",
        "Lambda cannot capture Ref value '~n'",
    );
    body_refused(
        "let ~g = fn (n: i64) -> i64 do return g(n: n) end",
        "Recursive lambda binding must be immutable",
    );
    body_accepted("let g = fn (n: i64) -> i64 do return g(n: n) end");
    refused(
        "let f = fn () -> i64 do let a = 1 end",
        "Function body has no return statement; implicit return type is Unit",
    );
}

#[test]
fn linear_values_are_used_once() {
    let t = "type H = Handle(v: i64)\n";
    refused(
        &format!("{}let f = fn (h: %H) -> H do let a = h let b = h return a end", t),
        "Linear variable h already consumed",
    );
    refused(
        &format!("{}let f = fn (h: %H) -> unit do return () end", t),
        "Unused linear: [\"h\"]",
    );
    refused(
        &format!(
            "{}let f = fn (h: %H, c: bool) -> unit do if c then let x = h end return () end",
            t
        ),
        "Linear mismatch",
    );
}

#[test]
fn needless_linear_sigils_are_warned_of() {
    let w = warnings("let main = fn () -> unit do let %n: i64 = 1 return () end");
    assert_eq!(
        w,
        vec!["Linear sigil '%' on 'n' is unnecessary: primitive type 'I64' is automatically managed"]
    );
}

#[test]
fn exceptions_are_raised_and_caught() {
    let ex = "exception Oops(why: string)\n";
    accepted(&format!(
        "{}let f = fn () -> unit throws {{ Exn }} do raise Oops(why: \"x\") return () end",
        ex
    ));
    refused(
        &format!("{}let f = fn () -> unit do raise Oops(why: \"x\") return () end", ex),
        "raise requires 'Exn'",
    );
    accepted(&format!(
        "{}let f = fn () -> unit do try raise Oops(why: \"x\") catch e -> let a = 1 end return () end",
        ex
    ));
    refused(
        &format!("{}let main = fn () -> unit throws {{ Exn }} do return () end", ex),
        "main function must not declare Exn in throws",
    );
    refused("type Exn = A", "Reserved enum name 'Exn'; use 'exception ...' declarations");
}

#[test]
fn loops() {
    body_accepted("let ~n = 0 while ~n < 3 do ~n <- ~n + 1 end");
    body_accepted("for i = 0 to 3 do let a = i end");
    assert!(check("let f = fn () -> unit do while 1 do let a = 1 end return () end").is_err());
    assert!(check("let f = fn () -> unit do for i = true to 3 do let a = i end return () end").is_err());
}

#[test]
fn tasks() {
    body_accepted("conc do task t do let a = 1 end end");
    body_refused("let ~n = 1 conc do task t do let a = ~n end end", "Not found: ~n");
}

// Patterns

#[test]
fn patterns_have_to_fit() {
    let p = "type P = { x: i64, y: i64 }\ntype C = One(v: i64) | Two\n";
    let f = |body: &str| format!("{}let f = fn (p: P, c: C) -> i64 do {} end", p, body);
    accepted(&f("let { x: a, y: b } = p return a"));
    accepted(&f("let { x: a, _ } = p return a"));
    refused(&f("match p do case { x: a } -> return a end"), "Missing y");
    refused(&f("match p do case { z: a, _ } -> return a end"), "No field z");
    assert!(check(&f("let One(v: a) = c return a"))
        .err()
        .unwrap()
        .starts_with("Non-exhaustive destructuring pattern: "));
    accepted(&f("match c do case One(v: a) -> return a case Two -> return 0 end"));
    refused(
        &f("match c do case Two -> return 0 end"),
        "Non-exhaustive match: missing constructor `One`.",
    );
    assert!(check(&f("match c do case One(a, b) -> return a case Two -> return 0 end")).is_err());
    refused(
        &f("let n = match c do case One(v: a) -> a case Two -> true end return n"),
        "Match case type mismatch: all cases must produce the same type",
    );
}

#[test]
fn booleans_and_lists_are_covered() {
    accepted("let f = fn (b: bool) -> i64 do match b do case true -> return 1 case false -> return 0 end end");
    assert!(check("let f = fn (b: bool) -> i64 do match b do case true -> return 1 end end").is_err());
    accepted("let f = fn (l: [i64]) -> i64 do match l do case [] -> return 0 case Cons(v: a, rest: r) -> return a end end");
    assert!(check("let f = fn (l: [i64]) -> i64 do match l do case [] -> return 0 end end").is_err());
    assert!(check("let f = fn (n: i64) -> i64 do match n do case 0 -> return 0 end end").is_err());
}

// Ports and handlers

const PORT: &str = "port Log do fn put(m: string) -> unit end\n";

#[test]
fn coeffects_have_to_be_declared() {
    accepted(&format!(
        "{}let f = fn () -> unit require {{ Log }} do Log.put(m: \"x\") return () end",
        PORT
    ));
    refused(
        &format!("{}let f = fn () -> unit do Log.put(m: \"x\") return () end", PORT),
        "Call to 'Log.put' requires { Log }",
    );
}

#[test]
fn handlers_have_to_fit_their_port() {
    let good = "let h = handler Log do fn put(m: string) -> unit do return () end end\n";
    accepted(&format!("{}{}", PORT, good));
    refused(
        &format!("{}let h = handler Log do end", PORT),
        "Handler 'Log' is missing methods: put",
    );
    refused(
        &format!("{}let h = handler Log do fn get() -> unit do return () end end", PORT),
        "Handler 'Log.get' is not declared in port 'Log'",
    );
    assert!(check(&format!(
        "{}let h = handler Log do fn put(m: i64) -> unit do return () end end",
        PORT
    ))
    .err()
    .unwrap()
    .starts_with("Handler 'Log.put' signature mismatch: "));
    accepted(&format!(
        "{}{}let f = fn () -> unit do inject h do Log.put(m: \"x\") end return () end",
        PORT, good
    ));
    refused(
        &format!("{}{}let f = fn () -> unit do inject h do let a = 1 end return () end", PORT, good),
        "Inject handler(s) Log does not reduce requirements in this scope",
    );
    body_refused("inject h do let a = 1 end", "Handler 'h' not found in scope");
    body_refused(
        "let h = 1 inject h do let a = 1 end",
        "'h' is not a handler value (expected type 'handler <Port>')",
    );
}

// Definitions

#[test]
fn external_bindings_introduce_their_variables() {
    accepted("external id = \"id\": <T> (x: T) -> T");
    refused(
        "external id = \"id\": (x: T) -> T",
        "unintroduced type variable(s) in external binding: T. Add them as explicit type parameters, e.g. <T>",
    );
}

#[test]
fn public_definitions_expose_no_private_types() {
    refused(
        "type P = { x: i64 }\nexport let f = fn (p: P) -> i64 do return p.x end",
        "public definition 'f' exposes private type 'P'",
    );
    accepted("export type P = { x: i64 }\nexport let f = fn (p: P) -> i64 do return p.x end");
}

#[test]
fn warnings_name_what_is_not_needed() {
    assert_eq!(
        warnings("let f = fn () -> unit do return () end"),
        vec!["Private definition 'f' is never referenced"]
    );
    assert_eq!(
        warnings("let main = fn () -> unit do let a = 1 let _b = 2 return () end"),
        vec!["Unused local variable 'a' in function 'main'"]
    );
    assert_eq!(
        warnings(&format!("{}export let f = fn () -> unit require {{ Log }} do return () end", PORT)),
        vec!["Function 'f' declares reducible coeffects: Log"]
    );
    assert_eq!(
        warnings("export let f = fn () -> unit throws { Exn } do return () end"),
        vec!["Function 'f' declares reducible effects: Exn"]
    );
}

#[test]
fn the_rows_of_the_entry_point() {
    accepted("let main = fn () -> unit require { PermFs, PermNet } do return () end");
    refused(
        "let main = fn () -> unit require { Db } do return () end",
        "main function requires must be {}, or a subset of { PermFs, PermNet, PermConsole, PermRandom, PermClock, PermProc }",
    );
    refused(
        "let main = fn () -> unit throws { Odd } do return () end",
        "main function throws must be {}",
    );
}

// Imports

#[test]
fn modules_are_read_once_and_names_can_change() {
    let lib = || {
        program("export let one = 1\nexport type P = { x: i64 }\nexport type M = Good | Bad\nexport port Log do fn put(m: string) -> unit end")
    };
    let world = World {
        stdlib: vec![],
        sources: vec![("lib.nx".to_string(), Source::Parsed(lib()))],
    };
    let src = "import { one as eins, P, M, Log } from \"lib.nx\"\nimport { one } from \"lib.nx\"\nlet a = eins + one";
    let c = check_in(&world, src).unwrap_or_else(|e| panic!("{}", e));
    assert_eq!(c.visited_paths, vec!["lib.nx"]);
    assert!(c.env.get("eins").is_some());
    assert!(c.env.get("Good").is_some());
    assert!(c.env.get("Log.put").is_some());
    assert!(c.env.get_type("P").is_some());
    assert_eq!(
        check_in(&world, "import { two } from \"lib.nx\"").err().unwrap(),
        "Definition two not found in lib.nx"
    );
}

#[test]
fn modules_may_import_each_other() {
    let a = program("import * as b from \"b.nx\"\nexport let x = 1");
    let b = program("import * as a from \"a.nx\"\nexport let y = 2");
    let world = World {
        stdlib: vec![],
        sources: vec![
            ("a.nx".to_string(), Source::Parsed(a)),
            ("b.nx".to_string(), Source::Parsed(b)),
        ],
    };
    assert!(check_in(&world, "import * as a from \"a.nx\"\nlet z = a.x").is_err());
    assert!(check_in(&world, "import { x } from \"a.nx\"\nlet z = x").is_ok());
}

#[test]
fn opaque_types_keep_their_constructors() {
    let lib = program("export opaque type K = Key(v: i64)\nexport let make = fn () -> K do return Key(v: 1) end");
    let world = World {
        stdlib: vec![],
        sources: vec![("k.nx".to_string(), Source::Parsed(lib))],
    };
    assert!(check_in(&world, "import { K, make } from \"k.nx\"\nlet k = make()").is_ok());
    assert_eq!(
        check_in(&world, "import { K } from \"k.nx\"\nlet k = Key(v: 1)").err().unwrap(),
        "Unknown ctor Key"
    );
}

#[test]
fn external_modules_are_not_missing() {
    let p = program("import external \"host.wasm\"\nimport { a } from \"stdlib/a.nx\"");
    let world = World { stdlib: vec![], sources: vec![] };
    assert_eq!(missing_sources(&world, &p), vec!["nxlib/stdlib/a.nx"]);
}

// Types

fn unified(a: &Type, b: &Type) -> Result<Vec<(String, Type)>, String> {
    let mut supply: usize = 0;
    unify_types(&mut supply, &vec![], a, b, usize::MAX)
}

#[test]
fn unified_types_become_equal() {
    let a = Type::UserDefined("Map".to_string(), vec![var("k"), Type::Bool]);
    let b = Type::UserDefined("Map".to_string(), vec![Type::I64, var("v")]);
    let s = unified(&a, &b).unwrap();
    assert_eq!(apply_subst_type(&s, &a), apply_subst_type(&s, &b));
    assert_eq!(type_to_text(&apply_subst_type(&s, &a)), "Map<i64, bool>");
    assert!(unified(&a, &a).unwrap().is_empty());
}

#[test]
fn unifiers_bind_variables_of_the_two_types_once() {
    let pair = |a: Type, b: Type| Type::UserDefined("Pair".to_string(), vec![a, b]);
    let list = |t: Type| Type::UserDefined("List".to_string(), vec![t]);
    let a = pair(var("x"), pair(var("y"), var("x")));
    let b = pair(list(var("y")), pair(Type::Bool, var("z")));
    let s = unified(&a, &b).unwrap();
    let mut bound: Vec<&str> = s.iter().map(|e| e.0.as_str()).collect();
    bound.sort();
    assert_eq!(bound, vec!["x", "y", "z"]);
    for (_, t) in &s {
        for (name, _) in &s {
            assert!(!occurs_check(name, t));
        }
    }
    let whole = apply_subst_type(&s, &a);
    assert_eq!(whole, apply_subst_type(&s, &b));
    assert_eq!(apply_subst_type(&s, &whole), whole);
    assert_eq!(type_to_text(&whole), "Pair<List<bool>, Pair<bool, List<bool>>>");
}

#[test]
fn types_that_nothing_makes_equal_are_refused() {
    let pair = |a: Type, b: Type| Type::UserDefined("Pair".to_string(), vec![a, b]);
    assert_eq!(
        unified(&pair(var("x"), var("x")), &pair(Type::I64, Type::Bool)),
        Err("Mismatch: i64 vs bool".to_string())
    );
    assert_eq!(
        unified(&pair(var("x"), var("y")), &pair(Type::Ref(Box::new(var("y"))), var("x"))),
        Err("Recursive".to_string())
    );
    assert_eq!(
        unified(&pair(var("x"), var("y")), &Type::UserDefined("Pair".to_string(), vec![])),
        Err("Arity mismatch".to_string())
    );
}

#[test]
fn lazy_types_are_not_looked_into_for_variables() {
    let lazy = Type::Lazy(Box::new(var("a")));
    assert_eq!(unified(&var("a"), &lazy), Ok(vec![("a".to_string(), lazy)]));
}

#[test]
fn searches_are_cut_off_by_their_bound() {
    let mut supply: usize = 0;
    let nested = |t: Type| Type::Ref(Box::new(Type::Ref(Box::new(t))));
    let (a, b) = (nested(var("a")), nested(Type::I64));
    assert_eq!(
        unify_types(&mut supply, &vec![], &a, &b, 1),
        Err("Recursion limit".to_string())
    );
    assert_eq!(
        unify_types(&mut supply, &vec![], &a, &b, 6),
        Ok(vec![("a".to_string(), Type::I64)])
    );
}

#[test]
fn variables_do_not_hold_themselves() {
    assert!(unified(&var("a"), &Type::List(Box::new(var("a")))).is_err());
    assert_eq!(
        unified(&Type::I64, &Type::Bool),
        Err("Mismatch: i64 vs bool".to_string())
    );
}

#[test]
fn merged_rows_repeat_nothing() {
    let a = Type::Row(vec![named("A"), named("B")], None);
    let b = Type::Row(vec![named("B"), named("C")], None);
    assert_eq!(
        merge_type_rows(&a, &b),
        Type::Row(vec![named("A"), named("B"), named("C")], None)
    );
    let twice = Type::Row(vec![named("A"), named("A")], None);
    assert_eq!(merge_type_rows(&twice, &Type::Unit), Type::Row(vec![named("A")], None));
    assert_eq!(merge_type_rows(&twice, &twice), Type::Row(vec![named("A")], None));
    assert_eq!(merge_type_rows(&Type::Unit, &Type::Unit), Type::Unit);
    assert_eq!(merge_type_rows(&Type::I64, &twice), Type::I64);
}

#[test]
fn generalised_variables_are_not_free_around() {
    let mut env = TypeEnv::new();
    env.insert("x".to_string(), mono_scheme(var("a")));
    let s = generalize(&env, Type::Record(vec![
        ("l".to_string(), var("a")),
        ("m".to_string(), var("b")),
    ]));
    assert_eq!(s.vars, vec!["b"]);
}
