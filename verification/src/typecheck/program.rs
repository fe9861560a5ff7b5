//! Checking a program: its imports, its declarations, its bindings, and its entry point.

use crate::ast;
use crate::ast::{
    Expr, ExprV, GlobalLet, GlobalLetV, Import, ImportV, Program, ProgramV, Stmt, StmtV, TopLevel,
    TopLevelV, TypeDef, TypeDefV,
};
use crate::parser::cursor::Parsed;
use crate::stdlib;
use crate::stdlib::resolve_import_path;
use crate::table;
use crate::table::find_key;
use crate::text;
use crate::text::{Text, cat2, cat4, cat5, copy_texts, list_add, list_has, owned, str_eq, to_set};
use crate::typecheck::env;
use crate::typecheck::env::{
    EnvV, Scheme, SchemeV, TypeEnv, TypeError, TypeErrorV, TypeWarning, TypeWarningV, copy_modules,
    copy_typedefs, find_module, generalize, put_enum, put_module, put_typedef,
};
use crate::typecheck::helpers;
use crate::typecheck::helpers::{
    contains_exn_throws, default_numeric_literals, exn_enum_def, get_default_alias,
    is_allowed_main_require_signature, is_allowed_main_throws_signature, list_enum_def,
    make_empty_row, normalize_typedef_generic_params,
};
use crate::typecheck::infer;
use crate::typecheck::lint;
use crate::typecheck::lint::{
    check_missing_requirements, collect_lint_warnings, find_private_type_in_public_signature,
};
use crate::typecheck::modules;
use crate::typecheck::modules::{
    add_missing, add_own_enum, add_port, check_unintroduced_type_vars, export_definitions,
    external_scheme, import_items, register_exception_variant,
    register_nullary_variant_constructor, register_stdlib_types, reserved_enum_error,
};
use crate::typecheck::rules;
use crate::typecheck::rules::make_lambda_type;
use crate::typecheck::state;
use crate::typecheck::state::{Cx, Expect, ExpectV, Infer, St};
use crate::typecheck::subst;
use crate::typecheck::subst::{SubstV, apply_subst_type};
use crate::types;
use crate::types::{Span, Spanned, Type, TypeV};
use vstd::prelude::*;

verus! {

// ---------------------------------------------------------------------------
// Modules that can be imported
// ---------------------------------------------------------------------------

/// What stands at the place of a module.
pub enum Source {
    /// It cannot be read, for the given reason.
    Unreadable(String),
    /// It cannot be parsed.
    Malformed,
    /// Its program.
    Parsed(Program),
}

/// The model of what stands at the place of a module.
pub enum SourceV {
    Unreadable(Text),
    Malformed,
    Parsed(ProgramV),
}

impl Source {
    /// The model of this source.
    pub open spec fn view(&self) -> SourceV {
        match self {
            Source::Unreadable(m) => SourceV::Unreadable(m@),
            Source::Malformed => SourceV::Malformed,
            Source::Parsed(p) => SourceV::Parsed(p@),
        }
    }
}

/// The modules that a program can import, by place, and the programs of the standard library.
pub struct World {
    pub stdlib: Vec<Program>,
    pub sources: Vec<(String, Source)>,
}

/// The model of the modules that a program can import.
pub struct WorldV {
    pub stdlib: Seq<ProgramV>,
    pub sources: Seq<(Text, SourceV)>,
}

/// The models of a table of sources.
pub open spec fn sources_view(v: Seq<(String, Source)>) -> Seq<(Text, SourceV)> {
    v.map_values(|e: (String, Source)| (e.0@, e.1@))
}

impl World {
    /// The model of these modules.
    pub open spec fn view(&self) -> WorldV {
        WorldV { stdlib: modules::programs_view(self.stdlib@), sources: sources_view(self.sources@) }
    }
}

/// The source at a place. A place that the table does not have cannot be read.
pub open spec fn source_at(w: WorldV, place: Text) -> SourceV {
    match table::lookup(w.sources, place) {
        Some(s) => s,
        None => SourceV::Unreadable("no such module"@),
    }
}

/// Places from index `i` on of modules that a program imports and a table does not have,
/// behind those of `acc`.
pub open spec fn missing_places(
    w: WorldV,
    acc: Seq<Text>,
    defs: Seq<Spanned<TopLevelV>>,
    i: nat,
) -> Seq<Text>
    decreases defs.len() - i,
{
    if i >= defs.len() {
        acc
    } else {
        match defs[i as int].node {
            TopLevelV::Import(im) => {
                let place = stdlib::resolved_path(im.path);
                if im.is_external || table::has_key(w.sources, place) {
                    missing_places(w, acc, defs, i + 1)
                } else {
                    missing_places(w, text::with_text(acc, place), defs, i + 1)
                }
            },
            _ => missing_places(w, acc, defs, i + 1),
        }
    }
}

/// The places of the modules that a program imports and that are not there yet.
pub fn missing_sources(world: &World, program: &Program) -> (r: Vec<String>)
    ensures
        text::texts(r@) == missing_places(world@, Seq::empty(), program@.definitions, 0),
{
    let ghost defs = program@.definitions;
    let mut acc: Vec<String> = Vec::new();
    assert(text::texts(acc@) =~= Seq::<Text>::empty());
    let mut i: usize = 0;
    while i < program.definitions.len()
        invariant
            i <= program.definitions.len(),
            defs == ast::definitions_view(program.definitions@),
            missing_places(world@, text::texts(acc@), defs, i as nat) == missing_places(
                world@,
                Seq::empty(),
                defs,
                0,
            ),
        decreases program.definitions.len() - i,
    {
        assert(defs[i as int] == program.definitions@[i as int]@);
        match &program.definitions[i].node {
            TopLevel::Import(im) => {
                if !im.is_external {
                    let place = resolve_import_path(im.path.as_str());
                    if find_source(&world.sources, place.as_str()).is_none() {
                        list_add(&mut acc, place);
                    }
                }
            },
            _ => {},
        }
        i = i + 1;
    }
    acc
}

fn find_source<'a>(m: &'a Vec<(String, Source)>, k: &str) -> (r: Option<&'a Source>)
    ensures
        match r {
            Some(x) => table::lookup(sources_view(m@), k@) == Some(x@),
            None => table::lookup(sources_view(m@), k@) is None,
        },
        r is Some == table::has_key(sources_view(m@), k@),
{
    assert(table::keys_of(sources_view(m@)) =~= table::raw_keys(m@));
    match find_key(m, k) {
        Some(i) => Some(&m[i].1),
        None => None,
    }
}

// ---------------------------------------------------------------------------
// The checker
// ---------------------------------------------------------------------------

/// A type checker: its environment, the modules it has seen, and what it has to report.
pub struct TypeChecker {
    pub supply: usize,
    pub env: TypeEnv,
    pub visited_paths: Vec<String>,
    pub import_cache: Vec<(String, TypeEnv)>,
    pub warnings: Vec<TypeWarning>,
    /// The record types that unification looks at.
    pub type_defs: Vec<(String, TypeDef)>,
}

/// The model of a type checker.
pub struct CheckerV {
    pub supply: usize,
    pub env: EnvV,
    pub visited: Seq<Text>,
    pub cache: Seq<(Text, EnvV)>,
    pub warnings: Seq<TypeWarningV>,
    pub defs: Seq<(Text, TypeDefV)>,
}

impl TypeChecker {
    /// The model of this checker.
    pub open spec fn view(&self) -> CheckerV {
        CheckerV {
            supply: self.supply,
            env: self.env@,
            visited: text::texts(self.visited_paths@),
            cache: env::modules_view(self.import_cache@),
            warnings: env::warnings_view(self.warnings@),
            defs: env::typedefs_view(self.type_defs@),
        }
    }
}

/// Whether each table of a checker holds a key at most once.
pub open spec fn checker_apart(c: CheckerV) -> bool {
    &&& env::keys_apart(c.env)
    &&& c.visited.no_duplicates()
    &&& env::module_table_apart(c.cache)
    &&& table::distinct_keys(c.defs)
}

/// Whether a checker still holds each key at most once where an earlier one did.
pub open spec fn checker_kept(before: CheckerV, after: CheckerV) -> bool {
    checker_apart(before) ==> checker_apart(after)
}

/// A checker that knows exceptions and lists alone.
pub open spec fn core_checker() -> CheckerV {
    let e1 = EnvV {
        enums: table::store(
            table::store(env::empty_env().enums, helpers::exn_name(), helpers::exn_enum()),
            "List"@,
            helpers::list_enum(),
        ),
        ..env::empty_env()
    };
    let e2 = modules::with_nullary(e1, "List"@, seq!["T"@], helpers::list_enum().variants[0]);
    CheckerV {
        supply: 0,
        env: EnvV { linear_vars: Seq::empty(), ..e2 },
        visited: Seq::empty(),
        cache: Seq::empty(),
        warnings: Seq::empty(),
        defs: e2.types,
    }
}

/// A checker that knows the types of the standard library too.
pub open spec fn fresh_checker(stdlib: Seq<ProgramV>) -> CheckerV {
    let c = core_checker();
    CheckerV { env: modules::with_stdlib_types(c.env, stdlib, 0), ..c }
}

/// The definitions that inference reads in a checker.
pub open spec fn checker_cx(c: CheckerV) -> Cx {
    Cx { defs: c.defs, cache: c.cache }
}

/// What inference changes in a checker.
pub open spec fn checker_st(c: CheckerV) -> St {
    St { supply: c.supply, warnings: c.warnings, env: c.env }
}

/// A checker after inference.
pub open spec fn with_st(c: CheckerV, st: St) -> CheckerV {
    CheckerV { supply: st.supply, warnings: st.warnings, env: st.env, ..c }
}

// ---------------------------------------------------------------------------
// Declarations
// ---------------------------------------------------------------------------

/// A checker that has seen the declaration of a binding: a function is known by its signature
/// before its body is checked.
pub open spec fn let_declared(c: CheckerV, gl: GlobalLetV) -> (Result<(), TypeErrorV>, CheckerV) {
    match gl.value.node {
        ExprV::Lambda { type_params, params, ret_type, requires: reqs, throws, body } => {
            let sch = SchemeV {
                vars: type_params,
                typ: rules::lambda_type(type_params, params, ret_type, reqs, throws, false),
            };
            (Ok(()), CheckerV { env: env::env_insert(c.env, gl.name, sch), ..c })
        },
        ExprV::External(_, type_params, t) => {
            let names = modules::unintroduced(c.env, text::distinct_texts(type_params), t);
            if names.len() > 0 {
                (Err(env::error_at(modules::unintroduced_message(names), gl.value.span)), c)
            } else {
                (
                    Ok(()),
                    CheckerV {
                        env: env::env_insert(c.env, gl.name, modules::external_binding(type_params, t)),
                        ..c
                    },
                )
            }
        },
        _ => (Ok(()), c),
    }
}

/// A checker after an import whose public environment is known: its names, and its alias.
pub open spec fn import_bound(c: CheckerV, im: ImportV, pe: EnvV, span: Span) -> (
    Result<(), TypeErrorV>,
    CheckerV,
) {
    let (r, env, defs) = modules::items_imported(c.env, c.defs, pe, im.items, 0, im.path, span);
    (r, CheckerV { env, defs, ..c })
}

/// A checker in which a module has a name.
pub open spec fn module_bound(c: CheckerV, im: ImportV, pe: EnvV) -> CheckerV {
    if im.alias is Some || im.items.len() == 0 {
        let alias = match im.alias {
            Some(a) => a,
            None => helpers::default_alias(im.path),
        };
        CheckerV { env: EnvV { modules: table::store(c.env.modules, alias, pe), ..c.env }, ..c }
    } else {
        c
    }
}

/// A declaration that is not an import.
pub open spec fn plain_declared(c: CheckerV, def: Spanned<TopLevelV>) -> (
    Result<(), TypeErrorV>,
    CheckerV,
) {
    match def.node {
        TopLevelV::TypeDef(td) => {
            let n = helpers::normalized_typedef(td);
            (
                Ok(()),
                CheckerV {
                    defs: table::store(c.defs, n.name, n),
                    env: EnvV { types: table::store(c.env.types, n.name, n), ..c.env },
                    ..c
                },
            )
        },
        TopLevelV::Enum(ed) => {
            if ed.name == helpers::exn_name() {
                (Err(modules::reserved_enum(def.span)), c)
            } else {
                (Ok(()), CheckerV { env: modules::with_own_enum(c.env, ed), ..c })
            }
        },
        TopLevelV::Exception(ex) => (
            Ok(()),
            CheckerV { env: modules::with_exception(c.env, ex), ..c },
        ),
        TopLevelV::Port(port) => (
            Ok(()),
            CheckerV { env: modules::with_port(c.env, port.name, port.functions, 0), ..c },
        ),
        TopLevelV::Let(gl) => let_declared(c, gl),
        TopLevelV::Import(_) => (Ok(()), c),
    }
}

// ---------------------------------------------------------------------------
// Bindings
// ---------------------------------------------------------------------------

/// The shapes of the entry point: without arguments, or with a list of strings.
pub open spec fn main_shape(with_args: bool, req: TypeV, eff: TypeV) -> TypeV {
    TypeV::Arrow(
        if with_args {
            seq![("args"@, TypeV::List(Box::new(TypeV::String)))]
        } else {
            Seq::empty()
        },
        Box::new(TypeV::Unit),
        Box::new(req),
        Box::new(eff),
    )
}

/// The rows of the entry point: only the permissions of the runtime, and no effects.
pub open spec fn main_rows_error(req: TypeV, eff: TypeV, span: Span) -> Option<TypeErrorV> {
    if !helpers::main_may_require(req) {
        Some(
            env::error_at(
                "main function requires must be {}, or a subset of { PermFs, PermNet, PermConsole, PermRandom, PermClock, PermProc }"@,
                span,
            ),
        )
    } else if helpers::has_effect(helpers::exn_name(), eff) {
        Some(env::error_at("main function must not declare Exn in throws"@, span))
    } else if !helpers::main_may_throw(eff) {
        Some(env::error_at("main function throws must be {}"@, span))
    } else {
        None
    }
}

/// The entry point, of type `t`.
#[verifier::opaque]
pub open spec fn main_rule(cx: Cx, st: St, is_public: bool, t: TypeV, span: Span) -> (
    Result<(), TypeErrorV>,
    St,
) {
    if is_public {
        (Err(env::error_at("main function must be private (remove 'pub')"@, span)), st)
    } else {
        let (req0, st1) = state::fresh(st);
        let (eff0, st2) = state::fresh(st1);
        let (r, st3): (Result<(TypeV, TypeV), TypeErrorV>, St) = match state::st_unify(
            cx,
            st2,
            t,
            main_shape(false, req0, eff0),
        ) {
            (Ok(sm), sta) => (Ok((subst::substituted(sm, req0), subst::substituted(sm, eff0))), sta),
            (Err(_), sta) => {
                let (req1, stb) = state::fresh(sta);
                let (eff1, stc) = state::fresh(stb);
                match state::st_unify(cx, stc, t, main_shape(true, req1, eff1)) {
                    (Ok(sm), std) => (
                        Ok((subst::substituted(sm, req1), subst::substituted(sm, eff1))),
                        std,
                    ),
                    (Err(_), std) => (
                        Err(
                            env::error_at(
                                "main must be '() -> unit' or '(args: [string]) -> unit'"@,
                                span,
                            ),
                        ),
                        std,
                    ),
                }
            },
        };
        match r {
            Err(e) => (Err(e), st3),
            Ok((req, eff)) => match main_rows_error(req, eff, span) {
                Some(e) => (Err(e), st3),
                None => (Ok(()), st3),
            },
        }
    }
}

/// The type of a binding whose value has the type `t0` under `s`, against its annotation.
#[verifier::opaque]
pub open spec fn annotated(
    cx: Cx,
    st: St,
    ann: Option<TypeV>,
    s: SubstV,
    t0: TypeV,
    span: Span,
) -> (Result<TypeV, TypeErrorV>, St) {
    let t = subst::substituted(s, t0);
    match ann {
        Some(a) => match state::st_unify_at(cx, st, t, a, span) {
            (Err(e), st1) => (Err(e), st1),
            (Ok(sa), st1) => (Ok(subst::substituted(sa, a)), st1),
        },
        None => (Ok(helpers::defaulted(t)), st),
    }
}

/// A binding at the top level: its value is inferred, the entry point has one of its shapes,
/// and a public one exposes no private type.
pub open spec fn let_checked(c: CheckerV, gl: GlobalLetV, span: Span) -> (
    Result<(), TypeErrorV>,
    CheckerV,
) {
    let cx = checker_cx(c);
    let (v, st0) = state::fresh(checker_st(c));
    match infer::inferred(
        cx,
        st0,
        gl.value,
        (ExpectV { ret: TypeV::Unit, reqs: helpers::empty_row(), effs: v }),
    ) {
        (Err(e), st1) => (Err(e), with_st(c, st1)),
        (Ok((s, t0)), st1) => match annotated(cx, st1, gl.typ, s, t0, gl.value.span) {
            (Err(e), st2) => (Err(e), with_st(c, st2)),
            (Ok(t), st2) => {
                let (r, st3) = if gl.name == lint::entrypoint() {
                    main_rule(cx, st2, gl.is_public, t, span)
                } else {
                    (Ok(()), st2)
                };
                match r {
                    Err(e) => (Err(e), with_st(c, st3)),
                    Ok(()) => match exposed_type(gl, st3.env, t, span) {
                        Some(e) => (Err(e), with_st(c, st3)),
                        None => (
                            Ok(()),
                            with_st(
                                c,
                                state::with_env(
                                    st3,
                                    env::env_insert(st3.env, gl.name, env::generalized(st3.env, t)),
                                ),
                            ),
                        ),
                    },
                }
            },
        },
    }
}

/// The error for a public binding whose type names a private one.
pub open spec fn exposed_type(gl: GlobalLetV, env: EnvV, t: TypeV, span: Span) -> Option<
    TypeErrorV,
> {
    if gl.is_public {
        match lint::private_type(env, t) {
            Some(n) => Some(
                env::error_at(
                    "public definition '"@ + gl.name + "' exposes private type '"@ + n + "'"@,
                    span,
                ),
            ),
            None => None,
        }
    } else {
        None
    }
}

/// The bindings among the definitions from index `i` on; external ones have their types
/// already.
pub open spec fn lets_checked(c: CheckerV, defs: Seq<Spanned<TopLevelV>>, i: nat) -> (
    Result<(), TypeErrorV>,
    CheckerV,
)
    decreases defs.len() - i,
{
    if i >= defs.len() {
        (Ok(()), c)
    } else {
        match defs[i as int].node {
            TopLevelV::Let(gl) => {
                if gl.value.node is External {
                    lets_checked(c, defs, i + 1)
                } else {
                    match let_checked(c, gl, defs[i as int].span) {
                        (Err(e), c1) => (Err(e), c1),
                        (Ok(()), c1) => lets_checked(c1, defs, i + 1),
                    }
                }
            },
            _ => lets_checked(c, defs, i + 1),
        }
    }
}

/// What follows the declarations of a program: its bindings, the coeffects that they use, and
/// what else there is to warn of.
pub open spec fn bindings_checked(c: CheckerV, defs: Seq<Spanned<TopLevelV>>) -> (
    Result<(), TypeErrorV>,
    CheckerV,
) {
    let c0 = CheckerV { env: EnvV { linear_vars: Seq::empty(), ..c.env }, ..c };
    match lets_checked(c0, defs, 0) {
        (Err(e), c1) => (Err(e), c1),
        (Ok(()), c1) => match lint::missing_requirements(c1.env, defs, 0) {
            Some(e) => (Err(e), c1),
            None => (
                Ok(()),
                CheckerV { warnings: lint::lint_warnings(c1.warnings, c1.env, defs), ..c1 },
            ),
        },
    }
}

// ---------------------------------------------------------------------------
// Programs
// ---------------------------------------------------------------------------

/// A program: the outcome of its check, and the checker after it. `depth` bounds how deep
/// imports nest.
pub open spec fn program_checked(w: WorldV, c: CheckerV, p: ProgramV, depth: nat) -> (
    Result<(), TypeErrorV>,
    CheckerV,
)
    decreases depth, p.definitions.len() + 2,
{
    let c0 = CheckerV { warnings: Seq::empty(), ..c };
    match declarations_checked(w, c0, p.definitions, 0, depth) {
        (Err(e), c1) => (Err(e), c1),
        (Ok(()), c1) => bindings_checked(c1, p.definitions),
    }
}

/// The declarations from index `i` on.
pub open spec fn declarations_checked(
    w: WorldV,
    c: CheckerV,
    defs: Seq<Spanned<TopLevelV>>,
    i: nat,
    depth: nat,
) -> (Result<(), TypeErrorV>, CheckerV)
    decreases depth, defs.len() - i + 1,
{
    if i >= defs.len() {
        (Ok(()), c)
    } else {
        let (r, c1) = match defs[i as int].node {
            TopLevelV::Import(im) => import_checked(w, c, im, defs[i as int].span, depth),
            _ => plain_declared(c, defs[i as int]),
        };
        match r {
            Err(e) => (Err(e), c1),
            Ok(()) => declarations_checked(w, c1, defs, i + 1, depth),
        }
    }
}

/// An import. A module is checked once, by a checker of its own; after that its public
/// environment is at hand.
pub open spec fn import_checked(w: WorldV, c: CheckerV, im: ImportV, span: Span, depth: nat) -> (
    Result<(), TypeErrorV>,
    CheckerV,
)
    decreases depth, 0int,
{
    if im.is_external {
        (Ok(()), c)
    } else if text::has_text(c.visited, im.path) {
        match table::lookup(c.cache, im.path) {
            Some(pe) => import_bound(c, im, pe, span),
            None => (Ok(()), c),
        }
    } else {
        let c1 = CheckerV { visited: text::with_text(c.visited, im.path), ..c };
        let place = stdlib::resolved_path(im.path);
        match source_at(w, place) {
            SourceV::Unreadable(m) => (
                Err(env::error_at("Failed to read "@ + place + ": "@ + m, span)),
                c1,
            ),
            SourceV::Malformed => (Err(env::error_at("Failed to parse "@ + im.path, span)), c1),
            SourceV::Parsed(p) => {
                if depth == 0 {
                    (Err(env::error_at("Imports nest too deep"@, span)), c1)
                } else {
                    let sub0 = CheckerV {
                        visited: c1.visited,
                        cache: c1.cache,
                        ..fresh_checker(w.stdlib)
                    };
                    match program_checked(w, sub0, p, (depth - 1) as nat) {
                        (Err(e), _) => (Err(e), c1),
                        (Ok(()), sub) => match modules::exported(
                            sub.env,
                            env::empty_env(),
                            p.definitions,
                            0,
                        ) {
                            Err(e) => (Err(e), c1),
                            Ok(pe) => {
                                let c2 = CheckerV {
                                    visited: sub.visited,
                                    cache: table::store(
                                        modules::with_missing(c1.cache, sub.cache, 0),
                                        im.path,
                                        pe,
                                    ),
                                    ..c1
                                };
                                match import_bound(c2, im, pe, span) {
                                    (Err(e), c3) => (Err(e), c3),
                                    (Ok(()), c3) => (Ok(()), module_bound(c3, im, pe)),
                                }
                            },
                        },
                    }
                }
            },
        }
    }
}

/// A statement at the prompt: its type, and the checker after it.
pub open spec fn repl_checked(c: CheckerV, s: Spanned<StmtV>) -> (
    Result<TypeV, TypeErrorV>,
    CheckerV,
) {
    let cx = checker_cx(c);
    let (ev, sta) = state::fresh(checker_st(c));
    let (rq, stb) = state::fresh(sta);
    let x = ExpectV { ret: TypeV::Unit, reqs: rq, effs: ev };
    match s.node {
        StmtV::Expr(e) => match infer::inferred(cx, stb, e, x) {
            (Err(er), st1) => (Err(er), with_st(c, st1)),
            (Ok((sub, t)), st1) => (
                Ok(helpers::defaulted(subst::substituted(sub, t))),
                with_st(c, state::with_env(st1, env::env_apply(sub, st1.env))),
            ),
        },
        _ => match infer::stmt_inferred(cx, stb, s, x) {
            (Err(er), st1) => (Err(er), with_st(c, st1)),
            (Ok(()), st1) => (Ok(TypeV::Unit), with_st(c, st1)),
        },
    }
}

impl<'a> Infer<'a> {
    fn check_main_rows(&self, req: &Type, eff: &Type, span: &Span) -> (r: Result<(), TypeError>)
        ensures
            match r {
                Ok(()) => main_rows_error(req@, eff@, *span) is None,
                Err(e) => main_rows_error(req@, eff@, *span) == Some(e@),
            },
    {
        if !is_allowed_main_require_signature(req) {
            return Err(
                TypeError::new(
                    owned(
                        "main function requires must be {}, or a subset of { PermFs, PermNet, PermConsole, PermRandom, PermClock, PermProc }",
                    ),
                    *span,
                ),
            );
        }
        if contains_exn_throws(eff) {
            return Err(
                TypeError::new(owned("main function must not declare Exn in throws"), *span),
            );
        }
        if !is_allowed_main_throws_signature(eff) {
            return Err(TypeError::new(owned("main function throws must be {}"), *span));
        }
        Ok(())
    }

    /// Checks the entry point.
    fn check_main(
        &mut self,
        is_public: bool,
        t: &Type,
        span: &Span,
        Ghost(env): Ghost<EnvV>,
    ) -> (r: Result<(), TypeError>)
        ensures
            state::unit_matches(
                r,
                main_rule(old(self).cx(), old(self).st(env), is_public, t@, *span).0,
            ),
            final(self).st(env) == main_rule(
                old(self).cx(),
                old(self).st(env),
                is_public,
                t@,
                *span,
            ).1,
            final(self).cx() == old(self).cx(),
    {
        proof {
            reveal(main_rule);
        }
        if is_public {
            return Err(
                TypeError::new(owned("main function must be private (remove 'pub')"), *span),
            );
        }
        let req0 = self.new_var();
        let eff0 = self.new_var();
        let shape0 = make_main_shape(false, &req0, &eff0);
        match self.unify(t, &shape0) {
            Ok(sm) => {
                let req = apply_subst_type(&sm, &req0);
                let eff = apply_subst_type(&sm, &eff0);
                self.check_main_rows(&req, &eff, span)
            },
            Err(_) => {
                let req1 = self.new_var();
                let eff1 = self.new_var();
                let shape1 = make_main_shape(true, &req1, &eff1);
                match self.unify(t, &shape1) {
                    Ok(sm) => {
                        let req = apply_subst_type(&sm, &req1);
                        let eff = apply_subst_type(&sm, &eff1);
                        self.check_main_rows(&req, &eff, span)
                    },
                    Err(_) => Err(
                        TypeError::new(
                            owned("main must be '() -> unit' or '(args: [string]) -> unit'"),
                            *span,
                        ),
                    ),
                }
            },
        }
    }

    fn annotate(
        &mut self,
        ann: &Option<Type>,
        s: &Vec<(String, Type)>,
        t0: &Type,
        span: &Span,
        Ghost(env): Ghost<EnvV>,
    ) -> (r: Result<Type, TypeError>)
        ensures
            match r {
                Ok(t) => annotated(
                    old(self).cx(),
                    old(self).st(env),
                    ast::opt_type(*ann),
                    types::fields_view(s@),
                    t0@,
                    *span,
                ).0 == Ok::<TypeV, TypeErrorV>(t@),
                Err(e) => annotated(
                    old(self).cx(),
                    old(self).st(env),
                    ast::opt_type(*ann),
                    types::fields_view(s@),
                    t0@,
                    *span,
                ).0 == Err::<TypeV, TypeErrorV>(e@),
            },
            final(self).st(env) == annotated(
                old(self).cx(),
                old(self).st(env),
                ast::opt_type(*ann),
                types::fields_view(s@),
                t0@,
                *span,
            ).1,
            final(self).cx() == old(self).cx(),
    {
        proof {
            reveal(annotated);
        }
        let t = apply_subst_type(s, t0);
        match ann {
            Some(a) => match self.unify_at(&t, a, span, Ghost(env)) {
                Ok(sa) => Ok(apply_subst_type(&sa, a)),
                Err(e) => Err(e),
            },
            None => Ok(default_numeric_literals(&t)),
        }
    }
}

fn make_main_shape(with_args: bool, req: &Type, eff: &Type) -> (r: Type)
    ensures
        r@ == main_shape(with_args, req@, eff@),
{
    let mut params: Vec<(String, Type)> = Vec::new();
    if with_args {
        let elem = Type::String;
        assert(elem@ == TypeV::String);
        let list = Type::List(Box::new(elem));
        assert(list@ == TypeV::List(Box::new(TypeV::String)));
        params.push((owned("args"), list));
        assert(types::fields_view(params@) =~= seq![
            ("args"@, TypeV::List(Box::new(TypeV::String))),
        ]);
    } else {
        assert(types::fields_view(params@) =~= Seq::<(Text, TypeV)>::empty());
    }
    let unit = Type::Unit;
    assert(unit@ == TypeV::Unit);
    Type::Arrow(params, Box::new(unit), Box::new(req.clone()), Box::new(eff.clone()))
}

fn check_exposed(gl: &GlobalLet, env: &TypeEnv, t: &Type, span: &Span) -> (r: Result<
    (),
    TypeError,
>)
    ensures
        match r {
            Ok(()) => exposed_type(gl@, env@, t@, *span) is None,
            Err(e) => exposed_type(gl@, env@, t@, *span) == Some(e@),
        },
{
    if gl.is_public {
        match find_private_type_in_public_signature(t, env) {
            Some(n) => {
                return Err(
                    TypeError::new(
                        cat5(
                            "public definition '",
                            gl.name.as_str(),
                            "' exposes private type '",
                            n.as_str(),
                            "'",
                        ),
                        *span,
                    ),
                );
            },
            None => {},
        }
    }
    Ok(())
}

impl TypeChecker {
    /// A checker that knows exceptions and lists alone.
    pub fn new_without_stdlib() -> (r: Self)
        ensures
            r@ == core_checker(),
            checker_apart(r@),
    {
        let mut env = TypeEnv::new();
        let exn = exn_enum_def();
        let list = list_enum_def();
        proof {
            env::lemma_enum_keeps_keys(env@, "Exn"@, exn@);
        }
        put_enum(&mut env.enums, owned("Exn"), exn);
        proof {
            env::lemma_enum_keeps_keys(env@, "List"@, list@);
        }
        put_enum(&mut env.enums, owned("List"), list.clone());
        assert(list@.variants.len() == list.variants.len());
        assert(list@.variants[0] == list.variants@[0]@);
        assert(text::texts(list.type_params@) =~= seq!["T"@]);
        register_nullary_variant_constructor(
            &mut env,
            "List",
            &list.type_params,
            &list.variants[0],
        );
        proof {
            env::lemma_linear_keeps_keys(env@, Seq::empty());
            env::lemma_types_apart(env@);
        }
        env.linear_vars = Vec::new();
        assert(env@.linear_vars =~= Seq::<Text>::empty());
        let checker = TypeChecker {
            supply: 0,
            type_defs: copy_typedefs(&env.types),
            env,
            visited_paths: Vec::new(),
            import_cache: Vec::new(),
            warnings: Vec::new(),
        };
        proof {
            assert(checker@.env.linear_vars =~= Seq::<Text>::empty());
            assert(checker@.visited =~= Seq::<Text>::empty());
            assert(checker@.cache =~= Seq::<(Text, EnvV)>::empty());
            assert(checker@.warnings =~= Seq::<TypeWarningV>::empty());
        }
        checker
    }

    /// A checker that knows the types of the standard library. Its functions are imported.
    pub fn new(stdlib: &Vec<Program>) -> (r: Self)
        ensures
            r@ == fresh_checker(modules::programs_view(stdlib@)),
            checker_apart(r@),
    {
        let mut checker = Self::new_without_stdlib();
        register_stdlib_types(&mut checker.env, stdlib);
        checker
    }

    /// Hands out the warnings and forgets them.
    pub fn take_warnings(&mut self) -> (r: Vec<TypeWarning>)
        ensures
            r@ == old(self).warnings@,
            final(self)@ == (CheckerV { warnings: Seq::empty(), ..old(self)@ }),
            checker_kept(old(self)@, final(self)@),
    {
        let mut out: Vec<TypeWarning> = Vec::new();
        std::mem::swap(&mut out, &mut self.warnings);
        assert(env::warnings_view(self.warnings@) =~= Seq::<TypeWarningV>::empty());
        out
    }

    fn check_let(&mut self, gl: &GlobalLet, span: &Span) -> (r: Result<(), TypeError>)
        ensures
            state::unit_matches(r, let_checked(old(self)@, gl@, *span).0),
            final(self)@ == let_checked(old(self)@, gl@, *span).1,
            checker_kept(old(self)@, final(self)@),
    {
        let mut warnings: Vec<TypeWarning> = Vec::new();
        std::mem::swap(&mut warnings, &mut self.warnings);
        let mut inf = Infer {
            supply: self.supply,
            warnings,
            defs: &self.type_defs,
            cache: &self.import_cache,
        };
        let v = inf.new_var();
        let unit = Type::Unit;
        let reqs = make_empty_row();
        let want = Expect { ret: &unit, reqs: &reqs, effs: &v };
        let res = inf.infer(&mut self.env, &gl.value, &want);
        let outcome = match res {
            Err(e) => Err(e),
            Ok((s, t0)) => match inf.annotate(
                &gl.typ,
                &s,
                &t0,
                &gl.value.span,
                Ghost(self.env@),
            ) {
                Err(e) => Err(e),
                Ok(t) => {
                    let main = if str_eq(gl.name.as_str(), "main") {
                        inf.check_main(gl.is_public, &t, span, Ghost(self.env@))
                    } else {
                        Ok(())
                    };
                    match main {
                        Err(e) => Err(e),
                        Ok(()) => match check_exposed(gl, &self.env, &t, span) {
                            Err(e) => Err(e),
                            Ok(()) => {
                                let sch = generalize(&self.env, t);
                                self.env.insert(gl.name.clone(), sch);
                                Ok(())
                            },
                        },
                    }
                },
            },
        };
        self.supply = inf.supply;
        self.warnings = inf.warnings;
        outcome
    }

    fn declare_let(&mut self, gl: &GlobalLet) -> (r: Result<(), TypeError>)
        ensures
            state::unit_matches(r, let_declared(old(self)@, gl@).0),
            final(self)@ == let_declared(old(self)@, gl@).1,
            checker_kept(old(self)@, final(self)@),
    {
        match &gl.value.node {
            Expr::Lambda { type_params, params, ret_type, requires: reqs, throws, body: _ } => {
                let t = make_lambda_type(type_params, params, ret_type, reqs, throws, false);
                self.env.insert(
                    gl.name.clone(),
                    Scheme { vars: copy_texts(type_params), typ: t },
                );
                Ok(())
            },
            Expr::External(_, type_params, t) => {
                let vars = to_set(type_params);
                match check_unintroduced_type_vars(t, &vars, &self.env) {
                    Err(m) => Err(TypeError::new(m, gl.value.span)),
                    Ok(()) => {
                        let sch = external_scheme(type_params, t);
                        self.env.insert(gl.name.clone(), sch);
                        Ok(())
                    },
                }
            },
            _ => Ok(()),
        }
    }

    fn declare_plain(&mut self, def: &Spanned<TopLevel>) -> (r: Result<(), TypeError>)
        ensures
            state::unit_matches(r, plain_declared(old(self)@, def@).0),
            final(self)@ == plain_declared(old(self)@, def@).1,
            checker_kept(old(self)@, final(self)@),
    {
        match &def.node {
            TopLevel::TypeDef(td) => {
                let n = normalize_typedef_generic_params(td);
                proof {
                    if checker_apart(self@) {
                        table::law_store_keeps_keys_distinct(self@.defs, n.name@, n@);
                    }
                    env::lemma_type_keeps_keys(self.env@, n.name@, n@);
                }
                put_typedef(&mut self.type_defs, n.name.clone(), n.clone());
                put_typedef(&mut self.env.types, n.name.clone(), n);
                Ok(())
            },
            TopLevel::Enum(ed) => {
                if str_eq(ed.name.as_str(), "Exn") {
                    return Err(reserved_enum_error(def.span));
                }
                add_own_enum(&mut self.env, ed);
                Ok(())
            },
            TopLevel::Exception(ex) => {
                register_exception_variant(&mut self.env, ex);
                Ok(())
            },
            TopLevel::Port(port) => {
                add_port(&mut self.env, port);
                Ok(())
            },
            TopLevel::Let(gl) => self.declare_let(gl),
            TopLevel::Import(_) => Ok(()),
        }
    }

    #[verifier::loop_isolation(false)]
    fn check_lets(&mut self, program: &Program) -> (r: Result<(), TypeError>)
        ensures
            state::unit_matches(r, lets_checked(old(self)@, program@.definitions, 0).0),
            final(self)@ == lets_checked(old(self)@, program@.definitions, 0).1,
            checker_kept(old(self)@, final(self)@),
    {
        let ghost defs = program@.definitions;
        let ghost all = lets_checked(self@, defs, 0);
        let mut i: usize = 0;
        while i < program.definitions.len()
            invariant
                checker_kept(old(self)@, self@),
                i <= program.definitions.len(),
                lets_checked(self@, defs, i as nat) == all,
            decreases program.definitions.len() - i,
        {
            let def = &program.definitions[i];
            assert(defs[i as int] == def@);
            match &def.node {
                TopLevel::Let(gl) => {
                    if !matches!(gl.value.node, Expr::External(_, _, _)) {
                        self.check_let(gl, &def.span)?;
                    }
                },
                _ => {},
            }
            i = i + 1;
        }
        Ok(())
    }

    fn check_bindings(&mut self, program: &Program) -> (r: Result<(), TypeError>)
        ensures
            state::unit_matches(r, bindings_checked(old(self)@, program@.definitions).0),
            final(self)@ == bindings_checked(old(self)@, program@.definitions).1,
            checker_kept(old(self)@, final(self)@),
    {
        proof {
            env::lemma_linear_keeps_keys(self.env@, Seq::empty());
        }
        self.env.linear_vars = Vec::new();
        assert(self@.env.linear_vars =~= Seq::<Text>::empty());
        self.check_lets(program)?;
        check_missing_requirements(&self.env, program)?;
        collect_lint_warnings(&mut self.warnings, &self.env, program);
        Ok(())
    }

    fn bind_module(&mut self, import: &Import, pe: TypeEnv)
        requires
            env::keys_apart(pe@),
        ensures
            final(self)@ == module_bound(old(self)@, import@, pe@),
            checker_kept(old(self)@, final(self)@),
    {
        assert(import@.items.len() == import.items.len());
        if import.alias.is_some() || import.items.len() == 0 {
            let alias = match &import.alias {
                Some(a) => a.clone(),
                None => get_default_alias(import.path.as_str()),
            };
            proof {
                env::lemma_module_keeps_keys(self.env@, alias@, pe@);
            }
            put_module(&mut self.env.modules, alias, pe);
        }
    }

    /// Checks a program against the modules that it can import.
    pub fn check_program(&mut self, program: &Program, world: &World) -> (r: Result<
        (),
        TypeError,
    >)
        ensures
            state::unit_matches(
                r,
                program_checked(world@, old(self)@, program@, usize::MAX as nat).0,
            ),
            final(self)@ == program_checked(world@, old(self)@, program@, usize::MAX as nat).1,
            checker_kept(old(self)@, final(self)@),
    {
        self.check_nested(program, world, usize::MAX)
    }

    #[verifier::loop_isolation(false)]
    #[verifier::spinoff_prover]
    #[verifier::rlimit(40)]
    fn check_nested(&mut self, program: &Program, world: &World, depth: usize) -> (r: Result<
        (),
        TypeError,
    >)
        ensures
            state::unit_matches(r, program_checked(world@, old(self)@, program@, depth as nat).0),
            final(self)@ == program_checked(world@, old(self)@, program@, depth as nat).1,
            checker_kept(old(self)@, final(self)@),
        decreases depth, 1nat,
    {
        self.warnings = Vec::new();
        assert(env::warnings_view(self.warnings@) =~= Seq::<TypeWarningV>::empty());
        let ghost defs = program@.definitions;
        let ghost all = declarations_checked(world@, self@, defs, 0, depth as nat);
        let mut i: usize = 0;
        while i < program.definitions.len()
            invariant
                checker_kept(old(self)@, self@),
                i <= program.definitions.len(),
                declarations_checked(world@, self@, defs, i as nat, depth as nat) == all,
            decreases program.definitions.len() - i,
        {
            let def = &program.definitions[i];
            assert(defs[i as int] == def@);
            match &def.node {
                TopLevel::Import(import) => {
                    self.check_import(import, &def.span, world, depth)?;
                },
                _ => {
                    self.declare_plain(def)?;
                },
            }
            i = i + 1;
        }
        self.check_bindings(program)
    }

    fn check_import(&mut self, import: &Import, span: &Span, world: &World, depth: usize) -> (r:
        Result<(), TypeError>)
        ensures
            state::unit_matches(
                r,
                import_checked(world@, old(self)@, import@, *span, depth as nat).0,
            ),
            final(self)@ == import_checked(world@, old(self)@, import@, *span, depth as nat).1,
            checker_kept(old(self)@, final(self)@),
        decreases depth, 0nat,
    {
        if import.is_external {
            return Ok(());
        }
        if list_has(&self.visited_paths, import.path.as_str()) {
            match find_module(&self.import_cache, import.path.as_str()) {
                Some(pe) => {
                    return import_items(&mut self.env, &mut self.type_defs, pe, import, span);
                },
                None => {
                    return Ok(());
                },
            }
        }
        proof {
            if checker_apart(self@) {
                env::lemma_with_text_apart(self@.visited, import.path@);
            }
        }
        list_add(&mut self.visited_paths, import.path.clone());
        let place = resolve_import_path(import.path.as_str());
        match find_source(&world.sources, place.as_str()) {
            None => Err(
                TypeError::new(
                    cat4("Failed to read ", place.as_str(), ": ", "no such module"),
                    *span,
                ),
            ),
            Some(Source::Unreadable(m)) => Err(
                TypeError::new(
                    cat4("Failed to read ", place.as_str(), ": ", m.as_str()),
                    *span,
                ),
            ),
            Some(Source::Malformed) => Err(
                TypeError::new(cat2("Failed to parse ", import.path.as_str()), *span),
            ),
            Some(Source::Parsed(p)) => {
                if depth == 0 {
                    return Err(TypeError::new(owned("Imports nest too deep"), *span));
                }
                let mut sub = TypeChecker::new(&world.stdlib);
                sub.visited_paths = copy_texts(&self.visited_paths);
                sub.import_cache = copy_modules(&self.import_cache);
                sub.check_nested(p, world, depth - 1)?;
                let pe = export_definitions(&sub.env, p)?;
                self.visited_paths = sub.visited_paths;
                add_missing(&mut self.import_cache, &sub.import_cache);
                proof {
                    if checker_apart(old(self)@) {
                        env::lemma_module_stays_apart(self@.cache, import.path@, pe@);
                    }
                }
                put_module(&mut self.import_cache, import.path.clone(), pe.clone());
                import_items(&mut self.env, &mut self.type_defs, &pe, import, span)?;
                self.bind_module(import, pe);
                Ok(())
            },
        }
    }

    /// Checks a statement at the prompt against the current state, and yields its type.
    pub fn check_repl_stmt(&mut self, s: &Spanned<Stmt>) -> (r: Result<Type, TypeError>)
        ensures
            match r {
                Ok(t) => repl_checked(old(self)@, s@).0 == Ok::<TypeV, TypeErrorV>(t@),
                Err(e) => repl_checked(old(self)@, s@).0 == Err::<TypeV, TypeErrorV>(e@),
            },
            final(self)@ == repl_checked(old(self)@, s@).1,
            checker_kept(old(self)@, final(self)@),
    {
        let mut warnings: Vec<TypeWarning> = Vec::new();
        std::mem::swap(&mut warnings, &mut self.warnings);
        let mut inf = Infer {
            supply: self.supply,
            warnings,
            defs: &self.type_defs,
            cache: &self.import_cache,
        };
        let ev = inf.new_var();
        let rq = inf.new_var();
        let unit = Type::Unit;
        let want = Expect { ret: &unit, reqs: &rq, effs: &ev };
        let outcome = match &s.node {
            Stmt::Expr(e) => match inf.infer(&mut self.env, e, &want) {
                Ok((sub, t)) => {
                    self.env.apply(&sub);
                    let t1 = apply_subst_type(&sub, &t);
                    Ok(default_numeric_literals(&t1))
                },
                Err(er) => Err(er),
            },
            _ => match inf.infer_stmt(&mut self.env, s, &want) {
                Ok(()) => Ok(Type::Unit),
                Err(er) => Err(er),
            },
        };
        self.supply = inf.supply;
        self.warnings = inf.warnings;
        outcome
    }
}

} // verus!
