//! What checking programs promises: what the standard library brings, and what imports do.

use crate::ast::{ImportV, ProgramV, TopLevelV, VariantDefV};
use crate::stdlib;
use crate::table;
use crate::text;
use crate::text::Text;
use crate::typecheck::env;
use crate::typecheck::env::{EnvV, SchemeV, TypeErrorV};
use crate::typecheck::helpers;
use crate::typecheck::modules;
use crate::typecheck::program;
use crate::typecheck::program::{CheckerV, SourceV, WorldV};
use crate::typecheck::state::{Cx, St};
use crate::types::{Span, Spanned, TypeV};
use vstd::prelude::*;

verus! {

// ---------------------------------------------------------------------------
// The standard library
// ---------------------------------------------------------------------------

/// Whether all bindings of a table are values of named types, not functions.
pub open spec fn values_alone(vars: Seq<(Text, SchemeV)>) -> bool {
    forall|i: int| 0 <= i < vars.len() ==> (#[trigger] vars[i]).1.typ is UserDefined
}

proof fn lemma_nullary_is_value(
    env: EnvV,
    enum_name: Text,
    type_params: Seq<Text>,
    v: VariantDefV,
)
    requires
        values_alone(env.vars),
    ensures
        values_alone(modules::with_nullary(env, enum_name, type_params, v).vars),
{
    reveal(env::env_insert);
    let next = modules::with_nullary(env, enum_name, type_params, v);
    assert forall|i: int| 0 <= i < next.vars.len() implies (
    #[trigger] next.vars[i]).1.typ is UserDefined by {
        if i < env.vars.len() {
            assert(env.vars[i].1.typ is UserDefined);
        }
    }
}

proof fn lemma_nullaries_are_values(
    env: EnvV,
    enum_name: Text,
    type_params: Seq<Text>,
    vs: Seq<VariantDefV>,
    i: nat,
)
    requires
        values_alone(env.vars),
    ensures
        values_alone(modules::with_nullaries(env, enum_name, type_params, vs, i).vars),
    decreases vs.len() - i,
{
    if i < vs.len() {
        lemma_nullary_is_value(env, enum_name, type_params, vs[i as int]);
        lemma_nullaries_are_values(
            modules::with_nullary(env, enum_name, type_params, vs[i as int]),
            enum_name,
            type_params,
            vs,
            i + 1,
        );
    }
}

proof fn lemma_public_types_bring_values(env: EnvV, defs: Seq<Spanned<TopLevelV>>, i: nat)
    requires
        values_alone(env.vars),
    ensures
        values_alone(modules::with_public_types(env, defs, i).vars),
    decreases defs.len() - i,
{
    if i < defs.len() {
        match defs[i as int].node {
            TopLevelV::TypeDef(td) => {
                let n = helpers::normalized_typedef(td);
                let next = if td.is_public {
                    EnvV { types: table::store(env.types, n.name, n), ..env }
                } else {
                    env
                };
                lemma_public_types_bring_values(next, defs, i + 1);
            },
            TopLevelV::Enum(ed) => {
                let n = helpers::normalized_enum(ed);
                if ed.is_public {
                    lemma_nullaries_are_values(
                        EnvV { enums: table::store(env.enums, n.name, n), ..env },
                        n.name,
                        n.type_params,
                        n.variants,
                        0,
                    );
                    lemma_public_types_bring_values(modules::with_public_enum(env, ed), defs, i + 1);
                } else {
                    lemma_public_types_bring_values(env, defs, i + 1);
                }
            },
            TopLevelV::Exception(ex) => {
                if ex.is_public {
                    let v = VariantDefV { name: ex.name, fields: ex.fields };
                    lemma_nullary_is_value(modules::with_exn(env), helpers::exn_name(), Seq::empty(), v);
                    lemma_public_types_bring_values(modules::with_exception(env, ex), defs, i + 1);
                } else {
                    lemma_public_types_bring_values(env, defs, i + 1);
                }
            },
            _ => {
                lemma_public_types_bring_values(env, defs, i + 1);
            },
        }
    }
}

proof fn lemma_stdlib_brings_values(env: EnvV, programs: Seq<ProgramV>, i: nat)
    requires
        values_alone(env.vars),
    ensures
        values_alone(modules::with_stdlib_types(env, programs, i).vars),
    decreases programs.len() - i,
{
    if i < programs.len() {
        lemma_public_types_bring_values(env, programs[i as int].definitions, 0);
        lemma_stdlib_brings_values(
            modules::with_public_types(env, programs[i as int].definitions, 0),
            programs,
            i + 1,
        );
    }
}

/// A fresh checker knows the types of the standard library and their constant constructors, but
/// none of its functions: those have to be imported.
pub proof fn law_stdlib_functions_have_to_be_imported(stdlib: Seq<ProgramV>)
    ensures
        values_alone(program::fresh_checker(stdlib).env.vars),
{
    let e1 = EnvV {
        enums: table::store(
            table::store(env::empty_env().enums, helpers::exn_name(), helpers::exn_enum()),
            "List"@,
            helpers::list_enum(),
        ),
        ..env::empty_env()
    };
    lemma_nullary_is_value(e1, "List"@, seq!["T"@], helpers::list_enum().variants[0]);
    lemma_stdlib_brings_values(program::core_checker().env, stdlib, 0);
}

// ---------------------------------------------------------------------------
// Imports
// ---------------------------------------------------------------------------

/// A module that was seen before is not looked at again: an import of it does not depend on what
/// stands at its place.
pub proof fn law_modules_are_checked_once(
    w1: WorldV,
    w2: WorldV,
    c: CheckerV,
    im: ImportV,
    span: Span,
    d1: nat,
    d2: nat,
)
    requires
        text::has_text(c.visited, im.path),
    ensures
        program::import_checked(w1, c, im, span, d1) == program::import_checked(w2, c, im, span, d2),
        program::import_checked(w1, c, im, span, d1).1.visited == c.visited,
        program::import_checked(w1, c, im, span, d1).1.cache == c.cache,
{
}

/// Whether all texts of one list are in another.
pub open spec fn all_in(a: Seq<Text>, b: Seq<Text>) -> bool {
    forall|x: Text| text::has_text(a, x) ==> #[trigger] text::has_text(b, x)
}

proof fn lemma_with_text_keeps(s: Seq<Text>, y: Text)
    ensures
        all_in(s, text::with_text(s, y)),
        text::has_text(text::with_text(s, y), y),
{
    let n = text::with_text(s, y);
    assert forall|x: Text| text::has_text(s, x) implies #[trigger] text::has_text(n, x) by {
        table::lemma_index_of_text(s, x, 0);
        table::lemma_index_of_text(n, x, 0);
        let k = text::index_of_text(s, x, 0) as int;
        assert(n[k] == x);
    }
    table::lemma_index_of_text(n, y, 0);
    table::lemma_index_of_text(s, y, 0);
    if !text::has_text(s, y) {
        assert(n[s.len() as int] == y);
    }
}

proof fn lemma_lets_keep_visited(c: CheckerV, defs: Seq<Spanned<TopLevelV>>, i: nat)
    ensures
        program::lets_checked(c, defs, i).1.visited == c.visited,
    decreases defs.len() - i,
{
    if i < defs.len() {
        match defs[i as int].node {
            TopLevelV::Let(gl) => {
                if gl.value.node is External {
                    lemma_lets_keep_visited(c, defs, i + 1);
                } else {
                    let (r, c1) = program::let_checked(c, gl, defs[i as int].span);
                    assert(c1.visited == c.visited);
                    lemma_lets_keep_visited(c1, defs, i + 1);
                }
            },
            _ => {
                lemma_lets_keep_visited(c, defs, i + 1);
            },
        }
    }
}

proof fn lemma_program_keeps_visited(w: WorldV, c: CheckerV, p: ProgramV, depth: nat)
    ensures
        all_in(c.visited, program::program_checked(w, c, p, depth).1.visited),
    decreases depth, p.definitions.len() + 2,
{
    let c0 = CheckerV { warnings: Seq::empty(), ..c };
    lemma_declarations_keep_visited(w, c0, p.definitions, 0, depth);
    let (r, c1) = program::declarations_checked(w, c0, p.definitions, 0, depth);
    if r is Ok {
        let c2 = CheckerV { env: EnvV { linear_vars: Seq::empty(), ..c1.env }, ..c1 };
        lemma_lets_keep_visited(c2, p.definitions, 0);
    }
}

proof fn lemma_declarations_keep_visited(
    w: WorldV,
    c: CheckerV,
    defs: Seq<Spanned<TopLevelV>>,
    i: nat,
    depth: nat,
)
    ensures
        all_in(c.visited, program::declarations_checked(w, c, defs, i, depth).1.visited),
    decreases depth, defs.len() - i + 1,
{
    if i < defs.len() {
        let (r, c1) = match defs[i as int].node {
            TopLevelV::Import(im) => program::import_checked(w, c, im, defs[i as int].span, depth),
            _ => program::plain_declared(c, defs[i as int]),
        };
        match defs[i as int].node {
            TopLevelV::Import(im) => {
                law_visited_modules_stay_visited(w, c, im, defs[i as int].span, depth);
            },
            _ => {
                assert(c1.visited == c.visited);
            },
        }
        if r is Ok {
            lemma_declarations_keep_visited(w, c1, defs, i + 1, depth);
        }
    }
}

/// An import keeps in mind which modules were seen, and that its own was.
pub proof fn law_visited_modules_stay_visited(
    w: WorldV,
    c: CheckerV,
    im: ImportV,
    span: Span,
    depth: nat,
)
    ensures
        all_in(c.visited, program::import_checked(w, c, im, span, depth).1.visited),
        !im.is_external ==> text::has_text(program::import_checked(w, c, im, span, depth).1.visited, im.path),
    decreases depth, 0int,
{
    if !im.is_external && !text::has_text(c.visited, im.path) {
        lemma_with_text_keeps(c.visited, im.path);
        let c1 = CheckerV { visited: text::with_text(c.visited, im.path), ..c };
        if let SourceV::Parsed(p) = program::source_at(w, stdlib::resolved_path(im.path)) {
            if depth > 0 {
                let sub0 = CheckerV {
                    visited: c1.visited,
                    cache: c1.cache,
                    ..program::fresh_checker(w.stdlib)
                };
                lemma_program_keeps_visited(w, sub0, p, (depth - 1) as nat);
            }
        }
    }
}

/// A program is refused where a module that it imports first cannot be read.
pub proof fn law_unreadable_import_is_refused(
    w: WorldV,
    c: CheckerV,
    im: ImportV,
    span: Span,
    depth: nat,
    why: Text,
)
    requires
        !im.is_external,
        !text::has_text(c.visited, im.path),
        program::source_at(w, stdlib::resolved_path(im.path)) == SourceV::Unreadable(why),
    ensures
        program::import_checked(w, c, im, span, depth).0 == Err::<(), TypeErrorV>(
            env::error_at("Failed to read "@ + stdlib::resolved_path(im.path) + ": "@ + why, span),
        ),
{
}

// ---------------------------------------------------------------------------
// The entry point
// ---------------------------------------------------------------------------

/// A public entry point is refused.
pub proof fn law_entry_point_is_private(cx: Cx, st: St, t: TypeV, span: Span)
    ensures
        program::main_rule(cx, st, true, t, span).0 == Err::<(), TypeErrorV>(
            env::error_at("main function must be private (remove 'pub')"@, span),
        ),
{
    reveal(program::main_rule);
}

// ---------------------------------------------------------------------------
// Rows
// ---------------------------------------------------------------------------

/// No type occurs twice.
pub open spec fn distinct_types(ts: Seq<TypeV>) -> bool {
    forall|i: int, j: int| 0 <= i < j < ts.len() ==> ts[i] != ts[j]
}

proof fn lemma_index_of_type(ts: Seq<TypeV>, t: TypeV, i: nat)
    requires
        i <= ts.len(),
    ensures
        i <= helpers::index_of_type(ts, t, i) <= ts.len(),
        helpers::index_of_type(ts, t, i) < ts.len() ==> ts[helpers::index_of_type(ts, t, i) as int] == t,
        forall|j: int| i <= j < helpers::index_of_type(ts, t, i) ==> ts[j] != t,
    decreases ts.len() - i,
{
    if i < ts.len() && ts[i as int] != t {
        lemma_index_of_type(ts, t, i + 1);
    }
}

proof fn lemma_merged(a: Seq<TypeV>, b: Seq<TypeV>, i: nat)
    requires
        distinct_types(a),
    ensures
        distinct_types(helpers::merged_from(a, b, i)),
        a.len() <= helpers::merged_from(a, b, i).len(),
        forall|j: int| 0 <= j < a.len() ==> #[trigger] helpers::merged_from(a, b, i)[j] == a[j],
        forall|j: int|
            i <= j < b.len() ==> helpers::merged_from(a, b, i).contains(#[trigger] b[j]),
    decreases b.len() - i,
{
    if i < b.len() {
        let x = b[i as int];
        let next = helpers::with_type(a, x);
        lemma_index_of_type(a, x, 0);
        assert(distinct_types(next)) by {
            assert forall|k: int, j: int| 0 <= k < j < next.len() implies next[k] != next[j] by {
                if j == a.len() {
                    assert(a[k] != x);
                }
            }
        }
        lemma_merged(next, b, i + 1);
        let all = helpers::merged_from(a, b, i);
        let k = helpers::index_of_type(a, x, 0) as int;
        assert(next[k] == x);
        assert(all[k] == next[k]);
        assert forall|j: int| 0 <= j < a.len() implies #[trigger] all[j] == a[j] by {
            assert(next[j] == a[j]);
        }
    }
}

proof fn lemma_merged_members(a: Seq<TypeV>, b: Seq<TypeV>, i: nat, t: TypeV)
    ensures
        helpers::merged_from(a, b, i).contains(t) ==> a.contains(t) || b.contains(t),
    decreases b.len() - i,
{
    if i < b.len() {
        let x = b[i as int];
        let next = helpers::with_type(a, x);
        lemma_merged_members(next, b, i + 1, t);
        if next.contains(t) && t != x {
            let k = choose|k: int| 0 <= k < next.len() && next[k] == t;
            assert(a[k] == t);
        }
    }
}

/// Merging rows repeats no member, and keeps those of both rows and no others.
pub proof fn law_merged_rows_repeat_nothing(base: TypeV, extra: TypeV)
    requires
        helpers::row_members(base) is Some,
        helpers::row_members(extra) is Some,
    ensures
        helpers::row_members(helpers::merged_rows(base, extra)) matches Some(members) && {
            &&& distinct_types(members)
            &&& forall|t: TypeV| #[trigger]
                members.contains(t) <==> helpers::row_members(base)->0.contains(t) || helpers::row_members(
                    extra,
                )->0.contains(t)
        },
{
    let a = helpers::row_members(base)->0;
    let b = helpers::row_members(extra)->0;
    let once = helpers::merged_from(Seq::empty(), a, 0);
    let members = helpers::merged_from(once, b, 0);
    lemma_merged(Seq::empty(), a, 0);
    lemma_merged(once, b, 0);
    assert(helpers::row_members(helpers::merged_rows(base, extra)) == Some(members)) by {
        if members.len() == 0 {
            assert(members =~= Seq::<TypeV>::empty());
        }
    }
    assert forall|t: TypeV| #[trigger] members.contains(t) <==> a.contains(t) || b.contains(t) by {
        lemma_merged_members(Seq::empty(), a, 0, t);
        lemma_merged_members(once, b, 0, t);
        if a.contains(t) {
            let j = choose|j: int| 0 <= j < a.len() && a[j] == t;
            assert(once.contains(a[j]));
            let k = choose|k: int| 0 <= k < once.len() && once[k] == t;
            assert(members[k] == once[k]);
        }
        if b.contains(t) {
            let j = choose|j: int| 0 <= j < b.len() && b[j] == t;
            assert(members.contains(b[j]));
        }
        assert(!Seq::<TypeV>::empty().contains(t));
    }
}

} // verus!
