//! What typing environments promise: bindings that are found again, linear bindings that are
//! consumed once, and schemes that are general in nothing the environment knows.

use crate::ast::VariantDefV;
use crate::table;
use crate::text;
use crate::text::Text;
use crate::typecheck::env;
use crate::typecheck::env::{EnvV, SchemeV};
use crate::typecheck::subst;
use crate::typecheck::subst::SubstV;
use crate::types::{Span, TypeV};
use vstd::prelude::*;

verus! {

// ---------------------------------------------------------------------------
// Definitions decide what is linear
// ---------------------------------------------------------------------------

/// Whether two environments have the same definitions.
pub open spec fn same_definitions(a: EnvV, b: EnvV) -> bool {
    a.types == b.types && a.enums == b.enums && a.modules == b.modules
}

proof fn lemma_same_lookups(a: EnvV, b: EnvV, name: Text)
    requires
        same_definitions(a, b),
    ensures
        env::env_type(a, name) == env::env_type(b, name),
        env::env_enum(a, name) == env::env_enum(b, name),
{
}

proof fn lemma_same_linear(a: EnvV, b: EnvV, t: TypeV, visiting: Seq<Text>, depth: nat)
    requires
        same_definitions(a, b),
    ensures
        env::linear_in(a, t, visiting, depth) == env::linear_in(b, t, visiting, depth),
    decreases depth, 0nat, t, 0nat,
{
    match t {
        TypeV::Ref(i) => {
            lemma_same_linear(a, b, *i, visiting, depth);
        },
        TypeV::List(i) => {
            lemma_same_linear(a, b, *i, visiting, depth);
        },
        TypeV::UserDefined(name, args) => {
            lemma_same_linear_any(a, b, args, 0, visiting, depth);
            if depth > 0 {
                lemma_same_linear_definition(
                    a,
                    b,
                    name,
                    args,
                    visiting.push(name),
                    (depth - 1) as nat,
                );
            }
        },
        TypeV::Row(es, tail) => {
            lemma_same_linear_any(a, b, es, 0, visiting, depth);
            match tail {
                Some(x) => {
                    lemma_same_linear(a, b, *x, visiting, depth);
                },
                None => {},
            }
        },
        TypeV::Record(fs) => {
            lemma_same_linear_field(a, b, fs, 0, visiting, depth);
        },
        _ => {},
    }
}

proof fn lemma_same_linear_any(
    a: EnvV,
    b: EnvV,
    ts: Seq<TypeV>,
    i: nat,
    visiting: Seq<Text>,
    depth: nat,
)
    requires
        same_definitions(a, b),
    ensures
        env::linear_any(a, ts, i, visiting, depth) == env::linear_any(b, ts, i, visiting, depth),
    decreases depth, 0nat, ts, ts.len() - i,
{
    if i < ts.len() {
        lemma_same_linear(a, b, ts[i as int], visiting, depth);
        lemma_same_linear_any(a, b, ts, i + 1, visiting, depth);
    }
}

proof fn lemma_same_linear_field(
    a: EnvV,
    b: EnvV,
    fs: Seq<(Text, TypeV)>,
    i: nat,
    visiting: Seq<Text>,
    depth: nat,
)
    requires
        same_definitions(a, b),
    ensures
        env::linear_field(a, fs, i, visiting, depth) == env::linear_field(b, fs, i, visiting, depth),
    decreases depth, 0nat, fs, fs.len() - i,
{
    if i < fs.len() {
        lemma_same_linear(a, b, fs[i as int].1, visiting, depth);
        lemma_same_linear_field(a, b, fs, i + 1, visiting, depth);
    }
}

proof fn lemma_same_linear_definition(
    a: EnvV,
    b: EnvV,
    name: Text,
    args: Seq<TypeV>,
    visiting: Seq<Text>,
    depth: nat,
)
    requires
        same_definitions(a, b),
    ensures
        env::linear_definition(a, name, args, visiting, depth) == env::linear_definition(
            b,
            name,
            args,
            visiting,
            depth,
        ),
    decreases depth, 4nat, args, 0nat,
{
    lemma_same_lookups(a, b, name);
    match env::env_type(a, name) {
        Some(td) => {
            lemma_same_linear_instance(
                a,
                b,
                env::bound_params(td.type_params, args),
                td.fields,
                0,
                visiting,
                depth,
            );
        },
        None => match env::env_enum(a, name) {
            Some(ed) => {
                lemma_same_linear_variants(
                    a,
                    b,
                    env::bound_params(ed.type_params, args),
                    ed.variants,
                    0,
                    visiting,
                    depth,
                );
            },
            None => {},
        },
    }
}

proof fn lemma_same_linear_instance(
    a: EnvV,
    b: EnvV,
    s: SubstV,
    fs: Seq<(Text, TypeV)>,
    i: nat,
    visiting: Seq<Text>,
    depth: nat,
)
    requires
        same_definitions(a, b),
    ensures
        env::linear_instance(a, s, fs, i, visiting, depth) == env::linear_instance(
            b,
            s,
            fs,
            i,
            visiting,
            depth,
        ),
    decreases depth, 2nat, fs, fs.len() - i,
{
    if i < fs.len() {
        lemma_same_linear(a, b, subst::substituted(s, fs[i as int].1), visiting, depth);
        lemma_same_linear_instance(a, b, s, fs, i + 1, visiting, depth);
    }
}

proof fn lemma_same_linear_ctor_fields(
    a: EnvV,
    b: EnvV,
    s: SubstV,
    fs: Seq<(Option<Text>, TypeV)>,
    i: nat,
    visiting: Seq<Text>,
    depth: nat,
)
    requires
        same_definitions(a, b),
    ensures
        env::linear_ctor_fields(a, s, fs, i, visiting, depth) == env::linear_ctor_fields(
            b,
            s,
            fs,
            i,
            visiting,
            depth,
        ),
    decreases depth, 2nat, fs, fs.len() - i,
{
    if i < fs.len() {
        lemma_same_linear(a, b, subst::substituted(s, fs[i as int].1), visiting, depth);
        lemma_same_linear_ctor_fields(a, b, s, fs, i + 1, visiting, depth);
    }
}

proof fn lemma_same_linear_variants(
    a: EnvV,
    b: EnvV,
    s: SubstV,
    vs: Seq<VariantDefV>,
    i: nat,
    visiting: Seq<Text>,
    depth: nat,
)
    requires
        same_definitions(a, b),
    ensures
        env::linear_variants(a, s, vs, i, visiting, depth) == env::linear_variants(
            b,
            s,
            vs,
            i,
            visiting,
            depth,
        ),
    decreases depth, 3nat, vs, vs.len() - i,
{
    if i < vs.len() {
        lemma_same_linear_ctor_fields(a, b, s, vs[i as int].fields, 0, visiting, depth);
        lemma_same_linear_variants(a, b, s, vs, i + 1, visiting, depth);
    }
}

/// Whether a type holds linear data depends on the definitions of an environment alone.
pub proof fn law_definitions_decide_linearity(a: EnvV, b: EnvV, t: TypeV)
    requires
        same_definitions(a, b),
    ensures
        env::has_linear(a, t) == env::has_linear(b, t),
{
    lemma_same_linear(a, b, t, Seq::empty(), usize::MAX as nat);
}

// ---------------------------------------------------------------------------
// Bindings
// ---------------------------------------------------------------------------

/// A binding that was inserted is found under its name, and the other bindings stay.
pub proof fn law_inserted_binding_is_found(env: EnvV, name: Text, s: SchemeV, other: Text)
    ensures
        env::env_get(env::env_insert(env, name, s), name) == Some(s),
        other != name && table::lookup(env.vars, other) is Some ==> env::env_get(
            env::env_insert(env, name, s),
            other,
        ) == env::env_get(env, other),
{
    reveal(env::env_insert);
    table::law_lookup_after_store(env.vars, name, s, other);
}

/// No text occurs twice.
pub open spec fn all_distinct(s: Seq<Text>) -> bool {
    forall|i: int, j: int| 0 <= i < j < s.len() ==> s[i] != s[j]
}

pub proof fn lemma_without_text(s: Seq<Text>, x: Text)
    requires
        all_distinct(s),
    ensures
        all_distinct(text::without_text(s, x)),
        !text::has_text(text::without_text(s, x), x),
{
    let n = text::without_text(s, x);
    table::lemma_index_of_text(s, x, 0);
    table::lemma_index_of_text(n, x, 0);
    if text::has_text(s, x) {
        let a = text::index_of_text(s, x, 0) as int;
        assert forall|j: int| 0 <= j < n.len() implies n[j] == s[if j < a {
            j
        } else {
            j + 1
        }] by {}
        if text::has_text(n, x) {
            assert(n[text::index_of_text(n, x, 0) as int] == x);
        }
    }
}

pub proof fn lemma_with_text(s: Seq<Text>, x: Text)
    requires
        all_distinct(s),
    ensures
        all_distinct(text::with_text(s, x)),
        text::has_text(text::with_text(s, x), x),
{
    let n = text::with_text(s, x);
    table::lemma_index_of_text(s, x, 0);
    table::lemma_index_of_text(n, x, 0);
    if !text::has_text(s, x) {
        assert(n[s.len() as int] == x);
        assert forall|i: int, j: int| 0 <= i < j < n.len() implies n[i] != n[j] by {
            if j == s.len() {
                assert(s[i] != x);
            }
        }
    }
}

/// A linear binding can be consumed once: the first use succeeds, and the second is refused. The
/// name is not one that stands for another linear binding.
pub proof fn law_linear_binding_is_consumed_once(env: EnvV, name: Text, s: SchemeV)
    requires
        all_distinct(env.linear_vars),
        env::has_linear(env, s.typ),
        !(text::begins_with_char(name, '%') && text::has_text(env.linear_vars, name.skip(1))),
    ensures
        ({
            let bound = env::env_insert(env, name, s);
            let first = env::env_consume(bound, name);
            let second = env::env_consume(first.1, name);
            &&& first.0 is Ok
            &&& second.0 == Err::<(), Text>("Linear variable "@ + name + " already consumed"@)
            &&& second.1 == first.1
        }),
{
    reveal(env::env_insert);
    reveal(env::env_consume);
    let bound = env::env_insert(env, name, s);
    lemma_with_text(env.linear_vars, name);
    lemma_without_text(bound.linear_vars, name);
    let after = env::env_consume(bound, name).1;
    law_definitions_decide_linearity(env, after, s.typ);
    table::law_lookup_after_store(env.vars, name, s, name);
    if text::begins_with_char(name, '%') {
        let plain_name = name.skip(1);
        assert(plain_name.len() < name.len());
        table::lemma_index_of_text(env.linear_vars, plain_name, 0);
        table::lemma_index_of_text(after.linear_vars, plain_name, 0);
        if text::has_text(after.linear_vars, plain_name) {
            let k = text::index_of_text(after.linear_vars, plain_name, 0) as int;
            assert(after.linear_vars[k] == plain_name);
            lemma_came_from(env.linear_vars, name, after.linear_vars, k);
        }
    }
}

proof fn lemma_came_from(s: Seq<Text>, x: Text, after: Seq<Text>, k: int)
    requires
        after == text::without_text(text::with_text(s, x), x),
        0 <= k < after.len(),
        after[k] != x,
    ensures
        text::has_text(s, after[k]),
{
    let w = text::with_text(s, x);
    table::lemma_index_of_text(w, x, 0);
    table::lemma_index_of_text(s, after[k], 0);
    table::lemma_index_of_text(s, x, 0);
    let a = text::index_of_text(w, x, 0) as int;
    if text::has_text(w, x) {
        let j = if k < a {
            k
        } else {
            k + 1
        };
        assert(after[k] == w[j]);
        assert(j < s.len());
        assert(s[j] == after[k]);
    } else {
        assert(s[k] == after[k]);
    }
}

/// A use of a binding that is not linear is never refused, and changes nothing.
pub proof fn law_unrestricted_binding_is_never_used_up(env: EnvV, name: Text, s: SchemeV)
    requires
        table::lookup(env.vars, name) == Some(s),
        !env::has_linear(env, s.typ),
        !text::has_text(env.linear_vars, name),
        !(text::begins_with_char(name, '%') && text::has_text(env.linear_vars, name.skip(1))),
    ensures
        env::env_consume(env, name) == (Ok::<(), Text>(()), env),
{
    reveal(env::env_consume);
}

proof fn lemma_undroppable(vars: Seq<(Text, SchemeV)>, names: Seq<Text>, i: nat)
    ensures
        env::undroppable_from(vars, names, i).len() == 0 <==> forall|j: int|
            i <= j < names.len() ==> env::droppable_binding(vars, #[trigger] names[j]),
    decreases names.len() - i,
{
    if i < names.len() {
        lemma_undroppable(vars, names, i + 1);
        if !env::droppable_binding(vars, names[i as int]) {
            assert(!env::droppable_binding(vars, names[i as int]));
        }
    }
}

/// What is left at the end of a scope is accepted exactly where each linear binding that was not
/// consumed may be dropped.
pub proof fn law_leftovers_must_be_droppable(env: EnvV, span: Span)
    ensures
        env::unused_error(env, span) is None <==> forall|j: int|
            0 <= j < env.linear_vars.len() ==> env::droppable_binding(
                env.vars,
                #[trigger] env.linear_vars[j],
            ),
{
    reveal(env::unused_error);
    lemma_undroppable(env.vars, env.linear_vars, 0);
}

// ---------------------------------------------------------------------------
// Generalisation
// ---------------------------------------------------------------------------

proof fn lemma_difference(a: Seq<Text>, b: Seq<Text>, i: nat, k: int)
    requires
        0 <= k < text::difference_from(a, b, i).len(),
    ensures
        !text::has_text(b, text::difference_from(a, b, i)[k]),
        exists|j: int| i <= j < a.len() && #[trigger] a[j] == text::difference_from(a, b, i)[k],
    decreases a.len() - i,
{
    if i < a.len() {
        if text::has_text(b, a[i as int]) {
            lemma_difference(a, b, i + 1, k);
            let j = choose|j: int|
                i + 1 <= j < a.len() && #[trigger] a[j] == text::difference_from(a, b, i + 1)[k];
            assert(a[j] == text::difference_from(a, b, i)[k]);
        } else if k > 0 {
            lemma_difference(a, b, i + 1, k - 1);
            let j = choose|j: int|
                i + 1 <= j < a.len() && #[trigger] a[j] == text::difference_from(a, b, i + 1)[k - 1];
            assert(text::difference_from(a, b, i)[k] == text::difference_from(a, b, i + 1)[k - 1]);
            assert(a[j] == text::difference_from(a, b, i)[k]);
        } else {
            assert(text::difference_from(a, b, i)[0] == a[i as int]);
        }
    }
}

/// A generalised scheme keeps its type, and is general in variables of that type alone, none of
/// which is free in the environment.
pub proof fn law_generalised_variables_are_not_free(env: EnvV, t: TypeV, k: int)
    ensures
        env::generalized(env, t).typ == t,
        0 <= k < env::generalized(env, t).vars.len() ==> {
            &&& !text::has_text(
                env::free_in_schemes(Seq::empty(), env.vars, 0),
                env::generalized(env, t).vars[k],
            )
            &&& subst::free_vars(Seq::empty(), t).contains(env::generalized(env, t).vars[k])
        },
{
    reveal(env::generalized);
    if 0 <= k < env::generalized(env, t).vars.len() {
        lemma_difference(
            subst::free_vars(Seq::empty(), t),
            env::free_in_schemes(Seq::empty(), env.vars, 0),
            0,
            k,
        );
    }
}

// ---------------------------------------------------------------------------
// Keys
// ---------------------------------------------------------------------------

/// The operations of an environment hold each key at most once: the new environment does, and
/// to insert a variable, to consume a name and to apply a substitution keep it so.
pub proof fn law_operations_keep_keys_apart(env: EnvV, name: Text, sch: SchemeV, s: SubstV)
    ensures
        env::keys_apart(env::empty_env()),
        env::keys_apart(env) ==> {
            &&& env::keys_apart(env::env_insert(env, name, sch))
            &&& env::keys_apart(env::env_consume(env, name).1)
            &&& env::keys_apart(env::env_apply(s, env))
        },
{
    env::lemma_empty_keys_apart();
    env::lemma_insert_keeps_keys(env, name, sch);
    env::lemma_consume_keeps_keys(env, name);
    env::lemma_apply_keeps_keys(s, env);
}

/// Where the keys of an environment are apart, what stands in a table is what its key leads to.
pub proof fn law_keys_lead_to_their_entries(env: EnvV, i: int)
    requires
        env::keys_apart(env),
    ensures
        0 <= i < env.vars.len() ==> table::lookup(env.vars, env.vars[i].0) == Some(env.vars[i].1),
        0 <= i < env.types.len() ==> table::lookup(env.types, env.types[i].0) == Some(env.types[i].1),
        0 <= i < env.enums.len() ==> table::lookup(env.enums, env.enums[i].0) == Some(env.enums[i].1),
        0 <= i < env.modules.len() ==> table::lookup(env.modules, env.modules[i].0) == Some(
            env.modules[i].1,
        ),
{
    reveal(env::keys_apart);
    if 0 <= i < env.vars.len() {
        lemma_found_at(env.vars, i);
    }
    if 0 <= i < env.types.len() {
        lemma_found_at(env.types, i);
    }
    if 0 <= i < env.enums.len() {
        lemma_found_at(env.enums, i);
    }
    if 0 <= i < env.modules.len() {
        lemma_found_at(env.modules, i);
    }
}

proof fn lemma_found_at<A>(m: Seq<(Text, A)>, i: int)
    requires
        table::distinct_keys(m),
        0 <= i < m.len(),
    ensures
        table::lookup(m, m[i].0) == Some(m[i].1),
{
    table::lemma_index_of_text(table::keys_of(m), m[i].0, 0);
    assert(table::keys_of(m)[i] == m[i].0);
    let k = table::key_index(m, m[i].0) as int;
    assert(k < m.len());
    assert(table::keys_of(m)[k] == m[k].0);
}

} // verus!
