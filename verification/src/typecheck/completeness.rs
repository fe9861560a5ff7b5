//! A match with a case for every value passes the check of its cases.

use crate::ast::{EnumDefV, MatchCaseV, PatternV, VariantDefV};
use crate::table;
use crate::text;
use crate::text::Text;
use crate::typecheck::coverage;
use crate::typecheck::coverage::ValueV;
use crate::typecheck::env;
use crate::typecheck::env::EnvV;
use crate::typecheck::exhaustiveness;
use crate::typecheck::subst::SubstV;
use crate::typecheck::unify;
use crate::types::{Spanned, TypeV};
use vstd::prelude::*;

verus! {

// ---------------------------------------------------------------------------
// Sums
// ---------------------------------------------------------------------------

/// The sum of the numbers from index `i` on.
pub open spec fn sum_from(xs: Seq<nat>, i: nat) -> nat
    decreases xs.len() - i,
{
    if i >= xs.len() {
        0
    } else {
        xs[i as int] + sum_from(xs, i + 1)
    }
}

proof fn lemma_sum_both(a: Seq<nat>, b: Seq<nat>, i: nat)
    requires
        i <= a.len(),
    ensures
        sum_from(a + b, i) == sum_from(a, i) + sum_from(b, 0),
    decreases a.len() - i,
{
    if i < a.len() {
        assert((a + b)[i as int] == a[i as int]);
        lemma_sum_both(a, b, i + 1);
    } else {
        lemma_sum_behind(a, b, 0);
    }
}

proof fn lemma_sum_behind(a: Seq<nat>, b: Seq<nat>, i: nat)
    requires
        i <= b.len(),
    ensures
        sum_from(a + b, a.len() + i) == sum_from(b, i),
    decreases b.len() - i,
{
    if i < b.len() {
        assert((a + b)[a.len() + i as int] == b[i as int]);
        lemma_sum_behind(a, b, i + 1);
    }
}

/// Numbers that are no greater than others, but for one, have a sum that is no greater but for
/// what that one is greater by.
proof fn lemma_sum_but_one(a: Seq<nat>, b: Seq<nat>, j: int, extra: nat, i: nat)
    requires
        a.len() == b.len(),
        forall|k: int| 0 <= k < a.len() && k != j ==> a[k] <= #[trigger] b[k],
        0 <= j < a.len() ==> a[j] <= b[j] + extra,
    ensures
        sum_from(a, i) <= sum_from(b, i) + extra,
        j < i ==> sum_from(a, i) <= sum_from(b, i),
    decreases a.len() - i,
{
    if i < a.len() {
        lemma_sum_but_one(a, b, j, extra, i + 1);
        if i != j {
            assert(a[i as int] <= b[i as int]);
        }
    }
}

// ---------------------------------------------------------------------------
// The size of patterns and of types
// ---------------------------------------------------------------------------

/// How many patterns in a pattern, itself among them, can fail to match.
pub open spec fn pattern_size(p: PatternV) -> nat
    decreases p, 0nat,
{
    match p {
        PatternV::Wildcard => 0,
        PatternV::Variable(_, _) => 0,
        PatternV::Literal(_) => 1,
        PatternV::Constructor(_, args) => 1 + sum_from(arg_sizes(args), 0),
        PatternV::Record(pfs, _) => 1 + sum_from(field_sizes(pfs), 0),
    }
}

/// The sizes of the arguments of a constructor pattern.
pub open spec fn arg_sizes(args: Seq<(Option<Text>, Spanned<PatternV>)>) -> Seq<nat>
    decreases args, 0nat,
{
    Seq::new(
        args.len(),
        |i: int|
            if 0 <= i < args.len() {
                pattern_size(args[i].1.node)
            } else {
                0
            },
    )
}

/// The sizes of the fields of a record pattern.
pub open spec fn field_sizes(pfs: Seq<(Text, Spanned<PatternV>)>) -> Seq<nat>
    decreases pfs, 0nat,
{
    Seq::new(
        pfs.len(),
        |i: int|
            if 0 <= i < pfs.len() {
                pattern_size(pfs[i].1.node)
            } else {
                0
            },
    )
}

/// The size of a row.
pub open spec fn row_size(row: Seq<PatternV>) -> nat {
    sum_from(row.map_values(|p: PatternV| pattern_size(p)), 0)
}

/// The size of the rows of a matrix from index `i` on.
pub open spec fn matrix_size(m: Seq<Seq<PatternV>>, i: nat) -> nat
    decreases m.len() - i,
{
    if i >= m.len() {
        0
    } else {
        row_size(m[i as int]) + matrix_size(m, i + 1)
    }
}

/// How many steps a type takes until nothing in it can be taken apart without a pattern.
pub open spec fn type_steps(t: TypeV) -> nat
    decreases t, 0nat,
{
    match t {
        TypeV::Record(fields) => 1 + sum_from(field_steps(fields), 0),
        TypeV::List(_) => 2,
        TypeV::Linear(i) => 1 + type_steps(*i),
        TypeV::Borrow(i) => 1 + type_steps(*i),
        _ => 1,
    }
}

/// The steps that the fields of a record type take.
pub open spec fn field_steps(fields: Seq<(Text, TypeV)>) -> Seq<nat>
    decreases fields, 0nat,
{
    Seq::new(
        fields.len(),
        |i: int|
            if 0 <= i < fields.len() {
                type_steps(fields[i].1)
            } else {
                0
            },
    )
}

/// The steps that types take together.
pub open spec fn types_steps(ts: Seq<TypeV>) -> nat {
    sum_from(ts.map_values(|t: TypeV| type_steps(t)), 0)
}

proof fn lemma_row_size_both(a: Seq<PatternV>, b: Seq<PatternV>)
    ensures
        row_size(a + b) == row_size(a) + row_size(b),
{
    let f = |p: PatternV| pattern_size(p);
    assert((a + b).map_values(f) =~= a.map_values(f) + b.map_values(f));
    lemma_sum_both(a.map_values(f), b.map_values(f), 0);
}

proof fn lemma_row_size_first(row: Seq<PatternV>)
    requires
        row.len() > 0,
    ensures
        row_size(row) == pattern_size(row[0]) + row_size(row.skip(1)),
{
    let f = |p: PatternV| pattern_size(p);
    let one = seq![row[0]];
    assert(row =~= one + row.skip(1));
    lemma_row_size_both(one, row.skip(1));
    assert(one.map_values(f)[0] == pattern_size(row[0]));
    assert(sum_from(one.map_values(f), 1) == 0);
}

proof fn lemma_wildcards_size(n: nat)
    ensures
        row_size(exhaustiveness::wildcards(n)) == 0,
{
    lemma_zero_sum(exhaustiveness::wildcards(n).map_values(|p: PatternV| pattern_size(p)), 0);
}

proof fn lemma_zero_sum(xs: Seq<nat>, i: nat)
    requires
        forall|k: int| 0 <= k < xs.len() ==> #[trigger] xs[k] == 0,
    ensures
        sum_from(xs, i) == 0,
    decreases xs.len() - i,
{
    if i < xs.len() {
        lemma_zero_sum(xs, i + 1);
    }
}

proof fn lemma_matrix_size_push(m: Seq<Seq<PatternV>>, r: Seq<PatternV>, i: nat)
    requires
        i <= m.len(),
    ensures
        matrix_size(m.push(r), i) == matrix_size(m, i) + row_size(r),
    decreases m.len() - i,
{
    if i < m.len() {
        assert(m.push(r)[i as int] == m[i as int]);
        lemma_matrix_size_push(m, r, i + 1);
    } else {
        assert(m.push(r)[i as int] == r);
        assert(matrix_size(m.push(r), i + 1) == 0);
    }
}

proof fn lemma_types_steps_both(a: Seq<TypeV>, b: Seq<TypeV>)
    ensures
        types_steps(a + b) == types_steps(a) + types_steps(b),
{
    let f = |t: TypeV| type_steps(t);
    assert((a + b).map_values(f) =~= a.map_values(f) + b.map_values(f));
    lemma_sum_both(a.map_values(f), b.map_values(f), 0);
}

proof fn lemma_types_steps_one(t: TypeV)
    ensures
        types_steps(seq![t]) == type_steps(t),
{
    let f = |t: TypeV| type_steps(t);
    assert(seq![t].map_values(f)[0] == type_steps(t));
    assert(sum_from(seq![t].map_values(f), 1) == 0);
}

proof fn lemma_types_steps_first(ts: Seq<TypeV>)
    requires
        ts.len() > 0,
    ensures
        types_steps(ts) == type_steps(ts[0]) + types_steps(ts.skip(1)),
        type_steps(ts[0]) > 0,
        type_steps(exhaustiveness::unwrapped(ts[0])) <= type_steps(ts[0]),
{
    assert(ts =~= seq![ts[0]] + ts.skip(1));
    lemma_types_steps_both(seq![ts[0]], ts.skip(1));
    lemma_types_steps_one(ts[0]);
}

proof fn lemma_record_steps(fields: Seq<(Text, TypeV)>)
    ensures
        types_steps(exhaustiveness::field_types(fields)) + 1 == type_steps(TypeV::Record(fields)),
{
    assert(exhaustiveness::field_types(fields).map_values(|t: TypeV| type_steps(t)) =~= field_steps(fields));
}

proof fn lemma_args_size(c: Text, args: Seq<(Option<Text>, Spanned<PatternV>)>)
    ensures
        row_size(exhaustiveness::arg_patterns(args)) + 1 == pattern_size(PatternV::Constructor(c, args)),
{
    assert(exhaustiveness::arg_patterns(args).map_values(|p: PatternV| pattern_size(p)) =~= arg_sizes(args));
}

/// What a table without its first entry holds.
proof fn lemma_lookup_rest<A>(m: Seq<(Text, A)>, k: Text)
    requires
        m.len() > 0,
    ensures
        table::lookup(m, k) == if m[0].0 == k {
            Some(m[0].1)
        } else {
            table::lookup(m.skip(1), k)
        },
{
    let all = table::keys_of(m);
    let rest = table::keys_of(m.skip(1));
    assert(rest =~= all.skip(1));
    table::lemma_index_of_text(all, k, 0);
    table::lemma_index_of_text(rest, k, 0);
    let i = text::index_of_text(all, k, 0);
    let j = text::index_of_text(rest, k, 0);
    assert(all[0] == m[0].0);
    if m[0].0 != k {
        if i < all.len() {
            assert(i > 0);
            assert(rest[i - 1] == k);
            assert(j <= i - 1);
        }
        if j < rest.len() {
            assert(all[j as int + 1] == k);
            assert(i <= j + 1);
        }
    }
}

/// The patterns that a record pattern gives the fields of a record type with distinct labels are
/// no larger together than its own.
proof fn lemma_fields_size(pfs: Seq<(Text, Spanned<PatternV>)>, fields: Seq<(Text, TypeV)>)
    requires
        table::distinct_keys(fields),
    ensures
        row_size(exhaustiveness::field_patterns(pfs, fields)) <= sum_from(field_sizes(pfs), 0),
    decreases pfs.len(),
{
    let f = |p: PatternV| pattern_size(p);
    let all = exhaustiveness::field_patterns(pfs, fields).map_values(f);
    if pfs.len() == 0 {
        assert forall|k: int| 0 <= k < all.len() implies #[trigger] all[k] == 0 by {
            assert(exhaustiveness::field_patterns(pfs, fields)[k] == exhaustiveness::field_pattern(pfs, fields[k].0));
            table::lemma_index_of_text(table::keys_of(pfs), fields[k].0, 0);
        }
        lemma_zero_sum(all, 0);
    } else {
        let others = pfs.skip(1);
        let rest = exhaustiveness::field_patterns(others, fields).map_values(f);
        let first = pattern_size(pfs[0].1.node);
        lemma_fields_size(others, fields);
        let j = if exists|j: int| 0 <= j < fields.len() && fields[j].0 == pfs[0].0 {
            choose|j: int| 0 <= j < fields.len() && fields[j].0 == pfs[0].0
        } else {
            -1int
        };
        assert forall|k: int| 0 <= k < all.len() && k != j implies all[k] <= #[trigger] rest[k] by {
            lemma_lookup_rest(pfs, fields[k].0);
            assert(fields[k].0 != pfs[0].0);
        }
        if 0 <= j < all.len() {
            lemma_lookup_rest(pfs, fields[j].0);
            assert(all[j] <= rest[j] + first);
        }
        lemma_sum_but_one(all, rest, j, first, 0);
        assert(field_sizes(pfs) =~= seq![first] + field_sizes(others));
        lemma_sum_both(seq![first], field_sizes(others), 0);
        assert(sum_from(seq![first], 1) == 0);
        assert(sum_from(seq![first], 0) == first);
    }
}

// ---------------------------------------------------------------------------
// Patterns that fit a type
// ---------------------------------------------------------------------------

/// Whether a pattern can stand for values of a type: constructor patterns have as many arguments
/// as the constructor has fields, a record type names a field once where a record pattern stands
/// for it, and the patterns inside fit the types of the fields.
pub open spec fn fits(env: EnvV, cache: Seq<(Text, EnvV)>, p: PatternV, t: TypeV) -> bool
    decreases p, coverage::rank(t) + 1,
{
    match exhaustiveness::unwrapped(t) {
        TypeV::Bool => fits_plain(p),
        TypeV::Unit => fits_plain(p),
        TypeV::Record(fields) => fits_record(env, cache, p, fields),
        TypeV::List(inner) => fits(env, cache, p, TypeV::UserDefined("List"@, seq![*inner])),
        TypeV::UserDefined(name, args) => {
            if env::env_type(env, name) is Some && env::env_enum(env, name) is None {
                fits(env, cache, p, unify::expanded_record(env::env_type(env, name)->Some_0, args))
            } else {
                match exhaustiveness::resolved_enum(env, cache, name) {
                    Some(ed) => forall|i: int|
                        0 <= i < ed.variants.len() ==> fits_ctor(
                            env,
                            cache,
                            p,
                            (#[trigger] ed.variants[i]).name,
                            exhaustiveness::ctor_field_types(
                                env::bound_params(ed.type_params, args),
                                ed.variants[i].fields,
                            ),
                        ),
                    None => true,
                }
            }
        },
        _ => true,
    }
}

/// Whether a pattern gives no arguments to the names that literals stand for.
pub open spec fn fits_plain(p: PatternV) -> bool {
    match p {
        PatternV::Constructor(c, args) => coverage::constructor_name(text::after_last_char(c, '.')) || args.len()
            == 0,
        _ => true,
    }
}

/// Whether a pattern, where it is one of a constructor, has arguments that fit its fields.
pub open spec fn fits_ctor(
    env: EnvV,
    cache: Seq<(Text, EnvV)>,
    p: PatternV,
    ctor: Text,
    fields: Seq<TypeV>,
) -> bool
    decreases p, 0nat,
{
    match p {
        PatternV::Constructor(c, args) => text::after_last_char(c, '.') == ctor ==> args.len()
            == fields.len() && forall|j: int|
            0 <= j < args.len() ==> fits(env, cache, (#[trigger] args[j]).1.node, fields[j]),
        _ => true,
    }
}

/// Whether a pattern, where it is one of records, fits the fields of a record type.
pub open spec fn fits_record(
    env: EnvV,
    cache: Seq<(Text, EnvV)>,
    p: PatternV,
    fields: Seq<(Text, TypeV)>,
) -> bool
    decreases p, 0nat,
{
    match p {
        PatternV::Record(pfs, _) => table::distinct_keys(fields) && forall|k: int, j: int|
            0 <= k < pfs.len() && 0 <= j < fields.len() && (#[trigger] pfs[k]).0 == (
            #[trigger] fields[j]).0 ==> fits(env, cache, pfs[k].1.node, fields[j].1),
        _ => true,
    }
}

/// Whether the patterns of a row fit types, one by one.
pub open spec fn row_fits(
    env: EnvV,
    cache: Seq<(Text, EnvV)>,
    row: Seq<PatternV>,
    ts: Seq<TypeV>,
) -> bool {
    &&& row.len() == ts.len()
    &&& forall|i: int| 0 <= i < row.len() ==> fits(env, cache, #[trigger] row[i], ts[i])
}

/// Whether all rows of a matrix fit types.
pub open spec fn rows_fit(
    env: EnvV,
    cache: Seq<(Text, EnvV)>,
    m: Seq<Seq<PatternV>>,
    ts: Seq<TypeV>,
) -> bool {
    forall|i: int| 0 <= i < m.len() ==> row_fits(env, cache, #[trigger] m[i], ts)
}

/// Whether a row has a wildcard or a variable everywhere.
pub open spec fn catches_all(row: Seq<PatternV>) -> bool {
    forall|i: int| 0 <= i < row.len() ==> exhaustiveness::irrefutable(#[trigger] row[i])
}

/// Whether a matrix has a row that catches all.
pub open spec fn has_catch_all(m: Seq<Seq<PatternV>>) -> bool {
    exists|i: int| 0 <= i < m.len() && catches_all(#[trigger] m[i])
}

/// Whether a type has a value.
pub open spec fn has_value(env: EnvV, cache: Seq<(Text, EnvV)>, t: TypeV) -> bool {
    exists|v: ValueV| coverage::value_of_type(env, cache, v, t)
}

/// Whether every type has a value.
pub open spec fn types_have_values(env: EnvV, cache: Seq<(Text, EnvV)>) -> bool {
    forall|t: TypeV| #[trigger] has_value(env, cache, t)
}

/// Whether values of the given types always match one of the rows of a matrix.
pub open spec fn every_value_matches(
    env: EnvV,
    cache: Seq<(Text, EnvV)>,
    m: Seq<Seq<PatternV>>,
    ts: Seq<TypeV>,
) -> bool {
    forall|vs: Seq<ValueV>| #[trigger]
        coverage::values_of_types(env, cache, vs, ts) ==> coverage::some_row_matches(m, vs)
}

/// Whether there is a row for all values of the given types.
pub open spec fn covered(
    env: EnvV,
    cache: Seq<(Text, EnvV)>,
    m: Seq<Seq<PatternV>>,
    ts: Seq<TypeV>,
) -> bool {
    has_catch_all(m) || (types_have_values(env, cache) && every_value_matches(env, cache, m, ts))
}

proof fn lemma_some_values(env: EnvV, cache: Seq<(Text, EnvV)>, ts: Seq<TypeV>) -> (vs: Seq<ValueV>)
    requires
        types_have_values(env, cache),
    ensures
        coverage::values_of_types(env, cache, vs, ts),
{
    let vs = Seq::new(
        ts.len(),
        |i: int| choose|v: ValueV| coverage::value_of_type(env, cache, v, ts[i]),
    );
    assert forall|i: int| 0 <= i < vs.len() implies coverage::value_of_type(
        env,
        cache,
        #[trigger] vs[i],
        ts[i],
    ) by {
        assert(has_value(env, cache, ts[i]));
    }
    vs
}

proof fn lemma_covered_has_a_row(
    env: EnvV,
    cache: Seq<(Text, EnvV)>,
    m: Seq<Seq<PatternV>>,
    ts: Seq<TypeV>,
)
    requires
        covered(env, cache, m, ts),
    ensures
        m.len() > 0,
{
    if !has_catch_all(m) {
        let vs = lemma_some_values(env, cache, ts);
        assert(coverage::some_row_matches(m, vs));
    }
}

proof fn lemma_values_behind(
    env: EnvV,
    cache: Seq<(Text, EnvV)>,
    v: ValueV,
    others: Seq<ValueV>,
    types: Seq<TypeV>,
)
    requires
        types.len() > 0,
        coverage::value_of_type(env, cache, v, types[0]),
        coverage::values_of_types(env, cache, others, types.skip(1)),
    ensures
        coverage::values_of_types(env, cache, seq![v] + others, types),
{
    let vs = seq![v] + others;
    assert forall|i: int| 0 <= i < vs.len() implies coverage::value_of_type(
        env,
        cache,
        #[trigger] vs[i],
        types[i],
    ) by {
        if i > 0 {
            assert(vs[i] == others[i - 1]);
            assert(types.skip(1)[i - 1] == types[i]);
        }
    }
}

proof fn lemma_values_apart(
    env: EnvV,
    cache: Seq<(Text, EnvV)>,
    vs: Seq<ValueV>,
    a: Seq<TypeV>,
    b: Seq<TypeV>,
)
    requires
        coverage::values_of_types(env, cache, vs, a + b),
    ensures
        coverage::values_of_types(env, cache, vs.take(a.len() as int), a),
        coverage::values_of_types(env, cache, vs.skip(a.len() as int), b),
        vs == vs.take(a.len() as int) + vs.skip(a.len() as int),
{
    let xs = vs.take(a.len() as int);
    let ys = vs.skip(a.len() as int);
    assert(vs =~= xs + ys);
    assert forall|i: int| 0 <= i < xs.len() implies coverage::value_of_type(
        env,
        cache,
        #[trigger] xs[i],
        a[i],
    ) by {
        assert(vs[i] == xs[i]);
        assert((a + b)[i] == a[i]);
    }
    assert forall|i: int| 0 <= i < ys.len() implies coverage::value_of_type(
        env,
        cache,
        #[trigger] ys[i],
        b[i],
    ) by {
        assert(vs[a.len() + i] == ys[i]);
        assert((a + b)[a.len() + i] == b[i]);
    }
}

proof fn lemma_join_row(a: Seq<PatternV>, b: Seq<PatternV>, xs: Seq<ValueV>, ys: Seq<ValueV>)
    requires
        coverage::row_matches(a, xs),
        coverage::row_matches(b, ys),
    ensures
        coverage::row_matches(a + b, xs + ys),
{
    assert forall|i: int| 0 <= i < (xs + ys).len() implies coverage::pattern_matches(
        (a + b)[i],
        #[trigger] (xs + ys)[i],
    ) by {
        if i < xs.len() {
            assert((xs + ys)[i] == xs[i]);
        } else {
            assert((xs + ys)[i] == ys[i - xs.len()]);
        }
    }
}

proof fn lemma_rest_matches(row: Seq<PatternV>, v: ValueV, others: Seq<ValueV>)
    requires
        coverage::row_matches(row, seq![v] + others),
    ensures
        row.len() == others.len() + 1,
        coverage::pattern_matches(row[0], v),
        coverage::row_matches(row.skip(1), others),
{
    let vs = seq![v] + others;
    assert(vs[0] == v);
    assert forall|i: int| 0 <= i < others.len() implies coverage::pattern_matches(
        row.skip(1)[i],
        #[trigger] others[i],
    ) by {
        assert(vs[i + 1] == others[i]);
    }
}

proof fn lemma_join_fits(
    env: EnvV,
    cache: Seq<(Text, EnvV)>,
    a: Seq<PatternV>,
    b: Seq<PatternV>,
    s: Seq<TypeV>,
    t: Seq<TypeV>,
)
    requires
        row_fits(env, cache, a, s),
        row_fits(env, cache, b, t),
    ensures
        row_fits(env, cache, a + b, s + t),
{
    assert forall|i: int| 0 <= i < (a + b).len() implies fits(
        env,
        cache,
        #[trigger] (a + b)[i],
        (s + t)[i],
    ) by {
        if i < a.len() {
            assert((a + b)[i] == a[i]);
        } else {
            assert((a + b)[i] == b[i - a.len()]);
        }
    }
}

proof fn lemma_rest_fits(
    env: EnvV,
    cache: Seq<(Text, EnvV)>,
    row: Seq<PatternV>,
    ts: Seq<TypeV>,
)
    requires
        ts.len() > 0,
        row_fits(env, cache, row, ts),
    ensures
        fits(env, cache, row[0], ts[0]),
        row_fits(env, cache, row.skip(1), ts.skip(1)),
{
    assert(fits(env, cache, row[0], ts[0]));
    assert forall|i: int| 0 <= i < row.skip(1).len() implies fits(
        env,
        cache,
        #[trigger] row.skip(1)[i],
        ts.skip(1)[i],
    ) by {
        assert(row[i + 1] == row.skip(1)[i]);
    }
}

proof fn lemma_irrefutable_fits(env: EnvV, cache: Seq<(Text, EnvV)>, p: PatternV, t: TypeV)
    requires
        exhaustiveness::irrefutable(p),
    ensures
        fits(env, cache, p, t),
    decreases coverage::rank(t),
{
    match exhaustiveness::unwrapped(t) {
        TypeV::List(inner) => {
            lemma_irrefutable_fits(env, cache, p, TypeV::UserDefined("List"@, seq![*inner]));
        },
        TypeV::UserDefined(name, args) => {
            if env::env_type(env, name) is Some && env::env_enum(env, name) is None {
                lemma_irrefutable_fits(
                    env,
                    cache,
                    p,
                    unify::expanded_record(env::env_type(env, name)->Some_0, args),
                );
            } else {
                match exhaustiveness::resolved_enum(env, cache, name) {
                    Some(ed) => {
                        let s = env::bound_params(ed.type_params, args);
                        assert forall|i: int| 0 <= i < ed.variants.len() implies fits_ctor(
                            env,
                            cache,
                            p,
                            (#[trigger] ed.variants[i]).name,
                            exhaustiveness::ctor_field_types(s, ed.variants[i].fields),
                        ) by {}
                    },
                    None => {},
                }
            }
        },
        TypeV::Record(fields) => {
            assert(fits_record(env, cache, p, fields));
        },
        _ => {},
    }
}

proof fn lemma_wildcards_fit(env: EnvV, cache: Seq<(Text, EnvV)>, ts: Seq<TypeV>)
    ensures
        row_fits(env, cache, exhaustiveness::wildcards(ts.len()), ts),
{
    let row = exhaustiveness::wildcards(ts.len());
    assert forall|i: int| 0 <= i < row.len() implies fits(env, cache, #[trigger] row[i], ts[i]) by {
        lemma_irrefutable_fits(env, cache, row[i], ts[i]);
    }
}

proof fn lemma_wildcards_match(n: nat, xs: Seq<ValueV>)
    requires
        xs.len() == n,
    ensures
        coverage::row_matches(exhaustiveness::wildcards(n), xs),
{
}

proof fn lemma_catch_all_behind(n: nat, row: Seq<PatternV>)
    requires
        row.len() > 0,
        catches_all(row),
    ensures
        exhaustiveness::irrefutable(row[0]),
        catches_all(row.skip(1)),
        catches_all(exhaustiveness::wildcards(n) + row.skip(1)),
{
    let rest = row.skip(1);
    assert forall|i: int| 0 <= i < rest.len() implies exhaustiveness::irrefutable(#[trigger] rest[i]) by {
        assert(row[i + 1] == rest[i]);
    }
    let all = exhaustiveness::wildcards(n) + rest;
    assert forall|i: int| 0 <= i < all.len() implies exhaustiveness::irrefutable(#[trigger] all[i]) by {
        if i >= n {
            assert(all[i] == rest[i - n]);
        }
    }
}

// ---------------------------------------------------------------------------
// Values of a type that patterns cannot take apart, or do not
// ---------------------------------------------------------------------------

proof fn lemma_default_kept(acc: Seq<Seq<PatternV>>, m: Seq<Seq<PatternV>>, i: nat)
    ensures
        forall|k: int|
            0 <= k < acc.len() ==> exhaustiveness::default_rows(acc, m, i).contains(#[trigger] acc[k]),
        forall|k: int|
            i <= k < m.len() && exhaustiveness::irrefutable((#[trigger] m[k])[0]) ==> exhaustiveness::default_rows(
                acc,
                m,
                i,
            ).contains(m[k].skip(1)),
    decreases m.len() - i,
{
    if i < m.len() {
        let row = m[i as int];
        if exhaustiveness::irrefutable(row[0]) {
            let next = acc.push(row.skip(1));
            lemma_default_kept(next, m, i + 1);
            assert forall|k: int| 0 <= k < acc.len() implies exhaustiveness::default_rows(acc, m, i).contains(
                #[trigger] acc[k],
            ) by {
                assert(next[k] == acc[k]);
            }
            assert(next[acc.len() as int] == row.skip(1));
        } else {
            lemma_default_kept(acc, m, i + 1);
        }
    } else {
        assert forall|k: int| 0 <= k < acc.len() implies acc.contains(#[trigger] acc[k]) by {}
    }
}

proof fn lemma_default_size(acc: Seq<Seq<PatternV>>, m: Seq<Seq<PatternV>>, i: nat)
    requires
        forall|k: int| 0 <= k < m.len() ==> (#[trigger] m[k]).len() > 0,
    ensures
        matrix_size(exhaustiveness::default_rows(acc, m, i), 0) <= matrix_size(acc, 0) + matrix_size(m, i),
    decreases m.len() - i,
{
    if i < m.len() {
        let row = m[i as int];
        if exhaustiveness::irrefutable(row[0]) {
            lemma_default_size(acc.push(row.skip(1)), m, i + 1);
            lemma_matrix_size_push(acc, row.skip(1), 0);
            lemma_row_size_first(row);
        } else {
            lemma_default_size(acc, m, i + 1);
        }
    }
}

/// What is asked of the default rows of a matrix follows from what holds of the matrix.
proof fn lemma_default_covered(
    env: EnvV,
    cache: Seq<(Text, EnvV)>,
    m: Seq<Seq<PatternV>>,
    types: Seq<TypeV>,
)
    requires
        types.len() > 0,
        rows_fit(env, cache, m, types),
        covered(env, cache, m, types),
        exhaustiveness::all_irrefutable(m, 0) || coverage::value_of_type(env, cache, ValueV::Other(0), types[0]),
    ensures
        rows_fit(env, cache, exhaustiveness::default_rows(Seq::empty(), m, 0), types.skip(1)),
        covered(env, cache, exhaustiveness::default_rows(Seq::empty(), m, 0), types.skip(1)),
        matrix_size(exhaustiveness::default_rows(Seq::empty(), m, 0), 0) <= matrix_size(m, 0),
{
    let none = Seq::<Seq<PatternV>>::empty();
    let rows = exhaustiveness::default_rows(none, m, 0);
    let rest = types.skip(1);
    assert forall|k: int| 0 <= k < m.len() implies (#[trigger] m[k]).len() > 0 by {
        assert(row_fits(env, cache, m[k], types));
    }
    assert(coverage::is_wide(m, rest.len() + 1)) by {
        assert forall|k: int| 0 <= k < m.len() implies (#[trigger] m[k]).len() == rest.len()
            + 1 by {
            assert(row_fits(env, cache, m[k], types));
        }
    }
    coverage::lemma_default_rows(none, m, 0, rest.len());
    lemma_default_kept(none, m, 0);
    lemma_default_size(none, m, 0);
    assert forall|k: int| 0 <= k < rows.len() implies row_fits(
        env,
        cache,
        #[trigger] rows[k],
        rest,
    ) by {
        assert(coverage::from_default(m, rows[k]));
        let i = choose|i: int|
            0 <= i < m.len() && exhaustiveness::irrefutable((#[trigger] m[i])[0]) && m[i].skip(1) == rows[k];
        assert(row_fits(env, cache, m[i], types));
        lemma_rest_fits(env, cache, m[i], types);
    }
    if has_catch_all(m) {
        let i = choose|i: int| 0 <= i < m.len() && catches_all(#[trigger] m[i]);
        lemma_catch_all_behind(0, m[i]);
        assert(rows.contains(m[i].skip(1)));
        let k = choose|k: int| 0 <= k < rows.len() && rows[k] == m[i].skip(1);
        assert(catches_all(rows[k]));
    } else {
        assert forall|others: Seq<ValueV>| #[trigger]
            coverage::values_of_types(env, cache, others, rest) implies coverage::some_row_matches(rows, others) by {
            assert(has_value(env, cache, types[0]));
            let v = if exhaustiveness::all_irrefutable(m, 0) {
                choose|v: ValueV| coverage::value_of_type(env, cache, v, types[0])
            } else {
                ValueV::Other(0)
            };
            lemma_values_behind(env, cache, v, others, types);
            assert(coverage::some_row_matches(m, seq![v] + others));
            let i = choose|i: int| 0 <= i < m.len() && coverage::row_matches(#[trigger] m[i], seq![v] + others);
            lemma_rest_matches(m[i], v, others);
            if exhaustiveness::all_irrefutable(m, 0) {
                lemma_is_irrefutable(m, 0, i);
            }
            assert(exhaustiveness::irrefutable(m[i][0]));
            assert(rows.contains(m[i].skip(1)));
            let k = choose|k: int| 0 <= k < rows.len() && rows[k] == m[i].skip(1);
            assert(coverage::row_matches(rows[k], others));
        }
    }
}

proof fn lemma_is_irrefutable(m: Seq<Seq<PatternV>>, i: nat, k: int)
    requires
        exhaustiveness::all_irrefutable(m, i),
        i <= k < m.len(),
    ensures
        exhaustiveness::irrefutable(m[k][0]),
    decreases k - i,
{
    if i < k {
        lemma_is_irrefutable(m, i + 1, k);
    }
}

// ---------------------------------------------------------------------------
// Values that a constructor makes
// ---------------------------------------------------------------------------

proof fn lemma_ctor_kept(
    acc: Seq<Seq<PatternV>>,
    m: Seq<Seq<PatternV>>,
    ctor: Text,
    arity: nat,
    i: nat,
)
    requires
        forall|k: int| 0 <= k < m.len() ==> exhaustiveness::ctor_row(#[trigger] m[k], ctor, arity) is Ok,
        forall|k: int| 0 <= k < m.len() ==> (#[trigger] m[k]).len() > 0,
    ensures
        exhaustiveness::ctor_rows(acc, m, ctor, arity, i) is Ok,
        forall|k: int|
            0 <= k < acc.len() ==> exhaustiveness::ctor_rows(acc, m, ctor, arity, i)->Ok_0.contains(
                #[trigger] acc[k],
            ),
        forall|k: int|
            i <= k < m.len() ==> (exhaustiveness::ctor_row(#[trigger] m[k], ctor, arity)->Ok_0 matches Some(r)
                ==> exhaustiveness::ctor_rows(acc, m, ctor, arity, i)->Ok_0.contains(r)),
        matrix_size(exhaustiveness::ctor_rows(acc, m, ctor, arity, i)->Ok_0, 0) + (if exhaustiveness::all_irrefutable(m, i) {
            0nat
        } else {
            1
        }) <= matrix_size(acc, 0) + matrix_size(m, i),
    decreases m.len() - i,
{
    if i < m.len() {
        let row = m[i as int];
        assert(exhaustiveness::ctor_row(row, ctor, arity) is Ok);
        lemma_row_size_first(row);
        match exhaustiveness::ctor_row(row, ctor, arity) {
            Ok(Some(r)) => {
                let next = acc.push(r);
                lemma_ctor_kept(next, m, ctor, arity, i + 1);
                lemma_matrix_size_push(acc, r, 0);
                match row[0] {
                    PatternV::Constructor(c, args) => {
                        lemma_row_size_both(exhaustiveness::arg_patterns(args), row.skip(1));
                        lemma_args_size(c, args);
                    },
                    PatternV::Literal(_) => {},
                    PatternV::Record(_, _) => {},
                    _ => {
                        lemma_row_size_both(exhaustiveness::wildcards(arity), row.skip(1));
                        lemma_wildcards_size(arity);
                    },
                }
                let rows = exhaustiveness::ctor_rows(acc, m, ctor, arity, i)->Ok_0;
                assert forall|k: int| 0 <= k < acc.len() implies rows.contains(#[trigger] acc[k]) by {
                    assert(next[k] == acc[k]);
                }
                assert(next[acc.len() as int] == r);
                assert(rows.contains(r));
            },
            _ => {
                lemma_ctor_kept(acc, m, ctor, arity, i + 1);
                assert(pattern_size(row[0]) > 0);
            },
        }
    } else {
        assert forall|k: int| 0 <= k < acc.len() implies acc.contains(#[trigger] acc[k]) by {}
    }
}

/// A row that matches what a constructor made matches its arguments once it is specialised to the
/// constructor.
proof fn lemma_ctor_row_back(row: Seq<PatternV>, ctor: Text, xs: Seq<ValueV>, others: Seq<ValueV>)
    requires
        coverage::row_matches(row, seq![ValueV::Made(ctor, xs)] + others),
    ensures
        exhaustiveness::ctor_row(row, ctor, xs.len()) matches Ok(Some(r)) && coverage::row_matches(r, xs + others),
{
    let v = ValueV::Made(ctor, xs);
    lemma_rest_matches(row, v, others);
    match row[0] {
        PatternV::Constructor(c, args) => {
            lemma_join_row(exhaustiveness::arg_patterns(args), row.skip(1), xs, others);
        },
        PatternV::Literal(_) => {
            assert(xs + others =~= others);
        },
        PatternV::Record(_, _) => {},
        _ => {
            lemma_wildcards_match(xs.len(), xs);
            lemma_join_row(exhaustiveness::wildcards(xs.len()), row.skip(1), xs, others);
        },
    }
}

/// What is asked of the rows of a constructor follows from what holds of the matrix.
#[verifier::spinoff_prover]
#[verifier::rlimit(40)]
proof fn lemma_ctor_covered(
    env: EnvV,
    cache: Seq<(Text, EnvV)>,
    m: Seq<Seq<PatternV>>,
    types: Seq<TypeV>,
    ctor: Text,
    fields: Seq<TypeV>,
)
    requires
        types.len() > 0,
        fields.len() > 0 ==> coverage::constructor_name(ctor),
        rows_fit(env, cache, m, types),
        covered(env, cache, m, types),
        forall|p: PatternV| #[trigger]
            fits(env, cache, p, types[0]) ==> fits_ctor(env, cache, p, ctor, fields),
        forall|xs: Seq<ValueV>| #[trigger]
            coverage::values_of_types(env, cache, xs, fields) ==> coverage::value_of_type(
                env,
                cache,
                ValueV::Made(ctor, xs),
                types[0],
            ),
    ensures
        exhaustiveness::ctor_rows(Seq::empty(), m, ctor, fields.len(), 0) matches Ok(rows) && {
            &&& rows_fit(env, cache, rows, fields + types.skip(1))
            &&& covered(env, cache, rows, fields + types.skip(1))
            &&& matrix_size(rows, 0) <= matrix_size(m, 0)
            &&& !exhaustiveness::all_irrefutable(m, 0) ==> matrix_size(rows, 0) < matrix_size(m, 0)
        },
{
    let none = Seq::<Seq<PatternV>>::empty();
    let arity = fields.len();
    let rest = types.skip(1);
    assert forall|k: int| 0 <= k < m.len() implies (#[trigger] m[k]).len() == rest.len() + 1 by {
        assert(row_fits(env, cache, m[k], types));
    }
    assert forall|k: int| 0 <= k < m.len() implies exhaustiveness::ctor_row(#[trigger] m[k], ctor, arity) is Ok by {
        assert(row_fits(env, cache, m[k], types));
        lemma_rest_fits(env, cache, m[k], types);
    }
    lemma_ctor_kept(none, m, ctor, arity, 0);
    coverage::lemma_ctor_rows(none, m, ctor, arity, 0, rest.len());
    let rows = exhaustiveness::ctor_rows(none, m, ctor, arity, 0)->Ok_0;
    assert forall|k: int| 0 <= k < rows.len() implies row_fits(
        env,
        cache,
        #[trigger] rows[k],
        fields + rest,
    ) by {
        assert(coverage::from_row(m, ctor, arity, rows[k]));
        let i = choose|i: int|
            0 <= i < m.len() && exhaustiveness::ctor_row(#[trigger] m[i], ctor, arity) == Ok::<
                Option<Seq<PatternV>>,
                Text,
            >(Some(rows[k]));
        let row = m[i];
        assert(row_fits(env, cache, row, types));
        lemma_rest_fits(env, cache, row, types);
        match row[0] {
            PatternV::Constructor(c, args) => {
                let ps = exhaustiveness::arg_patterns(args);
                assert(row_fits(env, cache, ps, fields)) by {
                    assert forall|j: int| 0 <= j < ps.len() implies fits(
                        env,
                        cache,
                        #[trigger] ps[j],
                        fields[j],
                    ) by {
                        assert(ps[j] == args[j].1.node);
                    }
                }
                lemma_join_fits(env, cache, ps, row.skip(1), fields, rest);
            },
            PatternV::Literal(_) => {
                assert(fields + rest =~= rest);
            },
            PatternV::Record(_, _) => {},
            _ => {
                lemma_wildcards_fit(env, cache, fields);
                lemma_join_fits(env, cache, exhaustiveness::wildcards(arity), row.skip(1), fields, rest);
            },
        }
    }
    if has_catch_all(m) {
        let i = choose|i: int| 0 <= i < m.len() && catches_all(#[trigger] m[i]);
        lemma_catch_all_behind(arity, m[i]);
        let r = exhaustiveness::wildcards(arity) + m[i].skip(1);
        assert(exhaustiveness::ctor_row(m[i], ctor, arity) == Ok::<Option<Seq<PatternV>>, Text>(Some(r)));
        assert(rows.contains(r));
        let k = choose|k: int| 0 <= k < rows.len() && rows[k] == r;
        assert(catches_all(rows[k]));
    } else {
        assert forall|vs: Seq<ValueV>| #[trigger]
            coverage::values_of_types(env, cache, vs, fields + rest) implies coverage::some_row_matches(rows, vs) by {
            lemma_values_apart(env, cache, vs, fields, rest);
            let xs = vs.take(arity as int);
            let others = vs.skip(arity as int);
            let v = ValueV::Made(ctor, xs);
            lemma_values_behind(env, cache, v, others, types);
            assert(coverage::some_row_matches(m, seq![v] + others));
            let i = choose|i: int| 0 <= i < m.len() && coverage::row_matches(#[trigger] m[i], seq![v] + others);
            lemma_ctor_row_back(m[i], ctor, xs, others);
            assert(xs.len() == arity);
            let r = exhaustiveness::ctor_row(m[i], ctor, arity)->Ok_0->Some_0;
            assert(rows.contains(r));
            let k = choose|k: int| 0 <= k < rows.len() && rows[k] == r;
            assert(coverage::row_matches(rows[k], vs));
        }
    }
}

// ---------------------------------------------------------------------------
// Records
// ---------------------------------------------------------------------------

proof fn lemma_record_kept(
    acc: Seq<Seq<PatternV>>,
    m: Seq<Seq<PatternV>>,
    fields: Seq<(Text, TypeV)>,
    i: nat,
)
    requires
        forall|k: int| 0 <= k < m.len() ==> (#[trigger] m[k]).len() > 0,
        forall|k: int| 0 <= k < m.len() && (#[trigger] m[k])[0] is Record ==> table::distinct_keys(fields),
    ensures
        forall|k: int|
            0 <= k < acc.len() ==> exhaustiveness::record_rows(acc, m, fields, i).contains(#[trigger] acc[k]),
        forall|k: int|
            i <= k < m.len() ==> (coverage::record_row(#[trigger] m[k], fields) matches Some(r)
                ==> exhaustiveness::record_rows(acc, m, fields, i).contains(r)),
        matrix_size(exhaustiveness::record_rows(acc, m, fields, i), 0) + (if exhaustiveness::all_irrefutable(m, i) {
            0nat
        } else {
            1
        }) <= matrix_size(acc, 0) + matrix_size(m, i),
    decreases m.len() - i,
{
    if i < m.len() {
        let row = m[i as int];
        lemma_row_size_first(row);
        match coverage::record_row(row, fields) {
            Some(r) => {
                let next = acc.push(r);
                lemma_record_kept(next, m, fields, i + 1);
                lemma_matrix_size_push(acc, r, 0);
                match row[0] {
                    PatternV::Record(pfs, _) => {
                        lemma_row_size_both(exhaustiveness::field_patterns(pfs, fields), row.skip(1));
                        lemma_fields_size(pfs, fields);
                    },
                    _ => {
                        lemma_row_size_both(exhaustiveness::wildcards(fields.len()), row.skip(1));
                        lemma_wildcards_size(fields.len());
                    },
                }
                let rows = exhaustiveness::record_rows(acc, m, fields, i);
                assert forall|k: int| 0 <= k < acc.len() implies rows.contains(#[trigger] acc[k]) by {
                    assert(next[k] == acc[k]);
                }
                assert(next[acc.len() as int] == r);
                assert(rows.contains(r));
            },
            None => {
                lemma_record_kept(acc, m, fields, i + 1);
                assert(pattern_size(row[0]) > 0);
            },
        }
    } else {
        assert forall|k: int| 0 <= k < acc.len() implies acc.contains(#[trigger] acc[k]) by {}
    }
}

/// A row that matches a record matches its fields once the record is taken apart.
proof fn lemma_record_row_back(
    row: Seq<PatternV>,
    fields: Seq<(Text, TypeV)>,
    fs: Seq<(Text, ValueV)>,
    others: Seq<ValueV>,
)
    requires
        fs.len() == fields.len(),
        forall|i: int| 0 <= i < fs.len() ==> (#[trigger] fs[i]).0 == fields[i].0,
        coverage::row_matches(row, seq![ValueV::Record(fs)] + others),
    ensures
        coverage::record_row(row, fields) matches Some(r) && coverage::row_matches(r, coverage::field_values(fs) + others),
{
    let xs = coverage::field_values(fs);
    lemma_rest_matches(row, ValueV::Record(fs), others);
    match row[0] {
        PatternV::Record(pfs, _) => {
            let ps = exhaustiveness::field_patterns(pfs, fields);
            assert(coverage::fields_match(pfs, fs));
            assert(coverage::row_matches(ps, xs)) by {
                assert forall|i: int| 0 <= i < xs.len() implies coverage::pattern_matches(
                    ps[i],
                    #[trigger] xs[i],
                ) by {
                    assert(fs[i].0 == fields[i].0);
                    assert(ps[i] == exhaustiveness::field_pattern(pfs, fields[i].0));
                }
            }
            lemma_join_row(ps, row.skip(1), xs, others);
        },
        _ => {
            lemma_wildcards_match(fields.len(), xs);
            lemma_join_row(exhaustiveness::wildcards(fields.len()), row.skip(1), xs, others);
        },
    }
}

/// The patterns of the fields of a record fit where the pattern of the record does.
proof fn lemma_fields_fit(
    env: EnvV,
    cache: Seq<(Text, EnvV)>,
    p: PatternV,
    fields: Seq<(Text, TypeV)>,
)
    requires
        p is Record,
        fits_record(env, cache, p, fields),
    ensures
        row_fits(env, cache, exhaustiveness::field_patterns(p->Record_0, fields), exhaustiveness::field_types(fields)),
{
    let pfs = p->Record_0;
    let ps = exhaustiveness::field_patterns(pfs, fields);
    assert forall|j: int| 0 <= j < ps.len() implies fits(
        env,
        cache,
        #[trigger] ps[j],
        exhaustiveness::field_types(fields)[j],
    ) by {
        let name = fields[j].0;
        assert(ps[j] == exhaustiveness::field_pattern(pfs, name));
        if table::has_key(pfs, name) {
            table::lemma_index_of_text(table::keys_of(pfs), name, 0);
            let k = table::key_index(pfs, name) as int;
            assert(table::keys_of(pfs)[k] == name);
            assert(pfs[k].0 == fields[j].0);
            assert(ps[j] == pfs[k].1.node);
            assert(exhaustiveness::field_types(fields)[j] == fields[j].1);
            assert(fits(env, cache, pfs[k].1.node, fields[j].1));
        } else {
            lemma_irrefutable_fits(env, cache, ps[j], exhaustiveness::field_types(fields)[j]);
        }
    }
}

/// What is asked of the rows of a record follows from what holds of the matrix.
#[verifier::spinoff_prover]
#[verifier::rlimit(40)]
proof fn lemma_record_covered(
    env: EnvV,
    cache: Seq<(Text, EnvV)>,
    m: Seq<Seq<PatternV>>,
    types: Seq<TypeV>,
    fields: Seq<(Text, TypeV)>,
)
    requires
        types.len() > 0,
        rows_fit(env, cache, m, types),
        covered(env, cache, m, types),
        forall|p: PatternV| #[trigger]
            fits(env, cache, p, types[0]) ==> fits_record(env, cache, p, fields),
        forall|fs: Seq<(Text, ValueV)>| #[trigger]
            coverage::record_values(env, cache, fs, fields) ==> coverage::value_of_type(
                env,
                cache,
                ValueV::Record(fs),
                types[0],
            ),
    ensures
        ({
            let rows = exhaustiveness::record_rows(Seq::empty(), m, fields, 0);
            &&& rows_fit(env, cache, rows, exhaustiveness::field_types(fields) + types.skip(1))
            &&& covered(env, cache, rows, exhaustiveness::field_types(fields) + types.skip(1))
            &&& matrix_size(rows, 0) <= matrix_size(m, 0)
            &&& !exhaustiveness::all_irrefutable(m, 0) ==> matrix_size(rows, 0) < matrix_size(m, 0)
        }),
{
    let none = Seq::<Seq<PatternV>>::empty();
    let rest = types.skip(1);
    let ts = exhaustiveness::field_types(fields);
    assert forall|k: int| 0 <= k < m.len() implies (#[trigger] m[k]).len() == rest.len() + 1 by {
        assert(row_fits(env, cache, m[k], types));
    }
    assert forall|k: int|
        0 <= k < m.len() && (#[trigger] m[k])[0] is Record implies table::distinct_keys(fields) by {
        assert(row_fits(env, cache, m[k], types));
        lemma_rest_fits(env, cache, m[k], types);
        assert(fits_record(env, cache, m[k][0], fields));
    }
    lemma_record_kept(none, m, fields, 0);
    coverage::lemma_record_rows(none, m, fields, 0, rest.len());
    let rows = exhaustiveness::record_rows(none, m, fields, 0);
    assert forall|k: int| 0 <= k < rows.len() implies row_fits(
        env,
        cache,
        #[trigger] rows[k],
        ts + rest,
    ) by {
        assert(coverage::from_record(m, fields, rows[k]));
        let i = choose|i: int|
            0 <= i < m.len() && coverage::record_row(#[trigger] m[i], fields) == Some(rows[k]);
        let row = m[i];
        assert(row_fits(env, cache, row, types));
        lemma_rest_fits(env, cache, row, types);
        match row[0] {
            PatternV::Record(pfs, _) => {
                lemma_fields_fit(env, cache, row[0], fields);
                lemma_join_fits(env, cache, exhaustiveness::field_patterns(pfs, fields), row.skip(1), ts, rest);
            },
            _ => {
                lemma_wildcards_fit(env, cache, ts);
                lemma_join_fits(env, cache, exhaustiveness::wildcards(ts.len()), row.skip(1), ts, rest);
            },
        }
    }
    if has_catch_all(m) {
        let i = choose|i: int| 0 <= i < m.len() && catches_all(#[trigger] m[i]);
        lemma_catch_all_behind(fields.len(), m[i]);
        let r = exhaustiveness::wildcards(fields.len()) + m[i].skip(1);
        assert(coverage::record_row(m[i], fields) == Some(r));
        assert(rows.contains(r));
        let k = choose|k: int| 0 <= k < rows.len() && rows[k] == r;
        assert(catches_all(rows[k]));
    } else {
        assert forall|vs: Seq<ValueV>| #[trigger]
            coverage::values_of_types(env, cache, vs, ts + rest) implies coverage::some_row_matches(rows, vs) by {
            lemma_values_apart(env, cache, vs, ts, rest);
            let xs = vs.take(ts.len() as int);
            let others = vs.skip(ts.len() as int);
            let fs = Seq::new(fields.len(), |i: int| (fields[i].0, xs[i]));
            assert(coverage::field_values(fs) =~= xs);
            assert(coverage::record_values(env, cache, fs, fields)) by {
                assert forall|i: int| 0 <= i < fs.len() implies (#[trigger] fs[i]).0 == fields[i].0
                    && coverage::value_of_type(env, cache, fs[i].1, fields[i].1) by {
                    assert(coverage::value_of_type(env, cache, xs[i], ts[i]));
                }
            }
            let v = ValueV::Record(fs);
            lemma_values_behind(env, cache, v, others, types);
            assert(coverage::some_row_matches(m, seq![v] + others));
            let i = choose|i: int| 0 <= i < m.len() && coverage::row_matches(#[trigger] m[i], seq![v] + others);
            lemma_record_row_back(m[i], fields, fs, others);
            let r = coverage::record_row(m[i], fields)->Some_0;
            assert(rows.contains(r));
            let k = choose|k: int| 0 <= k < rows.len() && rows[k] == r;
            assert(coverage::row_matches(rows[k], vs));
        }
    }
}

// ---------------------------------------------------------------------------
// The bound of the search
// ---------------------------------------------------------------------------

/// A search that succeeds within a bound succeeds within every larger one.
pub proof fn law_longer_search_keeps_success(
    env: EnvV,
    cache: Seq<(Text, EnvV)>,
    m: Seq<Seq<PatternV>>,
    types: Seq<TypeV>,
    d: nat,
    e: nat,
)
    requires
        d <= e,
        exhaustiveness::covers_all(env, cache, m, types, d) is Ok,
    ensures
        exhaustiveness::covers_all(env, cache, m, types, e) is Ok,
    decreases d, 0nat, 0nat,
{
    if types.len() > 0 {
        let d1 = (d - 1) as nat;
        let e1 = (e - 1) as nat;
        let rest = types.skip(1);
        let none = Seq::<TypeV>::empty();
        match exhaustiveness::unwrapped(types[0]) {
            TypeV::Bool => {
                lemma_longer_ctor(env, cache, m, "true"@, none, rest, d1, e1);
                lemma_longer_ctor(env, cache, m, "false"@, none, rest, d1, e1);
            },
            TypeV::Unit => lemma_longer_ctor(env, cache, m, "()"@, none, rest, d1, e1),
            TypeV::Record(fields) => law_longer_search_keeps_success(
                env,
                cache,
                exhaustiveness::record_rows(Seq::empty(), m, fields, 0),
                exhaustiveness::field_types(fields) + rest,
                d1,
                e1,
            ),
            TypeV::List(inner) => law_longer_search_keeps_success(
                env,
                cache,
                m,
                seq![TypeV::UserDefined("List"@, seq![*inner])] + rest,
                d1,
                e1,
            ),
            TypeV::UserDefined(name, args) => {
                if exhaustiveness::all_irrefutable(m, 0) {
                    lemma_longer_default(env, cache, m, rest, d1, e1);
                } else if env::env_type(env, name) is Some && env::env_enum(env, name) is None {
                    law_longer_search_keeps_success(
                        env,
                        cache,
                        m,
                        seq![unify::expanded_record(env::env_type(env, name)->Some_0, args)] + rest,
                        d1,
                        e1,
                    );
                } else {
                    match exhaustiveness::resolved_enum(env, cache, name) {
                        Some(ed) => lemma_longer_variants(
                            env,
                            cache,
                            m,
                            env::bound_params(ed.type_params, args),
                            ed.variants,
                            0,
                            rest,
                            d1,
                            e1,
                        ),
                        None => lemma_longer_default(env, cache, m, rest, d1, e1),
                    }
                }
            },
            _ => lemma_longer_default(env, cache, m, rest, d1, e1),
        }
    }
}

proof fn lemma_longer_default(
    env: EnvV,
    cache: Seq<(Text, EnvV)>,
    m: Seq<Seq<PatternV>>,
    rest: Seq<TypeV>,
    d: nat,
    e: nat,
)
    requires
        d <= e,
        exhaustiveness::covers_default(env, cache, m, rest, d) is Ok,
    ensures
        exhaustiveness::covers_default(env, cache, m, rest, e) is Ok,
    decreases d, 1nat, 0nat,
{
    law_longer_search_keeps_success(env, cache, exhaustiveness::default_rows(Seq::empty(), m, 0), rest, d, e);
}

proof fn lemma_longer_ctor(
    env: EnvV,
    cache: Seq<(Text, EnvV)>,
    m: Seq<Seq<PatternV>>,
    ctor: Text,
    fields: Seq<TypeV>,
    rest: Seq<TypeV>,
    d: nat,
    e: nat,
)
    requires
        d <= e,
        exhaustiveness::covers_ctor(env, cache, m, ctor, fields, rest, d) is Ok,
    ensures
        exhaustiveness::covers_ctor(env, cache, m, ctor, fields, rest, e) is Ok,
    decreases d, 1nat, 0nat,
{
    let rows = exhaustiveness::ctor_rows(Seq::empty(), m, ctor, fields.len(), 0)->Ok_0;
    law_longer_search_keeps_success(env, cache, rows, fields + rest, d, e);
}

proof fn lemma_longer_variants(
    env: EnvV,
    cache: Seq<(Text, EnvV)>,
    m: Seq<Seq<PatternV>>,
    s: SubstV,
    variants: Seq<VariantDefV>,
    i: nat,
    rest: Seq<TypeV>,
    d: nat,
    e: nat,
)
    requires
        d <= e,
        exhaustiveness::covers_variants(env, cache, m, s, variants, i, rest, d) is Ok,
    ensures
        exhaustiveness::covers_variants(env, cache, m, s, variants, i, rest, e) is Ok,
    decreases d, 2nat, variants.len() - i,
{
    if i < variants.len() {
        let v = variants[i as int];
        lemma_longer_ctor(env, cache, m, v.name, exhaustiveness::ctor_field_types(s, v.fields), rest, d, e);
        lemma_longer_variants(env, cache, m, s, variants, i + 1, rest, d, e);
    }
}

/// No row of a matrix that fits types is empty.
proof fn lemma_no_row_empty(
    env: EnvV,
    cache: Seq<(Text, EnvV)>,
    m: Seq<Seq<PatternV>>,
    types: Seq<TypeV>,
    i: nat,
)
    requires
        types.len() > 0,
        rows_fit(env, cache, m, types),
    ensures
        !exhaustiveness::some_row_empty(m, i),
    decreases m.len() - i,
{
    if i < m.len() {
        assert(row_fits(env, cache, m[i as int], types));
        lemma_no_row_empty(env, cache, m, types, i + 1);
    }
}

// ---------------------------------------------------------------------------
// Completeness
// ---------------------------------------------------------------------------

/// The search on the rows of one constructor succeeds within some bound.
proof fn lemma_ctor_found(
    env: EnvV,
    cache: Seq<(Text, EnvV)>,
    m: Seq<Seq<PatternV>>,
    types: Seq<TypeV>,
    ctor: Text,
    fields: Seq<TypeV>,
) -> (d: nat)
    requires
        coverage::constructors_named(env, cache),
        types.len() > 0,
        fields.len() > 0 ==> coverage::constructor_name(ctor),
        rows_fit(env, cache, m, types),
        covered(env, cache, m, types),
        fields.len() == 0 || !exhaustiveness::all_irrefutable(m, 0),
        forall|p: PatternV| #[trigger]
            fits(env, cache, p, types[0]) ==> fits_ctor(env, cache, p, ctor, fields),
        forall|xs: Seq<ValueV>| #[trigger]
            coverage::values_of_types(env, cache, xs, fields) ==> coverage::value_of_type(
                env,
                cache,
                ValueV::Made(ctor, xs),
                types[0],
            ),
    ensures
        exhaustiveness::covers_ctor(env, cache, m, ctor, fields, types.skip(1), d) is Ok,
    decreases
            matrix_size(m, 0),
            (if exhaustiveness::all_irrefutable(m, 0) {
                types_steps(types)
            } else {
                0
            }),
            0nat,
{
    lemma_ctor_covered(env, cache, m, types, ctor, fields);
    lemma_types_steps_first(types);
    let rows = exhaustiveness::ctor_rows(Seq::empty(), m, ctor, fields.len(), 0)->Ok_0;
    if fields.len() == 0 {
        assert(fields + types.skip(1) =~= types.skip(1));
    }
    lemma_found(env, cache, rows, fields + types.skip(1))
}

/// The search on the constructors of a sum type from index `i` on succeeds within some bound.
proof fn lemma_variants_found(
    env: EnvV,
    cache: Seq<(Text, EnvV)>,
    m: Seq<Seq<PatternV>>,
    types: Seq<TypeV>,
    name: Text,
    args: Seq<TypeV>,
    ed: EnumDefV,
    i: nat,
) -> (d: nat)
    requires
        coverage::constructors_named(env, cache),
        types.len() > 0,
        exhaustiveness::unwrapped(types[0]) == TypeV::UserDefined(name, args),
        !(env::env_type(env, name) is Some && env::env_enum(env, name) is None),
        exhaustiveness::resolved_enum(env, cache, name) == Some(ed),
        rows_fit(env, cache, m, types),
        covered(env, cache, m, types),
        !exhaustiveness::all_irrefutable(m, 0),
    ensures
        exhaustiveness::covers_variants(
            env,
            cache,
            m,
            env::bound_params(ed.type_params, args),
            ed.variants,
            i,
            types.skip(1),
            d,
        ) is Ok,
    decreases matrix_size(m, 0), 0nat, ed.variants.len() - i + 1,
{
    if i < ed.variants.len() {
        let s = env::bound_params(ed.type_params, args);
        let v = ed.variants[i as int];
        let fields = exhaustiveness::ctor_field_types(s, v.fields);
        assert(coverage::constructor_name((exhaustiveness::resolved_enum(env, cache, name)->Some_0).variants[i as int].name));
        assert forall|p: PatternV| #[trigger] fits(env, cache, p, types[0]) implies fits_ctor(
            env,
            cache,
            p,
            v.name,
            fields,
        ) by {
            assert(fits_ctor(
                env,
                cache,
                p,
                ed.variants[i as int].name,
                exhaustiveness::ctor_field_types(s, ed.variants[i as int].fields),
            ));
        }
        assert forall|xs: Seq<ValueV>| #[trigger]
            coverage::values_of_types(env, cache, xs, fields) implies coverage::value_of_type(
            env,
            cache,
            ValueV::Made(v.name, xs),
            types[0],
        ) by {
            assert(ed.variants[i as int].name == v.name);
        }
        let a = lemma_ctor_found(env, cache, m, types, v.name, fields);
        let b = lemma_variants_found(env, cache, m, types, name, args, ed, i + 1);
        let d = if a < b {
            b
        } else {
            a
        };
        lemma_longer_ctor(env, cache, m, v.name, fields, types.skip(1), a, d);
        lemma_longer_variants(env, cache, m, s, ed.variants, i + 1, types.skip(1), b, d);
        d
    } else {
        0
    }
}

proof fn lemma_default_found(
    env: EnvV,
    cache: Seq<(Text, EnvV)>,
    m: Seq<Seq<PatternV>>,
    types: Seq<TypeV>,
) -> (d: nat)
    requires
        coverage::constructors_named(env, cache),
        types.len() > 0,
        rows_fit(env, cache, m, types),
        covered(env, cache, m, types),
        exhaustiveness::all_irrefutable(m, 0) || coverage::value_of_type(env, cache, ValueV::Other(0), types[0]),
    ensures
        exhaustiveness::covers_default(env, cache, m, types.skip(1), d) is Ok,
    decreases matrix_size(m, 0), types_steps(types), 0nat,
{
    lemma_default_covered(env, cache, m, types);
    lemma_types_steps_first(types);
    let rows = exhaustiveness::default_rows(Seq::empty(), m, 0);
    lemma_covered_has_a_row(env, cache, rows, types.skip(1));
    lemma_found(env, cache, rows, types.skip(1))
}

/// The search on a matrix with a row for all values succeeds within some bound.
#[verifier::spinoff_prover]
#[verifier::rlimit(60)]
proof fn lemma_found(
    env: EnvV,
    cache: Seq<(Text, EnvV)>,
    m: Seq<Seq<PatternV>>,
    types: Seq<TypeV>,
) -> (d: nat)
    requires
        coverage::constructors_named(env, cache),
        rows_fit(env, cache, m, types),
        covered(env, cache, m, types),
    ensures
        exhaustiveness::covers_all(env, cache, m, types, d) is Ok,
    decreases matrix_size(m, 0), types_steps(types), 1nat,
{
    lemma_covered_has_a_row(env, cache, m, types);
    if types.len() == 0 {
        0
    } else {
        lemma_no_row_empty(env, cache, m, types, 0);
        lemma_types_steps_first(types);
        let rest = types.skip(1);
        let none = Seq::<TypeV>::empty();
        match exhaustiveness::unwrapped(types[0]) {
            TypeV::Bool => {
                lemma_plain_ctor(env, cache, types[0], "true"@);
                lemma_plain_ctor(env, cache, types[0], "false"@);
                let a = lemma_ctor_found(env, cache, m, types, "true"@, none);
                let b = lemma_ctor_found(env, cache, m, types, "false"@, none);
                let d = if a < b {
                    b
                } else {
                    a
                };
                lemma_longer_ctor(env, cache, m, "true"@, none, rest, a, d);
                lemma_longer_ctor(env, cache, m, "false"@, none, rest, b, d);
                d + 1
            },
            TypeV::Unit => {
                lemma_plain_ctor(env, cache, types[0], "()"@);
                let a = lemma_ctor_found(env, cache, m, types, "()"@, none);
                a + 1
            },
            TypeV::Record(fields) => {
                lemma_record_covered(env, cache, m, types, fields);
                lemma_record_steps(fields);
                lemma_types_steps_both(exhaustiveness::field_types(fields), rest);
                let a = lemma_found(
                    env,
                    cache,
                    exhaustiveness::record_rows(Seq::empty(), m, fields, 0),
                    exhaustiveness::field_types(fields) + rest,
                );
                a + 1
            },
            TypeV::List(inner) => {
                let t = TypeV::UserDefined("List"@, seq![*inner]);
                lemma_same_cover(env, cache, m, types, t);
                lemma_types_steps_both(seq![t], rest);
                lemma_types_steps_one(t);
                let a = lemma_found(env, cache, m, seq![t] + rest);
                a + 1
            },
            TypeV::UserDefined(name, args) => {
                if exhaustiveness::all_irrefutable(m, 0) {
                    let a = lemma_default_found(env, cache, m, types);
                    a + 1
                } else if env::env_type(env, name) is Some && env::env_enum(env, name) is None {
                    let td = env::env_type(env, name)->Some_0;
                    let t = unify::expanded_record(td, args);
                    let fields = t->Record_0;
                    let ts = seq![t] + rest;
                    lemma_same_cover(env, cache, m, types, t);
                    assert(ts.skip(1) =~= rest);
                    lemma_no_row_empty(env, cache, m, ts, 0);
                    lemma_record_covered(env, cache, m, ts, fields);
                    let a = lemma_found(
                        env,
                        cache,
                        exhaustiveness::record_rows(Seq::empty(), m, fields, 0),
                        exhaustiveness::field_types(fields) + rest,
                    );
                    assert(exhaustiveness::covers_all(env, cache, m, ts, a + 1) is Ok);
                    a + 2
                } else {
                    match exhaustiveness::resolved_enum(env, cache, name) {
                        Some(ed) => {
                            let a = lemma_variants_found(env, cache, m, types, name, args, ed, 0);
                            a + 1
                        },
                        None => {
                            let a = lemma_default_found(env, cache, m, types);
                            a + 1
                        },
                    }
                }
            },
            _ => {
                let a = lemma_default_found(env, cache, m, types);
                a + 1
            },
        }
    }
}

/// The names that literals stand for make values of their types, and fit without arguments.
proof fn lemma_plain_ctor(env: EnvV, cache: Seq<(Text, EnvV)>, t: TypeV, ctor: Text)
    requires
        exhaustiveness::unwrapped(t) is Bool && (ctor == "true"@ || ctor == "false"@) || exhaustiveness::unwrapped(t) is Unit
            && ctor == "()"@,
    ensures
        forall|p: PatternV| #[trigger]
            fits(env, cache, p, t) ==> fits_ctor(env, cache, p, ctor, Seq::empty()),
        forall|xs: Seq<ValueV>| #[trigger]
            coverage::values_of_types(env, cache, xs, Seq::empty()) ==> coverage::value_of_type(
                env,
                cache,
                ValueV::Made(ctor, xs),
                t,
            ),
{
    assert forall|p: PatternV| #[trigger] fits(env, cache, p, t) implies fits_ctor(
        env,
        cache,
        p,
        ctor,
        Seq::empty(),
    ) by {
        assert(fits_plain(p));
    }
    assert forall|xs: Seq<ValueV>| #[trigger]
        coverage::values_of_types(env, cache, xs, Seq::empty()) implies coverage::value_of_type(
        env,
        cache,
        ValueV::Made(ctor, xs),
        t,
    ) by {
        assert(xs =~= Seq::empty());
    }
}

/// A type in place of one with the same values, which the same patterns fit.
proof fn lemma_same_cover(
    env: EnvV,
    cache: Seq<(Text, EnvV)>,
    m: Seq<Seq<PatternV>>,
    types: Seq<TypeV>,
    t: TypeV,
)
    requires
        types.len() > 0,
        rows_fit(env, cache, m, types),
        covered(env, cache, m, types),
        forall|p: PatternV| #[trigger]
            fits(env, cache, p, types[0]) ==> fits(env, cache, p, t),
        forall|v: ValueV| #[trigger]
            coverage::value_of_type(env, cache, v, t) ==> coverage::value_of_type(env, cache, v, types[0]),
    ensures
        rows_fit(env, cache, m, seq![t] + types.skip(1)),
        covered(env, cache, m, seq![t] + types.skip(1)),
{
    let ts = seq![t] + types.skip(1);
    assert forall|i: int| 0 <= i < m.len() implies row_fits(env, cache, #[trigger] m[i], ts) by {
        assert(row_fits(env, cache, m[i], types));
        assert forall|j: int| 0 <= j < m[i].len() implies fits(
            env,
            cache,
            #[trigger] m[i][j],
            ts[j],
        ) by {
            assert(fits(env, cache, m[i][j], types[j]));
        }
    }
    if !has_catch_all(m) {
        assert forall|vs: Seq<ValueV>| #[trigger]
            coverage::values_of_types(env, cache, vs, ts) implies coverage::some_row_matches(m, vs) by {
            assert(coverage::value_of_type(env, cache, vs[0], ts[0]));
            coverage::lemma_retyped(env, cache, vs, ts, types[0]);
            assert(seq![types[0]] + ts.skip(1) =~= types);
        }
    }
}

/// Whether the search for a value that no case matches ends within its bound: more room would
/// not change the answer.
pub open spec fn search_has_room(
    env: EnvV,
    cache: Seq<(Text, EnvV)>,
    t: TypeV,
    cases: Seq<MatchCaseV>,
) -> bool {
    forall|d: nat|
        d >= usize::MAX ==> #[trigger] exhaustiveness::covers_all(env, cache, exhaustiveness::case_rows(cases), seq![t], d)
            == exhaustiveness::covers_all(env, cache, exhaustiveness::case_rows(cases), seq![t], usize::MAX as nat)
}

proof fn lemma_exhaustive(
    env: EnvV,
    cache: Seq<(Text, EnvV)>,
    t: TypeV,
    cases: Seq<MatchCaseV>,
)
    requires
        coverage::constructors_named(env, cache),
        forall|i: int|
            0 <= i < cases.len() ==> fits(env, cache, (#[trigger] cases[i]).pattern.node, t),
        covered(env, cache, exhaustiveness::case_rows(cases), seq![t]),
        search_has_room(env, cache, t, cases),
    ensures
        exhaustiveness::exhaustive(env, cache, t, exhaustiveness::case_rows(cases)) is Ok,
{
    reveal(exhaustiveness::exhaustive);
    let rows = exhaustiveness::case_rows(cases);
    assert forall|i: int| 0 <= i < rows.len() implies row_fits(
        env,
        cache,
        #[trigger] rows[i],
        seq![t],
    ) by {
        assert(rows[i] == seq![cases[i].pattern.node]);
        assert(fits(env, cache, cases[i].pattern.node, t));
    }
    let d = lemma_found(env, cache, rows, seq![t]);
    let e = if d < usize::MAX as nat {
        usize::MAX as nat
    } else {
        d
    };
    law_longer_search_keeps_success(env, cache, rows, seq![t], d, e);
    assert(exhaustiveness::covers_all(env, cache, rows, seq![t], e) is Ok);
}

/// Where every value of a type matches the pattern of one of the cases, the cases are found to
/// cover the type: the patterns fit the type, every type has a value, and the search ends within
/// its bound.
pub proof fn law_covering_match_is_exhaustive(
    env: EnvV,
    cache: Seq<(Text, EnvV)>,
    t: TypeV,
    cases: Seq<MatchCaseV>,
)
    requires
        coverage::constructors_named(env, cache),
        types_have_values(env, cache),
        forall|i: int|
            0 <= i < cases.len() ==> fits(env, cache, (#[trigger] cases[i]).pattern.node, t),
        forall|v: ValueV| #[trigger]
            coverage::value_of_type(env, cache, v, t) ==> exists|i: int|
                0 <= i < cases.len() && coverage::pattern_matches((#[trigger] cases[i]).pattern.node, v),
        search_has_room(env, cache, t, cases),
    ensures
        exhaustiveness::exhaustive(env, cache, t, exhaustiveness::case_rows(cases)) is Ok,
{
    let rows = exhaustiveness::case_rows(cases);
    assert forall|vs: Seq<ValueV>| #[trigger]
        coverage::values_of_types(env, cache, vs, seq![t]) implies coverage::some_row_matches(rows, vs) by {
        let v = vs[0];
        assert(coverage::value_of_type(env, cache, v, seq![t][0]));
        let i = choose|i: int|
            0 <= i < cases.len() && coverage::pattern_matches((#[trigger] cases[i]).pattern.node, v);
        assert(rows[i] == seq![cases[i].pattern.node]);
        assert(coverage::row_matches(rows[i], vs)) by {
            assert(rows[i].len() == vs.len());
        }
    }
    lemma_exhaustive(env, cache, t, cases);
}

/// Cases among which one is a wildcard or a variable are found to cover every type that the
/// others fit, whether or not the type has values, where the search ends within its bound.
pub proof fn law_catch_all_is_exhaustive(
    env: EnvV,
    cache: Seq<(Text, EnvV)>,
    t: TypeV,
    cases: Seq<MatchCaseV>,
    k: int,
)
    requires
        coverage::constructors_named(env, cache),
        0 <= k < cases.len(),
        cases[k].pattern.node is Wildcard || cases[k].pattern.node is Variable,
        forall|i: int|
            0 <= i < cases.len() ==> fits(env, cache, (#[trigger] cases[i]).pattern.node, t),
        search_has_room(env, cache, t, cases),
    ensures
        exhaustiveness::exhaustive(env, cache, t, exhaustiveness::case_rows(cases)) is Ok,
{
    let rows = exhaustiveness::case_rows(cases);
    assert(rows[k] == seq![cases[k].pattern.node]);
    assert(catches_all(rows[k]));
    lemma_exhaustive(env, cache, t, cases);
}

} // verus!
