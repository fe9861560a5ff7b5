//! A match that passes the check of its cases has a case for every value.

use crate::ast::{MatchCaseV, PatternV, VariantDefV};
use crate::text;
use crate::text::Text;
use crate::typecheck::env;
use crate::typecheck::env::EnvV;
use crate::typecheck::exhaustiveness;
use crate::typecheck::subst::SubstV;
use crate::typecheck::unify;
use crate::types::{Literal, LiteralV, Spanned, TypeV};
use vstd::prelude::*;

verus! {

// ---------------------------------------------------------------------------
// Values, and the patterns that they match
// ---------------------------------------------------------------------------

/// A value, as far as patterns can tell: truth values and the unit value are constructors
/// without arguments.
pub enum ValueV {
    Made(Text, Seq<ValueV>),
    Record(Seq<(Text, ValueV)>),
    Literal(LiteralV),
    Other(int),
}

/// Whether a value matches a pattern. A record matches where each of its fields matches the
/// pattern that the record pattern gives that field. The arguments of a constructor pattern meet
/// the fields of the constructor in the order in which they are written, as they do in the check
/// of the cases, which does not look at their labels.
pub open spec fn pattern_matches(p: PatternV, v: ValueV) -> bool
    decreases v, 0nat,
{
    match p {
        PatternV::Wildcard => true,
        PatternV::Variable(_, _) => true,
        PatternV::Constructor(c, args) => match v {
            ValueV::Made(name, vs) => {
                &&& text::after_last_char(c, '.') == name
                &&& args.len() == vs.len()
                &&& row_matches(exhaustiveness::arg_patterns(args), vs)
            },
            _ => false,
        },
        PatternV::Literal(l) => match v {
            ValueV::Made(name, vs) => exhaustiveness::literal_ctor(l) == name && vs.len() == 0,
            ValueV::Literal(m) => l == m,
            _ => false,
        },
        PatternV::Record(pfs, _) => match v {
            ValueV::Record(fs) => fields_match(pfs, fs),
            _ => false,
        },
    }
}

/// Whether the fields of a record match the patterns that a record pattern gives them.
pub open spec fn fields_match(
    pfs: Seq<(Text, Spanned<PatternV>)>,
    fs: Seq<(Text, ValueV)>,
) -> bool
    decreases fs, 0nat,
{
    forall|i: int|
        0 <= i < fs.len() ==> pattern_matches(
            exhaustiveness::field_pattern(pfs, (#[trigger] fs[i]).0),
            fs[i].1,
        )
}

/// Whether values match the patterns of a row, one by one.
pub open spec fn row_matches(row: Seq<PatternV>, vs: Seq<ValueV>) -> bool
    decreases vs, 0nat,
{
    &&& row.len() == vs.len()
    &&& forall|i: int| 0 <= i < vs.len() ==> pattern_matches(row[i], #[trigger] vs[i])
}

/// Whether values match one of the rows of a matrix.
pub open spec fn some_row_matches(matrix: Seq<Seq<PatternV>>, vs: Seq<ValueV>) -> bool {
    exists|i: int| 0 <= i < matrix.len() && row_matches(#[trigger] matrix[i], vs)
}

// ---------------------------------------------------------------------------
// The values of a type
// ---------------------------------------------------------------------------

/// How far a type is from one that values can be told by.
pub open spec fn rank(t: TypeV) -> nat {
    match exhaustiveness::unwrapped(t) {
        TypeV::List(_) => 2,
        TypeV::UserDefined(_, _) => 1,
        _ => 0,
    }
}

/// Whether a value is one of a type. The values of a sum type are made by one of its
/// constructors, with arguments of the types of its fields; a list is a value of the sum type
/// `List`; of types that patterns cannot take apart, any value can be one.
pub open spec fn value_of_type(env: EnvV, cache: Seq<(Text, EnvV)>, v: ValueV, t: TypeV) -> bool
    decreases v, rank(t),
{
    match exhaustiveness::unwrapped(t) {
        TypeV::Bool => v == ValueV::Made("true"@, Seq::empty()) || v == ValueV::Made(
            "false"@,
            Seq::empty(),
        ),
        TypeV::Unit => v == ValueV::Made("()"@, Seq::empty()),
        TypeV::Record(fields) => match v {
            ValueV::Record(fs) => record_values(env, cache, fs, fields),
            _ => false,
        },
        TypeV::List(inner) => value_of_type(
            env,
            cache,
            v,
            TypeV::UserDefined("List"@, seq![*inner]),
        ),
        TypeV::UserDefined(name, args) => {
            if env::env_type(env, name) is Some && env::env_enum(env, name) is None {
                value_of_type(env, cache, v, unify::expanded_record(env::env_type(env, name)->Some_0, args))
            } else {
                match exhaustiveness::resolved_enum(env, cache, name) {
                    Some(ed) => match v {
                        ValueV::Made(c, vs) => exists|i: int|
                            0 <= i < ed.variants.len() && (#[trigger] ed.variants[i]).name == c
                                && values_of_types(
                                env,
                                cache,
                                vs,
                                exhaustiveness::ctor_field_types(
                                    env::bound_params(ed.type_params, args),
                                    ed.variants[i].fields,
                                ),
                            ),
                        _ => false,
                    },
                    None => true,
                }
            }
        },
        _ => true,
    }
}

/// Whether values are of the given types, one by one.
pub open spec fn values_of_types(
    env: EnvV,
    cache: Seq<(Text, EnvV)>,
    vs: Seq<ValueV>,
    ts: Seq<TypeV>,
) -> bool
    decreases vs, 0nat,
{
    &&& vs.len() == ts.len()
    &&& forall|i: int|
        0 <= i < vs.len() ==> value_of_type(env, cache, #[trigger] vs[i], ts[i])
}

/// Whether fields have the names and are of the types that a record type gives them.
pub open spec fn record_values(
    env: EnvV,
    cache: Seq<(Text, EnvV)>,
    fs: Seq<(Text, ValueV)>,
    fields: Seq<(Text, TypeV)>,
) -> bool
    decreases fs, 0nat,
{
    &&& fs.len() == fields.len()
    &&& forall|i: int|
        0 <= i < fs.len() ==> (#[trigger] fs[i]).0 == fields[i].0 && value_of_type(
            env,
            cache,
            fs[i].1,
            fields[i].1,
        )
}

/// Whether a name can be that of a constructor: literals stand for others.
pub open spec fn constructor_name(name: Text) -> bool {
    name != "true"@ && name != "false"@ && name != "()"@ && name != ""@
}

/// Whether the constructors of all sum types have names that constructors can have.
pub open spec fn constructors_named(env: EnvV, cache: Seq<(Text, EnvV)>) -> bool {
    forall|name: Text, i: int|
        (exhaustiveness::resolved_enum(env, cache, name) matches Some(ed) && 0 <= i < ed.variants.len())
            ==> constructor_name(
            (#[trigger] (exhaustiveness::resolved_enum(env, cache, name)->Some_0).variants[i]).name,
        )
}

// ---------------------------------------------------------------------------
// Rows of matrices
// ---------------------------------------------------------------------------

/// Whether all rows of a matrix have a width.
pub open spec fn is_wide(matrix: Seq<Seq<PatternV>>, n: nat) -> bool {
    forall|i: int| 0 <= i < matrix.len() ==> (#[trigger] matrix[i]).len() == n
}

pub proof fn lemma_split_row(a: Seq<PatternV>, b: Seq<PatternV>, xs: Seq<ValueV>, ys: Seq<ValueV>)
    requires
        a.len() == xs.len(),
        row_matches(a + b, xs + ys),
    ensures
        row_matches(a, xs),
        row_matches(b, ys),
{
    assert forall|i: int| 0 <= i < xs.len() implies pattern_matches(a[i], #[trigger] xs[i]) by {
        assert((xs + ys)[i] == xs[i]);
        assert((a + b)[i] == a[i]);
    }
    assert forall|i: int| 0 <= i < ys.len() implies pattern_matches(b[i], #[trigger] ys[i]) by {
        assert((xs + ys)[xs.len() + i] == ys[i]);
        assert((a + b)[a.len() + i] == b[i]);
    }
}

pub proof fn lemma_whole_row(row: Seq<PatternV>, vs: Seq<ValueV>)
    requires
        row.len() == vs.len(),
        vs.len() > 0,
        pattern_matches(row[0], vs[0]),
        row_matches(row.skip(1), vs.skip(1)),
    ensures
        row_matches(row, vs),
{
    assert forall|i: int| 0 <= i < vs.len() implies pattern_matches(row[i], #[trigger] vs[i]) by {
        if i > 0 {
            assert(vs.skip(1)[i - 1] == vs[i]);
            assert(row.skip(1)[i - 1] == row[i]);
        }
    }
}

/// A row that is specialised to a constructor matches the arguments of that constructor exactly
/// where the row itself matches the value.
proof fn lemma_ctor_row(row: Seq<PatternV>, ctor: Text, xs: Seq<ValueV>, rest: Seq<ValueV>)
    requires
        row.len() == rest.len() + 1,
        xs.len() > 0 ==> constructor_name(ctor),
        exhaustiveness::ctor_row(row, ctor, xs.len()) matches Ok(Some(r)) && row_matches(r, xs + rest),
    ensures
        row_matches(row, seq![ValueV::Made(ctor, xs)] + rest),
{
    let v = ValueV::Made(ctor, xs);
    let vs = seq![v] + rest;
    let r = exhaustiveness::ctor_row(row, ctor, xs.len())->Ok_0->Some_0;
    assert(vs.skip(1) =~= rest);
    match row[0] {
        PatternV::Constructor(c, args) => {
            lemma_split_row(exhaustiveness::arg_patterns(args), row.skip(1), xs, rest);
        },
        PatternV::Literal(l) => {
            assert(xs.len() == 0);
            assert(xs + rest =~= rest);
        },
        PatternV::Record(_, _) => {},
        _ => {
            lemma_split_row(exhaustiveness::wildcards(xs.len()), row.skip(1), xs, rest);
        },
    }
    assert(pattern_matches(row[0], v));
    lemma_whole_row(row, vs);
}

pub proof fn lemma_ctor_rows(
    acc: Seq<Seq<PatternV>>,
    matrix: Seq<Seq<PatternV>>,
    ctor: Text,
    arity: nat,
    i: nat,
    n: nat,
)
    requires
        i <= matrix.len(),
        is_wide(matrix, n + 1),
        arity > 0 ==> constructor_name(ctor),
        is_wide(acc, arity + n),
    ensures
        exhaustiveness::ctor_rows(acc, matrix, ctor, arity, i) matches Ok(rows) ==> {
            &&& is_wide(rows, arity + n)
            &&& forall|k: int|
                0 <= k < rows.len() ==> acc.contains(#[trigger] rows[k]) || from_row(
                    matrix,
                    ctor,
                    arity,
                    rows[k],
                )
        },
    decreases matrix.len() - i,
{
    if i < matrix.len() {
        assert(matrix[i as int].len() == n + 1);
        match exhaustiveness::ctor_row(matrix[i as int], ctor, arity) {
            Ok(Some(r)) => {
                assert(r.len() == arity + n);
                assert(is_wide(acc.push(r), arity + n));
                lemma_ctor_rows(acc.push(r), matrix, ctor, arity, i + 1, n);
                if let Ok(rows) = exhaustiveness::ctor_rows(acc, matrix, ctor, arity, i) {
                    assert forall|k: int| 0 <= k < rows.len() implies acc.contains(
                        #[trigger] rows[k],
                    ) || from_row(matrix, ctor, arity, rows[k]) by {
                        if acc.push(r).contains(rows[k]) {
                            let j = choose|j: int|
                                0 <= j < acc.push(r).len() && acc.push(r)[j] == rows[k];
                            if j < acc.len() {
                                assert(acc[j] == rows[k]);
                            } else {
                                assert(exhaustiveness::ctor_row(matrix[i as int], ctor, arity) == Ok::<
                                    Option<Seq<PatternV>>,
                                    Text,
                                >(Some(rows[k])));
                            }
                        }
                    }
                }
            },
            Ok(None) => {
                lemma_ctor_rows(acc, matrix, ctor, arity, i + 1, n);
            },
            Err(_) => {},
        }
    } else {
        assert forall|k: int| 0 <= k < acc.len() implies acc.contains(#[trigger] acc[k]) by {}
    }
}

/// Whether a row is what a row of a matrix becomes under a constructor.
pub open spec fn from_row(
    matrix: Seq<Seq<PatternV>>,
    ctor: Text,
    arity: nat,
    row: Seq<PatternV>,
) -> bool {
    exists|i: int|
        0 <= i < matrix.len() && exhaustiveness::ctor_row(#[trigger] matrix[i], ctor, arity) == Ok::<
            Option<Seq<PatternV>>,
            Text,
        >(Some(row))
}

pub proof fn lemma_default_rows(
    acc: Seq<Seq<PatternV>>,
    matrix: Seq<Seq<PatternV>>,
    i: nat,
    n: nat,
)
    requires
        i <= matrix.len(),
        is_wide(matrix, n + 1),
        is_wide(acc, n),
    ensures
        is_wide(exhaustiveness::default_rows(acc, matrix, i), n),
        forall|k: int|
            0 <= k < exhaustiveness::default_rows(acc, matrix, i).len() ==> acc.contains(
                #[trigger] exhaustiveness::default_rows(acc, matrix, i)[k],
            ) || from_default(matrix, exhaustiveness::default_rows(acc, matrix, i)[k]),
    decreases matrix.len() - i,
{
    if i < matrix.len() {
        let row = matrix[i as int];
        assert(row.len() == n + 1);
        if exhaustiveness::irrefutable(row[0]) {
            let r = row.skip(1);
            assert(is_wide(acc.push(r), n));
            lemma_default_rows(acc.push(r), matrix, i + 1, n);
            let rows = exhaustiveness::default_rows(acc, matrix, i);
            assert forall|k: int| 0 <= k < rows.len() implies acc.contains(#[trigger] rows[k])
                || from_default(matrix, rows[k]) by {
                if acc.push(r).contains(rows[k]) {
                    let j = choose|j: int|
                        0 <= j < acc.push(r).len() && acc.push(r)[j] == rows[k];
                    if j < acc.len() {
                        assert(acc[j] == rows[k]);
                    } else {
                        assert(exhaustiveness::irrefutable(matrix[i as int][0]) && matrix[i as int].skip(1)
                            == rows[k]);
                    }
                }
            }
        } else {
            lemma_default_rows(acc, matrix, i + 1, n);
        }
    } else {
        assert forall|k: int| 0 <= k < acc.len() implies acc.contains(#[trigger] acc[k]) by {}
    }
}

/// Whether a row is what follows a pattern that matches every value.
pub open spec fn from_default(matrix: Seq<Seq<PatternV>>, row: Seq<PatternV>) -> bool {
    exists|i: int|
        0 <= i < matrix.len() && exhaustiveness::irrefutable((#[trigger] matrix[i])[0]) && matrix[i].skip(1)
            == row
}

/// What a row becomes when its first value is taken apart into the fields of a record.
pub open spec fn record_row(row: Seq<PatternV>, fields: Seq<(Text, TypeV)>) -> Option<
    Seq<PatternV>,
> {
    match row[0] {
        PatternV::Record(pfs, _) => Some(exhaustiveness::field_patterns(pfs, fields) + row.skip(1)),
        PatternV::Wildcard => Some(exhaustiveness::wildcards(fields.len()) + row.skip(1)),
        PatternV::Variable(_, _) => Some(exhaustiveness::wildcards(fields.len()) + row.skip(1)),
        _ => None,
    }
}

/// Whether a row is what a row of a matrix becomes when a record is taken apart.
pub open spec fn from_record(
    matrix: Seq<Seq<PatternV>>,
    fields: Seq<(Text, TypeV)>,
    row: Seq<PatternV>,
) -> bool {
    exists|i: int|
        0 <= i < matrix.len() && record_row(#[trigger] matrix[i], fields) == Some(row)
}

pub proof fn lemma_record_rows(
    acc: Seq<Seq<PatternV>>,
    matrix: Seq<Seq<PatternV>>,
    fields: Seq<(Text, TypeV)>,
    i: nat,
    n: nat,
)
    requires
        i <= matrix.len(),
        is_wide(matrix, n + 1),
        is_wide(acc, fields.len() + n),
    ensures
        is_wide(exhaustiveness::record_rows(acc, matrix, fields, i), fields.len() + n),
        forall|k: int|
            0 <= k < exhaustiveness::record_rows(acc, matrix, fields, i).len() ==> acc.contains(
                #[trigger] exhaustiveness::record_rows(acc, matrix, fields, i)[k],
            ) || from_record(matrix, fields, exhaustiveness::record_rows(acc, matrix, fields, i)[k]),
    decreases matrix.len() - i,
{
    if i < matrix.len() {
        let row = matrix[i as int];
        assert(row.len() == n + 1);
        match record_row(row, fields) {
            Some(r) => {
                assert(is_wide(acc.push(r), fields.len() + n));
                lemma_record_rows(acc.push(r), matrix, fields, i + 1, n);
                let rows = exhaustiveness::record_rows(acc, matrix, fields, i);
                assert forall|k: int| 0 <= k < rows.len() implies acc.contains(
                    #[trigger] rows[k],
                ) || from_record(matrix, fields, rows[k]) by {
                    if acc.push(r).contains(rows[k]) {
                        let j = choose|j: int|
                            0 <= j < acc.push(r).len() && acc.push(r)[j] == rows[k];
                        if j < acc.len() {
                            assert(acc[j] == rows[k]);
                        } else {
                            assert(record_row(matrix[i as int], fields) == Some(rows[k]));
                        }
                    }
                }
            },
            None => {
                lemma_record_rows(acc, matrix, fields, i + 1, n);
            },
        }
    } else {
        assert forall|k: int| 0 <= k < acc.len() implies acc.contains(#[trigger] acc[k]) by {}
    }
}

/// The values of the fields of a record.
pub open spec fn field_values(fs: Seq<(Text, ValueV)>) -> Seq<ValueV> {
    fs.map_values(|f: (Text, ValueV)| f.1)
}

proof fn lemma_record_row(
    row: Seq<PatternV>,
    fields: Seq<(Text, TypeV)>,
    fs: Seq<(Text, ValueV)>,
    rest: Seq<ValueV>,
)
    requires
        row.len() == rest.len() + 1,
        fs.len() == fields.len(),
        forall|i: int| 0 <= i < fs.len() ==> (#[trigger] fs[i]).0 == fields[i].0,
        record_row(row, fields) matches Some(r) && row_matches(r, field_values(fs) + rest),
    ensures
        row_matches(row, seq![ValueV::Record(fs)] + rest),
{
    let v = ValueV::Record(fs);
    let vs = seq![v] + rest;
    let xs = field_values(fs);
    assert(vs.skip(1) =~= rest);
    match row[0] {
        PatternV::Record(pfs, _) => {
            let ps = exhaustiveness::field_patterns(pfs, fields);
            lemma_split_row(ps, row.skip(1), xs, rest);
            assert forall|i: int| 0 <= i < fs.len() implies pattern_matches(
                exhaustiveness::field_pattern(pfs, (#[trigger] fs[i]).0),
                fs[i].1,
            ) by {
                assert(xs[i] == fs[i].1);
                assert(ps[i] == exhaustiveness::field_pattern(pfs, fields[i].0));
            }
            assert(fields_match(pfs, fs));
        },
        _ => {
            lemma_split_row(exhaustiveness::wildcards(fields.len()), row.skip(1), xs, rest);
        },
    }
    assert(pattern_matches(row[0], v));
    lemma_whole_row(row, vs);
}

// ---------------------------------------------------------------------------
// Soundness
// ---------------------------------------------------------------------------

proof fn lemma_covers_all(
    env: EnvV,
    cache: Seq<(Text, EnvV)>,
    matrix: Seq<Seq<PatternV>>,
    types: Seq<TypeV>,
    depth: nat,
    vs: Seq<ValueV>,
)
    requires
        constructors_named(env, cache),
        is_wide(matrix, types.len()),
        values_of_types(env, cache, vs, types),
        exhaustiveness::covers_all(env, cache, matrix, types, depth) is Ok,
    ensures
        some_row_matches(matrix, vs),
    decreases depth, 0nat, 0nat,
{
    if types.len() == 0 {
        assert(matrix[0].len() == 0);
        assert(row_matches(matrix[0], vs));
    } else {
        let d = (depth - 1) as nat;
        let rest = types.skip(1);
        let v = vs[0];
        let others = vs.skip(1);
        assert(value_of_type(env, cache, v, types[0]));
        assert(values_of_types(env, cache, others, rest)) by {
            assert forall|i: int| 0 <= i < others.len() implies value_of_type(
                env,
                cache,
                #[trigger] others[i],
                rest[i],
            ) by {
                assert(others[i] == vs[i + 1]);
            }
        }
        assert(vs =~= seq![v] + others);
        match exhaustiveness::unwrapped(types[0]) {
            TypeV::Bool => {
                let none = Seq::<TypeV>::empty();
                let c = v->Made_0;
                assert(v == ValueV::Made(c, Seq::empty()));
                assert(values_of_types(env, cache, Seq::<ValueV>::empty(), none));
                lemma_covers_ctor(
                    env,
                    cache,
                    matrix,
                    c,
                    none,
                    rest,
                    d,
                    Seq::empty(),
                    others,
                );
            },
            TypeV::Unit => {
                let none = Seq::<TypeV>::empty();
                assert(values_of_types(env, cache, Seq::<ValueV>::empty(), none));
                lemma_covers_ctor(
                    env,
                    cache,
                    matrix,
                    "()"@,
                    none,
                    rest,
                    d,
                    Seq::empty(),
                    others,
                );
            },
            TypeV::Record(fields) => {
                let fs = v->Record_0;
                assert(record_values(env, cache, fs, fields));
                lemma_record_rows(Seq::empty(), matrix, fields, 0, rest.len());
                let rows = exhaustiveness::record_rows(Seq::empty(), matrix, fields, 0);
                let xs = field_values(fs);
                assert(values_of_types(env, cache, xs + others, exhaustiveness::field_types(fields) + rest)) by {
                    assert forall|i: int| 0 <= i < (xs + others).len() implies value_of_type(
                        env,
                        cache,
                        #[trigger] (xs + others)[i],
                        (exhaustiveness::field_types(fields) + rest)[i],
                    ) by {
                        if i < xs.len() {
                            assert(fs[i].0 == fields[i].0);
                        } else {
                            assert((xs + others)[i] == others[i - xs.len()]);
                        }
                    }
                }
                lemma_covers_all(env, cache, rows, exhaustiveness::field_types(fields) + rest, d, xs + others);
                let k = choose|k: int|
                    0 <= k < rows.len() && row_matches(#[trigger] rows[k], xs + others);
                assert(from_record(matrix, fields, rows[k]));
                let i = choose|i: int|
                    0 <= i < matrix.len() && record_row(#[trigger] matrix[i], fields) == Some(
                        rows[k],
                    );
                lemma_record_row(matrix[i], fields, fs, others);
                assert(row_matches(matrix[i], vs));
            },
            TypeV::List(inner) => {
                let t = TypeV::UserDefined("List"@, seq![*inner]);
                let ts = seq![t] + rest;
                lemma_retyped(env, cache, vs, types, t);
                lemma_covers_all(env, cache, matrix, ts, d, vs);
            },
            TypeV::UserDefined(name, args) => {
                lemma_covers_named(env, cache, matrix, types, name, args, depth, vs);
            },
            _ => {
                lemma_covers_default(env, cache, matrix, rest, d, v, others);
            },
        }
    }
}

pub proof fn lemma_retyped(
    env: EnvV,
    cache: Seq<(Text, EnvV)>,
    vs: Seq<ValueV>,
    types: Seq<TypeV>,
    t: TypeV,
)
    requires
        types.len() > 0,
        values_of_types(env, cache, vs, types),
        value_of_type(env, cache, vs[0], t),
    ensures
        values_of_types(env, cache, vs, seq![t] + types.skip(1)),
{
    let ts = seq![t] + types.skip(1);
    assert forall|i: int| 0 <= i < vs.len() implies value_of_type(
        env,
        cache,
        #[trigger] vs[i],
        ts[i],
    ) by {
        if i > 0 {
            assert(ts[i] == types[i]);
        }
    }
}

proof fn lemma_covers_named(
    env: EnvV,
    cache: Seq<(Text, EnvV)>,
    matrix: Seq<Seq<PatternV>>,
    types: Seq<TypeV>,
    name: Text,
    args: Seq<TypeV>,
    depth: nat,
    vs: Seq<ValueV>,
)
    requires
        constructors_named(env, cache),
        types.len() > 0,
        depth > 0,
        exhaustiveness::unwrapped(types[0]) == TypeV::UserDefined(name, args),
        is_wide(matrix, types.len()),
        values_of_types(env, cache, vs, types),
        values_of_types(env, cache, vs.skip(1), types.skip(1)),
        exhaustiveness::covers_all(env, cache, matrix, types, depth) is Ok,
    ensures
        some_row_matches(matrix, vs),
    decreases (depth - 1) as nat, 3nat, 0nat,
{
    let d = (depth - 1) as nat;
    let rest = types.skip(1);
    let v = vs[0];
    let others = vs.skip(1);
    assert(vs =~= seq![v] + others);
    assert(value_of_type(env, cache, v, types[0]));
    if exhaustiveness::all_irrefutable(matrix, 0) {
        lemma_covers_default(env, cache, matrix, rest, d, v, others);
    } else if env::env_type(env, name) is Some && env::env_enum(env, name) is None {
        let t = unify::expanded_record(env::env_type(env, name)->Some_0, args);
        lemma_retyped(env, cache, vs, types, t);
        lemma_covers_all(env, cache, matrix, seq![t] + rest, d, vs);
    } else {
        match exhaustiveness::resolved_enum(env, cache, name) {
            Some(ed) => {
                let s = env::bound_params(ed.type_params, args);
                let c = v->Made_0;
                let xs = v->Made_1;
                let i = choose|i: int|
                    0 <= i < ed.variants.len() && (#[trigger] ed.variants[i]).name == c
                        && values_of_types(
                        env,
                        cache,
                        xs,
                        exhaustiveness::ctor_field_types(s, ed.variants[i].fields),
                    );
                assert(constructor_name(ed.variants[i].name));
                lemma_variant_covered(
                    env,
                    cache,
                    matrix,
                    s,
                    ed.variants,
                    0,
                    rest,
                    d,
                    i,
                );
                lemma_covers_ctor(
                    env,
                    cache,
                    matrix,
                    c,
                    exhaustiveness::ctor_field_types(s, ed.variants[i].fields),
                    rest,
                    d,
                    xs,
                    others,
                );
                assert(v == ValueV::Made(c, xs));
            },
            None => {
                lemma_covers_default(env, cache, matrix, rest, d, v, others);
            },
        }
    }
}

proof fn lemma_variant_covered(
    env: EnvV,
    cache: Seq<(Text, EnvV)>,
    matrix: Seq<Seq<PatternV>>,
    s: SubstV,
    variants: Seq<VariantDefV>,
    i: nat,
    rest: Seq<TypeV>,
    depth: nat,
    k: int,
)
    requires
        i <= k < variants.len(),
        exhaustiveness::covers_variants(env, cache, matrix, s, variants, i, rest, depth) is Ok,
    ensures
        exhaustiveness::covers_ctor(
            env,
            cache,
            matrix,
            variants[k].name,
            exhaustiveness::ctor_field_types(s, variants[k].fields),
            rest,
            depth,
        ) is Ok,
    decreases k - i,
{
    if i < k {
        lemma_variant_covered(env, cache, matrix, s, variants, i + 1, rest, depth, k);
    }
}

proof fn lemma_covers_default(
    env: EnvV,
    cache: Seq<(Text, EnvV)>,
    matrix: Seq<Seq<PatternV>>,
    rest: Seq<TypeV>,
    depth: nat,
    v: ValueV,
    others: Seq<ValueV>,
)
    requires
        constructors_named(env, cache),
        is_wide(matrix, rest.len() + 1),
        values_of_types(env, cache, others, rest),
        exhaustiveness::covers_default(env, cache, matrix, rest, depth) is Ok,
    ensures
        some_row_matches(matrix, seq![v] + others),
    decreases depth, 1nat, 0nat,
{
    lemma_default_rows(Seq::empty(), matrix, 0, rest.len());
    let rows = exhaustiveness::default_rows(Seq::empty(), matrix, 0);
    lemma_covers_all(env, cache, rows, rest, depth, others);
    let k = choose|k: int| 0 <= k < rows.len() && row_matches(#[trigger] rows[k], others);
    assert(from_default(matrix, rows[k]));
    let i = choose|i: int|
        0 <= i < matrix.len() && exhaustiveness::irrefutable((#[trigger] matrix[i])[0]) && matrix[i].skip(1)
            == rows[k];
    let vs = seq![v] + others;
    assert(vs.skip(1) =~= others);
    assert(pattern_matches(matrix[i][0], v));
    lemma_whole_row(matrix[i], vs);
    assert(row_matches(matrix[i], vs));
}

proof fn lemma_covers_ctor(
    env: EnvV,
    cache: Seq<(Text, EnvV)>,
    matrix: Seq<Seq<PatternV>>,
    ctor: Text,
    fields: Seq<TypeV>,
    rest: Seq<TypeV>,
    depth: nat,
    xs: Seq<ValueV>,
    others: Seq<ValueV>,
)
    requires
        constructors_named(env, cache),
        fields.len() > 0 ==> constructor_name(ctor),
        is_wide(matrix, rest.len() + 1),
        values_of_types(env, cache, xs, fields),
        values_of_types(env, cache, others, rest),
        exhaustiveness::covers_ctor(env, cache, matrix, ctor, fields, rest, depth) is Ok,
    ensures
        some_row_matches(matrix, seq![ValueV::Made(ctor, xs)] + others),
    decreases depth, 1nat, 0nat,
{
    lemma_ctor_rows(Seq::empty(), matrix, ctor, fields.len(), 0, rest.len());
    let rows = exhaustiveness::ctor_rows(Seq::empty(), matrix, ctor, fields.len(), 0)->Ok_0;
    assert(values_of_types(env, cache, xs + others, fields + rest)) by {
        assert forall|i: int| 0 <= i < (xs + others).len() implies value_of_type(
            env,
            cache,
            #[trigger] (xs + others)[i],
            (fields + rest)[i],
        ) by {
            if i < xs.len() {
                assert((xs + others)[i] == xs[i]);
            } else {
                assert((xs + others)[i] == others[i - xs.len()]);
            }
        }
    }
    lemma_covers_all(env, cache, rows, fields + rest, depth, xs + others);
    let k = choose|k: int| 0 <= k < rows.len() && row_matches(#[trigger] rows[k], xs + others);
    assert(from_row(matrix, ctor, fields.len(), rows[k]));
    let i = choose|i: int|
        0 <= i < matrix.len() && exhaustiveness::ctor_row(#[trigger] matrix[i], ctor, fields.len()) == Ok::<
            Option<Seq<PatternV>>,
            Text,
        >(Some(rows[k]));
    lemma_ctor_row(matrix[i], ctor, xs, others);
}

/// Where the cases of a match are found to cover a type, every value of that type matches the
/// pattern of one of the cases. This speaks of patterns whose arguments are written in the order
/// of the fields: where labels put them in another order, they are taken as written.
pub proof fn law_exhaustive_match_covers_every_value(
    env: EnvV,
    cache: Seq<(Text, EnvV)>,
    t: TypeV,
    cases: Seq<MatchCaseV>,
    v: ValueV,
)
    requires
        constructors_named(env, cache),
        value_of_type(env, cache, v, t),
        exhaustiveness::exhaustive(env, cache, t, exhaustiveness::case_rows(cases)) is Ok,
    ensures
        exists|i: int|
            0 <= i < cases.len() && pattern_matches((#[trigger] cases[i]).pattern.node, v),
{
    reveal(exhaustiveness::exhaustive);
    let rows = exhaustiveness::case_rows(cases);
    let vs = seq![v];
    assert(values_of_types(env, cache, vs, seq![t]));
    lemma_covers_all(env, cache, rows, seq![t], usize::MAX as nat, vs);
    let i = choose|i: int| 0 <= i < rows.len() && row_matches(#[trigger] rows[i], vs);
    assert(rows[i] == seq![cases[i].pattern.node]);
    assert(pattern_matches(rows[i][0], vs[0]));
}

} // verus!
