//! What substitutions, their composition and unification promise.

use crate::table;
use crate::text::Text;
use crate::typecheck::subst;
use crate::typecheck::subst::SubstV;
use crate::types::TypeV;
use vstd::prelude::*;

verus! {

// ---------------------------------------------------------------------------
// Substitutions
// ---------------------------------------------------------------------------

/// Whether a substitution changes none of the variables that occur in a type.
pub open spec fn leaves_alone(s: SubstV, t: TypeV) -> bool
    decreases t, 0nat,
{
    match t {
        TypeV::Var(n) => table::lookup(s, n) is None || table::lookup(s, n) == Some(t),
        TypeV::UserDefined(_, args) => leaves_list_alone(s, args),
        TypeV::Arrow(p, r, q, e) => {
            leaves_fields_alone(s, p) && leaves_alone(s, *r) && leaves_alone(s, *q)
                && leaves_alone(s, *e)
        },
        TypeV::Ref(i) => leaves_alone(s, *i),
        TypeV::Linear(i) => leaves_alone(s, *i),
        TypeV::Lazy(i) => leaves_alone(s, *i),
        TypeV::Borrow(i) => leaves_alone(s, *i),
        TypeV::Array(i) => leaves_alone(s, *i),
        TypeV::List(i) => leaves_alone(s, *i),
        TypeV::Handler(_, i) => leaves_alone(s, *i),
        TypeV::Row(es, tail) => leaves_list_alone(s, es) && match tail {
            Some(x) => leaves_alone(s, *x),
            None => true,
        },
        TypeV::Record(fs) => leaves_fields_alone(s, fs),
        _ => true,
    }
}

/// `leaves_alone` on each type of a list.
pub open spec fn leaves_list_alone(s: SubstV, ts: Seq<TypeV>) -> bool
    decreases ts, 0nat,
{
    forall|i: int| 0 <= i < ts.len() ==> leaves_alone(s, #[trigger] ts[i])
}

/// `leaves_alone` on each type of a list of labelled types.
pub open spec fn leaves_fields_alone(s: SubstV, fs: Seq<(Text, TypeV)>) -> bool
    decreases fs, 0nat,
{
    forall|i: int| 0 <= i < fs.len() ==> leaves_alone(s, (#[trigger] fs[i]).1)
}

/// A substitution that changes none of the variables of a type does not change the type.
pub proof fn law_untouched_types_stay(s: SubstV, t: TypeV)
    requires
        leaves_alone(s, t),
    ensures
        subst::substituted(s, t) == t,
    decreases t, 0nat,
{
    match t {
        TypeV::UserDefined(_, args) => {
            lemma_untouched_list(s, args);
        },
        TypeV::Arrow(p, r, q, e) => {
            lemma_untouched_fields(s, p);
            law_untouched_types_stay(s, *r);
            law_untouched_types_stay(s, *q);
            law_untouched_types_stay(s, *e);
        },
        TypeV::Ref(i) => {
            law_untouched_types_stay(s, *i);
        },
        TypeV::Linear(i) => {
            law_untouched_types_stay(s, *i);
        },
        TypeV::Lazy(i) => {
            law_untouched_types_stay(s, *i);
        },
        TypeV::Borrow(i) => {
            law_untouched_types_stay(s, *i);
        },
        TypeV::Array(i) => {
            law_untouched_types_stay(s, *i);
        },
        TypeV::List(i) => {
            law_untouched_types_stay(s, *i);
        },
        TypeV::Handler(_, i) => {
            law_untouched_types_stay(s, *i);
        },
        TypeV::Row(es, tail) => {
            lemma_untouched_list(s, es);
            match tail {
                Some(x) => {
                    law_untouched_types_stay(s, *x);
                },
                None => {},
            }
            assert(subst::substituted_tail(s, tail) == tail);
        },
        TypeV::Record(fs) => {
            lemma_untouched_fields(s, fs);
        },
        _ => {},
    }
}

proof fn lemma_untouched_list(s: SubstV, ts: Seq<TypeV>)
    requires
        leaves_list_alone(s, ts),
    ensures
        subst::substituted_list(s, ts) == ts,
    decreases ts, 0nat,
{
    assert forall|i: int| 0 <= i < ts.len() implies #[trigger] subst::substituted_list(s, ts)[i]
        == ts[i] by {
        law_untouched_types_stay(s, ts[i]);
    }
    assert(subst::substituted_list(s, ts) =~= ts);
}

proof fn lemma_untouched_fields(s: SubstV, fs: Seq<(Text, TypeV)>)
    requires
        leaves_fields_alone(s, fs),
    ensures
        subst::substituted_fields(s, fs) == fs,
    decreases fs, 0nat,
{
    assert forall|i: int| 0 <= i < fs.len() implies #[trigger] subst::substituted_fields(s, fs)[i]
        == fs[i] by {
        law_untouched_types_stay(s, fs[i].1);
    }
    assert(subst::substituted_fields(s, fs) =~= fs);
}

proof fn lemma_empty_leaves_alone(t: TypeV)
    ensures
        leaves_alone(subst::no_subst(), t),
    decreases t, 0nat,
{
    match t {
        TypeV::UserDefined(_, args) => {
            assert forall|i: int| 0 <= i < args.len() implies leaves_alone(
                subst::no_subst(),
                #[trigger] args[i],
            ) by {
                lemma_empty_leaves_alone(args[i]);
            }
            assert(leaves_list_alone(subst::no_subst(), args));
        },
        TypeV::Arrow(p, r, q, e) => {
            assert forall|i: int| 0 <= i < p.len() implies leaves_alone(
                subst::no_subst(),
                (#[trigger] p[i]).1,
            ) by {
                lemma_empty_leaves_alone(p[i].1);
            }
            assert(leaves_fields_alone(subst::no_subst(), p));
            lemma_empty_leaves_alone(*r);
            lemma_empty_leaves_alone(*q);
            lemma_empty_leaves_alone(*e);
        },
        TypeV::Ref(i) => {
            lemma_empty_leaves_alone(*i);
        },
        TypeV::Linear(i) => {
            lemma_empty_leaves_alone(*i);
        },
        TypeV::Lazy(i) => {
            lemma_empty_leaves_alone(*i);
        },
        TypeV::Borrow(i) => {
            lemma_empty_leaves_alone(*i);
        },
        TypeV::Array(i) => {
            lemma_empty_leaves_alone(*i);
        },
        TypeV::List(i) => {
            lemma_empty_leaves_alone(*i);
        },
        TypeV::Handler(_, i) => {
            lemma_empty_leaves_alone(*i);
        },
        TypeV::Row(es, tail) => {
            assert forall|i: int| 0 <= i < es.len() implies leaves_alone(
                subst::no_subst(),
                #[trigger] es[i],
            ) by {
                lemma_empty_leaves_alone(es[i]);
            }
            assert(leaves_list_alone(subst::no_subst(), es));
            match tail {
                Some(x) => {
                    lemma_empty_leaves_alone(*x);
                },
                None => {},
            }
        },
        TypeV::Record(fs) => {
            assert forall|i: int| 0 <= i < fs.len() implies leaves_alone(
                subst::no_subst(),
                (#[trigger] fs[i]).1,
            ) by {
                lemma_empty_leaves_alone(fs[i].1);
            }
            assert(leaves_fields_alone(subst::no_subst(), fs));
        },
        _ => {},
    }
}

/// The empty substitution changes no type.
pub proof fn law_empty_substitution(t: TypeV)
    ensures
        subst::substituted(subst::no_subst(), t) == t,
{
    lemma_empty_leaves_alone(t);
    law_untouched_types_stay(subst::no_subst(), t);
}

// ---------------------------------------------------------------------------
// Composition
// ---------------------------------------------------------------------------

proof fn lemma_composed_lookup(res: SubstV, s1: SubstV, s2: SubstV, i: nat, n: Text)
    requires
        table::distinct_keys(s1),
        i <= s1.len(),
    ensures
        table::lookup(subst::composed_from(res, s1, s2, i), n) == (if exists|j: int|
            i <= j < s1.len() && (#[trigger] s1[j]).0 == n {
            Some(
                subst::substituted(
                    s2,
                    s1[choose|j: int| i <= j < s1.len() && (#[trigger] s1[j]).0 == n].1,
                ),
            )
        } else {
            table::lookup(res, n)
        }),
    decreases s1.len() - i,
{
    if i < s1.len() {
        let next = table::store(res, s1[i as int].0, subst::substituted(s2, s1[i as int].1));
        table::law_lookup_after_store(res, s1[i as int].0, subst::substituted(s2, s1[i as int].1), n);
        lemma_composed_lookup(next, s1, s2, i + 1, n);
        if exists|j: int| i + 1 <= j < s1.len() && (#[trigger] s1[j]).0 == n {
            let a = choose|j: int| i + 1 <= j < s1.len() && (#[trigger] s1[j]).0 == n;
            let b = choose|j: int| i <= j < s1.len() && (#[trigger] s1[j]).0 == n;
            assert(a == b);
        } else if s1[i as int].0 == n {
            let b = choose|j: int| i <= j < s1.len() && (#[trigger] s1[j]).0 == n;
            assert(b == i);
        }
    }
}

proof fn lemma_lookup_at(m: SubstV, n: Text, j: int)
    requires
        table::distinct_keys(m),
        0 <= j < m.len(),
        m[j].0 == n,
    ensures
        table::lookup(m, n) == Some(m[j].1),
{
    table::lemma_index_of_text(table::keys_of(m), n, 0);
    let k = table::key_index(m, n) as int;
    assert(table::keys_of(m)[j] == n);
    if k < m.len() {
        assert(table::keys_of(m)[k] == n);
        assert(m[k].0 == m[j].0);
    }
}

proof fn lemma_lookup_absent(m: SubstV, n: Text)
    requires
        forall|j: int| 0 <= j < m.len() ==> (#[trigger] m[j]).0 != n,
    ensures
        table::lookup(m, n) is None,
{
    table::lemma_index_of_text(table::keys_of(m), n, 0);
    let k = table::key_index(m, n) as int;
    if k < m.len() {
        assert(table::keys_of(m)[k] == n);
        assert(m[k].0 == n);
    }
}

proof fn lemma_composed_var(s1: SubstV, s2: SubstV, n: Text)
    requires
        table::distinct_keys(s1),
    ensures
        subst::substituted(subst::composed(s1, s2), TypeV::Var(n)) == subst::substituted(
            s2,
            subst::substituted(s1, TypeV::Var(n)),
        ),
{
    reveal(subst::composed);
    lemma_composed_lookup(s2, s1, s2, 0, n);
    if exists|j: int| 0 <= j < s1.len() && (#[trigger] s1[j]).0 == n {
        let j = choose|j: int| 0 <= j < s1.len() && (#[trigger] s1[j]).0 == n;
        lemma_lookup_at(s1, n, j);
    } else {
        lemma_lookup_absent(s1, n);
    }
}

/// Applying a composed substitution is applying the first, then the second.
pub proof fn law_composition(s1: SubstV, s2: SubstV, t: TypeV)
    requires
        table::distinct_keys(s1),
    ensures
        subst::substituted(subst::composed(s1, s2), t) == subst::substituted(s2, subst::substituted(s1, t)),
    decreases t, 0nat,
{
    match t {
        TypeV::Var(n) => {
            lemma_composed_var(s1, s2, n);
        },
        TypeV::UserDefined(_, args) => {
            lemma_composition_list(s1, s2, args);
        },
        TypeV::Arrow(p, r, q, e) => {
            lemma_composition_fields(s1, s2, p);
            law_composition(s1, s2, *r);
            law_composition(s1, s2, *q);
            law_composition(s1, s2, *e);
        },
        TypeV::Ref(i) => {
            law_composition(s1, s2, *i);
        },
        TypeV::Linear(i) => {
            law_composition(s1, s2, *i);
        },
        TypeV::Lazy(i) => {
            law_composition(s1, s2, *i);
        },
        TypeV::Borrow(i) => {
            law_composition(s1, s2, *i);
        },
        TypeV::Array(i) => {
            law_composition(s1, s2, *i);
        },
        TypeV::List(i) => {
            law_composition(s1, s2, *i);
        },
        TypeV::Handler(_, i) => {
            law_composition(s1, s2, *i);
        },
        TypeV::Row(es, tail) => {
            lemma_composition_list(s1, s2, es);
            match tail {
                Some(x) => {
                    law_composition(s1, s2, *x);
                },
                None => {},
            }
            assert(subst::substituted_tail(subst::composed(s1, s2), tail) == subst::substituted_tail(
                s2,
                subst::substituted_tail(s1, tail),
            ));
        },
        TypeV::Record(fs) => {
            lemma_composition_fields(s1, s2, fs);
        },
        _ => {},
    }
}

proof fn lemma_composition_list(s1: SubstV, s2: SubstV, ts: Seq<TypeV>)
    requires
        table::distinct_keys(s1),
    ensures
        subst::substituted_list(subst::composed(s1, s2), ts) == subst::substituted_list(s2, subst::substituted_list(s1, ts)),
    decreases ts, 0nat,
{
    let a = subst::substituted_list(subst::composed(s1, s2), ts);
    let b = subst::substituted_list(s2, subst::substituted_list(s1, ts));
    assert forall|i: int| 0 <= i < ts.len() implies #[trigger] a[i] == b[i] by {
        law_composition(s1, s2, ts[i]);
        assert(subst::substituted_list(s1, ts)[i] == subst::substituted(s1, ts[i]));
    }
    assert(a =~= b);
}

proof fn lemma_composition_fields(s1: SubstV, s2: SubstV, fs: Seq<(Text, TypeV)>)
    requires
        table::distinct_keys(s1),
    ensures
        subst::substituted_fields(subst::composed(s1, s2), fs) == subst::substituted_fields(
            s2,
            subst::substituted_fields(s1, fs),
        ),
    decreases fs, 0nat,
{
    let a = subst::substituted_fields(subst::composed(s1, s2), fs);
    let b = subst::substituted_fields(s2, subst::substituted_fields(s1, fs));
    assert forall|i: int| 0 <= i < fs.len() implies #[trigger] a[i] == b[i] by {
        law_composition(s1, s2, fs[i].1);
        assert(subst::substituted_fields(s1, fs)[i] == (fs[i].0, subst::substituted(s1, fs[i].1)));
    }
    assert(a =~= b);
}

proof fn lemma_composed_keys(res: SubstV, s1: SubstV, s2: SubstV, i: nat)
    requires
        table::distinct_keys(res),
    ensures
        table::distinct_keys(subst::composed_from(res, s1, s2, i)),
    decreases s1.len() - i,
{
    if i < s1.len() {
        let t = subst::substituted(s2, s1[i as int].1);
        table::law_store_keeps_keys_distinct(res, s1[i as int].0, t);
        lemma_composed_keys(table::store(res, s1[i as int].0, t), s1, s2, i + 1);
    }
}

/// Composition keeps the variables of a substitution distinct.
pub proof fn law_composed_keys_are_distinct(s1: SubstV, s2: SubstV)
    requires
        table::distinct_keys(s2),
    ensures
        table::distinct_keys(subst::composed(s1, s2)),
{
    reveal(subst::composed);
    lemma_composed_keys(s2, s1, s2, 0);
}

} // verus!
