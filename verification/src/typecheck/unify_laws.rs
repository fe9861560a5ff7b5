//! What unification promises.

use crate::ast::TypeDefV;
use crate::table;
use crate::text::Text;
use crate::typecheck::subst;
use crate::typecheck::subst::SubstV;
use crate::typecheck::subst_laws;
use crate::typecheck::unify;
use crate::types::TypeV;
use vstd::prelude::*;

verus! {

/// Whether a type is made of variables, named types, references, linear types and arrays alone,
/// over types without parts; where `lists` is set, also of lists, and then no type is named
/// `List`, which is a second spelling of lists. Two such types can only be unified by making
/// them equal: there are no literal types, no labels and rows whose order is free, and no
/// borrows, handlers or lazy types in them.
pub open spec fn plain(lists: bool, t: TypeV) -> bool
    decreases t, 0nat,
{
    match t {
        TypeV::UserDefined(name, args) => (lists ==> name != "List"@) && plain_list(lists, args),
        TypeV::Ref(i) => plain(lists, *i),
        TypeV::Linear(i) => plain(lists, *i),
        TypeV::Array(i) => plain(lists, *i),
        TypeV::List(i) => lists && plain(lists, *i),
        TypeV::IntLit => false,
        TypeV::FloatLit => false,
        TypeV::Arrow(_, _, _, _) => false,
        TypeV::Row(_, _) => false,
        TypeV::Record(_) => false,
        TypeV::Borrow(_) => false,
        TypeV::Lazy(_) => false,
        TypeV::Handler(_, _) => false,
        _ => true,
    }
}

/// Whether all types of a list are plain.
pub open spec fn plain_list(lists: bool, ts: Seq<TypeV>) -> bool
    decreases ts, 0nat,
{
    forall|i: int| 0 <= i < ts.len() ==> plain(lists, #[trigger] ts[i])
}

/// Whether a substitution gives plain types alone.
pub open spec fn plain_subst(lists: bool, s: SubstV) -> bool {
    forall|i: int| 0 <= i < s.len() ==> plain(lists, (#[trigger] s[i]).1)
}

proof fn lemma_plain_lookup(lists: bool, s: SubstV, n: Text)
    requires
        plain_subst(lists, s),
    ensures
        table::lookup(s, n) matches Some(t) ==> plain(lists, t),
{
    if table::has_key(s, n) {
        assert(plain(lists, s[table::key_index(s, n) as int].1));
    }
}

proof fn lemma_plain_substituted(lists: bool, s: SubstV, t: TypeV)
    requires
        plain_subst(lists, s),
        plain(lists, t),
    ensures
        plain(lists, subst::substituted(s, t)),
    decreases t, 0nat,
{
    match t {
        TypeV::Var(n) => {
            lemma_plain_lookup(lists, s, n);
        },
        TypeV::UserDefined(_, args) => {
            let out = subst::substituted_list(s, args);
            assert(plain_list(lists, args));
            assert forall|i: int| 0 <= i < out.len() implies plain(lists, #[trigger] out[i]) by {
                lemma_plain_substituted(lists, s, args[i]);
            }
            assert(plain_list(lists, out));
        },
        TypeV::Ref(i) => {
            lemma_plain_substituted(lists, s, *i);
        },
        TypeV::Linear(i) => {
            lemma_plain_substituted(lists, s, *i);
        },
        TypeV::Array(i) => {
            lemma_plain_substituted(lists, s, *i);
        },
        TypeV::List(i) => {
            lemma_plain_substituted(lists, s, *i);
        },
        _ => {},
    }
}

/// Whether an entry of the composition of two substitutions is one of the second, or one of the
/// first to whose type the second was applied.
spec fn comes_from(e: (Text, TypeV), s1: SubstV, s2: SubstV) -> bool {
    ||| exists|k: int| 0 <= k < s2.len() && e == #[trigger] s2[k]
    ||| exists|m: int|
        0 <= m < s1.len() && e == ((#[trigger] s1[m]).0, subst::substituted(s2, s1[m].1))
}

proof fn lemma_composed_entries_from(res: SubstV, s1: SubstV, s2: SubstV, i: nat)
    requires
        forall|j: int| 0 <= j < res.len() ==> comes_from(#[trigger] res[j], s1, s2),
    ensures
        forall|j: int|
            0 <= j < subst::composed_from(res, s1, s2, i).len() ==> comes_from(
                #[trigger] subst::composed_from(res, s1, s2, i)[j],
                s1,
                s2,
            ),
    decreases s1.len() - i,
{
    if i < s1.len() {
        let e = (s1[i as int].0, subst::substituted(s2, s1[i as int].1));
        let next = table::store(res, e.0, e.1);
        assert(comes_from(e, s1, s2));
        assert forall|j: int| 0 <= j < next.len() implies comes_from(
            #[trigger] next[j],
            s1,
            s2,
        ) by {
            assert(next[j] == e || (j < res.len() && next[j] == res[j]));
        }
        lemma_composed_entries_from(next, s1, s2, i + 1);
        assert(subst::composed_from(res, s1, s2, i) == subst::composed_from(next, s1, s2, i + 1));
    }
}

proof fn lemma_composed_entries(s1: SubstV, s2: SubstV)
    ensures
        forall|j: int|
            0 <= j < subst::composed(s1, s2).len() ==> comes_from(
                #[trigger] subst::composed(s1, s2)[j],
                s1,
                s2,
            ),
{
    reveal(subst::composed);
    assert forall|j: int| 0 <= j < s2.len() implies comes_from(#[trigger] s2[j], s1, s2) by {}
    lemma_composed_entries_from(s2, s1, s2, 0);
}

proof fn lemma_plain_composed(lists: bool, s1: SubstV, s2: SubstV)
    requires
        plain_subst(lists, s1),
        plain_subst(lists, s2),
    ensures
        plain_subst(lists, subst::composed(s1, s2)),
{
    lemma_composed_entries(s1, s2);
    let c = subst::composed(s1, s2);
    assert forall|j: int| 0 <= j < c.len() implies plain(lists, (#[trigger] c[j]).1) by {
        assert(comes_from(c[j], s1, s2));
        if !(exists|k: int| 0 <= k < s2.len() && c[j] == #[trigger] s2[k]) {
            let m = choose|m: int|
                0 <= m < s1.len() && c[j] == ((#[trigger] s1[m]).0, subst::substituted(s2, s1[m].1));
            assert(plain(lists, s1[m].1));
            lemma_plain_substituted(lists, s2, s1[m].1);
        }
    }
}

proof fn lemma_not_occurring(lists: bool, n: Text, u: TypeV, t: TypeV)
    requires
        plain(lists, t),
        !subst::occurs(n, t),
    ensures
        subst_laws::leaves_alone(seq![(n, u)], t),
    decreases t, 0nat,
{
    let s = seq![(n, u)];
    match t {
        TypeV::Var(m) => {
            table::lemma_index_of_text(table::keys_of(s), m, 0);
            assert(table::keys_of(s)[0] == n);
        },
        TypeV::UserDefined(_, args) => {
            assert(plain_list(lists, args));
            lemma_not_occurring_list(lists, n, u, args, 0);
            assert(subst_laws::leaves_list_alone(s, args));
        },
        TypeV::Ref(i) => {
            lemma_not_occurring(lists, n, u, *i);
        },
        TypeV::Linear(i) => {
            lemma_not_occurring(lists, n, u, *i);
        },
        TypeV::Array(i) => {
            lemma_not_occurring(lists, n, u, *i);
        },
        TypeV::List(i) => {
            lemma_not_occurring(lists, n, u, *i);
        },
        _ => {},
    }
}

proof fn lemma_not_occurring_list(lists: bool, n: Text, u: TypeV, ts: Seq<TypeV>, i: nat)
    requires
        plain_list(lists, ts),
        !subst::occurs_any(n, ts, i),
    ensures
        forall|j: int|
            i <= j < ts.len() ==> subst_laws::leaves_alone(seq![(n, u)], #[trigger] ts[j]),
    decreases ts, ts.len() - i,
{
    if i < ts.len() {
        assert(plain(lists, ts[i as int]));
        lemma_not_occurring(lists, n, u, ts[i as int]);
        lemma_not_occurring_list(lists, n, u, ts, i + 1);
    }
}

/// A variable is bound to a type that it does not occur in, and the two become equal; a variable
/// that occurs in the type is refused.
pub proof fn law_variable_is_bound(lists: bool, n: Text, t: TypeV)
    requires
        plain(lists, t),
    ensures
        match unify::bind_var(n, t) {
            Ok(s) => {
                &&& plain_subst(lists, s)
                &&& table::distinct_keys(s)
                &&& subst::substituted(s, TypeV::Var(n)) == t
                &&& subst::substituted(s, t) == t
            },
            Err(_) => subst::occurs(n, t),
        },
{
    if !subst::occurs(n, t) {
        let s = seq![(n, t)];
        lemma_not_occurring(lists, n, t, t);
        subst_laws::law_untouched_types_stay(s, t);
        table::lemma_index_of_text(table::keys_of(s), n, 0);
        assert(table::keys_of(s)[0] == n);
    }
}

/// Where two plain types are unified, the substitution makes them equal.
pub proof fn law_unified_types_become_equal(
    lists: bool,
    n: usize,
    defs: Seq<(Text, TypeDefV)>,
    a: TypeV,
    b: TypeV,
    depth: nat,
)
    requires
        plain(lists, a),
        plain(lists, b),
    ensures
        unify::unified(n, defs, a, b, depth).0 matches Ok(s) ==> {
            &&& plain_subst(lists, s)
            &&& table::distinct_keys(s)
            &&& subst::substituted(s, a) == subst::substituted(s, b)
        },
    decreases depth, 0nat, 0nat,
{
    reveal(unify::unified);
    let out = unify::unified(n, defs, a, b, depth).0;
    if a == b {
    } else if a is Var {
        law_variable_is_bound(lists, a->Var_0, b);
    } else if b is Var {
        law_variable_is_bound(lists, b->Var_0, a);
    } else if depth > 0 {
        let d = (depth - 1) as nat;
        match (a, b) {
            (TypeV::UserDefined(n1, a1), TypeV::UserDefined(n2, a2)) => {
                if n1 == n2 && a1.len() == a2.len() {
                    assert(plain_list(lists, a1));
                    assert(plain_list(lists, a2));
                    lemma_unified_lists(lists, n, defs, a1, a2, 0, subst::no_subst(), d);
                    if let Ok(s) = out {
                        assert(subst::substituted_list(s, a1) =~= subst::substituted_list(s, a2));
                    }
                }
            },
            (TypeV::Array(x), TypeV::Array(y)) => {
                law_unified_types_become_equal(lists, n, defs, *x, *y, d);
            },
            (TypeV::List(x), TypeV::List(y)) => {
                law_unified_types_become_equal(lists, n, defs, *x, *y, d);
            },
            (TypeV::Ref(x), TypeV::Ref(y)) => {
                law_unified_types_become_equal(lists, n, defs, *x, *y, d);
            },
            (TypeV::Linear(x), TypeV::Linear(y)) => {
                law_unified_types_become_equal(lists, n, defs, *x, *y, d);
            },
            _ => {},
        }
    }
}

proof fn lemma_unified_lists(
    lists: bool,
    n: usize,
    defs: Seq<(Text, TypeDefV)>,
    xs: Seq<TypeV>,
    ys: Seq<TypeV>,
    i: nat,
    s: SubstV,
    depth: nat,
)
    requires
        xs.len() == ys.len(),
        i <= xs.len(),
        plain_list(lists, xs),
        plain_list(lists, ys),
        plain_subst(lists, s),
        table::distinct_keys(s),
        forall|j: int| 0 <= j < i ==> subst::substituted(s, #[trigger] xs[j]) == subst::substituted(s, ys[j]),
    ensures
        unify::unified_lists(n, defs, xs, ys, i, s, depth).0 matches Ok(t) ==> {
            &&& plain_subst(lists, t)
            &&& table::distinct_keys(t)
            &&& forall|j: int|
                0 <= j < xs.len() ==> subst::substituted(t, #[trigger] xs[j]) == subst::substituted(t, ys[j])
        },
    decreases depth, 2nat, xs.len() - i,
{
    reveal(unify::unified);
    if i < xs.len() {
        let x = xs[i as int];
        let y = ys[i as int];
        let step = unify::unified_step(n, defs, s, x, y, depth);
        let inner = unify::unified(n, defs, subst::substituted(s, x), subst::substituted(s, y), depth);
        lemma_plain_substituted(lists, s, x);
        lemma_plain_substituted(lists, s, y);
        law_unified_types_become_equal(
            lists,
            n,
            defs,
            subst::substituted(s, x),
            subst::substituted(s, y),
            depth,
        );
        if let Ok(sn) = inner.0 {
            let s2 = subst::composed(s, sn);
            assert(step == (Ok::<SubstV, Text>(s2), inner.1));
            lemma_plain_composed(lists, s, sn);
            subst_laws::law_composed_keys_are_distinct(s, sn);
            assert forall|j: int| 0 <= j < i + 1 implies subst::substituted(s2, #[trigger] xs[j])
                == subst::substituted(s2, ys[j]) by {
                subst_laws::law_composition(s, sn, xs[j]);
                subst_laws::law_composition(s, sn, ys[j]);
            }
            lemma_unified_lists(lists, inner.1, defs, xs, ys, i + 1, s2, depth);
        }
    }
}

// ---------------------------------------------------------------------------
// Where the variables of the outcome come from
// ---------------------------------------------------------------------------

/// Whether every variable of a type is among some names.
pub open spec fn vars_among(names: Set<Text>, t: TypeV) -> bool {
    forall|k: Text| #[trigger] subst::occurs(k, t) ==> names.contains(k)
}

/// Whether every variable of each type of a list is among some names.
pub open spec fn list_vars_among(names: Set<Text>, ts: Seq<TypeV>) -> bool {
    forall|j: int| 0 <= j < ts.len() ==> vars_among(names, #[trigger] ts[j])
}

/// Whether a substitution binds variables among some names to types over such variables.
pub open spec fn binds_among(names: Set<Text>, s: SubstV) -> bool {
    forall|i: int|
        0 <= i < s.len() ==> names.contains((#[trigger] s[i]).0) && vars_among(names, s[i].1)
}

/// Whether no variable that a substitution binds occurs in a type that it gives.
pub open spec fn solved(s: SubstV) -> bool {
    forall|i: int, j: int|
        0 <= i < s.len() && 0 <= j < s.len() ==> !subst::occurs(
            (#[trigger] s[i]).0,
            (#[trigger] s[j]).1,
        )
}

proof fn lemma_occurs_any(n: Text, ts: Seq<TypeV>, i: nat)
    ensures
        subst::occurs_any(n, ts, i) <==> exists|j: int| i <= j < ts.len() && subst::occurs(n, #[trigger] ts[j]),
    decreases ts.len() - i,
{
    if i < ts.len() {
        lemma_occurs_any(n, ts, i + 1);
        if subst::occurs(n, ts[i as int]) {
            assert(subst::occurs_any(n, ts, i));
        }
    }
}

proof fn lemma_vars_of_arguments(names: Set<Text>, t: TypeV, args: Seq<TypeV>)
    requires
        vars_among(names, t),
        t matches TypeV::UserDefined(_, a) && a == args,
    ensures
        list_vars_among(names, args),
{
    assert forall|j: int, k: Text|
        0 <= j < args.len() && #[trigger] subst::occurs(k, #[trigger] args[j]) implies names.contains(
        k,
    ) by {
        lemma_occurs_any(k, args, 0);
        assert(subst::occurs(k, t));
    }
}

proof fn lemma_vars_of_part(names: Set<Text>, t: TypeV, part: TypeV)
    requires
        vars_among(names, t),
        t == TypeV::Array(Box::new(part)) || t == TypeV::List(Box::new(part)) || t == TypeV::Ref(
            Box::new(part),
        ) || t == TypeV::Linear(Box::new(part)),
    ensures
        vars_among(names, part),
{
    assert forall|k: Text| #[trigger] subst::occurs(k, part) implies names.contains(k) by {
        assert(subst::occurs(k, t));
    }
}

proof fn lemma_key_of_entry(s: SubstV, i: int)
    requires
        0 <= i < s.len(),
    ensures
        table::has_key(s, s[i].0),
{
    table::lemma_index_of_text(table::keys_of(s), s[i].0, 0);
    assert(table::keys_of(s)[i] == s[i].0);
}

proof fn lemma_entry_of_key(s: SubstV, k: Text)
    requires
        table::has_key(s, k),
    ensures
        s[table::key_index(s, k) as int].0 == k,
        table::lookup(s, k) == Some(s[table::key_index(s, k) as int].1),
{
    table::lemma_index_of_text(table::keys_of(s), k, 0);
    assert(table::keys_of(s)[table::key_index(s, k) as int] == k);
}

/// Whether a variable is one that a substitution does not bind, and occurs in `t` or in a type
/// that the substitution gives.
spec fn remains(k: Text, s: SubstV, t: TypeV) -> bool {
    ||| subst::occurs(k, t) && !table::has_key(s, k)
    ||| exists|j: int| 0 <= j < s.len() && subst::occurs(k, (#[trigger] s[j]).1)
}

proof fn lemma_substituted_vars(lists: bool, s: SubstV, t: TypeV, k: Text)
    requires
        plain(lists, t),
        subst::occurs(k, subst::substituted(s, t)),
    ensures
        remains(k, s, t),
    decreases t,
{
    match t {
        TypeV::Var(n) => {
            if table::has_key(s, n) {
                lemma_entry_of_key(s, n);
                assert(subst::occurs(k, s[table::key_index(s, n) as int].1));
            }
        },
        TypeV::UserDefined(_, args) => {
            let out = subst::substituted_list(s, args);
            assert(plain_list(lists, args));
            assert(subst::occurs_any(k, out, 0));
            lemma_occurs_any(k, out, 0);
            let j = choose|j: int| 0 <= j < out.len() && subst::occurs(k, #[trigger] out[j]);
            lemma_substituted_vars(lists, s, args[j], k);
            lemma_occurs_any(k, args, 0);
        },
        TypeV::Ref(i) => {
            lemma_substituted_vars(lists, s, *i, k);
        },
        TypeV::Linear(i) => {
            lemma_substituted_vars(lists, s, *i, k);
        },
        TypeV::Array(i) => {
            lemma_substituted_vars(lists, s, *i, k);
        },
        TypeV::List(i) => {
            lemma_substituted_vars(lists, s, *i, k);
        },
        _ => {},
    }
}

/// The names that a substitution does not bind.
spec fn unbound(names: Set<Text>, s: SubstV) -> Set<Text> {
    Set::new(|k: Text| names.contains(k) && !table::has_key(s, k))
}

proof fn lemma_solved_vars(lists: bool, names: Set<Text>, s: SubstV, t: TypeV)
    requires
        plain(lists, t),
        vars_among(names, t),
        binds_among(names, s),
        solved(s),
    ensures
        vars_among(unbound(names, s), subst::substituted(s, t)),
{
    assert forall|k: Text| #[trigger] subst::occurs(k, subst::substituted(s, t)) implies unbound(
        names,
        s,
    ).contains(k) by {
        lemma_substituted_vars(lists, s, t, k);
        if !(subst::occurs(k, t) && !table::has_key(s, k)) {
            let j = choose|j: int| 0 <= j < s.len() && subst::occurs(k, (#[trigger] s[j]).1);
            if table::has_key(s, k) {
                lemma_entry_of_key(s, k);
                assert(!subst::occurs(s[table::key_index(s, k) as int].0, s[j].1));
            }
        }
    }
}

proof fn lemma_solved_composed(lists: bool, names: Set<Text>, s: SubstV, sn: SubstV)
    requires
        plain_subst(lists, s),
        binds_among(names, s),
        solved(s),
        binds_among(unbound(names, s), sn),
        solved(sn),
    ensures
        binds_among(names, subst::composed(s, sn)),
        solved(subst::composed(s, sn)),
{
    let c = subst::composed(s, sn);
    lemma_composed_entries(s, sn);
    assert(binds_among(names, sn)) by {
        assert forall|i: int| 0 <= i < sn.len() implies names.contains((#[trigger] sn[i]).0)
            && vars_among(names, sn[i].1) by {
            assert(unbound(names, s).contains(sn[i].0));
        }
    }
    // No variable of a type that the composition gives is bound by either substitution.
    assert forall|j: int, k: Text| 0 <= j < c.len() && #[trigger] subst::occurs(
        k,
        (#[trigger] c[j]).1,
    ) implies names.contains(k) && !table::has_key(s, k) && !table::has_key(sn, k) by {
        assert(comes_from(c[j], s, sn));
        if exists|i: int| 0 <= i < sn.len() && c[j] == #[trigger] sn[i] {
            let i = choose|i: int| 0 <= i < sn.len() && c[j] == #[trigger] sn[i];
            assert(vars_among(unbound(names, s), sn[i].1));
            assert(unbound(names, s).contains(k));
            if table::has_key(sn, k) {
                lemma_entry_of_key(sn, k);
                assert(!subst::occurs(sn[table::key_index(sn, k) as int].0, sn[i].1));
            }
        } else {
            let m = choose|m: int|
                0 <= m < s.len() && c[j] == ((#[trigger] s[m]).0, subst::substituted(sn, s[m].1));
            let v = s[m].1;
            assert(vars_among(unbound(names, s), v)) by {
                assert forall|q: Text| #[trigger] subst::occurs(q, v) implies unbound(
                    names,
                    s,
                ).contains(q) by {
                    assert(vars_among(names, s[m].1));
                    if table::has_key(s, q) {
                        lemma_entry_of_key(s, q);
                        assert(!subst::occurs(s[table::key_index(s, q) as int].0, s[m].1));
                    }
                }
            }
            assert(plain(lists, v));
            lemma_solved_vars(lists, unbound(names, s), sn, v);
            assert(unbound(unbound(names, s), sn).contains(k));
        }
    }
    assert forall|j: int| 0 <= j < c.len() implies names.contains((#[trigger] c[j]).0)
        && (table::has_key(s, c[j].0) || table::has_key(sn, c[j].0)) && vars_among(names, c[j].1) by {
        assert(comes_from(c[j], s, sn));
        if exists|i: int| 0 <= i < sn.len() && c[j] == #[trigger] sn[i] {
            let i = choose|i: int| 0 <= i < sn.len() && c[j] == #[trigger] sn[i];
            lemma_key_of_entry(sn, i);
        } else {
            let m = choose|m: int|
                0 <= m < s.len() && c[j] == ((#[trigger] s[m]).0, subst::substituted(sn, s[m].1));
            lemma_key_of_entry(s, m);
        }
    }
    assert forall|i: int, j: int| 0 <= i < c.len() && 0 <= j < c.len() implies !subst::occurs(
        (#[trigger] c[i]).0,
        (#[trigger] c[j]).1,
    ) by {
        assert(table::has_key(s, c[i].0) || table::has_key(sn, c[i].0));
    }
}

proof fn lemma_unified_is_solved(
    lists: bool,
    names: Set<Text>,
    n: usize,
    defs: Seq<(Text, TypeDefV)>,
    a: TypeV,
    b: TypeV,
    depth: nat,
)
    requires
        plain(lists, a),
        plain(lists, b),
        vars_among(names, a),
        vars_among(names, b),
    ensures
        unify::unified(n, defs, a, b, depth).0 matches Ok(s) ==> binds_among(names, s) && solved(s),
    decreases depth, 0nat, 0nat,
{
    reveal(unify::unified);
    if a == b {
    } else if a is Var {
        assert(subst::occurs(a->Var_0, a));
    } else if b is Var {
        assert(subst::occurs(b->Var_0, b));
    } else if depth > 0 {
        let d = (depth - 1) as nat;
        match (a, b) {
            (TypeV::UserDefined(n1, a1), TypeV::UserDefined(n2, a2)) => {
                if n1 == n2 && a1.len() == a2.len() {
                    assert(plain_list(lists, a1));
                    assert(plain_list(lists, a2));
                    lemma_vars_of_arguments(names, a, a1);
                    lemma_vars_of_arguments(names, b, a2);
                    lemma_unified_lists_are_solved(
                        lists,
                        names,
                        n,
                        defs,
                        a1,
                        a2,
                        0,
                        subst::no_subst(),
                        d,
                    );
                }
            },
            (TypeV::Array(x), TypeV::Array(y)) => {
                lemma_vars_of_part(names, a, *x);
                lemma_vars_of_part(names, b, *y);
                lemma_unified_is_solved(lists, names, n, defs, *x, *y, d);
            },
            (TypeV::List(x), TypeV::List(y)) => {
                lemma_vars_of_part(names, a, *x);
                lemma_vars_of_part(names, b, *y);
                lemma_unified_is_solved(lists, names, n, defs, *x, *y, d);
            },
            (TypeV::Ref(x), TypeV::Ref(y)) => {
                lemma_vars_of_part(names, a, *x);
                lemma_vars_of_part(names, b, *y);
                lemma_unified_is_solved(lists, names, n, defs, *x, *y, d);
            },
            (TypeV::Linear(x), TypeV::Linear(y)) => {
                lemma_vars_of_part(names, a, *x);
                lemma_vars_of_part(names, b, *y);
                lemma_unified_is_solved(lists, names, n, defs, *x, *y, d);
            },
            _ => {},
        }
    }
}

proof fn lemma_unified_lists_are_solved(
    lists: bool,
    names: Set<Text>,
    n: usize,
    defs: Seq<(Text, TypeDefV)>,
    xs: Seq<TypeV>,
    ys: Seq<TypeV>,
    i: nat,
    s: SubstV,
    depth: nat,
)
    requires
        xs.len() == ys.len(),
        i <= xs.len(),
        plain_list(lists, xs),
        plain_list(lists, ys),
        list_vars_among(names, xs),
        list_vars_among(names, ys),
        plain_subst(lists, s),
        table::distinct_keys(s),
        binds_among(names, s),
        solved(s),
    ensures
        unify::unified_lists(n, defs, xs, ys, i, s, depth).0 matches Ok(t) ==> binds_among(names, t)
            && solved(t),
    decreases depth, 2nat, xs.len() - i,
{
    reveal(unify::unified);
    if i < xs.len() {
        let x = xs[i as int];
        let y = ys[i as int];
        let sx = subst::substituted(s, x);
        let sy = subst::substituted(s, y);
        let step = unify::unified_step(n, defs, s, x, y, depth);
        let inner = unify::unified(n, defs, sx, sy, depth);
        lemma_plain_substituted(lists, s, x);
        lemma_plain_substituted(lists, s, y);
        lemma_solved_vars(lists, names, s, x);
        lemma_solved_vars(lists, names, s, y);
        lemma_unified_is_solved(lists, unbound(names, s), n, defs, sx, sy, depth);
        law_unified_types_become_equal(lists, n, defs, sx, sy, depth);
        if let Ok(sn) = inner.0 {
            assert(step == (Ok::<SubstV, Text>(subst::composed(s, sn)), inner.1));
            lemma_solved_composed(lists, names, s, sn);
            lemma_plain_composed(lists, s, sn);
            subst_laws::law_composed_keys_are_distinct(s, sn);
            lemma_unified_lists_are_solved(
                lists,
                names,
                inner.1,
                defs,
                xs,
                ys,
                i + 1,
                subst::composed(s, sn),
                depth,
            );
        }
    }
}

/// Where two plain types are unified, the substitution binds variables of the two types alone,
/// and none of those occurs in a type that it gives, whose variables are those of the two types
/// too. So to apply it once more changes nothing.
pub proof fn law_unifier_is_solved(
    lists: bool,
    n: usize,
    defs: Seq<(Text, TypeDefV)>,
    a: TypeV,
    b: TypeV,
    depth: nat,
)
    requires
        plain(lists, a),
        plain(lists, b),
    ensures
        unify::unified(n, defs, a, b, depth).0 matches Ok(s) ==> {
            &&& forall|i: int|
                0 <= i < s.len() ==> subst::occurs((#[trigger] s[i]).0, a) || subst::occurs(s[i].0, b)
            &&& forall|i: int, k: Text|
                0 <= i < s.len() && #[trigger] subst::occurs(k, (#[trigger] s[i]).1) ==> subst::occurs(k, a)
                    || subst::occurs(k, b)
            &&& solved(s)
            &&& subst::substituted(s, subst::substituted(s, a)) == subst::substituted(s, a)
        },
{
    let names = Set::new(|k: Text| subst::occurs(k, a) || subst::occurs(k, b));
    lemma_unified_is_solved(lists, names, n, defs, a, b, depth);
    law_unified_types_become_equal(lists, n, defs, a, b, depth);
    if let Ok(s) = unify::unified(n, defs, a, b, depth).0 {
        assert forall|i: int| 0 <= i < s.len() implies subst::occurs((#[trigger] s[i]).0, a) || subst::occurs(
            s[i].0,
            b,
        ) by {
            assert(names.contains(s[i].0));
        }
        assert forall|i: int, k: Text| 0 <= i < s.len() && #[trigger] subst::occurs(
            k,
            (#[trigger] s[i]).1,
        ) implies subst::occurs(k, a) || subst::occurs(k, b) by {
            assert(vars_among(names, s[i].1));
            assert(names.contains(k));
        }
        assert forall|i: int| 0 <= i < s.len() implies subst::substituted(
            s,
            TypeV::Var((#[trigger] s[i]).0),
        ) == subst::substituted(s, s[i].1) by {
            lemma_unbound_stays(lists, s, s[i].1);
            lemma_distinct_lookup(s, i);
        }
        lemma_agreeing_absorbs(lists, s, s, a);
    }
}

proof fn lemma_distinct_lookup(s: SubstV, i: int)
    requires
        table::distinct_keys(s),
        0 <= i < s.len(),
    ensures
        table::lookup(s, s[i].0) == Some(s[i].1),
{
    lemma_key_of_entry(s, i);
    lemma_entry_of_key(s, s[i].0);
}

proof fn lemma_unbound_stays(lists: bool, s: SubstV, t: TypeV)
    requires
        plain(lists, t),
        forall|i: int| 0 <= i < s.len() ==> !subst::occurs((#[trigger] s[i]).0, t),
    ensures
        subst::substituted(s, t) == t,
    decreases t,
{
    match t {
        TypeV::Var(n) => {
            if table::has_key(s, n) {
                lemma_entry_of_key(s, n);
            }
        },
        TypeV::UserDefined(_, args) => {
            assert(plain_list(lists, args));
            assert forall|j: int| 0 <= j < args.len() implies subst::substituted(s, #[trigger] args[j])
                == args[j] by {
                assert forall|i: int| 0 <= i < s.len() implies !subst::occurs(
                    (#[trigger] s[i]).0,
                    args[j],
                ) by {
                    lemma_occurs_any(s[i].0, args, 0);
                    assert(!subst::occurs(s[i].0, t));
                }
                lemma_unbound_stays(lists, s, args[j]);
            }
            assert(subst::substituted_list(s, args) =~= args);
        },
        TypeV::Ref(i) => {
            assert forall|j: int| 0 <= j < s.len() implies !subst::occurs((#[trigger] s[j]).0, *i) by {
                assert(!subst::occurs(s[j].0, t));
            }
            lemma_unbound_stays(lists, s, *i);
        },
        TypeV::Linear(i) => {
            assert forall|j: int| 0 <= j < s.len() implies !subst::occurs((#[trigger] s[j]).0, *i) by {
                assert(!subst::occurs(s[j].0, t));
            }
            lemma_unbound_stays(lists, s, *i);
        },
        TypeV::Array(i) => {
            assert forall|j: int| 0 <= j < s.len() implies !subst::occurs((#[trigger] s[j]).0, *i) by {
                assert(!subst::occurs(s[j].0, t));
            }
            lemma_unbound_stays(lists, s, *i);
        },
        TypeV::List(i) => {
            assert forall|j: int| 0 <= j < s.len() implies !subst::occurs((#[trigger] s[j]).0, *i) by {
                assert(!subst::occurs(s[j].0, t));
            }
            lemma_unbound_stays(lists, s, *i);
        },
        _ => {},
    }
}

// ---------------------------------------------------------------------------
// Unifiers
// ---------------------------------------------------------------------------

/// Whether a substitution makes each variable that `s` binds equal to the type that `s` gives
/// it.
pub open spec fn agrees(w: SubstV, s: SubstV) -> bool {
    forall|i: int|
        0 <= i < s.len() ==> subst::substituted(w, TypeV::Var((#[trigger] s[i]).0)) == subst::substituted(
            w,
            s[i].1,
        )
}

proof fn lemma_agreeing_absorbs(lists: bool, w: SubstV, s: SubstV, t: TypeV)
    requires
        plain(lists, t),
        agrees(w, s),
    ensures
        subst::substituted(w, subst::substituted(s, t)) == subst::substituted(w, t),
    decreases t,
{
    match t {
        TypeV::Var(n) => {
            if table::has_key(s, n) {
                lemma_entry_of_key(s, n);
            }
        },
        TypeV::UserDefined(_, args) => {
            let out = subst::substituted_list(s, args);
            assert(plain_list(lists, args));
            assert forall|j: int| 0 <= j < args.len() implies subst::substituted(w, #[trigger] out[j])
                == subst::substituted(w, args[j]) by {
                lemma_agreeing_absorbs(lists, w, s, args[j]);
            }
            assert(subst::substituted_list(w, out) =~= subst::substituted_list(w, args));
        },
        TypeV::Ref(i) => {
            lemma_agreeing_absorbs(lists, w, s, *i);
        },
        TypeV::Linear(i) => {
            lemma_agreeing_absorbs(lists, w, s, *i);
        },
        TypeV::Array(i) => {
            lemma_agreeing_absorbs(lists, w, s, *i);
        },
        TypeV::List(i) => {
            lemma_agreeing_absorbs(lists, w, s, *i);
        },
        _ => {},
    }
}

proof fn lemma_agrees_composed(lists: bool, w: SubstV, s: SubstV, sn: SubstV)
    requires
        plain_subst(lists, s),
        agrees(w, s),
        agrees(w, sn),
    ensures
        agrees(w, subst::composed(s, sn)),
{
    let c = subst::composed(s, sn);
    lemma_composed_entries(s, sn);
    assert forall|j: int| 0 <= j < c.len() implies subst::substituted(w, TypeV::Var((#[trigger] c[j]).0))
        == subst::substituted(w, c[j].1) by {
        assert(comes_from(c[j], s, sn));
        if !(exists|i: int| 0 <= i < sn.len() && c[j] == #[trigger] sn[i]) {
            let m = choose|m: int|
                0 <= m < s.len() && c[j] == ((#[trigger] s[m]).0, subst::substituted(sn, s[m].1));
            assert(plain(lists, s[m].1));
            lemma_agreeing_absorbs(lists, w, sn, s[m].1);
        }
    }
}

/// How deep named types, references, linear types, arrays and lists are nested in a type.
pub open spec fn height(t: TypeV) -> nat
    decreases t, 0nat,
{
    match t {
        TypeV::UserDefined(_, args) => 1 + tallest(args, args.len()),
        TypeV::Ref(i) => 1 + height(*i),
        TypeV::Linear(i) => 1 + height(*i),
        TypeV::Array(i) => 1 + height(*i),
        TypeV::List(i) => 1 + height(*i),
        _ => 0,
    }
}

/// The greatest height of the first `n` types of a list.
pub open spec fn tallest(ts: Seq<TypeV>, n: nat) -> nat
    decreases ts, n,
{
    if n == 0 || n > ts.len() {
        0
    } else {
        let h = height(ts[n - 1]);
        let before = tallest(ts, (n - 1) as nat);
        if h > before {
            h
        } else {
            before
        }
    }
}

proof fn lemma_tallest(ts: Seq<TypeV>, n: nat, j: int)
    requires
        0 <= j < n <= ts.len(),
    ensures
        height(ts[j]) <= tallest(ts, n),
    decreases n,
{
    if j < n - 1 {
        lemma_tallest(ts, (n - 1) as nat, j);
    }
}

proof fn lemma_part_is_lower(lists: bool, w: SubstV, n: Text, t: TypeV)
    requires
        plain(lists, t),
        subst::occurs(n, t),
    ensures
        height(subst::substituted(w, TypeV::Var(n))) <= height(subst::substituted(w, t)),
        !(t is Var) ==> height(subst::substituted(w, TypeV::Var(n))) < height(subst::substituted(w, t)),
    decreases t,
{
    match t {
        TypeV::UserDefined(_, args) => {
            let out = subst::substituted_list(w, args);
            assert(plain_list(lists, args));
            assert(subst::occurs_any(n, args, 0));
            lemma_occurs_any(n, args, 0);
            let j = choose|j: int| 0 <= j < args.len() && subst::occurs(n, #[trigger] args[j]);
            lemma_part_is_lower(lists, w, n, args[j]);
            assert(out[j] == subst::substituted(w, args[j]));
            lemma_tallest(out, out.len(), j);
        },
        TypeV::Ref(i) => {
            lemma_part_is_lower(lists, w, n, *i);
        },
        TypeV::Linear(i) => {
            lemma_part_is_lower(lists, w, n, *i);
        },
        TypeV::Array(i) => {
            lemma_part_is_lower(lists, w, n, *i);
        },
        TypeV::List(i) => {
            lemma_part_is_lower(lists, w, n, *i);
        },
        _ => {},
    }
}

proof fn lemma_unifier_is_found(
    lists: bool,
    n: usize,
    defs: Seq<(Text, TypeDefV)>,
    a: TypeV,
    b: TypeV,
    depth: nat,
    w: SubstV,
)
    requires
        plain(lists, a),
        plain(lists, b),
        subst::substituted(w, a) == subst::substituted(w, b),
        height(subst::substituted(w, a)) <= depth,
    ensures
        unify::unified(n, defs, a, b, depth).0 matches Ok(s) && agrees(w, s),
    decreases depth, 0nat, 0nat,
{
    reveal(unify::unified);
    if a == b {
    } else if a is Var {
        let v = a->Var_0;
        if subst::occurs(v, b) {
            lemma_part_is_lower(lists, w, v, b);
        }
        let s = seq![(v, b)];
        assert(s[0] == (v, b));
    } else if b is Var {
        let v = b->Var_0;
        if subst::occurs(v, a) {
            lemma_part_is_lower(lists, w, v, a);
        }
        let s = seq![(v, a)];
        assert(s[0] == (v, a));
    } else {
        let d = (depth - 1) as nat;
        match (a, b) {
            (TypeV::UserDefined(n1, a1), TypeV::UserDefined(n2, a2)) => {
                let o1 = subst::substituted_list(w, a1);
                let o2 = subst::substituted_list(w, a2);
                assert(o1 == o2);
                assert(a1.len() == o1.len() && a2.len() == o2.len());
                assert(plain_list(lists, a1));
                assert(plain_list(lists, a2));
                assert forall|j: int| 0 <= j < a1.len() implies subst::substituted(w, #[trigger] a1[j])
                    == subst::substituted(w, a2[j]) && height(subst::substituted(w, a1[j])) <= d by {
                    assert(o1[j] == subst::substituted(w, a1[j]));
                    assert(o2[j] == subst::substituted(w, a2[j]));
                    lemma_tallest(o1, o1.len(), j);
                }
                lemma_unifier_of_lists_is_found(
                    lists,
                    n,
                    defs,
                    a1,
                    a2,
                    0,
                    subst::no_subst(),
                    d,
                    w,
                );
            },
            (TypeV::Array(x), TypeV::Array(y)) => {
                lemma_unifier_is_found(lists, n, defs, *x, *y, d, w);
            },
            (TypeV::List(x), TypeV::List(y)) => {
                lemma_unifier_is_found(lists, n, defs, *x, *y, d, w);
            },
            (TypeV::Ref(x), TypeV::Ref(y)) => {
                lemma_unifier_is_found(lists, n, defs, *x, *y, d, w);
            },
            (TypeV::Linear(x), TypeV::Linear(y)) => {
                lemma_unifier_is_found(lists, n, defs, *x, *y, d, w);
            },
            _ => {},
        }
    }
}

proof fn lemma_unifier_of_lists_is_found(
    lists: bool,
    n: usize,
    defs: Seq<(Text, TypeDefV)>,
    xs: Seq<TypeV>,
    ys: Seq<TypeV>,
    i: nat,
    s: SubstV,
    depth: nat,
    w: SubstV,
)
    requires
        xs.len() == ys.len(),
        i <= xs.len(),
        plain_list(lists, xs),
        plain_list(lists, ys),
        plain_subst(lists, s),
        agrees(w, s),
        forall|j: int|
            0 <= j < xs.len() ==> subst::substituted(w, #[trigger] xs[j]) == subst::substituted(w, ys[j])
                && height(subst::substituted(w, xs[j])) <= depth,
    ensures
        unify::unified_lists(n, defs, xs, ys, i, s, depth).0 matches Ok(t) && agrees(w, t),
    decreases depth, 2nat, xs.len() - i,
{
    reveal(unify::unified);
    if i < xs.len() {
        let x = xs[i as int];
        let y = ys[i as int];
        let sx = subst::substituted(s, x);
        let sy = subst::substituted(s, y);
        let step = unify::unified_step(n, defs, s, x, y, depth);
        let inner = unify::unified(n, defs, sx, sy, depth);
        lemma_plain_substituted(lists, s, x);
        lemma_plain_substituted(lists, s, y);
        lemma_agreeing_absorbs(lists, w, s, x);
        lemma_agreeing_absorbs(lists, w, s, y);
        lemma_unifier_is_found(lists, n, defs, sx, sy, depth, w);
        law_unified_types_become_equal(lists, n, defs, sx, sy, depth);
        let sn = inner.0->Ok_0;
        lemma_plain_composed(lists, s, sn);
        lemma_agrees_composed(lists, w, s, sn);
        assert(step == (Ok::<SubstV, Text>(subst::composed(s, sn)), inner.1));
        lemma_unifier_of_lists_is_found(
            lists,
            inner.1,
            defs,
            xs,
            ys,
            i + 1,
            subst::composed(s, sn),
            depth,
            w,
        );
    }
}

// ---------------------------------------------------------------------------
// How deep the search has to reach
// ---------------------------------------------------------------------------

/// A type and all types inside it.
pub open spec fn parts(t: TypeV) -> Seq<TypeV>
    decreases t, 0nat,
{
    match t {
        TypeV::UserDefined(_, args) => seq![t] + parts_of_all(args, args.len()),
        TypeV::Ref(i) => seq![t] + parts(*i),
        TypeV::Linear(i) => seq![t] + parts(*i),
        TypeV::Array(i) => seq![t] + parts(*i),
        TypeV::List(i) => seq![t] + parts(*i),
        _ => seq![t],
    }
}

/// The parts of the first `n` types of a list.
pub open spec fn parts_of_all(ts: Seq<TypeV>, n: nat) -> Seq<TypeV>
    decreases ts, n,
{
    if n == 0 || n > ts.len() {
        Seq::empty()
    } else {
        parts_of_all(ts, (n - 1) as nat) + parts(ts[n - 1])
    }
}

/// The number of types that a type is made of, itself counted.
pub open spec fn type_size(t: TypeV) -> nat {
    parts(t).len()
}

/// Whether a type stands directly inside another.
spec fn stands_in(c: TypeV, t: TypeV) -> bool {
    match t {
        TypeV::UserDefined(_, args) => args.contains(c),
        TypeV::Ref(i) => c == *i,
        TypeV::Linear(i) => c == *i,
        TypeV::Array(i) => c == *i,
        TypeV::List(i) => c == *i,
        _ => false,
    }
}

/// Whether a list of types has what stands inside each of them.
spec fn whole(g: Seq<TypeV>) -> bool {
    forall|i: int, c: TypeV|
        0 <= i < g.len() && #[trigger] stands_in(c, #[trigger] g[i]) ==> g.contains(c)
}

proof fn lemma_whole_joined(g: Seq<TypeV>, h: Seq<TypeV>)
    requires
        whole(g),
        whole(h),
    ensures
        whole(g + h),
{
    let all = g + h;
    assert forall|i: int, c: TypeV|
        0 <= i < all.len() && #[trigger] stands_in(c, #[trigger] all[i]) implies all.contains(
        c,
    ) by {
        if i < g.len() {
            assert(all[i] == g[i]);
            let j = choose|j: int| 0 <= j < g.len() && g[j] == c;
            assert(all[j] == c);
        } else {
            assert(all[i] == h[i - g.len()]);
            let j = choose|j: int| 0 <= j < h.len() && h[j] == c;
            assert(all[g.len() + j] == c);
        }
    }
}

proof fn lemma_whole_with(t: TypeV, g: Seq<TypeV>)
    requires
        whole(g),
        forall|c: TypeV| #[trigger] stands_in(c, t) ==> g.contains(c),
    ensures
        whole(seq![t] + g),
{
    let all = seq![t] + g;
    assert forall|i: int, c: TypeV|
        0 <= i < all.len() && #[trigger] stands_in(c, #[trigger] all[i]) implies all.contains(
        c,
    ) by {
        if i > 0 {
            assert(all[i] == g[i - 1]);
        }
        let j = choose|j: int| 0 <= j < g.len() && g[j] == c;
        assert(all[j + 1] == c);
    }
}

proof fn lemma_parts_are_whole(t: TypeV)
    ensures
        whole(parts(t)),
        parts(t).contains(t),
    decreases t, 0nat,
{
    let own = seq![t];
    match t {
        TypeV::UserDefined(_, args) => {
            let g = parts_of_all(args, args.len());
            lemma_parts_of_all_are_whole(args, args.len());
            assert forall|c: TypeV| #[trigger] stands_in(c, t) implies g.contains(c) by {
                let j = choose|j: int| 0 <= j < args.len() && args[j] == c;
                assert(g.contains(args[j]));
            }
            lemma_whole_with(t, g);
            assert(parts(t)[0] == t);
        },
        TypeV::Ref(i) => {
            lemma_parts_are_whole(*i);
            lemma_whole_with(t, parts(*i));
            assert(parts(t)[0] == t);
        },
        TypeV::Linear(i) => {
            lemma_parts_are_whole(*i);
            lemma_whole_with(t, parts(*i));
            assert(parts(t)[0] == t);
        },
        TypeV::Array(i) => {
            lemma_parts_are_whole(*i);
            lemma_whole_with(t, parts(*i));
            assert(parts(t)[0] == t);
        },
        TypeV::List(i) => {
            lemma_parts_are_whole(*i);
            lemma_whole_with(t, parts(*i));
            assert(parts(t)[0] == t);
        },
        _ => {
            assert(parts(t)[0] == t);
        },
    }
}

proof fn lemma_parts_of_all_are_whole(ts: Seq<TypeV>, n: nat)
    requires
        n <= ts.len(),
    ensures
        whole(parts_of_all(ts, n)),
        forall|j: int| 0 <= j < n ==> parts_of_all(ts, n).contains(#[trigger] ts[j]),
    decreases ts, n,
{
    if n > 0 {
        let m = (n - 1) as nat;
        let g = parts_of_all(ts, m);
        let h = parts(ts[m as int]);
        lemma_parts_of_all_are_whole(ts, m);
        lemma_parts_are_whole(ts[m as int]);
        lemma_whole_joined(g, h);
        assert forall|j: int| 0 <= j < n implies (g + h).contains(#[trigger] ts[j]) by {
            if j < m {
                let k = choose|k: int| 0 <= k < g.len() && g[k] == ts[j];
                assert((g + h)[k] == ts[j]);
            } else {
                let k = choose|k: int| 0 <= k < h.len() && h[k] == ts[j];
                assert((g + h)[g.len() + k] == ts[j]);
            }
        }
    }
}

/// Whether a substitution makes a type of one of some types.
spec fn shown(g: Seq<TypeV>, s: SubstV, t: TypeV) -> bool {
    exists|i: int| 0 <= i < g.len() && t == subst::substituted(s, #[trigger] g[i])
}

/// Whether a substitution makes a type of one of some types that is no variable.
spec fn rooted(g: Seq<TypeV>, s: SubstV, t: TypeV) -> bool {
    exists|i: int| 0 <= i < g.len() && !(g[i] is Var) && t == subst::substituted(s, #[trigger] g[i])
}

/// Whether what a substitution makes of variables is made of some types, or is a variable.
spec fn grounded(g: Seq<TypeV>, s: SubstV) -> bool {
    forall|x: Text|
        (#[trigger] subst::substituted(s, TypeV::Var(x))) is Var || rooted(
            g,
            s,
            subst::substituted(s, TypeV::Var(x)),
        )
}

proof fn lemma_shown_is_rooted(g: Seq<TypeV>, s: SubstV, t: TypeV)
    requires
        grounded(g, s),
        shown(g, s, t),
        !(t is Var),
    ensures
        rooted(g, s, t),
{
    let i = choose|i: int| 0 <= i < g.len() && t == subst::substituted(s, #[trigger] g[i]);
    if let TypeV::Var(x) = g[i] {
        assert(subst::substituted(s, TypeV::Var(x)) == t);
    }
}

proof fn lemma_part_is_shown(g: Seq<TypeV>, s: SubstV, t: TypeV, c: TypeV)
    requires
        whole(g),
        grounded(g, s),
        shown(g, s, t),
        stands_in(c, t),
    ensures
        shown(g, s, c),
{
    lemma_shown_is_rooted(g, s, t);
    let i = choose|i: int|
        0 <= i < g.len() && !(g[i] is Var) && t == subst::substituted(s, #[trigger] g[i]);
    let u = g[i];
    match u {
        TypeV::UserDefined(_, args) => {
            let out = subst::substituted_list(s, args);
            let j = choose|j: int| 0 <= j < out.len() && out[j] == c;
            assert(args.contains(args[j]));
            assert(stands_in(args[j], g[i]));
            let k = choose|k: int| 0 <= k < g.len() && g[k] == args[j];
            assert(c == subst::substituted(s, g[k]));
        },
        TypeV::Ref(d) => {
            assert(stands_in(*d, g[i]));
            let k = choose|k: int| 0 <= k < g.len() && g[k] == *d;
            assert(c == subst::substituted(s, g[k]));
        },
        TypeV::Linear(d) => {
            assert(stands_in(*d, g[i]));
            let k = choose|k: int| 0 <= k < g.len() && g[k] == *d;
            assert(c == subst::substituted(s, g[k]));
        },
        TypeV::Array(d) => {
            assert(stands_in(*d, g[i]));
            let k = choose|k: int| 0 <= k < g.len() && g[k] == *d;
            assert(c == subst::substituted(s, g[k]));
        },
        TypeV::List(d) => {
            assert(stands_in(*d, g[i]));
            let k = choose|k: int| 0 <= k < g.len() && g[k] == *d;
            assert(c == subst::substituted(s, g[k]));
        },
        _ => {},
    }
}

proof fn lemma_same_images(g: Seq<TypeV>, s1: SubstV, s2: SubstV)
    requires
        grounded(g, s1),
        forall|t: TypeV| #[trigger] subst::substituted(s1, t) == subst::substituted(s2, t),
    ensures
        grounded(g, s2),
{
    assert forall|x: Text|
        (#[trigger] subst::substituted(s2, TypeV::Var(x))) is Var || rooted(
        g,
        s2,
        subst::substituted(s2, TypeV::Var(x)),
    ) by {
        let t = subst::substituted(s1, TypeV::Var(x));
        if !(t is Var) {
            let i = choose|i: int|
                0 <= i < g.len() && !(g[i] is Var) && t == subst::substituted(s1, #[trigger] g[i]);
            assert(t == subst::substituted(s2, g[i]));
        }
    }
}

proof fn lemma_bound_is_grounded(lists: bool, g: Seq<TypeV>, s: SubstV, v: Text, t: TypeV)
    requires
        plain(lists, t),
        table::distinct_keys(s),
        grounded(g, s),
        shown(g, s, t),
        !subst::occurs(v, t),
    ensures
        grounded(g, subst::composed(s, seq![(v, t)])),
{
    let sn = seq![(v, t)];
    let c = subst::composed(s, sn);
    lemma_not_occurring(lists, v, t, t);
    subst_laws::law_untouched_types_stay(sn, t);
    assert forall|x: Text|
        (#[trigger] subst::substituted(c, TypeV::Var(x))) is Var || rooted(
        g,
        c,
        subst::substituted(c, TypeV::Var(x)),
    ) by {
        let u = subst::substituted(s, TypeV::Var(x));
        subst_laws::law_composition(s, sn, TypeV::Var(x));
        if !(u is Var) {
            assert(rooted(g, s, u));
            let i = choose|i: int|
                0 <= i < g.len() && !(g[i] is Var) && u == subst::substituted(s, #[trigger] g[i]);
            subst_laws::law_composition(s, sn, g[i]);
            assert(subst::substituted(c, TypeV::Var(x)) == subst::substituted(c, g[i]));
        } else {
            let y = u->Var_0;
            table::lemma_index_of_text(table::keys_of(sn), y, 0);
            assert(table::keys_of(sn)[0] == v);
            if y == v && !(t is Var) {
                lemma_shown_is_rooted(g, s, t);
                let i = choose|i: int|
                    0 <= i < g.len() && !(g[i] is Var) && t == subst::substituted(s, #[trigger] g[i]);
                subst_laws::law_composition(s, sn, g[i]);
                assert(subst::substituted(c, TypeV::Var(x)) == subst::substituted(c, g[i]));
            }
        }
    }
}

proof fn lemma_nothing_bound(s: SubstV)
    requires
        table::distinct_keys(s),
    ensures
        forall|t: TypeV| #[trigger] subst::substituted(subst::composed(s, subst::no_subst()), t) == subst::substituted(s, t),
        forall|t: TypeV| #[trigger] subst::substituted(subst::composed(subst::no_subst(), s), t) == subst::substituted(s, t),
{
    assert forall|t: TypeV| #[trigger] subst::substituted(subst::composed(s, subst::no_subst()), t) == subst::substituted(
        s,
        t,
    ) by {
        subst_laws::law_composition(s, subst::no_subst(), t);
        subst_laws::law_empty_substitution(subst::substituted(s, t));
    }
    assert forall|t: TypeV| #[trigger] subst::substituted(subst::composed(subst::no_subst(), s), t) == subst::substituted(
        s,
        t,
    ) by {
        subst_laws::law_composition(subst::no_subst(), s, t);
        subst_laws::law_empty_substitution(t);
    }
}

proof fn lemma_unified_is_grounded(
    lists: bool,
    n: usize,
    defs: Seq<(Text, TypeDefV)>,
    g: Seq<TypeV>,
    before: SubstV,
    a: TypeV,
    b: TypeV,
    depth: nat,
)
    requires
        plain(lists, a),
        plain(lists, b),
        whole(g),
        table::distinct_keys(before),
        grounded(g, before),
        shown(g, before, a),
        shown(g, before, b),
    ensures
        unify::unified(n, defs, a, b, depth).0 matches Ok(s) ==> grounded(g, subst::composed(before, s)),
    decreases depth, 0nat, 0nat,
{
    reveal(unify::unified);
    if a == b {
        lemma_nothing_bound(before);
        lemma_same_images(g, before, subst::composed(before, subst::no_subst()));
    } else if a is Var {
        if !subst::occurs(a->Var_0, b) {
            lemma_bound_is_grounded(lists, g, before, a->Var_0, b);
        }
    } else if b is Var {
        if !subst::occurs(b->Var_0, a) {
            lemma_bound_is_grounded(lists, g, before, b->Var_0, a);
        }
    } else if depth > 0 {
        let d = (depth - 1) as nat;
        match (a, b) {
            (TypeV::UserDefined(n1, a1), TypeV::UserDefined(n2, a2)) => {
                if n1 == n2 && a1.len() == a2.len() {
                    assert(plain_list(lists, a1));
                    assert(plain_list(lists, a2));
                    assert forall|j: int| 0 <= j < a1.len() implies shown(
                        g,
                        before,
                        #[trigger] a1[j],
                    ) by {
                        lemma_part_is_shown(g, before, a, a1[j]);
                    }
                    assert forall|j: int| 0 <= j < a2.len() implies shown(
                        g,
                        before,
                        #[trigger] a2[j],
                    ) by {
                        lemma_part_is_shown(g, before, b, a2[j]);
                    }
                    lemma_nothing_bound(before);
                    lemma_same_images(g, before, subst::composed(before, subst::no_subst()));
                    lemma_unified_lists_are_grounded(
                        lists,
                        n,
                        defs,
                        g,
                        before,
                        a1,
                        a2,
                        0,
                        subst::no_subst(),
                        d,
                    );
                }
            },
            (TypeV::Array(x), TypeV::Array(y)) => {
                lemma_part_is_shown(g, before, a, *x);
                lemma_part_is_shown(g, before, b, *y);
                lemma_unified_is_grounded(lists, n, defs, g, before, *x, *y, d);
            },
            (TypeV::List(x), TypeV::List(y)) => {
                lemma_part_is_shown(g, before, a, *x);
                lemma_part_is_shown(g, before, b, *y);
                lemma_unified_is_grounded(lists, n, defs, g, before, *x, *y, d);
            },
            (TypeV::Ref(x), TypeV::Ref(y)) => {
                lemma_part_is_shown(g, before, a, *x);
                lemma_part_is_shown(g, before, b, *y);
                lemma_unified_is_grounded(lists, n, defs, g, before, *x, *y, d);
            },
            (TypeV::Linear(x), TypeV::Linear(y)) => {
                lemma_part_is_shown(g, before, a, *x);
                lemma_part_is_shown(g, before, b, *y);
                lemma_unified_is_grounded(lists, n, defs, g, before, *x, *y, d);
            },
            _ => {},
        }
    }
}

proof fn lemma_unified_lists_are_grounded(
    lists: bool,
    n: usize,
    defs: Seq<(Text, TypeDefV)>,
    g: Seq<TypeV>,
    before: SubstV,
    xs: Seq<TypeV>,
    ys: Seq<TypeV>,
    i: nat,
    s: SubstV,
    depth: nat,
)
    requires
        xs.len() == ys.len(),
        i <= xs.len(),
        plain_list(lists, xs),
        plain_list(lists, ys),
        whole(g),
        table::distinct_keys(before),
        forall|j: int| 0 <= j < xs.len() ==> shown(g, before, #[trigger] xs[j]),
        forall|j: int| 0 <= j < ys.len() ==> shown(g, before, #[trigger] ys[j]),
        plain_subst(lists, s),
        table::distinct_keys(s),
        grounded(g, subst::composed(before, s)),
    ensures
        unify::unified_lists(n, defs, xs, ys, i, s, depth).0 matches Ok(t) ==> grounded(
            g,
            subst::composed(before, t),
        ),
    decreases depth, 2nat, xs.len() - i,
{
    reveal(unify::unified);
    if i < xs.len() {
        let x = xs[i as int];
        let y = ys[i as int];
        let sx = subst::substituted(s, x);
        let sy = subst::substituted(s, y);
        let step = unify::unified_step(n, defs, s, x, y, depth);
        let inner = unify::unified(n, defs, sx, sy, depth);
        let now = subst::composed(before, s);
        lemma_plain_substituted(lists, s, x);
        lemma_plain_substituted(lists, s, y);
        subst_laws::law_composed_keys_are_distinct(before, s);
        lemma_shown_later(g, before, s, x);
        lemma_shown_later(g, before, s, y);
        lemma_unified_is_grounded(lists, n, defs, g, now, sx, sy, depth);
        law_unified_types_become_equal(lists, n, defs, sx, sy, depth);
        if let Ok(sn) = inner.0 {
            let s2 = subst::composed(s, sn);
            assert(step == (Ok::<SubstV, Text>(s2), inner.1));
            lemma_plain_composed(lists, s, sn);
            subst_laws::law_composed_keys_are_distinct(s, sn);
            assert forall|t: TypeV| #[trigger] subst::substituted(subst::composed(now, sn), t) == subst::substituted(
                subst::composed(before, s2),
                t,
            ) by {
                subst_laws::law_composition(now, sn, t);
                subst_laws::law_composition(before, s, t);
                subst_laws::law_composition(before, s2, t);
                subst_laws::law_composition(s, sn, subst::substituted(before, t));
            }
            lemma_same_images(g, subst::composed(now, sn), subst::composed(before, s2));
            lemma_unified_lists_are_grounded(
                lists,
                inner.1,
                defs,
                g,
                before,
                xs,
                ys,
                i + 1,
                s2,
                depth,
            );
        }
    }
}

proof fn lemma_shown_later(g: Seq<TypeV>, before: SubstV, s: SubstV, t: TypeV)
    requires
        table::distinct_keys(before),
        shown(g, before, t),
    ensures
        shown(g, subst::composed(before, s), subst::substituted(s, t)),
{
    let i = choose|i: int| 0 <= i < g.len() && t == subst::substituted(before, #[trigger] g[i]);
    subst_laws::law_composition(before, s, g[i]);
    assert(subst::substituted(s, t) == subst::substituted(subst::composed(before, s), g[i]));
}

/// How many of the first `n` types of a list are no variables and are made no higher than `k`.
spec fn low_count(g: Seq<TypeV>, s: SubstV, k: nat, n: nat) -> nat
    decreases n,
{
    if n == 0 || n > g.len() {
        0
    } else {
        low_count(g, s, k, (n - 1) as nat) + if !(g[n - 1] is Var) && height(
            subst::substituted(s, g[n - 1]),
        ) <= k {
            1nat
        } else {
            0nat
        }
    }
}

proof fn lemma_low_count(g: Seq<TypeV>, s: SubstV, k: nat, n: nat)
    requires
        k > 0,
        n <= g.len(),
    ensures
        low_count(g, s, k, n) <= n,
        low_count(g, s, (k - 1) as nat, n) <= low_count(g, s, k, n),
        (exists|i: int|
            0 <= i < n && !(g[i] is Var) && height(subst::substituted(s, #[trigger] g[i])) == k)
            ==> low_count(g, s, (k - 1) as nat, n) < low_count(g, s, k, n),
    decreases n,
{
    if n > 0 {
        lemma_low_count(g, s, k, (n - 1) as nat);
    }
}

proof fn lemma_tallest_is_reached(ts: Seq<TypeV>, n: nat)
    requires
        n <= ts.len(),
        tallest(ts, n) > 0,
    ensures
        exists|j: int| 0 <= j < n && height(#[trigger] ts[j]) == tallest(ts, n),
    decreases n,
{
    if height(ts[n - 1]) != tallest(ts, n) {
        lemma_tallest_is_reached(ts, (n - 1) as nat);
    }
}

proof fn lemma_low_part(t: TypeV)
    requires
        height(t) > 1,
    ensures
        exists|c: TypeV| #[trigger] stands_in(c, t) && height(c) == height(t) - 1,
{
    match t {
        TypeV::UserDefined(_, args) => {
            lemma_tallest_is_reached(args, args.len());
            let j = choose|j: int|
                0 <= j < args.len() && height(#[trigger] args[j]) == tallest(args, args.len());
            assert(args.contains(args[j]));
            assert(stands_in(args[j], t));
        },
        TypeV::Ref(i) => {
            assert(stands_in(*i, t));
        },
        TypeV::Linear(i) => {
            assert(stands_in(*i, t));
        },
        TypeV::Array(i) => {
            assert(stands_in(*i, t));
        },
        TypeV::List(i) => {
            assert(stands_in(*i, t));
        },
        _ => {},
    }
}

proof fn lemma_height_is_bounded(g: Seq<TypeV>, s: SubstV, t: TypeV)
    requires
        whole(g),
        grounded(g, s),
        shown(g, s, t),
    ensures
        height(t) <= low_count(g, s, height(t), g.len()),
    decreases height(t),
{
    let k = height(t);
    if k > 0 {
        lemma_shown_is_rooted(g, s, t);
        let i = choose|i: int|
            0 <= i < g.len() && !(g[i] is Var) && t == subst::substituted(s, #[trigger] g[i]);
        assert(height(subst::substituted(s, g[i])) == k);
        lemma_low_count(g, s, k, g.len());
        if k > 1 {
            lemma_low_part(t);
            let c = choose|c: TypeV| #[trigger] stands_in(c, t) && height(c) == k - 1;
            lemma_part_is_shown(g, s, t, c);
            lemma_height_is_bounded(g, s, c);
        }
    }
}

/// What unification makes of two plain types is nested no deeper than the two have types inside
/// them.
pub proof fn law_unified_types_stay_low(
    lists: bool,
    n: usize,
    defs: Seq<(Text, TypeDefV)>,
    a: TypeV,
    b: TypeV,
    depth: nat,
)
    requires
        plain(lists, a),
        plain(lists, b),
    ensures
        unify::unified(n, defs, a, b, depth).0 matches Ok(s) ==> height(subst::substituted(s, a)) <= type_size(a)
            + type_size(b),
{
    let g = parts(a) + parts(b);
    lemma_parts_are_whole(a);
    lemma_parts_are_whole(b);
    lemma_whole_joined(parts(a), parts(b));
    subst_laws::law_empty_substitution(a);
    subst_laws::law_empty_substitution(b);
    let i = choose|i: int| 0 <= i < parts(a).len() && parts(a)[i] == a;
    let j = choose|j: int| 0 <= j < parts(b).len() && parts(b)[j] == b;
    assert(g[i] == a && g[parts(a).len() + j] == b);
    assert(shown(g, subst::no_subst(), a));
    assert(shown(g, subst::no_subst(), b));
    assert(grounded(g, subst::no_subst())) by {
        assert forall|x: Text| (#[trigger] subst::substituted(subst::no_subst(), TypeV::Var(x))) is Var by {
            subst_laws::law_empty_substitution(TypeV::Var(x));
        }
    }
    lemma_unified_is_grounded(lists, n, defs, g, subst::no_subst(), a, b, depth);
    law_unified_types_become_equal(lists, n, defs, a, b, depth);
    if let Ok(s) = unify::unified(n, defs, a, b, depth).0 {
        let t = subst::substituted(s, a);
        lemma_nothing_bound(s);
        lemma_same_images(g, subst::composed(subst::no_subst(), s), s);
        assert(t == subst::substituted(s, g[i]));
        assert(shown(g, s, t));
        lemma_height_is_bounded(g, s, t);
        if height(t) > 0 {
            lemma_low_count(g, s, height(t), g.len());
        }
    }
}

/// Two plain types that some substitution makes equal are unified, and most generally: the
/// other substitution is the one that was found, followed by itself. The bound on the search
/// only has to reach as deep as the two have types inside them.
pub proof fn law_unifiable_types_unify(
    lists: bool,
    n: usize,
    defs: Seq<(Text, TypeDefV)>,
    a: TypeV,
    b: TypeV,
    depth: nat,
    w: SubstV,
)
    requires
        plain(lists, a),
        plain(lists, b),
        type_size(a) + type_size(b) <= depth,
        subst::substituted(w, a) == subst::substituted(w, b),
    ensures
        unify::unified(n, defs, a, b, depth).0 matches Ok(s) && forall|t: TypeV|
            #![trigger subst::substituted(s, t)]
            plain(lists, t) ==> subst::substituted(w, subst::substituted(s, t)) == subst::substituted(w, t),
{
    let high = height(subst::substituted(w, a));
    lemma_unifier_is_found(lists, n, defs, a, b, high, w);
    law_unified_types_become_equal(lists, n, defs, a, b, high);
    law_unified_types_stay_low(lists, n, defs, a, b, high);
    let first = unify::unified(n, defs, a, b, high).0->Ok_0;
    lemma_unifier_is_found(lists, n, defs, a, b, depth, first);
    law_unified_types_become_equal(lists, n, defs, a, b, depth);
    let s = unify::unified(n, defs, a, b, depth).0->Ok_0;
    assert forall|t: TypeV|
        #![trigger subst::substituted(s, t)]
        plain(lists, t) implies subst::substituted(w, subst::substituted(s, t)) == subst::substituted(w, t) by {
        lemma_plain_substituted(lists, s, t);
        lemma_agreeing_absorbs(lists, w, first, subst::substituted(s, t));
        lemma_agreeing_absorbs(lists, first, s, t);
        lemma_agreeing_absorbs(lists, w, first, t);
    }
}

/// Two plain types are refused exactly where no substitution makes them equal. The bound on the
/// search only has to reach as deep as the two have types inside them.
pub proof fn law_refused_types_have_no_unifier(
    lists: bool,
    n: usize,
    defs: Seq<(Text, TypeDefV)>,
    a: TypeV,
    b: TypeV,
    depth: nat,
)
    requires
        plain(lists, a),
        plain(lists, b),
        type_size(a) + type_size(b) <= depth,
    ensures
        unify::unified(n, defs, a, b, depth).0 is Err <==> (forall|w: SubstV| #[trigger]
            subst::substituted(w, a) != subst::substituted(w, b)),
{
    law_unified_types_become_equal(lists, n, defs, a, b, depth);
    if !(forall|w: SubstV| #[trigger] subst::substituted(w, a) != subst::substituted(w, b)) {
        let w = choose|w: SubstV| #[trigger] subst::substituted(w, a) == subst::substituted(w, b);
        law_unifiable_types_unify(lists, n, defs, a, b, depth, w);
    }
}

/// A type is unified with itself without binding anything.
pub proof fn law_equal_types_unify(n: usize, defs: Seq<(Text, TypeDefV)>, t: TypeV, depth: nat)
    ensures
        unify::unified(n, defs, t, t, depth) == (Ok::<SubstV, Text>(subst::no_subst()), n),
{
    reveal(unify::unified);
}

// ---------------------------------------------------------------------------
// Unification as a whole
// ---------------------------------------------------------------------------

/// The report of a search that was cut off by its bound.
pub open spec fn cut_off() -> Text {
    "Recursion limit"@
}

proof fn lemma_deeper_search(
    lists: bool,
    n: usize,
    defs: Seq<(Text, TypeDefV)>,
    a: TypeV,
    b: TypeV,
    depth: nat,
    deeper: nat,
)
    requires
        plain(lists, a),
        plain(lists, b),
        depth <= deeper,
        unify::unified(n, defs, a, b, depth).0 != Err::<SubstV, Text>(cut_off()),
    ensures
        unify::unified(n, defs, a, b, deeper) == unify::unified(n, defs, a, b, depth),
    decreases depth, 0nat, 0nat,
{
    reveal(unify::unified);
    if a != b && !(a is Var) && !(b is Var) && depth > 0 {
        let d = (depth - 1) as nat;
        let e = (deeper - 1) as nat;
        match (a, b) {
            (TypeV::UserDefined(n1, a1), TypeV::UserDefined(n2, a2)) => {
                if n1 == n2 && a1.len() == a2.len() {
                    assert(plain_list(lists, a1));
                    assert(plain_list(lists, a2));
                    lemma_deeper_search_of_lists(lists, n, defs, a1, a2, 0, subst::no_subst(), d, e);
                }
            },
            (TypeV::Array(x), TypeV::Array(y)) => {
                lemma_deeper_search(lists, n, defs, *x, *y, d, e);
            },
            (TypeV::List(x), TypeV::List(y)) => {
                lemma_deeper_search(lists, n, defs, *x, *y, d, e);
            },
            (TypeV::Ref(x), TypeV::Ref(y)) => {
                lemma_deeper_search(lists, n, defs, *x, *y, d, e);
            },
            (TypeV::Linear(x), TypeV::Linear(y)) => {
                lemma_deeper_search(lists, n, defs, *x, *y, d, e);
            },
            _ => {},
        }
    }
}

proof fn lemma_deeper_search_of_lists(
    lists: bool,
    n: usize,
    defs: Seq<(Text, TypeDefV)>,
    xs: Seq<TypeV>,
    ys: Seq<TypeV>,
    i: nat,
    s: SubstV,
    depth: nat,
    deeper: nat,
)
    requires
        xs.len() == ys.len(),
        plain_list(lists, xs),
        plain_list(lists, ys),
        plain_subst(lists, s),
        depth <= deeper,
        unify::unified_lists(n, defs, xs, ys, i, s, depth).0 != Err::<SubstV, Text>(cut_off()),
    ensures
        unify::unified_lists(n, defs, xs, ys, i, s, deeper) == unify::unified_lists(
            n,
            defs,
            xs,
            ys,
            i,
            s,
            depth,
        ),
    decreases depth, 2nat, xs.len() - i,
{
    reveal(unify::unified);
    if i < xs.len() {
        let x = xs[i as int];
        let y = ys[i as int];
        let sx = subst::substituted(s, x);
        let sy = subst::substituted(s, y);
        let inner = unify::unified(n, defs, sx, sy, depth);
        let step = unify::unified_step(n, defs, s, x, y, depth);
        let far = unify::unified_step(n, defs, s, x, y, deeper);
        lemma_plain_substituted(lists, s, x);
        lemma_plain_substituted(lists, s, y);
        if let Err(e) = inner.0 {
            assert(step == (Err::<SubstV, Text>(e), inner.1));
        }
        lemma_deeper_search(lists, n, defs, sx, sy, depth, deeper);
        assert(far == step);
        law_unified_types_become_equal(lists, n, defs, sx, sy, depth);
        if let Ok(sn) = inner.0 {
            assert(step == (Ok::<SubstV, Text>(subst::composed(s, sn)), inner.1));
            lemma_plain_composed(lists, s, sn);
            lemma_deeper_search_of_lists(
                lists,
                inner.1,
                defs,
                xs,
                ys,
                i + 1,
                subst::composed(s, sn),
                depth,
                deeper,
            );
        }
    }
}

/// What unification of two plain types, however large, yields. A substitution makes the two
/// equal, binds variables of theirs alone, and gives no type in which a bound variable occurs;
/// it is empty where the two are the same. A failure means that no substitution makes them
/// equal, unless it reports that the search was cut off, which only happens where the two have
/// more types inside them than the bound on the search.
pub proof fn law_unification_is_exact(
    lists: bool,
    n: usize,
    defs: Seq<(Text, TypeDefV)>,
    a: TypeV,
    b: TypeV,
    depth: nat,
)
    requires
        plain(lists, a),
        plain(lists, b),
    ensures
        match unify::unified(n, defs, a, b, depth).0 {
            Ok(s) => {
                &&& subst::substituted(s, a) == subst::substituted(s, b)
                &&& forall|i: int|
                    0 <= i < s.len() ==> subst::occurs((#[trigger] s[i]).0, a) || subst::occurs(s[i].0, b)
                &&& solved(s)
                &&& a == b ==> s == subst::no_subst()
            },
            Err(e) => {
                ||| forall|w: SubstV| #[trigger] subst::substituted(w, a) != subst::substituted(w, b)
                ||| e == cut_off() && type_size(a) + type_size(b) > depth
            },
        },
{
    law_unified_types_become_equal(lists, n, defs, a, b, depth);
    law_unifier_is_solved(lists, n, defs, a, b, depth);
    law_equal_types_unify(n, defs, a, depth);
    if unify::unified(n, defs, a, b, depth).0 matches Err(e) && (e != cut_off() || type_size(a)
        + type_size(b) <= depth) {
        let deeper = depth + type_size(a) + type_size(b);
        if type_size(a) + type_size(b) <= depth {
            law_refused_types_have_no_unifier(lists, n, defs, a, b, depth);
        } else {
            lemma_deeper_search(lists, n, defs, a, b, depth, deeper);
            law_refused_types_have_no_unifier(lists, n, defs, a, b, deeper);
        }
    }
}

} // verus!
