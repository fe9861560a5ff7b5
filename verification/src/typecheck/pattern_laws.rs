//! What patterns bind, and which argument of a constructor goes to which field.

use crate::ast::PatternV;
use crate::text::Text;
use crate::typecheck::env;
use crate::typecheck::env_laws;
use crate::typecheck::exhaustiveness;
use crate::typecheck::infer_laws;
use crate::typecheck::infer_laws::ScalarKind;
use crate::typecheck::pattern;
use crate::typecheck::state;
use crate::typecheck::state::{Cx, St};
use crate::types::{LiteralV, Spanned, TypeV};
use vstd::prelude::*;

verus! {

// ---------------------------------------------------------------------------
// Patterns
// ---------------------------------------------------------------------------

/// A pattern that is a name binds the name to the type of what is matched, taken out of a linear
/// or a borrowed type; a wildcard binds nothing.
pub proof fn law_variable_pattern_binds(cx: Cx, st: St, p: Spanned<PatternV>, t: TypeV)
    ensures
        ({
            let inner = match t {
                TypeV::Linear(i) => *i,
                TypeV::Borrow(i) => *i,
                _ => t,
            };
            let (r, after) = pattern::pattern_bound(cx, st, p, t);
            match p.node {
                PatternV::Variable(n, sigil) => r is Ok && env::env_get(after.env, sigil.key(n)) == Some(
                    env::mono(inner),
                ),
                PatternV::Wildcard => after == st,
                _ => true,
            }
        }),
{
    reveal(pattern::pattern_bound);
    match p.node {
        PatternV::Variable(n, sigil) => {
            env_laws::law_inserted_binding_is_found(st.env, sigil.key(n), env::mono(exhaustiveness::unwrapped(t)), sigil.key(n));
        },
        _ => {},
    }
}

/// A literal can be matched against a scalar exactly where it can stand for one of its kind, and
/// it binds nothing.
pub proof fn law_literal_pattern_fits(
    cx: Cx,
    st: St,
    p: Spanned<PatternV>,
    l: LiteralV,
    k: ScalarKind,
)
    requires
        p.node == PatternV::Literal(l),
        infer_laws::literal_kind(l) is Some,
    ensures
        pattern::pattern_bound(cx, st, p, infer_laws::type_of_kind(k)).0 is Ok <==> infer_laws::may_stand_for(
            k,
            infer_laws::literal_kind(l)->0,
        ),
        pattern::pattern_bound(cx, st, p, infer_laws::type_of_kind(k)).1.env == st.env,
{
    reveal(pattern::pattern_bound);
    infer_laws::law_kinds_unify(cx, st, k, infer_laws::literal_kind(l)->0, p.span);
}

// ---------------------------------------------------------------------------
// Arguments and fields
// ---------------------------------------------------------------------------

/// Whether the first `n` arguments are placed: each of them fills one field, no two the same, and
/// a labelled one the field of its label.
pub open spec fn arguments_placed(
    fields: Seq<(Option<Text>, TypeV)>,
    labels: Seq<Option<Text>>,
    places: Seq<Option<usize>>,
    n: nat,
) -> bool {
    &&& places.len() == fields.len()
    &&& forall|f: int|
        0 <= f < places.len() ==> (#[trigger] places[f] matches Some(k) ==> k < n && (
        labels[k as int] is Some ==> fields[f].0 == labels[k as int]))
    &&& forall|f: int, g: int|
        0 <= f < g < places.len() && places[f] is Some && places[g] is Some ==> #[trigger] places[f]
            != #[trigger] places[g]
    &&& forall|k: int| 0 <= k < n ==> #[trigger] fills_a_field(places, k)
}

/// Whether an argument fills a field.
pub open spec fn fills_a_field(places: Seq<Option<usize>>, k: int) -> bool {
    exists|f: int| 0 <= f < places.len() && #[trigger] places[f] == Some(k as usize)
}

proof fn lemma_labelled_field(fields: Seq<(Option<Text>, TypeV)>, l: Text, i: nat)
    requires
        i <= fields.len(),
    ensures
        i <= state::labelled_field(fields, l, i) <= fields.len(),
        state::labelled_field(fields, l, i) < fields.len() ==> fields[state::labelled_field(
            fields,
            l,
            i,
        ) as int].0 == Some(l),
        state::labelled_field(fields, l, i) == fields.len() ==> forall|f: int|
            i <= f < fields.len() ==> (#[trigger] fields[f]).0 != Some(l),
    decreases fields.len() - i,
{
    if i < fields.len() && fields[i as int].0 != Some(l) {
        lemma_labelled_field(fields, l, i + 1);
    }
}

proof fn lemma_free_place(places: Seq<Option<usize>>, i: nat)
    requires
        i <= places.len(),
    ensures
        i <= state::free_place(places, i) <= places.len(),
        state::free_place(places, i) < places.len() ==> places[state::free_place(places, i) as int] is None,
        forall|f: int| i <= f < state::free_place(places, i) ==> #[trigger] places[f] is Some,
    decreases places.len() - i,
{
    if i < places.len() && places[i as int] is Some {
        lemma_free_place(places, i + 1);
    }
}

proof fn lemma_filled(
    fields: Seq<(Option<Text>, TypeV)>,
    labels: Seq<Option<Text>>,
    places: Seq<Option<usize>>,
    i: nat,
    k: int,
)
    requires
        i < labels.len() <= usize::MAX,
        arguments_placed(fields, labels, places, i),
        0 <= k < fields.len(),
        places[k] is None,
        labels[i as int] is Some ==> fields[k].0 == labels[i as int],
    ensures
        arguments_placed(fields, labels, places.update(k, Some(i as usize)), i + 1),
{
    let next = places.update(k, Some(i as usize));
    assert forall|a: int| 0 <= a < i + 1 implies #[trigger] fills_a_field(next, a) by {
        if a == i {
            assert(next[k] == Some(a as usize));
        } else {
            assert(fills_a_field(places, a));
            let f = choose|f: int| 0 <= f < places.len() && #[trigger] places[f] == Some(a as usize);
            assert(next[f] == Some(a as usize));
        }
    }
    assert forall|f: int, g: int|
        0 <= f < g < next.len() && next[f] is Some && next[g] is Some implies #[trigger] next[f]
        != #[trigger] next[g] by {
        if f != k && g != k {
            assert(places[f] != places[g]);
        } else if f == k {
            assert(places[g] is Some);
            assert(places[g]->0 < i);
        } else {
            assert(places[f] is Some);
            assert(places[f]->0 < i);
        }
    }
    assert forall|f: int| 0 <= f < next.len() implies (#[trigger] next[f] matches Some(a) ==> a < i
        + 1 && (labels[a as int] is Some ==> fields[f].0 == labels[a as int])) by {
        if f != k {
            assert(next[f] == places[f]);
        }
    }
}

proof fn lemma_placed(
    fields: Seq<(Option<Text>, TypeV)>,
    labels: Seq<Option<Text>>,
    places: Seq<Option<usize>>,
    i: nat,
)
    requires
        i <= labels.len() <= usize::MAX,
        arguments_placed(fields, labels, places, i),
    ensures
        state::placed(fields, labels, places, i) matches Ok(out) ==> arguments_placed(
            fields,
            labels,
            out,
            labels.len(),
        ),
    decreases labels.len() - i,
{
    if i < labels.len() {
        match labels[i as int] {
            Some(l) => {
                lemma_labelled_field(fields, l, 0);
                let k = state::labelled_field(fields, l, 0);
                if k < fields.len() && places[k as int] is None {
                    lemma_filled(fields, labels, places, i, k as int);
                    lemma_placed(fields, labels, places.update(k as int, Some(i as usize)), i + 1);
                }
            },
            None => {
                lemma_free_place(places, 0);
                let k = state::free_place(places, 0);
                if k < places.len() {
                    lemma_filled(fields, labels, places, i, k as int);
                    lemma_placed(fields, labels, places.update(k as int, Some(i as usize)), i + 1);
                }
            },
        }
    }
}

/// Where the arguments of a constructor are accepted, each fills one field, no two the same, and
/// a labelled argument fills the field of its label, wherever it is written.
pub proof fn law_labelled_arguments_fill_their_fields(
    fields: Seq<(Option<Text>, TypeV)>,
    labels: Seq<Option<Text>>,
)
    requires
        labels.len() <= usize::MAX,
    ensures
        state::placed(fields, labels, state::free_places(fields.len()), 0) matches Ok(out) ==> arguments_placed(
            fields,
            labels,
            out,
            labels.len(),
        ),
{
    lemma_placed(fields, labels, state::free_places(fields.len()), 0);
}

proof fn lemma_in_order(
    fields: Seq<(Option<Text>, TypeV)>,
    labels: Seq<Option<Text>>,
    places: Seq<Option<usize>>,
    i: nat,
)
    requires
        i <= labels.len() <= usize::MAX,
        labels.len() <= fields.len(),
        places.len() == fields.len(),
        forall|j: int| 0 <= j < labels.len() ==> #[trigger] labels[j] is None,
        forall|f: int|
            0 <= f < places.len() ==> #[trigger] places[f] == if f < i {
                Some(f as usize)
            } else {
                None
            },
    ensures
        state::placed(fields, labels, places, i) matches Ok(out) && out.len() == fields.len() && forall|
            f: int,
        |
            0 <= f < out.len() ==> #[trigger] out[f] == if f < labels.len() {
                Some(f as usize)
            } else {
                None
            },
    decreases labels.len() - i,
{
    if i < labels.len() {
        lemma_free_place(places, 0);
        let k = state::free_place(places, 0);
        assert(places[i as int] is None);
        assert(k == i) by {
            if k < i {
                assert(places[k as int] is Some);
            }
            if k > i {
                assert(places[i as int] is Some);
            }
        }
        lemma_in_order(fields, labels, places.update(k as int, Some(i as usize)), i + 1);
    }
}

/// Arguments without labels fill the fields in the order in which they are written, and are
/// accepted where there are no more of them than fields.
pub proof fn law_plain_arguments_fill_the_fields_in_order(
    fields: Seq<(Option<Text>, TypeV)>,
    labels: Seq<Option<Text>>,
)
    requires
        labels.len() <= usize::MAX,
        labels.len() <= fields.len(),
        forall|j: int| 0 <= j < labels.len() ==> #[trigger] labels[j] is None,
    ensures
        state::placed(fields, labels, state::free_places(fields.len()), 0) matches Ok(out) && out.len()
            == fields.len() && forall|f: int|
            0 <= f < out.len() ==> #[trigger] out[f] == if f < labels.len() {
                Some(f as usize)
            } else {
                None
            },
{
    lemma_in_order(fields, labels, state::free_places(fields.len()), 0);
}

} // verus!
