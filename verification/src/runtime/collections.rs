//! Maps, sets and byte buffers that programs hold by handle.

use crate::runtime::bytes;
use crate::runtime::bytes::{
    bytes_to_string, push_le_bytes, push_leb128_s, push_leb128_u, push_text_bytes,
};
use crate::runtime::registry::Registry;
use crate::table;
use crate::table::{find_key, list_keys, put};
use crate::text;
use crate::text::{Text, i64_to_text, join, owned};
use std::collections::{HashMap, HashSet};
use vstd::prelude::*;
use vstd::std_specs::iter::IteratorSpec;
use vstd::utf8::{decode_utf8, encode_utf8, valid_utf8};

verus! {

// ---------------------------------------------------------------------------
// Models
// ---------------------------------------------------------------------------

/// The models of the values behind handles.
pub open spec fn modelled<T, A>(m: Map<i64, T>, f: spec_fn(T) -> A) -> Map<i64, A> {
    m.map_values(f)
}

/// The model of an operation on the values behind handles is the operation on their models.
pub proof fn lemma_modelled<T, A>(m: Map<i64, T>, f: spec_fn(T) -> A, id: i64, v: T)
    ensures
        modelled(m, f).contains_key(id) == m.contains_key(id),
        m.get(id) matches Some(x) ==> modelled(m, f).get(id) == Some(f(x)),
        m.get(id) is None ==> modelled(m, f).get(id) is None,
        modelled(m.insert(id, v), f) == modelled(m, f).insert(id, f(v)),
        modelled(m.remove(id), f) == modelled(m, f).remove(id),
        m.remove(id).insert(id, v) == m.insert(id, v),
{
    assert(modelled(m.insert(id, v), f) =~= modelled(m, f).insert(id, f(v)));
    assert(modelled(m.remove(id), f) =~= modelled(m, f).remove(id));
    assert(m.remove(id).insert(id, v) =~= m.insert(id, v));
}

/// Whether an operation kept the next handle and the validity of a registry.
pub open spec fn keeps_handles<T>(before: Registry<T>, after: Registry<T>) -> bool {
    after.next == before.next && (before.valid() ==> after.valid())
}

/// Whether an operation gave out the next handle of a registry.
pub open spec fn gives_handle<T>(before: Registry<T>, after: Registry<T>, id: i64) -> bool {
    id == before.next && after.next == before.next + 1 && after.valid()
}

/// The maps from integers to integers, by handle.
pub open spec fn int_maps(r: Registry<HashMap<i64, i64>>) -> Map<i64, Map<i64, i64>> {
    modelled(r.entries@, |t: HashMap<i64, i64>| t@)
}

/// The sets of integers, by handle.
pub open spec fn int_sets(r: Registry<HashSet<i64>>) -> Map<i64, Set<i64>> {
    modelled(r.entries@, |t: HashSet<i64>| t@)
}

/// The model of a map from texts to integers.
pub open spec fn counts_view(m: Seq<(String, i64)>) -> Seq<(Text, i64)> {
    m.map_values(|e: (String, i64)| (e.0@, e.1))
}

/// The maps from texts to integers, by handle.
pub open spec fn text_maps(r: Registry<Vec<(String, i64)>>) -> Map<i64, Seq<(Text, i64)>> {
    modelled(r.entries@, |t: Vec<(String, i64)>| counts_view(t@))
}

/// The byte buffers, by handle.
pub open spec fn buffers(r: Registry<Vec<u8>>) -> Map<i64, Seq<u8>> {
    modelled(r.entries@, |t: Vec<u8>| t@)
}

/// Integers in decimal, one on each line.
pub open spec fn integer_lines(v: Seq<i64>) -> Text {
    text::joined(v.map_values(|n: i64| text::decimal_int(n as int)), "\n"@)
}

fn to_integer_lines(v: &Vec<i64>) -> (r: String)
    ensures
        r@ == integer_lines(v@),
{
    let mut parts: Vec<String> = Vec::new();
    let mut i: usize = 0;
    while i < v.len()
        invariant
            i <= v.len(),
            parts.len() == i,
            forall|j: int| 0 <= j < i ==> (#[trigger] parts@[j])@ == text::decimal_int(v@[j] as int),
        decreases v.len() - i,
    {
        parts.push(i64_to_text(v[i]));
        i = i + 1;
    }
    assert(text::texts(parts@) =~= v@.map_values(|n: i64| text::decimal_int(n as int)));
    join(&parts, "\n")
}

/// The number of items as a machine integer.
pub open spec fn size_of_seq<A>(s: Seq<A>) -> i64 {
    s.len() as i64
}

/// No text.
pub open spec fn no_text() -> Text {
    Seq::empty()
}

fn empty_text() -> (r: String)
    ensures
        r@ == no_text(),
{
    let r = String::new();
    assert(r@ =~= no_text());
    r
}

// ---------------------------------------------------------------------------
// Maps from integers to integers
// ---------------------------------------------------------------------------

/// Whether keys are listed each once.
pub open spec fn lists_keys(order: Seq<i64>, keys: Set<i64>) -> bool {
    order.no_duplicates() && order.to_set() == keys
}

/// Whether a text has the keys of a map, one on each line, in some order.
pub open spec fn shows_keys(text: Text, keys: Set<i64>) -> bool {
    exists|order: Seq<i64>| #[trigger] lists_keys(order, keys) && text == integer_lines(order)
}

/// Whether a text has the values of a map, one on each line, in some order of their keys.
pub open spec fn shows_values(text: Text, m: Map<i64, i64>) -> bool {
    exists|order: Seq<i64>| #[trigger]
        lists_keys(order, m.dom()) && text == integer_lines(order.map_values(|k: i64| m[k]))
}

fn list_map_keys(m: &HashMap<i64, i64>) -> (r: Vec<i64>)
    ensures
        lists_keys(r@, m@.dom()),
{
    let mut out: Vec<i64> = Vec::new();
    for k in it: m.keys()
        invariant
            it.seq() == m.keys().remaining(),
            out.len() == it.index(),
            forall|j: int| 0 <= j < out.len() ==> out@[j] == *it.seq()[j],
    {
        out.push(*k);
    }
    assert(out@ =~= m.keys().remaining().unref());
    out
}

fn list_map_values(m: &HashMap<i64, i64>) -> (r: Vec<i64>)
    ensures
        exists|order: Seq<i64>| #[trigger]
            lists_keys(order, m@.dom()) && r@ == order.map_values(|k: i64| m@[k]),
{
    let mut out: Vec<i64> = Vec::new();
    for e in it: m.iter()
        invariant
            it.seq() == m.iter().remaining(),
            it.seq().no_duplicates(),
            out.len() == it.index(),
            forall|j: int| 0 <= j < out.len() ==> out@[j] == *it.seq()[j].1,
    {
        out.push(*e.1);
    }
    proof {
        let walk = m.iter().remaining();
        let order = Seq::new(walk.len(), |j: int| *walk[j].0);
        assert forall|i: int, j: int| 0 <= i < order.len() && 0 <= j < order.len() && i
            != j implies order[i] != order[j] by {
            assert(m@.contains_key(*walk[i].0) && m@[*walk[i].0] == *walk[i].1);
            assert(m@.contains_key(*walk[j].0) && m@[*walk[j].0] == *walk[j].1);
            assert(walk[i] != walk[j]);
        }
        assert forall|k: i64| order.to_set().contains(k) <==> m@.dom().contains(k) by {
            if order.contains(k) {
                let j = choose|j: int| 0 <= j < order.len() && order[j] == k;
                assert(m@.contains_key(*walk[j].0));
            }
            if m@.contains_key(k) {
                assert(walk.contains((&k, &m@[k])));
                let j = choose|j: int| 0 <= j < walk.len() && walk[j] == (&k, &m@[k]);
                assert(order[j] == k);
            }
        }
        assert(order.to_set() =~= m@.dom());
        assert(out@ =~= order.map_values(|k: i64| m@[k]));
        assert(lists_keys(order, m@.dom()));
    }
    out
}

/// A new map from integers to integers.
pub fn hmap_new(reg: &mut Registry<HashMap<i64, i64>>) -> (r: i64)
    requires
        old(reg).valid(),
        old(reg).next < i64::MAX,
    ensures
        gives_handle(*old(reg), *final(reg), r),
        int_maps(*final(reg)) == int_maps(*old(reg)).insert(r, Map::<i64, i64>::empty()),
{
    let fresh: HashMap<i64, i64> = HashMap::new();
    proof {
        assert((|t: HashMap<i64, i64>| t@)(fresh) =~= Map::<i64, i64>::empty());
        lemma_modelled(reg.entries@, |t: HashMap<i64, i64>| t@, reg.next, fresh);
    }
    reg.register(fresh)
}

/// Puts a value under a key of a map.
pub fn hmap_put(reg: &mut Registry<HashMap<i64, i64>>, id: i64, key: i64, value: i64) -> (r: i64)
    ensures
        keeps_handles(*old(reg), *final(reg)),
        match int_maps(*old(reg)).get(id) {
            Some(t) => {
                &&& r == 0
                &&& int_maps(*final(reg)) == int_maps(*old(reg)).insert(id, t.insert(key, value))
            },
            None => {
                &&& r == 0
                &&& int_maps(*final(reg)) == int_maps(*old(reg))
            },
        },
{
    let ghost before = reg.entries@;
    match reg.take(id) {
        Some(mut t) => {
            t.insert(key, value);
            proof {
                lemma_modelled(before, |t: HashMap<i64, i64>| t@, id, t);
            }
            reg.put_back(id, t);
            0
        },
        None => {
            proof {
                lemma_modelled(before, |t: HashMap<i64, i64>| t@, id, arbitrary());
                assert(before.remove(id) =~= before);
            }
            0
        },
    }
}

/// The value under a key of a map, or the default.
pub fn hmap_get(reg: &Registry<HashMap<i64, i64>>, id: i64, key: i64, default_val: i64) -> (r: i64)
    ensures
        match int_maps(*reg).get(id) {
            Some(t) => r == (match t.get(key) {
                Some(v) => v,
                None => default_val,
            }),
            None => r == default_val,
        },
{
    proof {
        lemma_modelled(reg.entries@, |t: HashMap<i64, i64>| t@, id, arbitrary());
    }
    match reg.find(id) {
        Some(t) => {
            match t.get(&key) {
                Some(v) => *v,
                None => default_val,
            }
        },
        None => default_val,
    }
}

/// Whether a map has a key.
pub fn hmap_has(reg: &Registry<HashMap<i64, i64>>, id: i64, key: i64) -> (r: bool)
    ensures
        match int_maps(*reg).get(id) {
            Some(t) => r == t.contains_key(key),
            None => !r,
        },
{
    proof {
        lemma_modelled(reg.entries@, |t: HashMap<i64, i64>| t@, id, arbitrary());
    }
    match reg.find(id) {
        Some(t) => t.contains_key(&key),
        None => false,
    }
}

/// Takes a key out of a map, and says whether it was there.
pub fn hmap_del(reg: &mut Registry<HashMap<i64, i64>>, id: i64, key: i64) -> (r: bool)
    ensures
        keeps_handles(*old(reg), *final(reg)),
        match int_maps(*old(reg)).get(id) {
            Some(t) => {
                &&& r == t.contains_key(key)
                &&& int_maps(*final(reg)) == int_maps(*old(reg)).insert(id, t.remove(key))
            },
            None => {
                &&& !r
                &&& int_maps(*final(reg)) == int_maps(*old(reg))
            },
        },
{
    let ghost before = reg.entries@;
    match reg.take(id) {
        Some(mut t) => {
            let was_there = t.remove(&key).is_some();
            proof {
                lemma_modelled(before, |t: HashMap<i64, i64>| t@, id, t);
            }
            reg.put_back(id, t);
            was_there
        },
        None => {
            proof {
                lemma_modelled(before, |t: HashMap<i64, i64>| t@, id, arbitrary());
                assert(before.remove(id) =~= before);
            }
            false
        },
    }
}

/// The number of keys of a map.
pub fn hmap_size(reg: &Registry<HashMap<i64, i64>>, id: i64) -> (r: i64)
    ensures
        match int_maps(*reg).get(id) {
            Some(t) => r == t.len() as i64,
            None => r == 0,
        },
{
    proof {
        lemma_modelled(reg.entries@, |t: HashMap<i64, i64>| t@, id, arbitrary());
    }
    match reg.find(id) {
        Some(t) => t.len() as i64,
        None => 0,
    }
}

/// The keys of a map, one on each line, in no particular order.
pub fn hmap_keys(reg: &Registry<HashMap<i64, i64>>, id: i64) -> (r: String)
    ensures
        match int_maps(*reg).get(id) {
            Some(t) => shows_keys(r@, t.dom()),
            None => r@ == no_text(),
        },
{
    proof {
        lemma_modelled(reg.entries@, |t: HashMap<i64, i64>| t@, id, arbitrary());
    }
    match reg.find(id) {
        Some(t) => {
            let keys = list_map_keys(t);
            to_integer_lines(&keys)
        },
        None => empty_text(),
    }
}

/// The values of a map, one on each line, in no particular order.
pub fn hmap_vals(reg: &Registry<HashMap<i64, i64>>, id: i64) -> (r: String)
    ensures
        match int_maps(*reg).get(id) {
            Some(t) => shows_values(r@, t),
            None => r@ == no_text(),
        },
{
    proof {
        lemma_modelled(reg.entries@, |t: HashMap<i64, i64>| t@, id, arbitrary());
    }
    match reg.find(id) {
        Some(t) => {
            let vals = list_map_values(t);
            to_integer_lines(&vals)
        },
        None => empty_text(),
    }
}

/// Frees a map, and says whether it was in use.
pub fn hmap_free(reg: &mut Registry<HashMap<i64, i64>>, id: i64) -> (r: bool)
    requires
        old(reg).valid(),
    ensures
        r == int_maps(*old(reg)).contains_key(id),
        int_maps(*final(reg)) == int_maps(*old(reg)).remove(id),
        keeps_handles(*old(reg), *final(reg)),
{
    proof {
        lemma_modelled(reg.entries@, |t: HashMap<i64, i64>| t@, id, arbitrary());
    }
    reg.free(id)
}

// ---------------------------------------------------------------------------
// Sets of integers
// ---------------------------------------------------------------------------

fn list_set_items(s: &HashSet<i64>) -> (r: Vec<i64>)
    ensures
        lists_keys(r@, s@),
{
    let mut out: Vec<i64> = Vec::new();
    for x in it: s.iter()
        invariant
            it.seq() == s.iter().remaining(),
            out.len() == it.index(),
            forall|j: int| 0 <= j < out.len() ==> out@[j] == *it.seq()[j],
    {
        out.push(*x);
    }
    assert(out@ =~= s.iter().remaining().unref());
    out
}

/// A new set of integers.
pub fn hset_new(reg: &mut Registry<HashSet<i64>>) -> (r: i64)
    requires
        old(reg).valid(),
        old(reg).next < i64::MAX,
    ensures
        gives_handle(*old(reg), *final(reg), r),
        int_sets(*final(reg)) == int_sets(*old(reg)).insert(r, Set::<i64>::empty()),
{
    let fresh: HashSet<i64> = HashSet::new();
    proof {
        assert((|t: HashSet<i64>| t@)(fresh) =~= Set::<i64>::empty());
        lemma_modelled(reg.entries@, |t: HashSet<i64>| t@, reg.next, fresh);
    }
    reg.register(fresh)
}

/// Puts an item into a set, and says whether it is new.
pub fn hset_insert(reg: &mut Registry<HashSet<i64>>, id: i64, val: i64) -> (r: bool)
    ensures
        keeps_handles(*old(reg), *final(reg)),
        match int_sets(*old(reg)).get(id) {
            Some(t) => {
                &&& r == !t.contains(val)
                &&& int_sets(*final(reg)) == int_sets(*old(reg)).insert(id, t.insert(val))
            },
            None => {
                &&& !r
                &&& int_sets(*final(reg)) == int_sets(*old(reg))
            },
        },
{
    let ghost before = reg.entries@;
    match reg.take(id) {
        Some(mut t) => {
            let is_new = t.insert(val);
            proof {
                lemma_modelled(before, |t: HashSet<i64>| t@, id, t);
            }
            reg.put_back(id, t);
            is_new
        },
        None => {
            proof {
                lemma_modelled(before, |t: HashSet<i64>| t@, id, arbitrary());
                assert(before.remove(id) =~= before);
            }
            false
        },
    }
}

/// Whether an item is in a set.
pub fn hset_contains(reg: &Registry<HashSet<i64>>, id: i64, val: i64) -> (r: bool)
    ensures
        match int_sets(*reg).get(id) {
            Some(t) => r == t.contains(val),
            None => !r,
        },
{
    proof {
        lemma_modelled(reg.entries@, |t: HashSet<i64>| t@, id, arbitrary());
    }
    match reg.find(id) {
        Some(t) => t.contains(&val),
        None => false,
    }
}

/// Takes an item out of a set, and says whether it was there.
pub fn hset_remove(reg: &mut Registry<HashSet<i64>>, id: i64, val: i64) -> (r: bool)
    ensures
        keeps_handles(*old(reg), *final(reg)),
        match int_sets(*old(reg)).get(id) {
            Some(t) => {
                &&& r == t.contains(val)
                &&& int_sets(*final(reg)) == int_sets(*old(reg)).insert(id, t.remove(val))
            },
            None => {
                &&& !r
                &&& int_sets(*final(reg)) == int_sets(*old(reg))
            },
        },
{
    let ghost before = reg.entries@;
    match reg.take(id) {
        Some(mut t) => {
            let was_there = t.remove(&val);
            proof {
                lemma_modelled(before, |t: HashSet<i64>| t@, id, t);
            }
            reg.put_back(id, t);
            was_there
        },
        None => {
            proof {
                lemma_modelled(before, |t: HashSet<i64>| t@, id, arbitrary());
                assert(before.remove(id) =~= before);
            }
            false
        },
    }
}

/// The number of items of a set.
pub fn hset_size(reg: &Registry<HashSet<i64>>, id: i64) -> (r: i64)
    ensures
        match int_sets(*reg).get(id) {
            Some(t) => r == t.len() as i64,
            None => r == 0,
        },
{
    proof {
        lemma_modelled(reg.entries@, |t: HashSet<i64>| t@, id, arbitrary());
    }
    match reg.find(id) {
        Some(t) => t.len() as i64,
        None => 0,
    }
}

/// The items of a set, one on each line, in no particular order.
pub fn hset_to_list(reg: &Registry<HashSet<i64>>, id: i64) -> (r: String)
    ensures
        match int_sets(*reg).get(id) {
            Some(t) => shows_keys(r@, t),
            None => r@ == no_text(),
        },
{
    proof {
        lemma_modelled(reg.entries@, |t: HashSet<i64>| t@, id, arbitrary());
    }
    match reg.find(id) {
        Some(t) => {
            let items = list_set_items(t);
            to_integer_lines(&items)
        },
        None => empty_text(),
    }
}

/// The items of a set; none behind a handle that is not in use.
pub open spec fn items_at(sets: Map<i64, Set<i64>>, id: i64) -> Set<i64> {
    match sets.get(id) {
        Some(s) => s,
        None => Set::empty(),
    }
}

/// Adds the items of `a` that are in `b`, or those that are not, to a set.
fn add_selected(out: &mut HashSet<i64>, a: &HashSet<i64>, b: &HashSet<i64>, in_b: bool)
    ensures
        final(out)@ == old(out)@.union(a@.filter(|x: i64| b@.contains(x) == in_b)),
{
    let items = list_set_items(a);
    let mut i: usize = 0;
    while i < items.len()
        invariant
            i <= items.len(),
            forall|x: i64| #[trigger]
                out@.contains(x) <==> old(out)@.contains(x) || (items@.take(i as int).contains(x)
                    && b@.contains(x) == in_b),
        decreases items.len() - i,
    {
        let x = items[i];
        if b.contains(&x) == in_b {
            out.insert(x);
        }
        proof {
            let seen = items@.take(i as int);
            assert(items@.take(i + 1) =~= seen.push(x));
            assert forall|y: i64| seen.push(x).contains(y) <==> seen.contains(y) || y == x by {
                if seen.contains(y) {
                    let k = choose|k: int| 0 <= k < seen.len() && seen[k] == y;
                    assert(seen.push(x)[k] == y);
                }
                assert(seen.push(x)[seen.len() as int] == x);
            }
        }
        i = i + 1;
    }
    proof {
        assert(items@.take(i as int) =~= items@);
        assert forall|x: i64| items@.contains(x) <==> a@.contains(x) by {
            assert(items@.to_set().contains(x) <==> items@.contains(x));
        }
        assert(out@ =~= old(out)@.union(a@.filter(|x: i64| b@.contains(x) == in_b)));
    }
}

fn register_set(reg: &mut Registry<HashSet<i64>>, items: HashSet<i64>) -> (r: i64)
    requires
        old(reg).valid(),
        old(reg).next < i64::MAX,
    ensures
        gives_handle(*old(reg), *final(reg), r),
        int_sets(*final(reg)) == int_sets(*old(reg)).insert(r, items@),
{
    proof {
        lemma_modelled(reg.entries@, |t: HashSet<i64>| t@, reg.next, items);
    }
    reg.register(items)
}

/// A new set with the union of two.
pub fn hset_union(reg: &mut Registry<HashSet<i64>>, id_a: i64, id_b: i64) -> (r: i64)
    requires
        old(reg).valid(),
        old(reg).next < i64::MAX,
    ensures
        gives_handle(*old(reg), *final(reg), r),
        int_sets(*final(reg)) == int_sets(*old(reg)).insert(
            r,
            items_at(int_sets(*old(reg)), id_a).union(items_at(int_sets(*old(reg)), id_b)),
        ),
{
    proof {
        lemma_modelled(reg.entries@, |t: HashSet<i64>| t@, id_a, arbitrary());
        lemma_modelled(reg.entries@, |t: HashSet<i64>| t@, id_b, arbitrary());
    }
    let none: HashSet<i64> = HashSet::new();
    let mut out: HashSet<i64> = HashSet::new();
    let a = match reg.find(id_a) {
        Some(t) => t,
        None => &none,
    };
    let b = match reg.find(id_b) {
        Some(t) => t,
        None => &none,
    };
    add_selected(&mut out, a, &none, false);
    add_selected(&mut out, b, &none, false);
    assert(out@ =~= items_at(int_sets(*old(reg)), id_a).union(
        items_at(int_sets(*old(reg)), id_b),
    ));
    register_set(reg, out)
}

/// A new set with the intersection of two.
pub fn hset_intersection(reg: &mut Registry<HashSet<i64>>, id_a: i64, id_b: i64) -> (r: i64)
    requires
        old(reg).valid(),
        old(reg).next < i64::MAX,
    ensures
        gives_handle(*old(reg), *final(reg), r),
        int_sets(*final(reg)) == int_sets(*old(reg)).insert(
            r,
            items_at(int_sets(*old(reg)), id_a).intersect(items_at(int_sets(*old(reg)), id_b)),
        ),
{
    proof {
        lemma_modelled(reg.entries@, |t: HashSet<i64>| t@, id_a, arbitrary());
        lemma_modelled(reg.entries@, |t: HashSet<i64>| t@, id_b, arbitrary());
    }
    let none: HashSet<i64> = HashSet::new();
    let mut out: HashSet<i64> = HashSet::new();
    let a = match reg.find(id_a) {
        Some(t) => t,
        None => &none,
    };
    let b = match reg.find(id_b) {
        Some(t) => t,
        None => &none,
    };
    add_selected(&mut out, a, b, true);
    assert(out@ =~= items_at(int_sets(*old(reg)), id_a).intersect(
        items_at(int_sets(*old(reg)), id_b),
    ));
    register_set(reg, out)
}

/// A new set with the difference of two.
pub fn hset_difference(reg: &mut Registry<HashSet<i64>>, id_a: i64, id_b: i64) -> (r: i64)
    requires
        old(reg).valid(),
        old(reg).next < i64::MAX,
    ensures
        gives_handle(*old(reg), *final(reg), r),
        int_sets(*final(reg)) == int_sets(*old(reg)).insert(
            r,
            items_at(int_sets(*old(reg)), id_a).difference(items_at(int_sets(*old(reg)), id_b)),
        ),
{
    proof {
        lemma_modelled(reg.entries@, |t: HashSet<i64>| t@, id_a, arbitrary());
        lemma_modelled(reg.entries@, |t: HashSet<i64>| t@, id_b, arbitrary());
    }
    let none: HashSet<i64> = HashSet::new();
    let mut out: HashSet<i64> = HashSet::new();
    let a = match reg.find(id_a) {
        Some(t) => t,
        None => &none,
    };
    let b = match reg.find(id_b) {
        Some(t) => t,
        None => &none,
    };
    add_selected(&mut out, a, b, false);
    assert(out@ =~= items_at(int_sets(*old(reg)), id_a).difference(
        items_at(int_sets(*old(reg)), id_b),
    ));
    register_set(reg, out)
}

/// Frees a set, and says whether it was in use.
pub fn hset_free(reg: &mut Registry<HashSet<i64>>, id: i64) -> (r: bool)
    requires
        old(reg).valid(),
    ensures
        r == int_sets(*old(reg)).contains_key(id),
        int_sets(*final(reg)) == int_sets(*old(reg)).remove(id),
        keeps_handles(*old(reg), *final(reg)),
{
    proof {
        lemma_modelled(reg.entries@, |t: HashSet<i64>| t@, id, arbitrary());
    }
    reg.free(id)
}

// ---------------------------------------------------------------------------
// Maps from texts to integers
// ---------------------------------------------------------------------------

fn put_count(m: &mut Vec<(String, i64)>, k: &str, v: i64)
    ensures
        counts_view(final(m)@) == table::store(counts_view(old(m)@), k@, v),
{
    proof {
        assert(table::keys_of(counts_view(m@)) =~= table::raw_keys(m@));
        table::lemma_index_of_text(table::raw_keys(m@), k@, 0);
    }
    put(m, owned(k), v);
    assert(counts_view(m@) =~= table::store(counts_view(old(m)@), k@, v));
}

fn drop_count(m: &mut Vec<(String, i64)>, k: &str) -> (r: bool)
    ensures
        r == table::has_key(counts_view(old(m)@), k@),
        counts_view(final(m)@) == table::unstored(counts_view(old(m)@), k@),
{
    assert(table::keys_of(counts_view(m@)) =~= table::raw_keys(m@));
    match find_key(m, k) {
        Some(i) => {
            m.remove(i);
            assert(counts_view(m@) =~= counts_view(old(m)@).remove(i as int));
            true
        },
        None => false,
    }
}

fn find_count(m: &Vec<(String, i64)>, k: &str) -> (r: Option<i64>)
    ensures
        r == table::lookup(counts_view(m@), k@),
        r is Some == table::has_key(counts_view(m@), k@),
{
    assert(table::keys_of(counts_view(m@)) =~= table::raw_keys(m@));
    match find_key(m, k) {
        Some(i) => Some(m[i].1),
        None => None,
    }
}

fn list_counts(m: &Vec<(String, i64)>) -> (r: Vec<i64>)
    ensures
        r@ == counts_view(m@).map_values(|e: (Text, i64)| e.1),
{
    let mut out: Vec<i64> = Vec::new();
    let mut i: usize = 0;
    while i < m.len()
        invariant
            i <= m.len(),
            out.len() == i,
            forall|j: int| 0 <= j < i ==> #[trigger] out@[j] == m@[j].1,
        decreases m.len() - i,
    {
        out.push(m[i].1);
        i = i + 1;
    }
    assert(out@ =~= counts_view(m@).map_values(|e: (Text, i64)| e.1));
    out
}

/// A new map from texts to integers.
pub fn smap_new(reg: &mut Registry<Vec<(String, i64)>>) -> (r: i64)
    requires
        old(reg).valid(),
        old(reg).next < i64::MAX,
    ensures
        gives_handle(*old(reg), *final(reg), r),
        text_maps(*final(reg)) == text_maps(*old(reg)).insert(r, Seq::<(Text, i64)>::empty()),
{
    let fresh: Vec<(String, i64)> = Vec::new();
    proof {
        assert((|t: Vec<(String, i64)>| counts_view(t@))(fresh) =~= Seq::<(Text, i64)>::empty());
        lemma_modelled(reg.entries@, |t: Vec<(String, i64)>| counts_view(t@), reg.next, fresh);
    }
    reg.register(fresh)
}

/// Puts a value under a key of a map.
pub fn smap_put(reg: &mut Registry<Vec<(String, i64)>>, id: i64, key: &str, value: i64) -> (r: i64)
    ensures
        keeps_handles(*old(reg), *final(reg)),
        match text_maps(*old(reg)).get(id) {
            Some(t) => {
                &&& r == 0
                &&& text_maps(*final(reg)) == text_maps(*old(reg)).insert(id, table::store(t, key@, value))
            },
            None => {
                &&& r == 0
                &&& text_maps(*final(reg)) == text_maps(*old(reg))
            },
        },
{
    let ghost before = reg.entries@;
    match reg.take(id) {
        Some(mut t) => {
            put_count(&mut t, key, value);
            proof {
                lemma_modelled(before, |t: Vec<(String, i64)>| counts_view(t@), id, t);
            }
            reg.put_back(id, t);
            0
        },
        None => {
            proof {
                lemma_modelled(before, |t: Vec<(String, i64)>| counts_view(t@), id, arbitrary());
                assert(before.remove(id) =~= before);
            }
            0
        },
    }
}

/// The value under a key of a map, or the default.
pub fn smap_get(reg: &Registry<Vec<(String, i64)>>, id: i64, key: &str, default_val: i64) -> (r: i64)
    ensures
        match text_maps(*reg).get(id) {
            Some(t) => r == (match table::lookup(t, key@) {
                Some(v) => v,
                None => default_val,
            }),
            None => r == default_val,
        },
{
    proof {
        lemma_modelled(reg.entries@, |t: Vec<(String, i64)>| counts_view(t@), id, arbitrary());
    }
    match reg.find(id) {
        Some(t) => {
            match find_count(t, key) {
                Some(v) => v,
                None => default_val,
            }
        },
        None => default_val,
    }
}

/// Whether a map has a key.
pub fn smap_has(reg: &Registry<Vec<(String, i64)>>, id: i64, key: &str) -> (r: bool)
    ensures
        match text_maps(*reg).get(id) {
            Some(t) => r == table::has_key(t, key@),
            None => !r,
        },
{
    proof {
        lemma_modelled(reg.entries@, |t: Vec<(String, i64)>| counts_view(t@), id, arbitrary());
    }
    match reg.find(id) {
        Some(t) => find_count(t, key).is_some(),
        None => false,
    }
}

/// Takes a key out of a map, and says whether it was there.
pub fn smap_del(reg: &mut Registry<Vec<(String, i64)>>, id: i64, key: &str) -> (r: bool)
    ensures
        keeps_handles(*old(reg), *final(reg)),
        match text_maps(*old(reg)).get(id) {
            Some(t) => {
                &&& r == table::has_key(t, key@)
                &&& text_maps(*final(reg)) == text_maps(*old(reg)).insert(id, table::unstored(t, key@))
            },
            None => {
                &&& !r
                &&& text_maps(*final(reg)) == text_maps(*old(reg))
            },
        },
{
    let ghost before = reg.entries@;
    match reg.take(id) {
        Some(mut t) => {
            let was_there = drop_count(&mut t, key);
            proof {
                lemma_modelled(before, |t: Vec<(String, i64)>| counts_view(t@), id, t);
            }
            reg.put_back(id, t);
            was_there
        },
        None => {
            proof {
                lemma_modelled(before, |t: Vec<(String, i64)>| counts_view(t@), id, arbitrary());
                assert(before.remove(id) =~= before);
            }
            false
        },
    }
}

/// The number of keys of a map.
pub fn smap_size(reg: &Registry<Vec<(String, i64)>>, id: i64) -> (r: i64)
    ensures
        match text_maps(*reg).get(id) {
            Some(t) => r == size_of_seq(t),
            None => r == 0,
        },
{
    proof {
        lemma_modelled(reg.entries@, |t: Vec<(String, i64)>| counts_view(t@), id, arbitrary());
    }
    match reg.find(id) {
        Some(t) => {
            assert(counts_view(t@).len() == t.len());
            t.len() as i64
        },
        None => 0,
    }
}

/// The keys of a map, one on each line, in the order in which they came.
pub fn smap_keys(reg: &Registry<Vec<(String, i64)>>, id: i64) -> (r: String)
    ensures
        match text_maps(*reg).get(id) {
            Some(t) => r@ == text::joined(table::keys_of(t), "\n"@),
            None => r@ == no_text(),
        },
{
    proof {
        lemma_modelled(reg.entries@, |t: Vec<(String, i64)>| counts_view(t@), id, arbitrary());
    }
    match reg.find(id) {
        Some(t) => {
            let keys = list_keys(t);
            assert(table::keys_of(counts_view(t@)) =~= table::raw_keys(t@));
            join(&keys, "\n")
        },
        None => empty_text(),
    }
}

/// The values of a map, one on each line, in the order in which their keys came.
pub fn smap_vals(reg: &Registry<Vec<(String, i64)>>, id: i64) -> (r: String)
    ensures
        match text_maps(*reg).get(id) {
            Some(t) => r@ == integer_lines(t.map_values(|e: (Text, i64)| e.1)),
            None => r@ == no_text(),
        },
{
    proof {
        lemma_modelled(reg.entries@, |t: Vec<(String, i64)>| counts_view(t@), id, arbitrary());
    }
    match reg.find(id) {
        Some(t) => {
            let vals = list_counts(t);
            to_integer_lines(&vals)
        },
        None => empty_text(),
    }
}

/// Frees a map, and says whether it was in use.
pub fn smap_free(reg: &mut Registry<Vec<(String, i64)>>, id: i64) -> (r: bool)
    requires
        old(reg).valid(),
    ensures
        r == text_maps(*old(reg)).contains_key(id),
        text_maps(*final(reg)) == text_maps(*old(reg)).remove(id),
        keeps_handles(*old(reg), *final(reg)),
{
    proof {
        lemma_modelled(reg.entries@, |t: Vec<(String, i64)>| counts_view(t@), id, arbitrary());
    }
    reg.free(id)
}

// ---------------------------------------------------------------------------
// Byte buffers
// ---------------------------------------------------------------------------

/// A new byte buffer.
pub fn buf_new(reg: &mut Registry<Vec<u8>>) -> (r: i64)
    requires
        old(reg).valid(),
        old(reg).next < i64::MAX,
    ensures
        gives_handle(*old(reg), *final(reg), r),
        buffers(*final(reg)) == buffers(*old(reg)).insert(r, Seq::<u8>::empty()),
{
    let fresh: Vec<u8> = Vec::new();
    proof {
        assert((|t: Vec<u8>| t@)(fresh) =~= Seq::<u8>::empty());
        lemma_modelled(reg.entries@, |t: Vec<u8>| t@, reg.next, fresh);
    }
    reg.register(fresh)
}

/// Appends the lowest byte of an integer.
pub fn buf_push_byte(reg: &mut Registry<Vec<u8>>, id: i64, byte: i64)
    ensures
        keeps_handles(*old(reg), *final(reg)),
        match buffers(*old(reg)).get(id) {
            Some(t) => buffers(*final(reg)) == buffers(*old(reg)).insert(id, t + bytes::le_bytes(byte as int, 1)),
            None => buffers(*final(reg)) == buffers(*old(reg)),
        },
{
    let ghost before = reg.entries@;
    match reg.take(id) {
        Some(mut t) => {
            push_le_bytes(&mut t, byte, 1);
            proof {
                lemma_modelled(before, |t: Vec<u8>| t@, id, t);
            }
            reg.put_back(id, t);
        },
        None => {
            proof {
                lemma_modelled(before, |t: Vec<u8>| t@, id, arbitrary());
                assert(before.remove(id) =~= before);
            }
        },
    }
}

/// Appends the four lowest bytes of an integer, the lowest first.
pub fn buf_push_i32_le(reg: &mut Registry<Vec<u8>>, id: i64, val: i64)
    ensures
        keeps_handles(*old(reg), *final(reg)),
        match buffers(*old(reg)).get(id) {
            Some(t) => buffers(*final(reg)) == buffers(*old(reg)).insert(id, t + bytes::le_bytes(val as int, 4)),
            None => buffers(*final(reg)) == buffers(*old(reg)),
        },
{
    let ghost before = reg.entries@;
    match reg.take(id) {
        Some(mut t) => {
            push_le_bytes(&mut t, val, 4);
            proof {
                lemma_modelled(before, |t: Vec<u8>| t@, id, t);
            }
            reg.put_back(id, t);
        },
        None => {
            proof {
                lemma_modelled(before, |t: Vec<u8>| t@, id, arbitrary());
                assert(before.remove(id) =~= before);
            }
        },
    }
}

/// Appends the eight bytes of an integer, the lowest first.
pub fn buf_push_i64_le(reg: &mut Registry<Vec<u8>>, id: i64, val: i64)
    ensures
        keeps_handles(*old(reg), *final(reg)),
        match buffers(*old(reg)).get(id) {
            Some(t) => buffers(*final(reg)) == buffers(*old(reg)).insert(id, t + bytes::le_bytes(val as int, 8)),
            None => buffers(*final(reg)) == buffers(*old(reg)),
        },
{
    let ghost before = reg.entries@;
    match reg.take(id) {
        Some(mut t) => {
            push_le_bytes(&mut t, val, 8);
            proof {
                lemma_modelled(before, |t: Vec<u8>| t@, id, t);
            }
            reg.put_back(id, t);
        },
        None => {
            proof {
                lemma_modelled(before, |t: Vec<u8>| t@, id, arbitrary());
                assert(before.remove(id) =~= before);
            }
        },
    }
}

/// The natural number of the same bits as an integer.
pub open spec fn unsigned(v: i64) -> nat {
    if v >= 0 {
        v as nat
    } else {
        (v + 0x1_0000_0000_0000_0000) as nat
    }
}

fn to_unsigned(v: i64) -> (r: u64)
    ensures
        r == unsigned(v),
{
    if v >= 0 {
        v as u64
    } else {
        (v as i128 + 0x1_0000_0000_0000_0000) as u64
    }
}

/// Appends an integer, taken without its sign, as LEB128.
pub fn buf_push_leb128_u(reg: &mut Registry<Vec<u8>>, id: i64, val: i64)
    ensures
        keeps_handles(*old(reg), *final(reg)),
        match buffers(*old(reg)).get(id) {
            Some(t) => buffers(*final(reg)) == buffers(*old(reg)).insert(id, t + bytes::leb128_u(unsigned(val))),
            None => buffers(*final(reg)) == buffers(*old(reg)),
        },
{
    let ghost before = reg.entries@;
    match reg.take(id) {
        Some(mut t) => {
            push_leb128_u(&mut t, to_unsigned(val));
            proof {
                lemma_modelled(before, |t: Vec<u8>| t@, id, t);
            }
            reg.put_back(id, t);
        },
        None => {
            proof {
                lemma_modelled(before, |t: Vec<u8>| t@, id, arbitrary());
                assert(before.remove(id) =~= before);
            }
        },
    }
}

/// Appends an integer as LEB128 with its sign.
pub fn buf_push_leb128_s(reg: &mut Registry<Vec<u8>>, id: i64, val: i64)
    ensures
        keeps_handles(*old(reg), *final(reg)),
        match buffers(*old(reg)).get(id) {
            Some(t) => buffers(*final(reg)) == buffers(*old(reg)).insert(id, t + bytes::leb128_s(val as int)),
            None => buffers(*final(reg)) == buffers(*old(reg)),
        },
{
    let ghost before = reg.entries@;
    match reg.take(id) {
        Some(mut t) => {
            push_leb128_s(&mut t, val);
            proof {
                lemma_modelled(before, |t: Vec<u8>| t@, id, t);
            }
            reg.put_back(id, t);
        },
        None => {
            proof {
                lemma_modelled(before, |t: Vec<u8>| t@, id, arbitrary());
                assert(before.remove(id) =~= before);
            }
        },
    }
}

/// Appends the bytes of a text.
pub fn buf_push_string(reg: &mut Registry<Vec<u8>>, id: i64, s: &str)
    ensures
        keeps_handles(*old(reg), *final(reg)),
        match buffers(*old(reg)).get(id) {
            Some(t) => buffers(*final(reg)) == buffers(*old(reg)).insert(id, t + encode_utf8(s@)),
            None => buffers(*final(reg)) == buffers(*old(reg)),
        },
{
    let ghost before = reg.entries@;
    match reg.take(id) {
        Some(mut t) => {
            push_text_bytes(&mut t, s);
            proof {
                lemma_modelled(before, |t: Vec<u8>| t@, id, t);
            }
            reg.put_back(id, t);
        },
        None => {
            proof {
                lemma_modelled(before, |t: Vec<u8>| t@, id, arbitrary());
                assert(before.remove(id) =~= before);
            }
        },
    }
}

/// The bytes of a buffer; none behind a handle that is not in use.
pub open spec fn bytes_at(bufs: Map<i64, Seq<u8>>, id: i64) -> Seq<u8> {
    match bufs.get(id) {
        Some(b) => b,
        None => Seq::empty(),
    }
}

/// A copy of the bytes of a buffer.
pub fn buf_bytes(reg: &Registry<Vec<u8>>, id: i64) -> (r: Vec<u8>)
    ensures
        r@ == bytes_at(buffers(*reg), id),
{
    proof {
        lemma_modelled(reg.entries@, |t: Vec<u8>| t@, id, arbitrary());
    }
    let mut out: Vec<u8> = Vec::new();
    match reg.find(id) {
        Some(t) => {
            let mut i: usize = 0;
            while i < t.len()
                invariant
                    i <= t.len(),
                    out@ == t@.take(i as int),
                decreases t.len() - i,
            {
                out.push(t[i]);
                i = i + 1;
                assert(t@.take(i as int) =~= t@.take(i - 1).push(t@[i - 1]));
            }
            assert(t@.take(i as int) =~= t@);
            out
        },
        None => out,
    }
}

/// Appends the bytes of one buffer to another.
pub fn buf_push_buf(reg: &mut Registry<Vec<u8>>, dst_id: i64, src_id: i64)
    ensures
        keeps_handles(*old(reg), *final(reg)),
        match buffers(*old(reg)).get(dst_id) {
            Some(t) => buffers(*final(reg)) == buffers(*old(reg)).insert(
                dst_id,
                t + bytes_at(buffers(*old(reg)), src_id),
            ),
            None => buffers(*final(reg)) == buffers(*old(reg)),
        },
{
    let mut src = buf_bytes(reg, src_id);
    let ghost before = reg.entries@;
    match reg.take(dst_id) {
        Some(mut t) => {
            t.append(&mut src);
            proof {
                lemma_modelled(before, |t: Vec<u8>| t@, dst_id, t);
            }
            reg.put_back(dst_id, t);
        },
        None => {
            proof {
                lemma_modelled(before, |t: Vec<u8>| t@, dst_id, arbitrary());
                assert(before.remove(dst_id) =~= before);
            }
        },
    }
}

/// The number of bytes of a buffer.
pub fn buf_length(reg: &Registry<Vec<u8>>, id: i64) -> (r: i64)
    ensures
        match buffers(*reg).get(id) {
            Some(t) => r == size_of_seq(t),
            None => r == 0,
        },
{
    proof {
        lemma_modelled(reg.entries@, |t: Vec<u8>| t@, id, arbitrary());
    }
    match reg.find(id) {
        Some(t) => t.len() as i64,
        None => 0,
    }
}

/// The byte at an index of a buffer, or -1.
pub fn buf_get_byte(reg: &Registry<Vec<u8>>, id: i64, idx: i64) -> (r: i64)
    ensures
        match buffers(*reg).get(id) {
            Some(t) => r == (if (idx as usize) < t.len() {
                t[idx as usize as int] as int
            } else {
                -1int
            }),
            None => r == -1,
        },
{
    proof {
        lemma_modelled(reg.entries@, |t: Vec<u8>| t@, id, arbitrary());
    }
    match reg.find(id) {
        Some(t) => {
            let i = idx as usize;
            if i < t.len() {
                t[i] as i64
            } else {
                -1
            }
        },
        None => -1,
    }
}

/// The text of a buffer; bytes that are not UTF-8 are replaced.
pub fn buf_to_string(reg: &Registry<Vec<u8>>, id: i64) -> (r: String)
    ensures
        match buffers(*reg).get(id) {
            Some(t) => r@ == bytes::lossy_text(t) && (valid_utf8(t) ==> r@ == decode_utf8(t)),
            None => r@ == no_text(),
        },
{
    proof {
        lemma_modelled(reg.entries@, |t: Vec<u8>| t@, id, arbitrary());
    }
    match reg.find(id) {
        Some(t) => bytes_to_string(t.as_slice()),
        None => empty_text(),
    }
}

/// What is to be written of a buffer to a file: nothing behind a handle that is not in use.
pub fn buf_contents(reg: &Registry<Vec<u8>>, id: i64) -> (r: Option<&Vec<u8>>)
    ensures
        match r {
            Some(t) => buffers(*reg).get(id) == Some(t@),
            None => buffers(*reg).get(id) is None,
        },
{
    proof {
        lemma_modelled(reg.entries@, |t: Vec<u8>| t@, id, arbitrary());
    }
    reg.find(id)
}

/// Frees a buffer, and says whether it was in use.
pub fn buf_free(reg: &mut Registry<Vec<u8>>, id: i64) -> (r: bool)
    requires
        old(reg).valid(),
    ensures
        r == buffers(*old(reg)).contains_key(id),
        buffers(*final(reg)) == buffers(*old(reg)).remove(id),
        keeps_handles(*old(reg), *final(reg)),
{
    proof {
        lemma_modelled(reg.entries@, |t: Vec<u8>| t@, id, arbitrary());
    }
    reg.free(id)
}

} // verus!
