//! Insertion-ordered tables keyed by text, held as lists of pairs.

use crate::text;
use crate::text::{Text, str_eq};
use vstd::prelude::*;

verus! {

/// The keys of a table, in order.
pub open spec fn keys_of<A>(m: Seq<(Text, A)>) -> Seq<Text> {
    m.map_values(|e: (Text, A)| e.0)
}

/// The keys of a list of pairs, in order.
pub open spec fn raw_keys<V>(m: Seq<(String, V)>) -> Seq<Text> {
    m.map_values(|e: (String, V)| e.0@)
}

/// The position of a key, or the length of the table.
pub open spec fn key_index<A>(m: Seq<(Text, A)>, k: Text) -> nat {
    text::index_of_text(keys_of(m), k, 0)
}

/// Whether a key is in the table.
pub open spec fn has_key<A>(m: Seq<(Text, A)>, k: Text) -> bool {
    key_index(m, k) < m.len()
}

/// The value stored under a key.
pub open spec fn lookup<A>(m: Seq<(Text, A)>, k: Text) -> Option<A> {
    if has_key(m, k) {
        Some(m[key_index(m, k) as int].1)
    } else {
        None
    }
}

/// The table with `v` stored under `k`: in place of the earlier value, or at the end.
pub open spec fn store<A>(m: Seq<(Text, A)>, k: Text, v: A) -> Seq<(Text, A)> {
    if has_key(m, k) {
        m.update(key_index(m, k) as int, (k, v))
    } else {
        m.push((k, v))
    }
}

/// `store` on the pairs themselves; the key that is there already stays.
pub open spec fn raw_store<V>(m: Seq<(String, V)>, k: String, v: V) -> Seq<(String, V)> {
    let i = text::index_of_text(raw_keys(m), k@, 0);
    if i < m.len() {
        m.update(i as int, (m[i as int].0, v))
    } else {
        m.push((k, v))
    }
}

/// The table without a key.
pub open spec fn unstored<A>(m: Seq<(Text, A)>, k: Text) -> Seq<(Text, A)> {
    if has_key(m, k) {
        m.remove(key_index(m, k) as int)
    } else {
        m
    }
}

/// No key occurs twice.
pub open spec fn distinct_keys<A>(m: Seq<(Text, A)>) -> bool {
    forall|i: int, j: int| 0 <= i < j < m.len() ==> m[i].0 != m[j].0
}

/// What `index_of_text` finds: the first place at or after `i` that holds `x`.
pub proof fn lemma_index_of_text(s: Seq<Text>, x: Text, i: nat)
    requires
        i <= s.len(),
    ensures
        i <= text::index_of_text(s, x, i) <= s.len(),
        text::index_of_text(s, x, i) < s.len() ==> s[text::index_of_text(s, x, i) as int] == x,
        forall|j: int| i <= j < text::index_of_text(s, x, i) ==> s[j] != x,
    decreases s.len() - i,
{
    if i < s.len() && s[i as int] != x {
        lemma_index_of_text(s, x, i + 1);
    }
}

/// A table gives back what was stored under a key, and keeps the other keys.
pub proof fn law_lookup_after_store<A>(m: Seq<(Text, A)>, k: Text, v: A, other: Text)
    ensures
        lookup(store(m, k, v), k) == Some(v),
        other != k ==> lookup(store(m, k, v), other) == lookup(m, other),
{
    let n = store(m, k, v);
    lemma_index_of_text(keys_of(m), k, 0);
    lemma_index_of_text(keys_of(m), other, 0);
    lemma_index_of_text(keys_of(n), k, 0);
    lemma_index_of_text(keys_of(n), other, 0);
    let a = key_index(m, k) as int;
    assert(keys_of(n)[a] == k);
    if has_key(m, k) {
        assert(keys_of(n) =~= keys_of(m));
    } else {
        assert(keys_of(n) =~= keys_of(m).push(k));
        if has_key(m, other) {
            assert(keys_of(n)[key_index(m, other) as int] == other);
        }
        if other != k && has_key(n, other) {
            assert(keys_of(m)[key_index(n, other) as int] == other);
        }
    }
}

/// Storing keeps the keys of a table distinct.
pub proof fn law_store_keeps_keys_distinct<A>(m: Seq<(Text, A)>, k: Text, v: A)
    requires
        distinct_keys(m),
    ensures
        distinct_keys(store(m, k, v)),
{
    lemma_index_of_text(keys_of(m), k, 0);
    let n = store(m, k, v);
    assert forall|i: int, j: int| 0 <= i < j < n.len() implies n[i].0 != n[j].0 by {
        if has_key(m, k) {
            assert(keys_of(m)[key_index(m, k) as int] == k);
        } else if j == m.len() {
            assert(keys_of(m)[i] != k);
        }
    }
}

/// A key that was taken out is not there any more, and the other keys stay.
pub proof fn law_lookup_after_unstore<A>(m: Seq<(Text, A)>, k: Text, other: Text)
    requires
        distinct_keys(m),
    ensures
        distinct_keys(unstored(m, k)),
        lookup(unstored(m, k), k) is None,
        other != k ==> lookup(unstored(m, k), other) == lookup(m, other),
{
    let n = unstored(m, k);
    lemma_index_of_text(keys_of(m), k, 0);
    lemma_index_of_text(keys_of(m), other, 0);
    lemma_index_of_text(keys_of(n), k, 0);
    lemma_index_of_text(keys_of(n), other, 0);
    if has_key(m, k) {
        let a = key_index(m, k) as int;
        assert(keys_of(m)[a] == k);
        assert forall|j: int| 0 <= j < n.len() implies n[j] == m[if j < a {
            j
        } else {
            j + 1
        }] by {}
        if has_key(n, k) {
            assert(keys_of(n)[key_index(n, k) as int] == k);
        }
        if other != k {
            if has_key(m, other) {
                let b = key_index(m, other) as int;
                assert(keys_of(m)[b] == other);
                let c = if b < a {
                    b
                } else {
                    b - 1
                };
                assert(keys_of(n)[c] == other);
                let d = key_index(n, other) as int;
                assert(keys_of(n)[d] == other);
                assert(n[c].0 == n[d].0);
            } else if has_key(n, other) {
                let d = key_index(n, other) as int;
                assert(keys_of(n)[d] == other);
                assert(keys_of(m)[if d < a {
                    d
                } else {
                    d + 1
                }] == other);
            }
        }
    }
}

/// Finds the position of a key.
pub fn find_key<V>(m: &Vec<(String, V)>, k: &str) -> (r: Option<usize>)
    ensures
        match r {
            Some(i) => i < m.len() && text::index_of_text(raw_keys(m@), k@, 0) == i,
            None => text::index_of_text(raw_keys(m@), k@, 0) == m.len(),
        },
{
    let mut i: usize = 0;
    while i < m.len()
        invariant
            i <= m.len(),
            text::index_of_text(raw_keys(m@), k@, 0) == text::index_of_text(raw_keys(m@), k@, i as nat),
        decreases m.len() - i,
    {
        if str_eq(m[i].0.as_str(), k) {
            return Some(i);
        }
        i = i + 1;
    }
    None
}

/// Stores a value under a key.
pub fn put<V>(m: &mut Vec<(String, V)>, k: String, v: V)
    ensures
        final(m)@ == raw_store(old(m)@, k, v),
{
    match find_key(m, k.as_str()) {
        Some(i) => {
            let key = m[i].0.clone();
            m.set(i, (key, v));
        },
        None => {
            m.push((k, v));
        },
    }
}

/// The keys of a list of pairs, in order.
pub fn list_keys<V>(m: &Vec<(String, V)>) -> (r: Vec<String>)
    ensures
        text::texts(r@) == raw_keys(m@),
{
    let mut out: Vec<String> = Vec::new();
    let mut i: usize = 0;
    while i < m.len()
        invariant
            i <= m.len(),
            out.len() == i,
            forall|j: int| 0 <= j < i ==> (#[trigger] out@[j])@ == m@[j].0@,
        decreases m.len() - i,
    {
        out.push(m[i].0.clone());
        i = i + 1;
    }
    assert(text::texts(out@) =~= raw_keys(m@));
    out
}

} // verus!
