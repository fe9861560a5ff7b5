//! Values behind numbers: handles that are given out once.

use std::collections::HashMap;
use vstd::prelude::*;

verus! {

/// Values behind handles. Handles are counted from one, and none is given out twice.
pub struct Registry<T> {
    pub next: i64,
    pub entries: HashMap<i64, T>,
}

impl<T> Registry<T> {
    /// Whether the handles that are in use are below the next one.
    pub open spec fn valid(self) -> bool {
        forall|id: i64| #[trigger] self.entries@.contains_key(id) ==> id < self.next
    }

    /// A registry without values.
    pub fn new() -> (r: Self)
        ensures
            r.next == 1,
            r.entries@ == Map::<i64, T>::empty(),
            r.valid(),
    {
        Registry { next: 1, entries: HashMap::new() }
    }

    /// Gives out a handle for a value.
    pub fn register(&mut self, value: T) -> (r: i64)
        requires
            old(self).valid(),
            old(self).next < i64::MAX,
        ensures
            r == old(self).next,
            final(self).next == old(self).next + 1,
            final(self).entries@ == old(self).entries@.insert(r, value),
            final(self).valid(),
    {
        let id = self.next;
        self.next = id + 1;
        self.entries.insert(id, value);
        id
    }

    /// The value behind a handle.
    pub fn find(&self, id: i64) -> (r: Option<&T>)
        ensures
            match r {
                Some(v) => self.entries@.get(id) == Some(*v),
                None => self.entries@.get(id) is None,
            },
    {
        self.entries.get(&id)
    }

    /// Takes the value behind a handle out, to be changed and put back.
    pub fn take(&mut self, id: i64) -> (r: Option<T>)
        ensures
            r == old(self).entries@.get(id),
            final(self).entries@ == old(self).entries@.remove(id),
            final(self).next == old(self).next,
            old(self).valid() ==> final(self).valid(),
    {
        self.entries.remove(&id)
    }

    /// Puts a value back behind its handle.
    pub fn put_back(&mut self, id: i64, value: T)
        ensures
            final(self).entries@ == old(self).entries@.insert(id, value),
            final(self).next == old(self).next,
            old(self).valid() && id < old(self).next ==> final(self).valid(),
    {
        self.entries.insert(id, value);
    }

    /// Frees a handle, and says whether it was in use.
    pub fn free(&mut self, id: i64) -> (r: bool)
        requires
            old(self).valid(),
        ensures
            r == old(self).entries@.contains_key(id),
            final(self).entries@ == old(self).entries@.remove(id),
            final(self).next == old(self).next,
            final(self).valid(),
    {
        self.entries.remove(&id).is_some()
    }
}

/// What is put behind a handle or under a key is found there, what is taken out is not, and the
/// others stay.
pub proof fn law_entries_are_apart<A>(m: Map<i64, A>, id: i64, v: A, other: i64)
    ensures
        m.insert(id, v).get(id) == Some(v),
        m.remove(id).get(id) is None,
        other != id ==> m.insert(id, v).get(other) == m.get(other),
        other != id ==> m.remove(id).get(other) == m.get(other),
{
}

/// A fresh handle is not one that is in use, and the handles in use keep their values.
pub proof fn law_fresh_handle_is_new<T>(reg: Registry<T>, value: T, other: i64)
    requires
        reg.valid(),
    ensures
        reg.entries@.get(reg.next) is None,
        reg.entries@.insert(reg.next, value).get(reg.next) == Some(value),
        reg.entries@.contains_key(other) ==> reg.entries@.insert(reg.next, value).get(other)
            == reg.entries@.get(other),
{
}

} // verus!
