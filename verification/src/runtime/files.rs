//! Open files by number, and listings of directories.

use crate::text;
use crate::text::{join, sort_texts};
use vstd::prelude::*;

verus! {

/// How a file was opened.
#[derive(Debug, Clone, Copy, PartialEq, Eq, Structural)]
pub enum FileMode {
    Read,
    Write,
    Append,
}

/// An open file, with the path and the mode it was opened with.
pub struct FdEntry<F> {
    pub file: F,
    pub path: String,
    pub mode: FileMode,
}

/// The open files. The number of a file is the index of its slot; a slot without a file is
/// used again.
pub struct FdTable<F> {
    pub slots: Vec<Option<FdEntry<F>>>,
}

/// The first slot from index `i` on without a file, or the number of slots.
pub open spec fn first_vacant<F>(slots: Seq<Option<FdEntry<F>>>, i: nat) -> nat
    decreases slots.len() - i,
{
    if i >= slots.len() {
        slots.len()
    } else if slots[i as int] is None {
        i
    } else {
        first_vacant(slots, i + 1)
    }
}

/// The slots with a file in the first vacant one.
pub open spec fn with_file<F>(slots: Seq<Option<FdEntry<F>>>, entry: FdEntry<F>) -> Seq<
    Option<FdEntry<F>>,
> {
    let n = first_vacant(slots, 0);
    if n < slots.len() {
        slots.update(n as int, Some(entry))
    } else {
        slots.push(Some(entry))
    }
}

/// Whether a number is that of a slot.
pub open spec fn is_slot<F>(slots: Seq<Option<FdEntry<F>>>, fd: i64) -> bool {
    fd >= 0 && (fd as usize) < slots.len()
}

/// The file of a number.
pub open spec fn file_at<F>(slots: Seq<Option<FdEntry<F>>>, fd: i64) -> Option<FdEntry<F>> {
    if is_slot(slots, fd) {
        slots[fd as usize as int]
    } else {
        None
    }
}

/// The slots without the file of a number.
pub open spec fn without_file<F>(slots: Seq<Option<FdEntry<F>>>, fd: i64) -> Seq<
    Option<FdEntry<F>>,
> {
    if is_slot(slots, fd) {
        slots.update(fd as usize as int, None)
    } else {
        slots
    }
}

proof fn lemma_first_vacant<F>(slots: Seq<Option<FdEntry<F>>>, i: nat)
    requires
        i <= slots.len(),
    ensures
        i <= first_vacant(slots, i) <= slots.len(),
        first_vacant(slots, i) < slots.len() ==> slots[first_vacant(slots, i) as int] is None,
        forall|j: int| i <= j < first_vacant(slots, i) ==> #[trigger] slots[j] is Some,
    decreases slots.len() - i,
{
    if i < slots.len() && slots[i as int] is Some {
        lemma_first_vacant(slots, i + 1);
    }
}

impl<F> FdTable<F> {
    /// No open files.
    pub fn new() -> (r: Self)
        ensures
            r.slots@ == Seq::<Option<FdEntry<F>>>::empty(),
    {
        FdTable { slots: Vec::new() }
    }

    /// Takes a file in, and gives its number.
    pub fn fd_alloc(&mut self, entry: FdEntry<F>) -> (r: i64)
        ensures
            r == first_vacant(old(self).slots@, 0) as i64,
            final(self).slots@ == with_file(old(self).slots@, entry),
    {
        let n = self.slots.len();
        let mut i: usize = 0;
        while i < n && self.slots[i].is_some()
            invariant
                i <= n == self.slots.len(),
                first_vacant(self.slots@, 0) == first_vacant(self.slots@, i as nat),
                self.slots@ == old(self).slots@,
            decreases n - i,
        {
            i = i + 1;
        }
        if i < n {
            self.slots.set(i, Some(entry));
        } else {
            self.slots.push(Some(entry));
        }
        i as i64
    }

    /// Takes the file of a number out.
    pub fn fd_take(&mut self, fd: i64) -> (r: Option<FdEntry<F>>)
        ensures
            r == file_at(old(self).slots@, fd),
            final(self).slots@ == without_file(old(self).slots@, fd),
    {
        if fd < 0 {
            return None;
        }
        let i = fd as usize;
        if i < self.slots.len() {
            self.slots[i].take()
        } else {
            None
        }
    }

    /// The file of a number.
    pub fn fd_find(&self, fd: i64) -> (r: Option<&FdEntry<F>>)
        ensures
            match r {
                Some(e) => file_at(self.slots@, fd) == Some(*e),
                None => file_at(self.slots@, fd) is None,
            },
    {
        if fd < 0 {
            return None;
        }
        let i = fd as usize;
        if i < self.slots.len() {
            self.slots[i].as_ref()
        } else {
            None
        }
    }

    /// The path that a file was opened with.
    pub fn fd_path(&self, fd: i64) -> (r: Option<String>)
        ensures
            match file_at(self.slots@, fd) {
                Some(e) => r matches Some(p) && p@ == e.path@,
                None => r is None,
            },
    {
        match self.fd_find(fd) {
            Some(e) => Some(e.path.clone()),
            None => None,
        }
    }

    /// Closes a file, and says whether it was open.
    pub fn fd_close(&mut self, fd: i64) -> (r: bool)
        ensures
            r == (file_at(old(self).slots@, fd) is Some),
            final(self).slots@ == without_file(old(self).slots@, fd),
    {
        self.fd_take(fd).is_some()
    }
}

/// A file that was taken in is found under its number, which no other open file has, and the
/// other files keep their numbers.
pub proof fn law_file_gets_a_free_number<F>(
    slots: Seq<Option<FdEntry<F>>>,
    entry: FdEntry<F>,
    fd: i64,
    other: i64,
)
    requires
        fd == first_vacant(slots, 0),
        fd as usize == fd,
        other as usize == other,
    ensures
        file_at(slots, fd) is None,
        file_at(with_file(slots, entry), fd) == Some(entry),
        other != fd ==> file_at(with_file(slots, entry), other) == file_at(slots, other),
{
    lemma_first_vacant(slots, 0);
}

/// A closed file is not open any more, and its number is the next to be used again unless a
/// lower one is free.
pub proof fn law_closed_number_is_free<F>(slots: Seq<Option<FdEntry<F>>>, fd: i64)
    requires
        file_at(slots, fd) is Some,
        fd as usize == fd,
    ensures
        file_at(without_file(slots, fd), fd) is None,
        first_vacant(without_file(slots, fd), 0) <= fd,
{
    let after = without_file(slots, fd);
    lemma_first_vacant(after, 0);
    if first_vacant(after, 0) > fd {
        assert(after[fd as int] is Some);
    }
}

/// The names of a directory in order, one on each line.
pub fn dir_listing(names: &Vec<String>) -> (r: String)
    ensures
        r@ == text::joined(text::sorted_texts(text::texts(names@)), "\n"@),
{
    let sorted = sort_texts(names);
    join(&sorted, "\n")
}

} // verus!
