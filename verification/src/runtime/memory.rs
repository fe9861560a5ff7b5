//! The linear memory that a program shares with the runtime: which addresses are handed out,
//! and which regions lie inside it.

use std::collections::BTreeMap;

use vstd::prelude::*;

verus! {

/// The size of a page of memory in bytes.
pub const PAGE_BYTES: usize = 65536;

/// The allocations that are in use: the size of each, by address.
pub struct Allocations {
    table: BTreeMap<i32, usize>,
}

impl Allocations {
    /// The sizes of the allocations, by address.
    pub closed spec fn view(&self) -> Map<i32, usize> {
        self.table@
    }

    /// No allocations.
    pub fn new() -> (r: Self)
        ensures
            r@ == Map::<i32, usize>::empty(),
    {
        Allocations { table: BTreeMap::new() }
    }
}

/// The allocations after one was noted. The null address and empty regions are not noted.
pub open spec fn remembered(m: Map<i32, usize>, ptr: i32, size: usize) -> Map<i32, usize> {
    if ptr == 0 || size == 0 {
        m
    } else {
        m.insert(ptr, size)
    }
}

/// Whether an allocation of that size is in use at an address.
pub open spec fn is_allocated(m: Map<i32, usize>, ptr: i32, size: usize) -> bool {
    m.contains_key(ptr) && m[ptr] == size
}

/// The allocations after one was given back, if it is in use with that size.
pub open spec fn taken(m: Map<i32, usize>, ptr: i32, size: usize) -> Map<i32, usize> {
    if is_allocated(m, ptr, size) {
        m.remove(ptr)
    } else {
        m
    }
}

/// Notes an allocation.
pub fn remember_allocation(allocations: &mut Allocations, ptr: i32, size: usize)
    ensures
        final(allocations)@ == remembered(old(allocations)@, ptr, size),
{
    if ptr == 0 || size == 0 {
        return;
    }
    allocations.table.insert(ptr, size);
}

/// Gives an allocation back, and says whether it was in use with that size.
pub fn take_allocation(allocations: &mut Allocations, ptr: i32, size: usize) -> (r: bool)
    ensures
        r == is_allocated(old(allocations)@, ptr, size),
        final(allocations)@ == taken(old(allocations)@, ptr, size),
{
    let found = match allocations.table.get(&ptr) {
        Some(expected) => *expected == size,
        None => false,
    };
    if found {
        allocations.table.remove(&ptr);
    }
    found
}

/// An allocation that was noted can be given back once, with its own size alone, and the others
/// stay as they are.
pub proof fn law_allocation_is_taken_once(
    m: Map<i32, usize>,
    ptr: i32,
    size: usize,
    other_ptr: i32,
    other_size: usize,
)
    requires
        ptr != 0,
        size != 0,
    ensures
        is_allocated(remembered(m, ptr, size), ptr, other_size) <==> other_size == size,
        !is_allocated(taken(remembered(m, ptr, size), ptr, size), ptr, other_size),
        other_ptr != ptr ==> is_allocated(
            taken(remembered(m, ptr, size), ptr, size),
            other_ptr,
            other_size,
        ) == is_allocated(m, other_ptr, other_size),
{
}

// ---------------------------------------------------------------------------
// Regions
// ---------------------------------------------------------------------------

/// The address that a signed word stands for: the word read without its sign.
pub open spec fn address(ptr: i32) -> int {
    if ptr >= 0 {
        ptr as int
    } else {
        ptr + 0x1_0000_0000
    }
}

/// The address that a signed word stands for.
pub fn to_address(ptr: i32) -> (r: u32)
    ensures
        r == address(ptr),
{
    if ptr >= 0 {
        ptr as u32
    } else {
        (ptr as i64 + 0x1_0000_0000) as u32
    }
}

/// Whether an end lies inside a memory of so many pages. Outside of such a memory every end is
/// valid; a memory whose size in bytes does not fit has no valid ends.
pub open spec fn end_is_valid(end: usize, pages: Option<usize>) -> bool {
    match pages {
        None => true,
        Some(n) => n * PAGE_BYTES <= usize::MAX && end <= n * PAGE_BYTES,
    }
}

/// Whether an end lies inside the memory.
pub fn memory_end_is_valid(end: usize, pages: Option<usize>) -> (r: bool)
    ensures
        r == end_is_valid(end, pages),
{
    match pages {
        None => true,
        Some(n) => match n.checked_mul(PAGE_BYTES) {
            Some(bytes) => end <= bytes,
            None => false,
        },
    }
}

/// The region at an address, of a length that is not zero: its offset and its length, if it
/// lies inside the memory.
pub open spec fn region(ptr: i32, len: int, pages: Option<usize>) -> Option<(usize, usize)> {
    if ptr == 0 || len <= 0 || address(ptr) + len > usize::MAX || !end_is_valid(
        (address(ptr) + len) as usize,
        pages,
    ) {
        None
    } else {
        Some((address(ptr) as usize, len as usize))
    }
}

/// The region that a program names by an address and a length.
pub fn checked_ptr_len(ptr: i32, len: i32, pages: Option<usize>) -> (r: Option<(usize, usize)>)
    ensures
        r == region(ptr, len as int, pages),
{
    if ptr == 0 || len <= 0 {
        return None;
    }
    let offset = to_address(ptr) as usize;
    let len = len as usize;
    let end = match offset.checked_add(len) {
        Some(end) => end,
        None => {
            return None;
        },
    };
    if !memory_end_is_valid(end, pages) {
        return None;
    }
    Some((offset, len))
}

/// The offset of a region that is written to.
pub fn checked_mut_ptr(ptr: i32, len: usize, pages: Option<usize>) -> (r: Option<usize>)
    ensures
        match region(ptr, len as int, pages) {
            Some((offset, _)) => r == Some(offset),
            None => r is None,
        },
{
    if ptr == 0 || len == 0 {
        return None;
    }
    let offset = to_address(ptr) as usize;
    let end = match offset.checked_add(len) {
        Some(end) => end,
        None => {
            return None;
        },
    };
    if !memory_end_is_valid(end, pages) {
        return None;
    }
    Some(offset)
}

/// A region that may be empty: `None` where it is not valid, and no bytes where its length is
/// zero.
pub open spec fn optional_region(ptr: i32, len: i32, pages: Option<usize>) -> Option<
    Option<(usize, usize)>,
> {
    if len < 0 {
        None
    } else if len == 0 {
        Some(None)
    } else {
        match region(ptr, len as int, pages) {
            Some(x) => Some(Some(x)),
            None => None,
        }
    }
}

/// The region that a program names, which may be empty.
pub fn checked_optional_region(ptr: i32, len: i32, pages: Option<usize>) -> (r: Option<
    Option<(usize, usize)>,
>)
    ensures
        r == optional_region(ptr, len, pages),
{
    if len < 0 {
        return None;
    }
    if len == 0 {
        return Some(None);
    }
    match checked_ptr_len(ptr, len, pages) {
        Some(x) => Some(Some(x)),
        None => None,
    }
}

/// Whether a region that may be empty is valid.
pub fn has_valid_optional_region(ptr: i32, len: i32, pages: Option<usize>) -> (r: bool)
    ensures
        r == (optional_region(ptr, len, pages) is Some),
{
    checked_optional_region(ptr, len, pages).is_some()
}

/// A region that is handed out begins at the address of its pointer, is as long as asked, and
/// ends inside the memory.
pub proof fn law_region_lies_in_memory(ptr: i32, len: int, pages: Option<usize>)
    ensures
        region(ptr, len, pages) matches Some((offset, n)) ==> {
            &&& offset == address(ptr)
            &&& n == len
            &&& 0 < n
            &&& offset + n <= usize::MAX
            &&& pages matches Some(p) ==> offset + n <= p * PAGE_BYTES
        },
{
}

// ---------------------------------------------------------------------------
// Handing memory out
// ---------------------------------------------------------------------------

/// Notes what the allocator granted for a request of `size` bytes, and gives the address that
/// the program gets. A request for nothing gets the null address.
pub fn allocate(allocations: &mut Allocations, size: i32, granted: i32) -> (r: i32)
    ensures
        r == (if size <= 0 {
            0
        } else {
            granted
        }),
        final(allocations)@ == (if size <= 0 {
            old(allocations)@
        } else {
            remembered(old(allocations)@, granted, size as usize)
        }),
{
    if size <= 0 {
        return 0;
    }
    remember_allocation(allocations, granted, size as usize);
    granted
}

/// The region that is to be freed when a program gives one back: it has to be valid and in use.
pub fn deallocate(
    allocations: &mut Allocations,
    ptr: i32,
    size: i32,
    pages: Option<usize>,
) -> (r: Option<(usize, usize)>)
    ensures
        ({
            let m = old(allocations)@;
            match region(ptr, size as int, pages) {
                Some((offset, n)) if is_allocated(m, ptr, n) => {
                    &&& r == Some((offset, n))
                    &&& final(allocations)@ == m.remove(ptr)
                },
                _ => r is None && final(allocations)@ == m,
            }
        }),
{
    let (offset, n) = match checked_ptr_len(ptr, size, pages) {
        Some(x) => x,
        None => {
            return None;
        },
    };
    if !take_allocation(allocations, ptr, n) {
        return None;
    }
    Some((offset, n))
}

/// What a request to change the size of a region asks of the allocator.
#[derive(Debug, Clone, Copy, PartialEq, Eq, Structural)]
pub enum ReallocPlan {
    /// Nothing: the answer is the null address.
    Refuse,
    /// A new region.
    Fresh { size: usize, align: usize },
    /// Another size for a region in use.
    Resize { old_ptr: i32, old_len: usize, align: usize, size: usize },
}

/// The alignment that is used for a requested one.
pub open spec fn effective_align(align: i32) -> usize {
    if align >= 1 {
        align as usize
    } else {
        1
    }
}

/// What a request to change the size of a region asks of the allocator, given the allocations.
pub open spec fn realloc_planned(
    m: Map<i32, usize>,
    old_ptr: i32,
    old_len: i32,
    align: i32,
    new_len: i32,
) -> ReallocPlan {
    if new_len <= 0 {
        ReallocPlan::Refuse
    } else if old_ptr == 0 || old_len <= 0 {
        ReallocPlan::Fresh { size: new_len as usize, align: effective_align(align) }
    } else if is_allocated(m, old_ptr, old_len as usize) {
        ReallocPlan::Resize {
            old_ptr,
            old_len: old_len as usize,
            align: effective_align(align),
            size: new_len as usize,
        }
    } else {
        ReallocPlan::Refuse
    }
}

/// The allocations while a plan is carried out: a region that gets another size is not in use.
pub open spec fn allocations_during(m: Map<i32, usize>, plan: ReallocPlan) -> Map<i32, usize> {
    match plan {
        ReallocPlan::Resize { old_ptr, old_len, align: _, size: _ } => taken(m, old_ptr, old_len),
        _ => m,
    }
}

/// Says what a request to change the size of a region asks of the allocator.
pub fn plan_realloc(
    allocations: &mut Allocations,
    old_ptr: i32,
    old_len: i32,
    align: i32,
    new_len: i32,
) -> (r: ReallocPlan)
    ensures
        r == realloc_planned(old(allocations)@, old_ptr, old_len, align, new_len),
        final(allocations)@ == allocations_during(old(allocations)@, r),
{
    if new_len <= 0 {
        return ReallocPlan::Refuse;
    }
    let align: usize = if align >= 1 {
        align as usize
    } else {
        1
    };
    let size = new_len as usize;
    if old_ptr == 0 || old_len <= 0 {
        return ReallocPlan::Fresh { size, align };
    }
    let old_len = old_len as usize;
    if !take_allocation(allocations, old_ptr, old_len) {
        return ReallocPlan::Refuse;
    }
    ReallocPlan::Resize { old_ptr, old_len, align, size }
}

/// The address that a program gets for a plan, given what the allocator granted.
pub open spec fn realloc_answer(plan: ReallocPlan, granted: Option<i32>) -> i32 {
    match (plan, granted) {
        (ReallocPlan::Refuse, _) => 0,
        (_, Some(ptr)) => ptr,
        (_, None) => 0,
    }
}

/// The allocations after a plan was carried out. A region that could not get another size is in
/// use again.
pub open spec fn allocations_after(
    m: Map<i32, usize>,
    plan: ReallocPlan,
    granted: Option<i32>,
) -> Map<i32, usize> {
    match plan {
        ReallocPlan::Refuse => m,
        ReallocPlan::Fresh { size, align: _ } => match granted {
            Some(ptr) => remembered(m, ptr, size),
            None => m,
        },
        ReallocPlan::Resize { old_ptr, old_len, align: _, size } => match granted {
            Some(ptr) => remembered(m, ptr, size),
            None => remembered(m, old_ptr, old_len),
        },
    }
}

/// Takes in what the allocator granted for a plan: an address, or nothing where it refused.
pub fn finish_realloc(
    allocations: &mut Allocations,
    plan: ReallocPlan,
    granted: Option<i32>,
) -> (r: i32)
    ensures
        r == realloc_answer(plan, granted),
        final(allocations)@ == allocations_after(old(allocations)@, plan, granted),
{
    match plan {
        ReallocPlan::Refuse => 0,
        ReallocPlan::Fresh { size, align: _ } => match granted {
            Some(ptr) => {
                remember_allocation(allocations, ptr, size);
                ptr
            },
            None => 0,
        },
        ReallocPlan::Resize { old_ptr, old_len, align: _, size } => match granted {
            Some(ptr) => {
                remember_allocation(allocations, ptr, size);
                ptr
            },
            None => {
                remember_allocation(allocations, old_ptr, old_len);
                0
            },
        },
    }
}

/// A request that the allocator refuses leaves the allocations as they were.
pub proof fn law_refused_realloc_changes_nothing(
    m: Map<i32, usize>,
    old_ptr: i32,
    old_len: i32,
    align: i32,
    new_len: i32,
)
    ensures
        ({
            let plan = realloc_planned(m, old_ptr, old_len, align, new_len);
            &&& allocations_after(allocations_during(m, plan), plan, None) =~= m
            &&& realloc_answer(plan, None) == 0
        }),
{
}

// ---------------------------------------------------------------------------
// Packed results
// ---------------------------------------------------------------------------

/// An address and a length as one word: the address in the upper half, the length in the lower.
pub open spec fn packed(ptr: i32, len: i32) -> i64 {
    let n = address(ptr) * 0x1_0000_0000 + address(len);
    if n <= i64::MAX {
        n as i64
    } else {
        (n - 0x1_0000_0000_0000_0000) as i64
    }
}

/// Packs an address and a length into one word.
pub fn pack_ptr_len(ptr: i32, len: i32) -> (r: i64)
    ensures
        r == packed(ptr, len),
{
    let n: u64 = to_address(ptr) as u64 * 0x1_0000_0000 + to_address(len) as u64;
    if n <= i64::MAX as u64 {
        n as i64
    } else {
        (n as i128 - 0x1_0000_0000_0000_0000) as i64
    }
}

/// The address and the length of a packed word, both without their signs.
pub open spec fn unpacked(word: i64) -> (int, int) {
    let n = if word >= 0 {
        word as int
    } else {
        word + 0x1_0000_0000_0000_0000
    };
    (n / 0x1_0000_0000, n % 0x1_0000_0000)
}

/// A packed word gives back its address and its length.
pub proof fn law_packed_words_come_apart(ptr: i32, len: i32)
    ensures
        unpacked(packed(ptr, len)) == (address(ptr), address(len)),
{
}

/// The word that a program gets for a result of `len` bytes that was written at an address: zero
/// where there are no bytes, or where there is no room for them.
pub fn stored_result(ptr: i32, len: usize) -> (r: i64)
    ensures
        r == (if len == 0 || len > i32::MAX || ptr == 0 {
            0
        } else {
            packed(ptr, len as i32)
        }),
{
    if len == 0 || len > i32::MAX as usize || ptr == 0 {
        0
    } else {
        pack_ptr_len(ptr, len as i32)
    }
}

} // verus!
