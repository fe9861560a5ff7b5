//! The root of the project that a file belongs to.

use crate::text::Text;
use crate::types;
use vstd::prelude::*;

verus! {

/// The first directory from index `i` on that is marked.
pub open spec fn first_marked(dirs: Seq<(String, bool)>, i: nat) -> Option<Text>
    decreases dirs.len() - i,
{
    if i >= dirs.len() {
        None
    } else if dirs[i as int].1 {
        Some(dirs[i as int].0@)
    } else {
        first_marked(dirs, i + 1)
    }
}

/// Finds the root of a project: the nearest directory that holds `.git`. `ancestors` is the
/// starting path followed by its parents, outermost last, each with whether it holds `.git`. A
/// start that is a file is passed over.
pub fn find_project_root(start_is_file: bool, ancestors: &Vec<(String, bool)>) -> (r: Option<
    String,
>)
    ensures
        types::opt_text(r) == first_marked(
            ancestors@,
            if start_is_file {
                1
            } else {
                0
            },
        ),
{
    let first: usize = if start_is_file {
        1
    } else {
        0
    };
    let mut i: usize = first;
    while i < ancestors.len()
        invariant
            first == if start_is_file {
                1usize
            } else {
                0
            },
            first_marked(ancestors@, first as nat) == first_marked(ancestors@, i as nat),
        decreases ancestors.len() - i,
    {
        if ancestors[i].1 {
            return Some(ancestors[i].0.clone());
        }
        i = i + 1;
    }
    None
}

/// The root that is found is marked, and no directory nearer to the start is.
pub proof fn law_nearest_root_is_found(dirs: Seq<(String, bool)>, i: nat, k: int)
    requires
        i <= k < dirs.len(),
        dirs[k].1,
        forall|j: int| i <= j < k ==> !(#[trigger] dirs[j]).1,
    ensures
        first_marked(dirs, i) == Some(dirs[k].0@),
    decreases k - i,
{
    if i < k {
        assert(!dirs[i as int].1);
        law_nearest_root_is_found(dirs, i + 1, k);
    }
}

} // verus!
