use vstd::prelude::*;

verus! {

/// The sequence never decreases from one position to the next.
pub open spec fn is_sorted(s: Seq<i32>) -> bool {
    forall|i: int, j: int| 0 <= i <= j < s.len() ==> s[i] <= s[j]
}

/// `target` occurs somewhere in the inclusive index range `[start, end]`.
pub open spec fn occurs_in(s: Seq<i32>, target: i32, start: int, end: int) -> bool {
    exists|k: int| start <= k <= end && 0 <= k < s.len() && s[k] == target
}

/// Searches `list[start..=end]` for `target` by bisection.
///
/// An empty range (`start > end`) finds nothing. Among equal elements the
/// index returned is the first one the bisection lands on, which need not be
/// the first or the last occurrence.
pub fn binary_search(list: &Vec<i32>, target: i32, start: usize, end: usize) -> (r: Option<usize>)
    requires
        is_sorted(list@),
        start <= end ==> end < list.len(),
    ensures
        match r {
            Some(j) => start <= j <= end && list@[j as int] == target,
            None => !occurs_in(list@, target, start as int, end as int),
        },
    decreases end + 1 - start,
{
    if start > end {
        return None;
    }
    let mid: usize = start + (end - start) / 2;
    if list[mid] == target {
        Some(mid)
    } else if list[mid] < target {
        binary_search(list, target, mid + 1, end)
    } else if mid == start {
        None
    } else {
        binary_search(list, target, start, mid - 1)
    }
}

/// Searches the whole of `list` for `target`.
///
/// An empty list finds nothing and is answered here, before any range is
/// formed, so the bounds handed to `binary_search` never wrap below zero.
/// Whenever some element equals `target` an index of such an element is
/// returned; whenever none does, the result is `None`.
pub fn search(list: &Vec<i32>, target: i32) -> (r: Option<usize>)
    requires
        is_sorted(list@),
    ensures
        (exists|i: int| 0 <= i < list.len() && list@[i] == target) ==> (r matches Some(j)
            && j < list.len() && list@[j as int] == target),
        (forall|i: int| 0 <= i < list.len() ==> list@[i] != target) ==> r is None,
{
    if list.len() == 0 {
        return None;
    }
    binary_search(list, target, 0, list.len() - 1)
}

} // verus!
