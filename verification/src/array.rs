//! Splitting a non-empty sequence into its first entry and the rest: the step
//! that takes a view's leading stride and leaves the strides of its rows.

use vstd::prelude::*;
use vstd::slice::slice_subrange;

verus! {

/// The first entry of `arr` and the entries after it.
pub fn arr_split_first<'a, T>(arr: &'a [T]) -> (parts: (&'a T, &'a [T]))
    requires
        arr@.len() > 0,
    ensures
        *parts.0 == arr@[0],
        parts.1@ == arr@.skip(1),
{
    let rest = slice_subrange(arr, 1, arr.len());
    assert(rest@ =~= arr@.skip(1));
    (&arr[0], rest)
}

/// The first entry of `arr` and the entries after it, both for writing.
pub fn arr_split_first_mut<'a, T>(arr: &'a mut [T]) -> (parts: (&'a mut T, &'a mut [T]))
    requires
        old(arr)@.len() > 0,
    ensures
        *parts.0 == old(arr)@[0],
        parts.1@ == old(arr)@.skip(1),
        final(arr)@ == seq![*final(parts.0)] + final(parts.1)@,
{
    let (head, rest) = arr.split_at_mut(1);
    assert(rest@ =~= old(arr)@.skip(1));
    let ghost head_after = final(head)@;
    let first = &mut head[0];
    assert(head_after =~= seq![*final(first)]);
    (first, rest)
}

} // verus!
