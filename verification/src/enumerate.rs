//! Enumeration of every coordinate tuple of an array, in storage order.

use itertools::Itertools;
use vstd::prelude::*;

use crate::layout::{in_range, product, rank};

verus! {

/// Lists every coordinate tuple below `extents`, the last coordinate varying
/// fastest.
///
/// Trusted: the body is `Itertools::multi_cartesian_product` over the ranges
/// `0..extents[j]`, collected. The contract claims what that adaptor yields:
/// one tuple per element of the Cartesian product, each coordinate below its
/// extent, in lexicographic order, so that the tuple at position `k` is the one
/// whose row-major rank is `k`.
#[verifier::external_body]
pub(crate) fn coordinate_tuples(extents: &Vec<usize>) -> (tuples: Vec<Vec<usize>>)
    requires
        product(extents@) <= usize::MAX,
    ensures
        tuples@.len() == product(extents@),
        forall|k: int| 0 <= k < tuples@.len() ==> in_range(extents@, #[trigger] tuples@[k]@),
        forall|k: int| 0 <= k < tuples@.len() ==> rank(extents@, #[trigger] tuples@[k]@) == k,
{
    extents.iter().map(|n| 0..*n).multi_cartesian_product().collect()
}

/// The outer extent followed by the inner sizes.
pub fn all_extents<const N: usize>(outer_size: usize, sizes: &[usize; N]) -> (extents: Vec<usize>)
    ensures
        extents@ == seq![outer_size] + sizes@,
{
    let mut extents: Vec<usize> = Vec::new();
    extents.push(outer_size);
    let mut j: usize = 0;
    while j < N
        invariant
            0 <= j <= N,
            sizes@.len() == N,
            extents@ == seq![outer_size] + sizes@.take(j as int),
        decreases N - j,
    {
        extents.push(sizes[j]);
        assert(extents@ =~= seq![outer_size] + sizes@.take(j + 1));
        j += 1;
    }
    assert(sizes@.take(N as int) =~= sizes@);
    extents
}

/// Splits a coordinate tuple into its outer index and its inner coordinates.
pub fn split_tuple<const N: usize>(tuple: &Vec<usize>) -> (parts: (usize, [usize; N]))
    requires
        tuple@.len() == N + 1,
    ensures
        parts.0 == tuple@[0],
        parts.1@ == tuple@.skip(1),
{
    let mut inner: [usize; N] = [0usize; N];
    let mut j: usize = 0;
    while j < N
        invariant
            0 <= j <= N,
            tuple@.len() == N + 1,
            inner@.len() == N,
            forall|i: int| 0 <= i < j ==> #[trigger] inner@[i] == tuple@[i + 1],
        decreases N - j,
    {
        inner[j] = tuple[j + 1];
        j += 1;
    }
    assert(inner@ =~= tuple@.skip(1));
    (tuple[0], inner)
}

} // verus!
