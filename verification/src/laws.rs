//! Laws that relate construction, indexing and writing.

use vstd::prelude::*;

use crate::layout::{
    flat_index, in_range, is_stride_table, lemma_rank_bound, lemma_rank_injective,
    lemma_reach_is_rank, product, rank, reach, row, steps_valid,
};

verus! {

/// The span that results from writing `value` through the views that indexing
/// once per entry of `path` narrows to: the row that each step selects is
/// replaced by what the steps below leave in it.
pub open spec fn written<T>(span: Seq<T>, strides: Seq<usize>, path: Seq<usize>, value: T) -> Seq<T>
    decreases strides.len(),
{
    if strides.len() == 0 {
        span.update(path[0] as int, value)
    } else {
        let stride = strides[0] as int;
        span.subrange(0, path[0] * stride) + written(
            row(span, stride, path[0] as int),
            strides.skip(1),
            path.skip(1),
            value,
        ) + span.subrange((path[0] + 1) * stride, span.len() as int)
    }
}

/// The tuple below `extents` whose row-major rank is `k`.
pub open spec fn unrank(extents: Seq<usize>, k: nat) -> Seq<usize>
    decreases extents.len(),
{
    if extents.len() == 0 {
        Seq::empty()
    } else {
        let weight = product(extents.skip(1));
        seq![(k / weight) as usize] + unrank(extents.skip(1), k % weight)
    }
}

/// Writing through a chain of narrowed views changes exactly the element at
/// the rank of the coordinate tuple.
pub proof fn lemma_written_is_update<T>(
    span: Seq<T>,
    extents: Seq<usize>,
    strides: Seq<usize>,
    path: Seq<usize>,
    value: T,
)
    requires
        extents.len() > 0,
        is_stride_table(strides, extents.skip(1)),
        span.len() == product(extents),
        in_range(extents, path),
    ensures
        written(span, strides, path, value) == span.update(rank(extents, path) as int, value),
    decreases extents.len(),
{
    let tail = extents.skip(1);
    let rest = path.skip(1);
    lemma_rank_bound(extents, path);
    assert(path[0] < extents[0]);
    assert forall|j: int| 0 <= j < tail.len() implies #[trigger] rest[j] < tail[j] by {
        assert(path[j + 1] < extents[j + 1]);
    }
    lemma_rank_bound(tail, rest);
    if strides.len() == 0 {
        assert(product(tail) == 1);
        assert(rank(tail, rest) == 0);
        assert((path[0] as nat) * 1 == path[0]) by (nonlinear_arith);
    } else {
        let stride = strides[0] as nat;
        assert(tail.skip(0) =~= tail);
        assert(stride == product(tail));
        assert((path[0] + 1) * stride <= extents[0] * stride) by (nonlinear_arith)
            requires
                path[0] + 1 <= extents[0],
        ;
        assert((path[0] + 1) * stride == path[0] * stride + stride) by (nonlinear_arith);
        assert(path[0] * stride >= 0) by (nonlinear_arith);
        let inner = row(span, stride as int, path[0] as int);
        assert forall|i: int| 0 <= i < tail.skip(1).len() implies #[trigger] strides.skip(1)[i]
            as nat == product(tail.skip(1).skip(i)) by {
            assert(tail.skip(1).skip(i) =~= tail.skip(i + 1));
            assert(strides[i + 1] as nat == product(tail.skip(i + 1)));
        }
        lemma_written_is_update(inner, tail, strides.skip(1), rest, value);
        assert(written(span, strides, path, value) =~= span.update(
            rank(extents, path) as int,
            value,
        ));
    }
}

/// After a write at `path`, reading `path` gives the written value and
/// reading any other coordinate tuple gives what was there before.
pub proof fn lemma_write_then_read<T>(
    span: Seq<T>,
    extents: Seq<usize>,
    strides: Seq<usize>,
    path: Seq<usize>,
    other: Seq<usize>,
    value: T,
)
    requires
        extents.len() > 0,
        is_stride_table(strides, extents.skip(1)),
        span.len() == product(extents),
        in_range(extents, path),
        in_range(extents, other),
    ensures
        reach(written(span, strides, path, value), strides, path) == value,
        other != path ==> reach(written(span, strides, path, value), strides, other) == reach(
            span,
            strides,
            other,
        ),
{
    let after = written(span, strides, path, value);
    lemma_written_is_update(span, extents, strides, path, value);
    lemma_reach_is_rank(span, extents, strides, path);
    lemma_reach_is_rank(span, extents, strides, other);
    lemma_reach_is_rank(after, extents, strides, path);
    lemma_reach_is_rank(after, extents, strides, other);
    if other != path && rank(extents, other) == rank(extents, path) {
        lemma_rank_injective(extents, other, path);
    }
}

proof fn lemma_whole_tuple(outer_size: usize, sizes: Seq<usize>, outer: usize, inner: Seq<usize>)
    requires
        outer < outer_size,
        in_range(sizes, inner),
    ensures
        (seq![outer_size] + sizes).skip(1) == sizes,
        product(seq![outer_size] + sizes) == outer_size * product(sizes),
        in_range(seq![outer_size] + sizes, seq![outer] + inner),
        rank(seq![outer_size] + sizes, seq![outer] + inner) == flat_index(sizes, outer, inner),
{
    let extents = seq![outer_size] + sizes;
    let path = seq![outer] + inner;
    assert(extents.skip(1) =~= sizes);
    assert(path.skip(1) =~= inner);
    assert forall|j: int| 0 <= j < extents.len() implies #[trigger] path[j] < extents[j] by {
        if j > 0 {
            assert(path[j] == inner[j - 1]);
            assert(extents[j] == sizes[j - 1]);
        }
    }
}

/// In an array laid out by the stride table of `sizes`, indexing by the outer
/// index and then by each inner coordinate in turn is valid at every step and
/// reaches the element at the tuple's flat position.
pub proof fn lemma_indexing_reaches_flat_index<T>(
    storage: Seq<T>,
    strides: Seq<usize>,
    outer_size: usize,
    sizes: Seq<usize>,
    outer: usize,
    inner: Seq<usize>,
)
    requires
        is_stride_table(strides, sizes),
        storage.len() == outer_size * product(sizes),
        outer < outer_size,
        in_range(sizes, inner),
    ensures
        steps_valid(storage.len(), strides, seq![outer] + inner),
        flat_index(sizes, outer, inner) < storage.len(),
        reach(storage, strides, seq![outer] + inner) == storage[flat_index(sizes, outer, inner) as int],
{
    lemma_whole_tuple(outer_size, sizes, outer, inner);
    lemma_reach_is_rank(storage, seq![outer_size] + sizes, strides, seq![outer] + inner);
}

/// In an array laid out by the stride table of `sizes`, writing through the
/// views narrowed by the outer index and each inner coordinate but the last,
/// at the last coordinate, changes exactly the element at the tuple's flat
/// position.
pub proof fn lemma_writing_updates_flat_index<T>(
    storage: Seq<T>,
    strides: Seq<usize>,
    outer_size: usize,
    sizes: Seq<usize>,
    outer: usize,
    inner: Seq<usize>,
    value: T,
)
    requires
        is_stride_table(strides, sizes),
        storage.len() == outer_size * product(sizes),
        outer < outer_size,
        in_range(sizes, inner),
    ensures
        written(storage, strides, seq![outer] + inner, value) == storage.update(
            flat_index(sizes, outer, inner) as int,
            value,
        ),
{
    lemma_whole_tuple(outer_size, sizes, outer, inner);
    lemma_written_is_update(storage, seq![outer_size] + sizes, strides, seq![outer] + inner, value);
}

/// Every position below the product of `extents` is the rank of a tuple below them.
pub proof fn lemma_unrank(extents: Seq<usize>, k: nat)
    requires
        k < product(extents),
    ensures
        in_range(extents, unrank(extents, k)),
        rank(extents, unrank(extents, k)) == k,
    decreases extents.len(),
{
    if extents.len() > 0 {
        let tail = extents.skip(1);
        let weight = product(tail);
        let first = extents[0] as nat;
        assert(weight > 0) by (nonlinear_arith)
            requires
                k < first * weight,
        ;
        let q = k / weight;
        let r = k % weight;
        vstd::arithmetic::div_mod::lemma_fundamental_div_mod(k as int, weight as int);
        vstd::arithmetic::div_mod::lemma_mod_bound(k as int, weight as int);
        assert(q < first) by (nonlinear_arith)
            requires
                k == weight * q + r,
                k < first * weight,
                weight > 0,
        ;
        lemma_unrank(tail, r);
        let tuple = unrank(extents, k);
        assert(tuple[0] == q);
        assert(tuple.skip(1) =~= unrank(tail, r));
        assert forall|j: int| 0 <= j < extents.len() implies #[trigger] tuple[j] < extents[j] by {
            if j > 0 {
                assert(tuple[j] == unrank(tail, r)[j - 1]);
                assert(extents[j] == tail[j - 1]);
            }
        }
        assert(q * weight == weight * q) by (nonlinear_arith);
    }
}

/// Two backing stores of the same shape that hold equal elements at every
/// coordinate tuple are equal.
pub proof fn lemma_agreeing_stores_equal<T>(
    outer_size: usize,
    sizes: Seq<usize>,
    a: Seq<T>,
    b: Seq<T>,
)
    requires
        a.len() == outer_size * product(sizes),
        b.len() == a.len(),
        forall|outer: usize, inner: Seq<usize>|
            outer < outer_size && in_range(sizes, inner) ==> a[#[trigger] flat_index(
                sizes,
                outer,
                inner,
            ) as int] == b[flat_index(sizes, outer, inner) as int],
    ensures
        a == b,
{
    let extents = seq![outer_size] + sizes;
    assert(extents.skip(1) =~= sizes);
    assert forall|k: int| 0 <= k < a.len() implies a[k] == b[k] by {
        lemma_unrank(extents, k as nat);
        let tuple = unrank(extents, k as nat);
        let inner = tuple.skip(1);
        assert(tuple[0] < extents[0]);
        assert forall|j: int| 0 <= j < sizes.len() implies #[trigger] inner[j] < sizes[j] by {
            assert(tuple[j + 1] < extents[j + 1]);
        }
        assert(flat_index(sizes, tuple[0], inner) == k);
    }
    assert(a =~= b);
}

} // verus!
