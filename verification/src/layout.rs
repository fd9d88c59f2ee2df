//! Row-major layout arithmetic: stride tables, flat positions and the rows
//! that one indexing step selects.

use vstd::prelude::*;

verus! {

/// Product of all entries of `s`; the empty product is 1.
pub open spec fn product(s: Seq<usize>) -> nat
    decreases s.len(),
{
    if s.len() == 0 {
        1
    } else {
        (s[0] as nat) * product(s.skip(1))
    }
}

/// `strides[i]` is the product of `sizes[i..]`, for every dimension `i`.
pub open spec fn is_stride_table(strides: Seq<usize>, sizes: Seq<usize>) -> bool {
    &&& strides.len() == sizes.len()
    &&& forall|i: int|
        0 <= i < sizes.len() ==> #[trigger] strides[i] as nat == product(sizes.skip(i))
}

/// Every stride derived from `sizes` is representable.
pub open spec fn strides_fit(sizes: Seq<usize>) -> bool {
    forall|i: int| 0 <= i < sizes.len() ==> #[trigger] product(sizes.skip(i)) <= usize::MAX
}

/// The strides and the total element count of an array with these extents
/// are all representable.
pub open spec fn extents_fit(outer_size: usize, sizes: Seq<usize>) -> bool {
    &&& strides_fit(sizes)
    &&& outer_size * product(sizes) <= usize::MAX
}

/// `path` names one coordinate below each of `extents`.
pub open spec fn in_range(extents: Seq<usize>, path: Seq<usize>) -> bool {
    &&& path.len() == extents.len()
    &&& forall|j: int| 0 <= j < extents.len() ==> #[trigger] path[j] < extents[j]
}

/// Row-major rank of `path` among all coordinate tuples below `extents`:
/// each coordinate weighs the product of the extents after it.
pub open spec fn rank(extents: Seq<usize>, path: Seq<usize>) -> nat
    decreases extents.len(),
{
    if extents.len() == 0 {
        0
    } else {
        (path[0] as nat) * product(extents.skip(1)) + rank(extents.skip(1), path.skip(1))
    }
}

/// Position in the backing store of the element at outer index `outer` and
/// inner coordinates `inner`.
pub open spec fn flat_index(sizes: Seq<usize>, outer: usize, inner: Seq<usize>) -> nat {
    (outer as nat) * product(sizes) + rank(sizes, inner)
}

/// `stride` splits `len` elements into whole rows.
pub open spec fn divides_evenly(len: nat, stride: nat) -> bool {
    if stride == 0 {
        len == 0
    } else {
        len % stride == 0
    }
}

/// A span of `len` elements splits into whole rows at every level of `strides`.
pub open spec fn aligned(len: nat, strides: Seq<usize>) -> bool {
    forall|i: int|
        0 <= i < strides.len() ==> divides_evenly(
            if i == 0 {
                len
            } else {
                strides[i - 1] as nat
            },
            #[trigger] strides[i] as nat,
        )
}

/// Number of valid indices into a span of `len` elements with the given
/// remaining strides: the number of rows, or of elements once no stride is left.
pub open spec fn row_count(len: nat, strides: Seq<usize>) -> nat {
    if strides.len() == 0 {
        len
    } else if strides[0] == 0 {
        0
    } else {
        len / (strides[0] as nat)
    }
}

/// The `i`-th row of `span` when rows are `stride` elements long.
pub open spec fn row<T>(span: Seq<T>, stride: int, i: int) -> Seq<T> {
    span.subrange(i * stride, (i + 1) * stride)
}

/// The element reached from `span` by indexing once per entry of `path`,
/// narrowing by the leading stride each time and reading an element last.
pub open spec fn reach<T>(span: Seq<T>, strides: Seq<usize>, path: Seq<usize>) -> T
    decreases strides.len(),
{
    if strides.len() == 0 {
        span[path[0] as int]
    } else {
        reach(row(span, strides[0] as int, path[0] as int), strides.skip(1), path.skip(1))
    }
}

/// Every index of `path` is valid at its level when applied in turn to a span
/// of `len` elements.
pub open spec fn steps_valid(len: nat, strides: Seq<usize>, path: Seq<usize>) -> bool
    decreases strides.len(),
{
    &&& path.len() == strides.len() + 1
    &&& path[0] < row_count(len, strides)
    &&& strides.len() > 0 ==> steps_valid(strides[0] as nat, strides.skip(1), path.skip(1))
}

proof fn lemma_mul_bound(a: nat, e: nat, p: nat, r: nat)
    requires
        a < e,
        r < p,
    ensures
        a * p + r < e * p,
{
    assert((a + 1) * p <= e * p) by (nonlinear_arith)
        requires
            a + 1 <= e,
    ;
    assert((a + 1) * p == a * p + p) by (nonlinear_arith);
}

proof fn lemma_mul_unique(a: nat, b: nat, p: nat, r: nat, s: nat)
    requires
        r < p,
        s < p,
        a * p + r == b * p + s,
    ensures
        a == b,
        r == s,
{
    if a < b {
        assert((a + 1) * p <= b * p) by (nonlinear_arith)
            requires
                a + 1 <= b,
        ;
        assert((a + 1) * p == a * p + p) by (nonlinear_arith);
    } else if b < a {
        assert((b + 1) * p <= a * p) by (nonlinear_arith)
            requires
                b + 1 <= a,
        ;
        assert((b + 1) * p == b * p + p) by (nonlinear_arith);
    }
}

/// A tuple below `extents` has a rank below their product.
pub proof fn lemma_rank_bound(extents: Seq<usize>, path: Seq<usize>)
    requires
        in_range(extents, path),
    ensures
        rank(extents, path) < product(extents),
    decreases extents.len(),
{
    if extents.len() > 0 {
        assert(path[0] < extents[0]);
        assert forall|j: int| 0 <= j < extents.skip(1).len() implies #[trigger] path.skip(1)[j]
            < extents.skip(1)[j] by {
            assert(path[j + 1] < extents[j + 1]);
        }
        lemma_rank_bound(extents.skip(1), path.skip(1));
        lemma_mul_bound(
            path[0] as nat,
            extents[0] as nat,
            product(extents.skip(1)),
            rank(extents.skip(1), path.skip(1)),
        );
    }
}

/// Two tuples below `extents` with the same rank are the same tuple.
pub proof fn lemma_rank_injective(extents: Seq<usize>, a: Seq<usize>, b: Seq<usize>)
    requires
        in_range(extents, a),
        in_range(extents, b),
        rank(extents, a) == rank(extents, b),
    ensures
        a == b,
    decreases extents.len(),
{
    if extents.len() > 0 {
        let tail = extents.skip(1);
        assert forall|j: int| 0 <= j < tail.len() implies #[trigger] a.skip(1)[j] < tail[j] by {
            assert(a[j + 1] < extents[j + 1]);
        }
        assert forall|j: int| 0 <= j < tail.len() implies #[trigger] b.skip(1)[j] < tail[j] by {
            assert(b[j + 1] < extents[j + 1]);
        }
        lemma_rank_bound(tail, a.skip(1));
        lemma_rank_bound(tail, b.skip(1));
        lemma_mul_unique(
            a[0] as nat,
            b[0] as nat,
            product(tail),
            rank(tail, a.skip(1)),
            rank(tail, b.skip(1)),
        );
        lemma_rank_injective(tail, a.skip(1), b.skip(1));
        assert forall|j: int| 0 <= j < a.len() implies a[j] == b[j] by {
            if j > 0 {
                assert(a[j] == a.skip(1)[j - 1]);
                assert(b[j] == b.skip(1)[j - 1]);
            }
        }
    }
    assert(a =~= b);
}

/// A coordinate tuple inside the array has a flat position inside the backing store.
pub proof fn lemma_flat_index_bound(
    outer_size: usize,
    sizes: Seq<usize>,
    outer: usize,
    inner: Seq<usize>,
)
    requires
        outer < outer_size,
        in_range(sizes, inner),
    ensures
        flat_index(sizes, outer, inner) < outer_size * product(sizes),
{
    lemma_rank_bound(sizes, inner);
    lemma_mul_bound(outer as nat, outer_size as nat, product(sizes), rank(sizes, inner));
}

/// Distinct coordinate tuples inside the array have distinct flat positions.
pub proof fn lemma_flat_index_injective(
    sizes: Seq<usize>,
    outer_a: usize,
    inner_a: Seq<usize>,
    outer_b: usize,
    inner_b: Seq<usize>,
)
    requires
        in_range(sizes, inner_a),
        in_range(sizes, inner_b),
        flat_index(sizes, outer_a, inner_a) == flat_index(sizes, outer_b, inner_b),
    ensures
        outer_a == outer_b,
        inner_a == inner_b,
{
    lemma_rank_bound(sizes, inner_a);
    lemma_rank_bound(sizes, inner_b);
    lemma_mul_unique(
        outer_a as nat,
        outer_b as nat,
        product(sizes),
        rank(sizes, inner_a),
        rank(sizes, inner_b),
    );
    lemma_rank_injective(sizes, inner_a, inner_b);
}

/// The last stride is the last size, and every other stride is its size times
/// the stride after it.
pub proof fn lemma_stride_recurrence(strides: Seq<usize>, sizes: Seq<usize>)
    requires
        is_stride_table(strides, sizes),
    ensures
        sizes.len() > 0 ==> strides[sizes.len() - 1] == sizes[sizes.len() - 1],
        forall|i: int|
            0 <= i < sizes.len() - 1 ==> #[trigger] strides[i] as nat == (sizes[i] as nat) * (
            strides[i + 1] as nat),
{
    let n = sizes.len() as int;
    if n > 0 {
        assert(sizes.skip(n - 1).skip(1).len() == 0);
        assert(product(sizes.skip(n - 1).skip(1)) == 1);
        assert(strides[n - 1] as nat == product(sizes.skip(n - 1)));
        assert(sizes.skip(n - 1)[0] == sizes[n - 1]);
    }
    assert forall|i: int| 0 <= i < n - 1 implies #[trigger] strides[i] as nat == (sizes[i] as nat)
        * (strides[i + 1] as nat) by {
        assert(sizes.skip(i).skip(1) =~= sizes.skip(i + 1));
        assert(sizes.skip(i)[0] == sizes[i]);
        assert(strides[i + 1] as nat == product(sizes.skip(i + 1)));
    }
}

proof fn lemma_multiple_divides(q: nat, stride: nat)
    ensures
        divides_evenly(q * stride, stride),
{
    if stride > 0 {
        vstd::arithmetic::div_mod::lemma_mod_multiples_basic(q as int, stride as int);
    } else {
        assert(q * stride == 0) by (nonlinear_arith)
            requires
                stride == 0,
        ;
    }
}

proof fn lemma_multiple_rows(q: nat, stride: nat)
    requires
        stride > 0,
    ensures
        (q * stride) / stride == q,
{
    assert(q * stride == (stride as int) * (q as int)) by (nonlinear_arith);
    vstd::arithmetic::div_mod::lemma_div_multiples_vanish(q as int, stride as int);
}

/// A backing store of `outer_size` rows laid out by a stride table splits into
/// whole rows at every level.
pub proof fn lemma_stride_table_aligned(outer_size: usize, sizes: Seq<usize>, strides: Seq<usize>)
    requires
        is_stride_table(strides, sizes),
    ensures
        aligned((outer_size as nat) * product(sizes), strides),
{
    lemma_stride_recurrence(strides, sizes);
    assert forall|i: int| 0 <= i < strides.len() implies divides_evenly(
        if i == 0 {
            (outer_size as nat) * product(sizes)
        } else {
            strides[i - 1] as nat
        },
        #[trigger] strides[i] as nat,
    ) by {
        if i == 0 {
            assert(sizes.skip(0) =~= sizes);
            lemma_multiple_divides(outer_size as nat, strides[0] as nat);
        } else {
            assert(strides[i - 1] as nat == (sizes[i - 1] as nat) * (strides[i] as nat));
            lemma_multiple_divides(sizes[i - 1] as nat, strides[i] as nat);
        }
    }
}

/// With no empty inner dimension, the number of rows of the whole array is
/// its outer extent.
pub proof fn lemma_outer_row_count(outer_size: usize, sizes: Seq<usize>, strides: Seq<usize>)
    requires
        is_stride_table(strides, sizes),
        product(sizes) > 0,
    ensures
        row_count((outer_size as nat) * product(sizes), strides) == outer_size,
{
    if sizes.len() > 0 {
        assert(sizes.skip(0) =~= sizes);
        lemma_multiple_rows(outer_size as nat, strides[0] as nat);
    } else {
        assert((outer_size as nat) * 1 == outer_size) by (nonlinear_arith);
    }
}

/// The view reached after indexing past dimension `level` spans
/// `strides[level]` elements and keeps the strides after it. With no empty
/// dimension below, its number of rows is the declared extent `sizes[level]`.
pub proof fn lemma_inner_row_count(sizes: Seq<usize>, strides: Seq<usize>, level: int)
    requires
        is_stride_table(strides, sizes),
        0 <= level < sizes.len(),
        product(sizes.skip(level + 1)) > 0,
    ensures
        row_count(strides[level] as nat, strides.skip(level + 1)) == sizes[level],
{
    lemma_stride_recurrence(strides, sizes);
    if level + 1 < sizes.len() {
        assert(strides.skip(level + 1)[0] == strides[level + 1]);
        assert(strides[level + 1] as nat == product(sizes.skip(level + 1)));
        lemma_multiple_rows(sizes[level] as nat, strides[level + 1] as nat);
    }
}

/// Indexing a row-major span once per coordinate, outermost first, is valid at
/// every step and reaches the element at the tuple's rank.
pub proof fn lemma_reach_is_rank<T>(
    span: Seq<T>,
    extents: Seq<usize>,
    strides: Seq<usize>,
    path: Seq<usize>,
)
    requires
        extents.len() > 0,
        is_stride_table(strides, extents.skip(1)),
        span.len() == product(extents),
        in_range(extents, path),
    ensures
        steps_valid(span.len(), strides, path),
        rank(extents, path) < span.len(),
        reach(span, strides, path) == span[rank(extents, path) as int],
    decreases extents.len(),
{
    let tail = extents.skip(1);
    let rest = path.skip(1);
    lemma_rank_bound(extents, path);
    assert(path[0] < extents[0]);
    assert forall|j: int| 0 <= j < tail.len() implies #[trigger] rest[j] < tail[j] by {
        assert(path[j + 1] < extents[j + 1]);
    }
    lemma_rank_bound(tail, rest);
    if strides.len() == 0 {
        assert(product(tail) == 1);
        assert(rank(tail, rest) == 0);
        assert((path[0] as nat) * 1 == path[0]) by (nonlinear_arith);
        assert((extents[0] as nat) * 1 == extents[0]) by (nonlinear_arith);
    } else {
        let stride = strides[0] as nat;
        assert(tail.skip(0) =~= tail);
        assert(stride == product(tail));
        lemma_multiple_rows(extents[0] as nat, stride);
        lemma_mul_bound(path[0] as nat, extents[0] as nat, stride, 0);
        assert((path[0] + 1) * stride <= extents[0] * stride) by (nonlinear_arith)
            requires
                path[0] + 1 <= extents[0],
        ;
        assert((path[0] + 1) * stride == path[0] * stride + stride) by (nonlinear_arith);
        let inner = row(span, stride as int, path[0] as int);
        assert forall|i: int| 0 <= i < tail.skip(1).len() implies #[trigger] strides.skip(1)[i]
            as nat == product(tail.skip(1).skip(i)) by {
            assert(tail.skip(1).skip(i) =~= tail.skip(i + 1));
            assert(strides[i + 1] as nat == product(tail.skip(i + 1)));
        }
        lemma_reach_is_rank(inner, tail, strides.skip(1), rest);
        assert(inner[rank(tail, rest) as int] == span[path[0] * stride + rank(tail, rest)]);
    }
}

/// Computes the stride table of `sizes`, or `None` when some stride would not
/// fit in a `usize`.
pub fn stride_table<const N: usize>(sizes: &[usize; N]) -> (table: Option<[usize; N]>)
    ensures
        table.is_some() <==> strides_fit(sizes@),
        table.is_some() ==> is_stride_table(table.unwrap()@, sizes@),
{
    let mut strides: [usize; N] = *sizes;
    let mut prod: usize = 1;
    let mut i: usize = N;
    assert(sizes@.skip(N as int).len() == 0);
    while i > 0
        invariant
            0 <= i <= N,
            sizes@.len() == N,
            strides@.len() == N,
            prod as nat == product(sizes@.skip(i as int)),
            forall|j: int| i <= j < N ==> #[trigger] strides@[j] as nat == product(sizes@.skip(j)),
            forall|j: int| i <= j < N ==> #[trigger] product(sizes@.skip(j)) <= usize::MAX,
        decreases i,
    {
        i -= 1;
        assert(sizes@.skip(i as int).skip(1) =~= sizes@.skip(i + 1));
        assert(sizes@.skip(i as int)[0] == sizes@[i as int]);
        match sizes[i].checked_mul(prod) {
            Some(next) => {
                prod = next;
                strides[i] = prod;
            },
            None => {
                assert(product(sizes@.skip(i as int)) > usize::MAX);
                return None;
            },
        }
    }
    Some(strides)
}

/// Tells whether an array with these extents can be laid out: whether every
/// stride and the total element count fit in a `usize`.
pub fn fits<const N: usize>(outer_size: usize, sizes: &[usize; N]) -> (ok: bool)
    ensures
        ok == extents_fit(outer_size, sizes@),
{
    match stride_table(sizes) {
        Some(strides) => {
            let per_row: usize = if N > 0 {
                strides[0]
            } else {
                1
            };
            assert(sizes@.skip(0) =~= sizes@);
            outer_size.checked_mul(per_row).is_some()
        },
        None => false,
    }
}

} // verus!
