//! Borrowed views of an array: a span of elements plus the strides that are
//! still to be applied. Each indexing step narrows a view to one row and
//! drops the leading stride; a view with no stride left indexes elements.

use vstd::prelude::*;
use vstd::slice::slice_subrange;

use crate::array::arr_split_first;
use crate::layout::{aligned, divides_evenly, row, row_count};

verus! {

proof fn lemma_row_in_span(len: nat, stride: nat, i: nat)
    requires
        stride > 0,
        i < len / stride,
    ensures
        i * stride + stride == (i + 1) * stride,
        (i + 1) * stride <= len,
        i * stride <= (i + 1) * stride,
{
    let rows = len / stride;
    vstd::arithmetic::div_mod::lemma_fundamental_div_mod(len as int, stride as int);
    assert((i + 1) * stride <= rows * stride) by (nonlinear_arith)
        requires
            i + 1 <= rows,
    ;
    assert(rows * stride == stride * rows) by (nonlinear_arith);
    assert(i * stride + stride == (i + 1) * stride) by (nonlinear_arith);
    assert(len % stride >= 0) by (nonlinear_arith)
        requires
            stride > 0,
    ;
}

proof fn lemma_tail_aligned(len: nat, strides: Seq<usize>)
    requires
        strides.len() > 0,
        aligned(len, strides),
    ensures
        aligned(strides[0] as nat, strides.skip(1)),
{
    let tail = strides.skip(1);
    assert forall|i: int| 0 <= i < tail.len() implies divides_evenly(
        if i == 0 {
            strides[0] as nat
        } else {
            tail[i - 1] as nat
        },
        #[trigger] tail[i] as nat,
    ) by {
        assert(tail[i] == strides[i + 1]);
        assert(divides_evenly(strides[i] as nat, strides[i + 1] as nat));
    }
}

/// Splits `slice` into its rows of `stride` elements each, in order. A zero
/// stride gives no rows.
pub fn split_rows<'a, T>(slice: &'a [T], stride: usize) -> (rows: Vec<&'a [T]>)
    requires
        stride > 0 ==> slice@.len() % (stride as nat) == 0,
    ensures
        rows@.len() == row_count(slice@.len(), seq![stride]),
        forall|i: int|
            0 <= i < rows@.len() ==> (#[trigger] rows@[i])@ == row(slice@, stride as int, i),
{
    let mut rows: Vec<&'a [T]> = Vec::new();
    if stride == 0 {
        return rows;
    }
    let len = slice.len();
    let count = len / stride;
    let mut i: usize = 0;
    while i < count
        invariant
            0 <= i <= count,
            stride > 0,
            len == slice@.len(),
            count == len / stride,
            rows@.len() == i,
            forall|j: int| 0 <= j < i ==> (#[trigger] rows@[j])@ == row(slice@, stride as int, j),
        decreases count - i,
    {
        proof {
            lemma_row_in_span(len as nat, stride as nat, i as nat);
            assert(i * stride + stride <= len);
        }
        let start = i * stride;
        rows.push(slice_subrange(slice, start, start + stride));
        i += 1;
    }
    rows
}

/// A shared view of a span of elements with `N` strides still to be applied:
/// `N` indexing steps lead to a view whose indices address single elements.
pub struct MultiVecRef<'a, const N: usize, T> {
    slice: &'a [T],
    offsets: &'a [usize],
}

impl<'a, const N: usize, T> Clone for MultiVecRef<'a, N, T> {
    fn clone(&self) -> (v: Self)
        ensures
            v == *self,
    {
        *self
    }
}

impl<'a, const N: usize, T> Copy for MultiVecRef<'a, N, T> {

}

impl<'a, const N: usize, T> MultiVecRef<'a, N, T> {
    /// The elements this view addresses.
    pub closed spec fn span(&self) -> Seq<T> {
        self.slice@
    }

    /// The strides still to be applied, outermost first.
    pub closed spec fn strides(&self) -> Seq<usize> {
        self.offsets@
    }

    /// One stride per remaining dimension, each splitting its span into whole rows.
    pub open spec fn wf(&self) -> bool {
        &&& self.strides().len() == N
        &&& aligned(self.span().len(), self.strides())
    }

    /// Number of valid indices at this level.
    pub open spec fn spec_size(&self) -> nat {
        row_count(self.span().len(), self.strides())
    }

    /// A view of `slice` with the given strides still to be applied.
    pub fn new(slice: &'a [T], offsets: &'a [usize]) -> (v: Self)
        ensures
            v.span() == slice@,
            v.strides() == offsets@,
    {
        MultiVecRef { slice, offsets }
    }

    /// Number of rows at this level, or of elements once no stride is left.
    /// A span whose rows would be empty has no rows.
    pub fn size(&self) -> (n: usize)
        ensures
            n == self.spec_size(),
    {
        if self.offsets.len() == 0 {
            self.slice.len()
        } else if self.offsets[0] == 0 {
            0
        } else {
            self.slice.len() / self.offsets[0]
        }
    }

    /// The elements, in row-major order.
    pub fn as_slice(&self) -> (s: &'a [T])
        ensures
            s@ == self.span(),
    {
        self.slice
    }

    /// The strides still to be applied.
    pub fn offsets(&self) -> (s: &'a [usize])
        ensures
            s@ == self.strides(),
    {
        self.offsets
    }

    fn narrow<const M: usize>(&self, i: usize) -> (r: MultiVecRef<'a, M, T>)
        requires
            self.wf(),
            M + 1 == N,
            i < self.spec_size(),
        ensures
            r.wf(),
            r.span() == row(self.span(), self.strides()[0] as int, i as int),
            r.span().len() == self.strides()[0],
            r.strides() == self.strides().skip(1),
    {
        let (first, offsets) = arr_split_first(self.offsets);
        let stride = *first;
        let len = self.slice.len();
        proof {
            lemma_row_in_span(len as nat, stride as nat, i as nat);
            lemma_tail_aligned(len as nat, self.offsets@);
            assert(i * stride + stride <= len);
        }
        let start = i * stride;
        let slice = slice_subrange(self.slice, start, start + stride);
        MultiVecRef { slice, offsets }
    }
}

impl<'a, T> MultiVecRef<'a, 0, T> {
    /// The element at `i`.
    pub fn index(&self, i: usize) -> (e: &'a T)
        requires
            i < self.spec_size(),
        ensures
            *e == self.span()[i as int],
    {
        &self.slice[i]
    }
}

/// An exclusive view of a span of elements with `N` strides still to be
/// applied. The fields are
/// public so that contracts can speak of what the borrow of `slice` leaves
/// behind once the view is dropped.
pub struct MultiVecMut<'a, const N: usize, T> {
    pub slice: &'a mut [T],
    pub offsets: &'a [usize],
}

impl<'a, const N: usize, T> MultiVecMut<'a, N, T> {
    /// The elements this view addresses, as they are now.
    pub open spec fn span(&self) -> Seq<T> {
        self.slice@
    }

    /// One stride per remaining dimension, each splitting its span into whole rows.
    pub open spec fn wf(&self) -> bool {
        &&& self.offsets@.len() == N
        &&& aligned(self.slice@.len(), self.offsets@)
    }

    /// Number of valid indices at this level.
    pub open spec fn spec_size(&self) -> nat {
        row_count(self.slice@.len(), self.offsets@)
    }

    /// Number of rows at this level, or of elements once no stride is left.
    /// A span whose rows would be empty has no rows.
    pub fn size(&self) -> (n: usize)
        ensures
            n == self.spec_size(),
    {
        if self.offsets.len() == 0 {
            self.slice.len()
        } else if self.offsets[0] == 0 {
            0
        } else {
            self.slice.len() / self.offsets[0]
        }
    }

    /// A shared view of the same elements, for reading.
    pub fn as_view(&self) -> (v: MultiVecRef<'_, N, T>)
        ensures
            v.span() == self.span(),
            v.strides() == self.offsets@,
    {
        MultiVecRef::new(&*self.slice, self.offsets)
    }

    fn narrow_mut<const M: usize>(self, i: usize) -> (r: MultiVecMut<'a, M, T>)
        requires
            self.wf(),
            M + 1 == N,
            i < self.spec_size(),
        ensures
            r.wf(),
            r.slice@ == row(old(self.slice)@, self.offsets@[0] as int, i as int),
            r.slice@.len() == self.offsets@[0],
            r.offsets@ == self.offsets@.skip(1),
            final(self.slice)@ == old(self.slice)@.subrange(0, i * self.offsets@[0])
                + final(r.slice)@ + old(self.slice)@.subrange(
                (i + 1) * self.offsets@[0],
                old(self.slice)@.len() as int,
            ),
    {
        let MultiVecMut { slice, offsets } = self;
        let (first, tail) = arr_split_first(offsets);
        let stride = *first;
        let len = slice.len();
        proof {
            lemma_row_in_span(len as nat, stride as nat, i as nat);
            lemma_tail_aligned(len as nat, offsets@);
            assert(i * stride + stride <= len);
        }
        let start = i * stride;
        let (_, rest) = slice.split_at_mut(start);
        let (rows, _) = rest.split_at_mut(stride);
        MultiVecMut { slice: rows, offsets: tail }
    }
}

impl<'a, T> MultiVecMut<'a, 0, T> {
    /// The element at `i`, for writing.
    pub fn index_mut(self, i: usize) -> (e: &'a mut T)
        requires
            i < self.spec_size(),
        ensures
            *e == old(self.slice)@[i as int],
            final(self.slice)@ == old(self.slice)@.update(i as int, *final(e)),
    {
        let MultiVecMut { slice, offsets: _ } = self;
        &mut slice[i]
    }
}

impl<'a, T> MultiVecRef<'a, 1, T> {
    /// The `i`-th row, one dimension narrower.
    pub fn index(&self, i: usize) -> (r: MultiVecRef<'a, 0, T>)
        requires
            self.wf(),
            i < self.spec_size(),
        ensures
            r.wf(),
            r.span() == row(self.span(), self.strides()[0] as int, i as int),
            r.span().len() == self.strides()[0],
            r.strides() == self.strides().skip(1),
    {
        self.narrow::<0>(i)
    }
}

impl<'a, T> MultiVecMut<'a, 1, T> {
    /// The `i`-th row, one dimension narrower, for writing.
    pub fn index_mut(self, i: usize) -> (r: MultiVecMut<'a, 0, T>)
        requires
            self.wf(),
            i < self.spec_size(),
        ensures
            r.wf(),
            r.slice@ == row(old(self.slice)@, self.offsets@[0] as int, i as int),
            r.slice@.len() == self.offsets@[0],
            r.offsets@ == self.offsets@.skip(1),
            final(self.slice)@ == old(self.slice)@.subrange(0, i * self.offsets@[0])
                + final(r.slice)@ + old(self.slice)@.subrange(
                (i + 1) * self.offsets@[0],
                old(self.slice)@.len() as int,
            ),
    {
        self.narrow_mut::<0>(i)
    }
}

impl<'a, T> MultiVecRef<'a, 2, T> {
    /// The `i`-th row, one dimension narrower.
    pub fn index(&self, i: usize) -> (r: MultiVecRef<'a, 1, T>)
        requires
            self.wf(),
            i < self.spec_size(),
        ensures
            r.wf(),
            r.span() == row(self.span(), self.strides()[0] as int, i as int),
            r.span().len() == self.strides()[0],
            r.strides() == self.strides().skip(1),
    {
        self.narrow::<1>(i)
    }
}

impl<'a, T> MultiVecMut<'a, 2, T> {
    /// The `i`-th row, one dimension narrower, for writing.
    pub fn index_mut(self, i: usize) -> (r: MultiVecMut<'a, 1, T>)
        requires
            self.wf(),
            i < self.spec_size(),
        ensures
            r.wf(),
            r.slice@ == row(old(self.slice)@, self.offsets@[0] as int, i as int),
            r.slice@.len() == self.offsets@[0],
            r.offsets@ == self.offsets@.skip(1),
            final(self.slice)@ == old(self.slice)@.subrange(0, i * self.offsets@[0])
                + final(r.slice)@ + old(self.slice)@.subrange(
                (i + 1) * self.offsets@[0],
                old(self.slice)@.len() as int,
            ),
    {
        self.narrow_mut::<1>(i)
    }
}

impl<'a, T> MultiVecRef<'a, 3, T> {
    /// The `i`-th row, one dimension narrower.
    pub fn index(&self, i: usize) -> (r: MultiVecRef<'a, 2, T>)
        requires
            self.wf(),
            i < self.spec_size(),
        ensures
            r.wf(),
            r.span() == row(self.span(), self.strides()[0] as int, i as int),
            r.span().len() == self.strides()[0],
            r.strides() == self.strides().skip(1),
    {
        self.narrow::<2>(i)
    }
}

impl<'a, T> MultiVecMut<'a, 3, T> {
    /// The `i`-th row, one dimension narrower, for writing.
    pub fn index_mut(self, i: usize) -> (r: MultiVecMut<'a, 2, T>)
        requires
            self.wf(),
            i < self.spec_size(),
        ensures
            r.wf(),
            r.slice@ == row(old(self.slice)@, self.offsets@[0] as int, i as int),
            r.slice@.len() == self.offsets@[0],
            r.offsets@ == self.offsets@.skip(1),
            final(self.slice)@ == old(self.slice)@.subrange(0, i * self.offsets@[0])
                + final(r.slice)@ + old(self.slice)@.subrange(
                (i + 1) * self.offsets@[0],
                old(self.slice)@.len() as int,
            ),
    {
        self.narrow_mut::<2>(i)
    }
}

impl<'a, T> MultiVecRef<'a, 4, T> {
    /// The `i`-th row, one dimension narrower.
    pub fn index(&self, i: usize) -> (r: MultiVecRef<'a, 3, T>)
        requires
            self.wf(),
            i < self.spec_size(),
        ensures
            r.wf(),
            r.span() == row(self.span(), self.strides()[0] as int, i as int),
            r.span().len() == self.strides()[0],
            r.strides() == self.strides().skip(1),
    {
        self.narrow::<3>(i)
    }
}

impl<'a, T> MultiVecMut<'a, 4, T> {
    /// The `i`-th row, one dimension narrower, for writing.
    pub fn index_mut(self, i: usize) -> (r: MultiVecMut<'a, 3, T>)
        requires
            self.wf(),
            i < self.spec_size(),
        ensures
            r.wf(),
            r.slice@ == row(old(self.slice)@, self.offsets@[0] as int, i as int),
            r.slice@.len() == self.offsets@[0],
            r.offsets@ == self.offsets@.skip(1),
            final(self.slice)@ == old(self.slice)@.subrange(0, i * self.offsets@[0])
                + final(r.slice)@ + old(self.slice)@.subrange(
                (i + 1) * self.offsets@[0],
                old(self.slice)@.len() as int,
            ),
    {
        self.narrow_mut::<3>(i)
    }
}

impl<'a, T> MultiVecRef<'a, 5, T> {
    /// The `i`-th row, one dimension narrower.
    pub fn index(&self, i: usize) -> (r: MultiVecRef<'a, 4, T>)
        requires
            self.wf(),
            i < self.spec_size(),
        ensures
            r.wf(),
            r.span() == row(self.span(), self.strides()[0] as int, i as int),
            r.span().len() == self.strides()[0],
            r.strides() == self.strides().skip(1),
    {
        self.narrow::<4>(i)
    }
}

impl<'a, T> MultiVecMut<'a, 5, T> {
    /// The `i`-th row, one dimension narrower, for writing.
    pub fn index_mut(self, i: usize) -> (r: MultiVecMut<'a, 4, T>)
        requires
            self.wf(),
            i < self.spec_size(),
        ensures
            r.wf(),
            r.slice@ == row(old(self.slice)@, self.offsets@[0] as int, i as int),
            r.slice@.len() == self.offsets@[0],
            r.offsets@ == self.offsets@.skip(1),
            final(self.slice)@ == old(self.slice)@.subrange(0, i * self.offsets@[0])
                + final(r.slice)@ + old(self.slice)@.subrange(
                (i + 1) * self.offsets@[0],
                old(self.slice)@.len() as int,
            ),
    {
        self.narrow_mut::<4>(i)
    }
}

impl<'a, T> MultiVecRef<'a, 6, T> {
    /// The `i`-th row, one dimension narrower.
    pub fn index(&self, i: usize) -> (r: MultiVecRef<'a, 5, T>)
        requires
            self.wf(),
            i < self.spec_size(),
        ensures
            r.wf(),
            r.span() == row(self.span(), self.strides()[0] as int, i as int),
            r.span().len() == self.strides()[0],
            r.strides() == self.strides().skip(1),
    {
        self.narrow::<5>(i)
    }
}

impl<'a, T> MultiVecMut<'a, 6, T> {
    /// The `i`-th row, one dimension narrower, for writing.
    pub fn index_mut(self, i: usize) -> (r: MultiVecMut<'a, 5, T>)
        requires
            self.wf(),
            i < self.spec_size(),
        ensures
            r.wf(),
            r.slice@ == row(old(self.slice)@, self.offsets@[0] as int, i as int),
            r.slice@.len() == self.offsets@[0],
            r.offsets@ == self.offsets@.skip(1),
            final(self.slice)@ == old(self.slice)@.subrange(0, i * self.offsets@[0])
                + final(r.slice)@ + old(self.slice)@.subrange(
                (i + 1) * self.offsets@[0],
                old(self.slice)@.len() as int,
            ),
    {
        self.narrow_mut::<5>(i)
    }
}

impl<'a, T> MultiVecRef<'a, 7, T> {
    /// The `i`-th row, one dimension narrower.
    pub fn index(&self, i: usize) -> (r: MultiVecRef<'a, 6, T>)
        requires
            self.wf(),
            i < self.spec_size(),
        ensures
            r.wf(),
            r.span() == row(self.span(), self.strides()[0] as int, i as int),
            r.span().len() == self.strides()[0],
            r.strides() == self.strides().skip(1),
    {
        self.narrow::<6>(i)
    }
}

impl<'a, T> MultiVecMut<'a, 7, T> {
    /// The `i`-th row, one dimension narrower, for writing.
    pub fn index_mut(self, i: usize) -> (r: MultiVecMut<'a, 6, T>)
        requires
            self.wf(),
            i < self.spec_size(),
        ensures
            r.wf(),
            r.slice@ == row(old(self.slice)@, self.offsets@[0] as int, i as int),
            r.slice@.len() == self.offsets@[0],
            r.offsets@ == self.offsets@.skip(1),
            final(self.slice)@ == old(self.slice)@.subrange(0, i * self.offsets@[0])
                + final(r.slice)@ + old(self.slice)@.subrange(
                (i + 1) * self.offsets@[0],
                old(self.slice)@.len() as int,
            ),
    {
        self.narrow_mut::<6>(i)
    }
}

impl<'a, T> MultiVecRef<'a, 8, T> {
    /// The `i`-th row, one dimension narrower.
    pub fn index(&self, i: usize) -> (r: MultiVecRef<'a, 7, T>)
        requires
            self.wf(),
            i < self.spec_size(),
        ensures
            r.wf(),
            r.span() == row(self.span(), self.strides()[0] as int, i as int),
            r.span().len() == self.strides()[0],
            r.strides() == self.strides().skip(1),
    {
        self.narrow::<7>(i)
    }
}

impl<'a, T> MultiVecMut<'a, 8, T> {
    /// The `i`-th row, one dimension narrower, for writing.
    pub fn index_mut(self, i: usize) -> (r: MultiVecMut<'a, 7, T>)
        requires
            self.wf(),
            i < self.spec_size(),
        ensures
            r.wf(),
            r.slice@ == row(old(self.slice)@, self.offsets@[0] as int, i as int),
            r.slice@.len() == self.offsets@[0],
            r.offsets@ == self.offsets@.skip(1),
            final(self.slice)@ == old(self.slice)@.subrange(0, i * self.offsets@[0])
                + final(r.slice)@ + old(self.slice)@.subrange(
                (i + 1) * self.offsets@[0],
                old(self.slice)@.len() as int,
            ),
    {
        self.narrow_mut::<7>(i)
    }
}

impl<'a, T> MultiVecRef<'a, 9, T> {
    /// The `i`-th row, one dimension narrower.
    pub fn index(&self, i: usize) -> (r: MultiVecRef<'a, 8, T>)
        requires
            self.wf(),
            i < self.spec_size(),
        ensures
            r.wf(),
            r.span() == row(self.span(), self.strides()[0] as int, i as int),
            r.span().len() == self.strides()[0],
            r.strides() == self.strides().skip(1),
    {
        self.narrow::<8>(i)
    }
}

impl<'a, T> MultiVecMut<'a, 9, T> {
    /// The `i`-th row, one dimension narrower, for writing.
    pub fn index_mut(self, i: usize) -> (r: MultiVecMut<'a, 8, T>)
        requires
            self.wf(),
            i < self.spec_size(),
        ensures
            r.wf(),
            r.slice@ == row(old(self.slice)@, self.offsets@[0] as int, i as int),
            r.slice@.len() == self.offsets@[0],
            r.offsets@ == self.offsets@.skip(1),
            final(self.slice)@ == old(self.slice)@.subrange(0, i * self.offsets@[0])
                + final(r.slice)@ + old(self.slice)@.subrange(
                (i + 1) * self.offsets@[0],
                old(self.slice)@.len() as int,
            ),
    {
        self.narrow_mut::<8>(i)
    }
}

} // verus!
