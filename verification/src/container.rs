//! The owning array: backing store plus stride table.

use vstd::prelude::*;

use crate::enumerate::{all_extents, coordinate_tuples, split_tuple};
use crate::layout::{
    aligned, extents_fit, flat_index, in_range, is_stride_table, lemma_flat_index_bound,
    lemma_flat_index_injective, lemma_stride_table_aligned, product, rank, row_count,
    stride_table,
};
use crate::view::{MultiVecMut, MultiVecRef};

verus! {

/// `value` is what `f` returned for the coordinate tuple stored at position `k`.
pub open spec fn produced_at<const N: usize, T, F: Fn(usize, [usize; N]) -> T>(
    f: F,
    outer_size: usize,
    sizes: Seq<usize>,
    k: int,
    value: T,
) -> bool {
    exists|outer: usize, inner: [usize; N]|
        #![trigger flat_index(sizes, outer, inner@)]
        outer < outer_size && in_range(sizes, inner@) && flat_index(sizes, outer, inner@) == k
            && call_ensures(f, (outer, inner), value)
}

/// A dense array of `N + 1` dimensions: an outer extent and `N` inner sizes,
/// all fixed at construction.
pub struct MultiVec<const N: usize, T> {
    inner: Vec<T>,
    offsets: [usize; N],
}

impl<const N: usize, T> MultiVec<N, T> {
    /// The elements, in row-major order.
    pub closed spec fn storage(&self) -> Seq<T> {
        self.inner@
    }

    /// The stride of each inner dimension.
    pub closed spec fn strides(&self) -> Seq<usize> {
        self.offsets@
    }

    /// The backing store splits into whole rows at every level.
    pub open spec fn wf(&self) -> bool {
        &&& self.strides().len() == N
        &&& aligned(self.storage().len(), self.strides())
    }

    /// Builds the array by calling `f` once per coordinate tuple, in row-major
    /// order: outer index slowest, last inner coordinate fastest.
    pub fn from_fn(outer_size: usize, sizes: [usize; N], f: impl Fn(usize, [usize; N]) -> T) -> (m:
        Self)
        requires
            extents_fit(outer_size, sizes@),
            forall|outer: usize, inner: [usize; N]|
                outer < outer_size && in_range(sizes@, inner@) ==> call_requires(
                    f,
                    (outer, inner),
                ),
        ensures
            m.wf(),
            is_stride_table(m.strides(), sizes@),
            m.storage().len() == outer_size * product(sizes@),
            forall|outer: usize, inner: [usize; N]|
                outer < outer_size && in_range(sizes@, inner@) ==> call_ensures(
                    f,
                    (outer, inner),
                    #[trigger] m.storage()[flat_index(sizes@, outer, inner@) as int],
                ),
            forall|k: int|
                0 <= k < m.storage().len() ==> produced_at(
                    f,
                    outer_size,
                    sizes@,
                    k,
                    #[trigger] m.storage()[k],
                ),
    {
        let offsets = stride_table(&sizes).unwrap();
        let extents = all_extents(outer_size, &sizes);
        assert(extents@.skip(1) =~= sizes@);
        let tuples = coordinate_tuples(&extents);
        let mut inner: Vec<T> = Vec::new();
        let mut k: usize = 0;
        while k < tuples.len()
            invariant
                0 <= k <= tuples@.len(),
                sizes@.len() == N,
                extents@ == seq![outer_size] + sizes@,
                extents@.skip(1) == sizes@,
                inner@.len() == k,
                tuples@.len() == outer_size * product(sizes@),
                forall|j: int| 0 <= j < tuples@.len() ==> in_range(extents@, #[trigger] tuples@[j]@),
                forall|j: int| 0 <= j < tuples@.len() ==> rank(extents@, #[trigger] tuples@[j]@) == j,
                forall|outer: usize, inner: [usize; N]|
                    outer < outer_size && in_range(sizes@, inner@) ==> call_requires(
                        f,
                        (outer, inner),
                    ),
                forall|j: int|
                    0 <= j < k ==> produced_at(f, outer_size, sizes@, j, #[trigger] inner@[j]),
            decreases tuples@.len() - k,
        {
            let tuple = &tuples[k];
            assert(in_range(extents@, tuple@));
            assert(rank(extents@, tuple@) == k);
            let (outer, at) = split_tuple::<N>(tuple);
            proof {
                assert(tuple@[0] < extents@[0]);
                assert forall|j: int| 0 <= j < sizes@.len() implies #[trigger] at@[j] < sizes@[j] by {
                    assert(tuple@[j + 1] < extents@[j + 1]);
                }
                assert(flat_index(sizes@, outer, at@) == k);
            }
            let ghost before = inner@;
            let value = f(outer, at);
            inner.push(value);
            proof {
                assert(outer < outer_size && in_range(sizes@, at@) && flat_index(sizes@, outer, at@)
                    == k && call_ensures(f, (outer, at), value));
                assert(produced_at(f, outer_size, sizes@, k as int, value));
                assert forall|j: int| 0 <= j < k + 1 implies produced_at(
                    f,
                    outer_size,
                    sizes@,
                    j,
                    #[trigger] inner@[j],
                ) by {
                    if j < k {
                        assert(inner@[j] == before[j]);
                    }
                }
            }
            k += 1;
        }
        let m = MultiVec { inner, offsets };
        proof {
            lemma_stride_table_aligned(outer_size, sizes@, offsets@);
            assert forall|outer: usize, at: [usize; N]|
                outer < outer_size && in_range(sizes@, at@) implies call_ensures(
                f,
                (outer, at),
                #[trigger] m.storage()[flat_index(sizes@, outer, at@) as int],
            ) by {
                lemma_flat_index_bound(outer_size, sizes@, outer, at@);
                let pos = flat_index(sizes@, outer, at@) as int;
                assert(0 <= pos < m.storage().len());
                assert(produced_at(f, outer_size, sizes@, pos, m.storage()[pos]));
                let (o2, a2) = choose|o2: usize, a2: [usize; N]|
                    #![trigger flat_index(sizes@, o2, a2@)]
                    o2 < outer_size && in_range(sizes@, a2@) && flat_index(sizes@, o2, a2@) == pos
                        && call_ensures(f, (o2, a2), m.storage()[pos]);
                lemma_flat_index_injective(sizes@, outer, at@, o2, a2@);
                assert(a2@ =~= at@);
                assert(a2 == at);
            }
        }
        m
    }

    /// Builds the array with every element set to the default value of `T`.
    pub fn default(outer_size: usize, sizes: [usize; N]) -> (m: Self) where T: Default + Clone
        requires
            extents_fit(outer_size, sizes@),
        ensures
            m.wf(),
            is_stride_table(m.strides(), sizes@),
            m.storage().len() == outer_size * product(sizes@),
            forall|k: int|
                0 <= k < m.storage().len() ==> call_ensures(
                    T::default,
                    (),
                    #[trigger] m.storage()[k],
                ),
    {
        let fill = |_outer: usize, _inner: [usize; N]| -> (value: T)
            ensures
                call_ensures(T::default, (), value),
            { T::default() };
        let m = Self::from_fn(outer_size, sizes, fill);
        proof {
            assert forall|k: int| 0 <= k < m.storage().len() implies call_ensures(
                T::default,
                (),
                #[trigger] m.storage()[k],
            ) by {
                assert(produced_at(fill, outer_size, sizes@, k, m.storage()[k]));
            }
        }
        m
    }

    /// Number of rows of the whole array. An array whose rows would be empty
    /// has no rows.
    pub fn size(&self) -> (n: usize)
        ensures
            n == row_count(self.storage().len(), self.strides()),
    {
        self.as_view().size()
    }

    /// A shared view of the whole array.
    pub fn as_view(&self) -> (v: MultiVecRef<'_, N, T>)
        ensures
            v.wf() == self.wf(),
            v.span() == self.storage(),
            v.strides() == self.strides(),
    {
        MultiVecRef::new(self.inner.as_slice(), vstd::array::array_as_slice(&self.offsets))
    }

    /// An exclusive view of the whole array. What is written through it, or
    /// through the views narrowed from it, is what the array holds afterwards.
    pub fn as_view_mut(&mut self) -> (v: MultiVecMut<'_, N, T>)
        ensures
            v.wf() == old(self).wf(),
            v.slice@ == old(self).storage(),
            v.offsets@ == old(self).strides(),
            final(self).storage() == final(v.slice)@,
            final(self).strides() == old(self).strides(),
    {
        MultiVecMut {
            slice: self.inner.as_mut_slice(),
            offsets: vstd::array::array_as_slice(&self.offsets),
        }
    }

    /// The backing store itself.
    pub fn elements(&self) -> (v: &Vec<T>)
        ensures
            v@ == self.storage(),
    {
        &self.inner
    }

    /// The elements, in row-major order.
    pub fn as_slice(&self) -> (s: &[T])
        ensures
            s@ == self.storage(),
    {
        self.inner.as_slice()
    }

    /// The stride of each inner dimension.
    pub fn offsets(&self) -> (s: &[usize; N])
        ensures
            s@ == self.strides(),
    {
        &self.offsets
    }
}

impl<const N: usize, T: Clone> Clone for MultiVec<N, T> {
    /// Copies the elements and the strides into an independent array.
    fn clone(&self) -> (m: Self)
        ensures
            self.wf() ==> m.wf(),
            m.strides() == self.strides(),
            m.storage().len() == self.storage().len(),
            forall|k: int|
                0 <= k < self.storage().len() ==> cloned(
                    #[trigger] self.storage()[k],
                    m.storage()[k],
                ),
    {
        MultiVec { inner: self.inner.clone(), offsets: self.offsets }
    }
}

} // verus!
