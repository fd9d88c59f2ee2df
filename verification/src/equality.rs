//! Equality of arrays: same strides and equal elements.

use vstd::prelude::*;
use vstd::std_specs::cmp::{PartialEqSpec, PartialEqSpecImpl};

use crate::container::MultiVec;

verus! {

impl<const N: usize, T: PartialEq> PartialEq for MultiVec<N, T> {
    fn eq(&self, other: &Self) -> (same: bool) {
        let mut i: usize = 0;
        let a = self.offsets();
        let b = other.offsets();
        while i < N
            invariant
                0 <= i <= N,
                a@ == self.strides(),
                b@ == other.strides(),
                a@.len() == N,
                b@.len() == N,
                forall|j: int| 0 <= j < i ==> a@[j] == b@[j],
            decreases N - i,
        {
            if a[i] != b[i] {
                assert(a@[i as int] != b@[i as int]);
                return false;
            }
            i += 1;
        }
        assert(a@ =~= b@);
        self.elements() == other.elements()
    }
}

impl<const N: usize, T: PartialEq> PartialEqSpecImpl for MultiVec<N, T> {
    open spec fn obeys_eq_spec() -> bool {
        T::obeys_eq_spec()
    }

    open spec fn eq_spec(&self, other: &Self) -> bool {
        &&& self.strides() == other.strides()
        &&& self.storage().len() == other.storage().len()
        &&& forall|i: int|
            0 <= i < self.storage().len() ==> (#[trigger] self.storage()[i]).eq_spec(
                &other.storage()[i],
            )
    }
}

impl<const N: usize, T: Eq> Eq for MultiVec<N, T> {

}

} // verus!
