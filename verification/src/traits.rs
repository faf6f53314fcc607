//! Equality and default construction for the ring buffer.

use crate::RingBuffer;
use vstd::prelude::*;
use vstd::std_specs::cmp::PartialEqSpec;

verus! {

impl<T> Default for RingBuffer<T> {
    /// An empty buffer with no allocation, as [`RingBuffer::new`] builds.
    fn default() -> (r: Self)
        ensures
            r.wf(),
            r@ == Seq::<T>::empty(),
            r.spec_capacity() == 0,
            r.spec_head() == 0,
    {
        let r = RingBuffer { buf: Vec::new(), head: 0, len: 0 };
        proof {
            assert(r@ =~= Seq::<T>::empty());
        }
        r
    }
}

impl<T: PartialEq> RingBuffer<T> {
    /// True iff the buffers have the same length and pairwise-equal logical
    /// elements — regardless of where each buffer's run sits physically,
    /// since only the logical sequences are compared.
    pub fn eq(&self, other: &Self) -> (r: bool)
        requires
            self.wf(),
            other.wf(),
        ensures
            T::obeys_eq_spec() ==> r == (self@.len() == other@.len() && (forall|i: int|
                0 <= i < self@.len() ==> #[trigger] self@[i].eq_spec(&other@[i]))),
    {
        if self.len() != other.len() {
            return false;
        }
        let n = self.len();
        let mut i: usize = 0;
        while i < n
            invariant
                self.wf(),
                other.wf(),
                n == self@.len(),
                self@.len() == other@.len(),
                i <= n,
                T::obeys_eq_spec() ==> forall|j: int|
                    0 <= j < i ==> #[trigger] self@[j].eq_spec(&other@[j]),
            decreases n - i,
        {
            let a = self.index(i);
            let b = other.index(i);
            if !a.eq(b) {
                return false;
            }
            i = i + 1;
        }
        true
    }
}

} // verus!
