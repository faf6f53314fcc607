//! Traversals over the ring buffer.

use crate::RingBuffer;
use vstd::prelude::*;

verus! {

/// A bidirectional traversal over borrowed elements of a ring buffer.
///
/// Two cursors close in on each other, so the front and the back can be
/// consumed independently until they meet in the middle.  A traversal is not
/// restartable, and the borrow it holds keeps the buffer from being mutated
/// while it is outstanding.
pub struct Iter<'a, T> {
    rb: &'a RingBuffer<T>,
    front: usize,
    back: usize,
}

impl<'a, T> Iter<'a, T> {
    /// Structural invariant: the buffer is well formed and the two cursors
    /// delimit a range of logical indices.
    pub closed spec fn wf(&self) -> bool {
        &&& self.rb.wf()
        &&& self.front <= self.back <= self.rb@.len()
    }

    /// The elements not yet yielded, in logical order.
    pub closed spec fn remaining(&self) -> Seq<T> {
        self.rb@.subrange(self.front as int, self.back as int)
    }

    /// Yield the next element from the front, or `None` when the traversal
    /// is exhausted.
    pub fn next(&mut self) -> (r: Option<&'a T>)
        requires
            old(self).wf(),
        ensures
            final(self).wf(),
            old(self).remaining().len() == 0 ==> r is None && final(self).remaining() == old(
                self,
            ).remaining(),
            old(self).remaining().len() > 0 ==> (r matches Some(v) && *v
                == old(self).remaining()[0]) && final(self).remaining() == old(
                self,
            ).remaining().skip(1),
    {
        if self.front < self.back {
            let rb: &'a RingBuffer<T> = self.rb;
            let item = rb.get(self.front);
            self.front = self.front + 1;
            proof {
                assert(self.remaining() =~= old(self).remaining().skip(1));
            }
            item
        } else {
            proof {
                assert(self.remaining() =~= old(self).remaining());
            }
            None
        }
    }

    /// Yield the next element from the back, or `None` when the traversal is
    /// exhausted.
    pub fn next_back(&mut self) -> (r: Option<&'a T>)
        requires
            old(self).wf(),
        ensures
            final(self).wf(),
            old(self).remaining().len() == 0 ==> r is None && final(self).remaining() == old(
                self,
            ).remaining(),
            old(self).remaining().len() > 0 ==> (r matches Some(v) && *v == old(
                self,
            ).remaining().last()) && final(self).remaining() == old(self).remaining().drop_last(),
    {
        if self.front < self.back {
            let rb: &'a RingBuffer<T> = self.rb;
            self.back = self.back - 1;
            let item = rb.get(self.back);
            proof {
                assert(self.remaining() =~= old(self).remaining().drop_last());
            }
            item
        } else {
            proof {
                assert(self.remaining() =~= old(self).remaining());
            }
            None
        }
    }

    /// Exact number of elements the traversal has yet to yield.
    pub fn len(&self) -> (r: usize)
        requires
            self.wf(),
        ensures
            r == self.remaining().len(),
    {
        self.back - self.front
    }
}

/// A consuming bidirectional traversal: it removes the elements it yields,
/// and any elements not consumed stay in the buffer it holds.
pub struct IntoIter<T>(RingBuffer<T>);

impl<T> View for IntoIter<T> {
    type V = Seq<T>;

    /// The elements not yet yielded, in logical order.
    closed spec fn view(&self) -> Seq<T> {
        self.0@
    }
}

impl<T> IntoIter<T> {
    /// Structural invariant: the buffer inside is well formed.
    pub closed spec fn wf(&self) -> bool {
        self.0.wf()
    }

    /// Remove and yield the next element from the front, or `None` when
    /// nothing remains.
    pub fn next(&mut self) -> (r: Option<T>)
        requires
            old(self).wf(),
        ensures
            final(self).wf(),
            old(self)@.len() == 0 ==> r is None && final(self)@ == old(self)@,
            old(self)@.len() > 0 ==> r == Some(old(self)@[0]) && final(self)@ == old(self)@.skip(
                1,
            ),
    {
        self.0.pop_front()
    }

    /// Remove and yield the next element from the back, or `None` when
    /// nothing remains.
    pub fn next_back(&mut self) -> (r: Option<T>)
        requires
            old(self).wf(),
        ensures
            final(self).wf(),
            old(self)@.len() == 0 ==> r is None && final(self)@ == old(self)@,
            old(self)@.len() > 0 ==> r == Some(old(self)@.last()) && final(self)@ == old(
                self,
            )@.drop_last(),
    {
        self.0.pop_back()
    }

    /// Exact number of elements the traversal has yet to yield.
    pub fn len(&self) -> (r: usize)
        ensures
            r == self@.len(),
    {
        self.0.len()
    }

    /// Lower and upper bound on the remaining elements; both are exact.
    pub fn size_hint(&self) -> (r: (usize, Option<usize>))
        ensures
            r.0 == self@.len(),
            r.1 matches Some(n) && n == self@.len(),
    {
        (self.0.len(), Some(self.0.len()))
    }

    /// Drain every remaining element, front to back: the result is exactly
    /// the remaining logical sequence, and nothing is left behind.
    pub fn into_vec(self) -> (r: Vec<T>)
        requires
            self.wf(),
        ensures
            r@ == self@,
    {
        let ghost orig = self@;
        let mut it = self;
        let mut out: Vec<T> = Vec::new();
        while it.len() > 0
            invariant
                it.wf(),
                out@ + it@ == orig,
            decreases it@.len(),
        {
            let x = it.next().unwrap();
            out.push(x);
            proof {
                assert(out@ + it@ =~= orig);
            }
        }
        proof {
            assert(out@ =~= orig);
        }
        out
    }
}

impl<T> RingBuffer<T> {
    /// A fresh bidirectional traversal over the whole buffer.
    pub fn iter(&self) -> (it: Iter<'_, T>)
        requires
            self.wf(),
        ensures
            it.wf(),
            it.remaining() == self@,
    {
        let it = Iter { rb: self, front: 0, back: self.len() };
        proof {
            assert(it.remaining() =~= self@);
        }
        it
    }

    /// Turn the buffer into a consuming traversal over all its elements.
    pub fn into_iter(self) -> (it: IntoIter<T>)
        requires
            self.wf(),
        ensures
            it.wf(),
            it@ == self@,
    {
        IntoIter(self)
    }
}

} // verus!
