//! A growable double-ended ring buffer.
//!
//! Elements live in a single block of `capacity` slots addressed circularly:
//! the front element sits at physical offset `head`, and logical index `i`
//! maps to offset `(head + i) mod capacity`.  Insertion and removal at both
//! ends are O(1) amortized; when the buffer is full its capacity doubles.
//!
//! The storage is modelled as a `Vec<Option<T>>` of length `capacity`: a slot
//! holds `Some` while it is live and is free otherwise.  The abstract state of
//! a buffer is its logical sequence of elements, `self@`, and every operation
//! is specified against that sequence.

use vstd::prelude::*;

mod iterator;
mod slots;
mod traits;

pub use iterator::{IntoIter, Iter};

verus! {

/// A growable ring buffer.
///
/// `buf` is the backing block (`buf.len()` is the capacity), `head` the
/// physical offset of the front element, and `len` the number of live
/// elements.
pub struct RingBuffer<T> {
    buf: Vec<Option<T>>,
    head: usize,
    len: usize,
}

/// Physical offset of logical index `i` in a ring of `cap` slots whose front
/// sits at offset `head`: `(head + i) mod cap`, written without `%` because
/// `head < cap` and `i <= cap` keep the sum below `2 * cap`.
pub open spec fn ring_offset(head: int, i: int, cap: int) -> int {
    if head + i < cap {
        head + i
    } else {
        head + i - cap
    }
}

/// The capacity that one growth step yields: 1 from an unallocated buffer,
/// else double the current capacity.
pub open spec fn next_capacity(cap: int) -> int {
    if cap == 0 {
        1
    } else {
        2 * cap
    }
}

/// The sequence of elements that a sequence of references points at.
pub open spec fn deref_seq<T>(s: Seq<&T>) -> Seq<T> {
    Seq::new(s.len(), |i: int| *s[i])
}

impl<T> View for RingBuffer<T> {
    type V = Seq<T>;

    /// The logical sequence held by the buffer, front first.
    closed spec fn view(&self) -> Seq<T> {
        Seq::new(
            self.len as nat,
            |i: int| self.buf@[ring_offset(self.head as int, i, self.buf@.len() as int)].unwrap(),
        )
    }
}

impl<T> RingBuffer<T> {
    /// Total element slots in the backing block.
    pub closed spec fn spec_capacity(&self) -> int {
        self.buf@.len() as int
    }

    /// Physical offset of the front element.
    pub closed spec fn spec_head(&self) -> int {
        self.head as int
    }

    /// Structural invariant: `len` and `head` are in range, a buffer without
    /// an allocation is empty, and every live slot holds an element.
    pub closed spec fn wf(&self) -> bool {
        &&& self.len <= self.buf@.len()
        &&& self.buf@.len() == 0 ==> self.head == 0
        &&& self.buf@.len() > 0 ==> self.head < self.buf@.len()
        &&& forall|i: int|
            0 <= i < self.len ==> self.buf@[ring_offset(
                self.head as int,
                i,
                self.buf@.len() as int,
            )] is Some
    }

    /// The occupied run does not wrap past the end of the block.
    pub open spec fn spec_is_contiguous(&self) -> bool {
        self.spec_head() + self@.len() <= self.spec_capacity()
    }

    /// Create an empty buffer with no allocation.
    ///
    /// Zero-sized element types are rejected as a precondition violation:
    /// capacity and fullness tracking assume a non-zero per-element stride.
    pub fn new() -> (r: Self)
        requires
            vstd::layout::size_of::<T>() != 0,
        ensures
            r.wf(),
            r@ == Seq::<T>::empty(),
            r.spec_capacity() == 0,
            r.spec_head() == 0,
    {
        let r = RingBuffer { buf: Vec::new(), head: 0, len: 0 };
        proof {
            assert(r@ =~= Seq::<T>::empty());
        }
        r
    }

    /// Number of elements in the buffer.
    pub fn len(&self) -> (r: usize)
        ensures
            r == self@.len(),
    {
        self.len
    }

    /// True if the buffer holds no elements.
    pub fn is_empty(&self) -> (r: bool)
        ensures
            r == (self@.len() == 0),
    {
        self.len == 0
    }

    /// True if every slot is live, so an insertion must grow the buffer first.
    pub fn is_full(&self) -> (r: bool)
        ensures
            r == (self@.len() == self.spec_capacity()),
    {
        self.len == self.buf.len()
    }

    /// Total element slots in the backing block.
    pub fn capacity(&self) -> (r: usize)
        ensures
            r == self.spec_capacity(),
    {
        self.buf.len()
    }

    /// Physical offset of the front element.
    pub fn head_offset(&self) -> (r: usize)
        ensures
            r == self.spec_head(),
    {
        self.head
    }

    /// Create an empty buffer eagerly allocated for exactly `capacity`
    /// elements; `capacity == 0` behaves as [`RingBuffer::new`].
    ///
    /// Zero-sized element types are rejected as a precondition violation.
    pub fn with_capacity(capacity: usize) -> (r: Self)
        requires
            vstd::layout::size_of::<T>() != 0,
        ensures
            r.wf(),
            r@ == Seq::<T>::empty(),
            r.spec_capacity() == capacity,
            r.spec_head() == 0,
    {
        let mut buf: Vec<Option<T>> = Vec::with_capacity(capacity);
        let mut i: usize = 0;
        while i < capacity
            invariant
                i <= capacity,
                buf@.len() == i,
            decreases capacity - i,
        {
            buf.push(None);
            i = i + 1;
        }
        let r = RingBuffer { buf, head: 0, len: 0 };
        proof {
            assert(r@ =~= Seq::<T>::empty());
        }
        r
    }

    /// The element at logical index `index`, or `None` when the index is out
    /// of bounds.
    pub fn get(&self, index: usize) -> (r: Option<&T>)
        requires
            self.wf(),
        ensures
            index < self@.len() ==> (r matches Some(v) && *v == self@[index as int]),
            index >= self@.len() ==> r is None,
    {
        if index >= self.len {
            return None;
        }
        let cap = self.buf.len();
        let idx = if index < cap - self.head {
            self.head + index
        } else {
            index - (cap - self.head)
        };
        proof {
            assert(idx == ring_offset(self.head as int, index as int, cap as int));
        }
        self.buf[idx].as_ref()
    }

    /// The element at logical index `index`; the index must be in bounds.
    pub fn index(&self, index: usize) -> (r: &T)
        requires
            self.wf(),
            index < self@.len(),
        ensures
            *r == self@[index as int],
    {
        self.get(index).unwrap()
    }

    /// The physical offset the front element has after one growth step:
    /// unchanged when the run started at the block base or when the head-side
    /// run was the one relocated, and moved past the old block end otherwise.
    pub open spec fn spec_grown_head(&self) -> int {
        if self.spec_head() == 0 {
            0
        } else if self.spec_capacity() - self.spec_head() >= self.spec_head() {
            self.spec_head()
        } else {
            self.spec_capacity() + self.spec_head()
        }
    }

    /// Grow the buffer by doubling its capacity (an unallocated buffer gets
    /// one slot), preserving the logical sequence.
    ///
    /// The block is extended in place; if the occupied run was split by the
    /// old block end, the smaller of its two parts is relocated into the new
    /// space so the run stays adjacent through the ring.
    pub fn grow(&mut self)
        requires
            old(self).wf(),
            2 * old(self).spec_capacity() <= usize::MAX,
        ensures
            final(self).wf(),
            final(self)@ == old(self)@,
            final(self).spec_capacity() == next_capacity(old(self).spec_capacity()),
            final(self).spec_head() == old(self).spec_grown_head(),
    {
        let cap = self.buf.len();
        let new_cap = if cap == 0 {
            1
        } else {
            cap * 2
        };
        let mut i: usize = cap;
        while i < new_cap
            invariant
                cap <= i <= new_cap,
                self.buf@.len() == i,
                self.head == old(self).head,
                self.len == old(self).len,
                forall|j: int| 0 <= j < cap ==> #[trigger] self.buf@[j] == old(self).buf@[j],
            decreases new_cap - i,
        {
            self.buf.push(None);
            i = i + 1;
        }
        let ghost mid = self.buf@;
        if self.head != 0 {
            if cap - self.head >= self.head {
                // The head-side run is the smaller: move it to just past the
                // old block end, leaving `head` unchanged.
                slots::move_run(&mut self.buf, 0, cap, self.head);
            } else {
                // The tail-side run is the smaller: move it so it ends at the
                // new block end, where the ring wraps back to offset 0.
                slots::move_run(&mut self.buf, self.head, cap + self.head, cap - self.head);
                self.head = cap + self.head;
            }
        }
        proof {
            let head0 = old(self).head as int;
            let cap0 = cap as int;
            let ncap = new_cap as int;
            assert(self.buf@.len() == ncap);
            assert forall|k: int| 0 <= k < self.len implies {
                &&& #[trigger] self.buf@[ring_offset(self.head as int, k, self.buf@.len() as int)]
                    == old(self).buf@[ring_offset(head0, k, cap0)]
                &&& self.buf@[ring_offset(self.head as int, k, self.buf@.len() as int)] is Some
            } by {
                let o = ring_offset(head0, k, cap0);
                let q = ring_offset(self.head as int, k, ncap);
                assert(old(self).buf@[o] is Some);
                assert(mid[o] == old(self).buf@[o]);
                assert(self.buf@[q] == mid[o]);
            }
            assert(self@ =~= old(self)@);
        }
    }

    /// Insert an item at the back of the buffer, growing it first when full.
    pub fn push_back(&mut self, item: T)
        requires
            old(self).wf(),
            old(self)@.len() == old(self).spec_capacity() ==> 2 * old(self).spec_capacity()
                <= usize::MAX,
        ensures
            final(self).wf(),
            final(self)@ == old(self)@.push(item),
            final(self).spec_capacity() == if old(self)@.len() == old(self).spec_capacity() {
                next_capacity(old(self).spec_capacity())
            } else {
                old(self).spec_capacity()
            },
            final(self).spec_capacity() >= old(self).spec_capacity(),
            final(self).spec_head() == if old(self)@.len() == old(self).spec_capacity() {
                old(self).spec_grown_head()
            } else {
                old(self).spec_head()
            },
    {
        if self.is_full() {
            self.grow();
        }
        let ghost grown = *self;
        let cap = self.buf.len();
        let idx = if self.len < cap - self.head {
            self.head + self.len
        } else {
            self.len - (cap - self.head)
        };
        proof {
            assert(idx == ring_offset(self.head as int, self.len as int, cap as int));
        }
        self.buf[idx] = Some(item);
        self.len = self.len + 1;
        proof {
            assert forall|k: int| 0 <= k < grown.len implies self.buf@[ring_offset(
                self.head as int,
                k,
                cap as int,
            )] == grown.buf@[ring_offset(grown.head as int, k, cap as int)] by {
                assert(ring_offset(grown.head as int, k, cap as int) != idx);
            }
            assert(self@ =~= old(self)@.push(item));
        }
    }

    /// Insert an item at the front of the buffer, growing it first when full.
    /// The new head offset is one slot before the old one through the ring.
    pub fn push_front(&mut self, item: T)
        requires
            old(self).wf(),
            old(self)@.len() == old(self).spec_capacity() ==> 2 * old(self).spec_capacity()
                <= usize::MAX,
        ensures
            final(self).wf(),
            final(self)@ == seq![item] + old(self)@,
            final(self).spec_capacity() == if old(self)@.len() == old(self).spec_capacity() {
                next_capacity(old(self).spec_capacity())
            } else {
                old(self).spec_capacity()
            },
            final(self).spec_capacity() >= old(self).spec_capacity(),
            final(self).spec_head() == ({
                let h1 = if old(self)@.len() == old(self).spec_capacity() {
                    old(self).spec_grown_head()
                } else {
                    old(self).spec_head()
                };
                ring_offset(h1, final(self).spec_capacity() - 1, final(self).spec_capacity())
            }),
    {
        if self.is_full() {
            self.grow();
        }
        let ghost grown = *self;
        let cap = self.buf.len();
        let idx = if self.head == 0 {
            cap - 1
        } else {
            self.head - 1
        };
        self.buf[idx] = Some(item);
        self.head = idx;
        self.len = self.len + 1;
        proof {
            assert forall|k: int| 1 <= k < self.len implies {
                &&& ring_offset(idx as int, k, cap as int) == ring_offset(
                    grown.head as int,
                    k - 1,
                    cap as int,
                )
                &&& ring_offset(idx as int, k, cap as int) != idx
            } by {}
            assert(self@ =~= seq![item] + old(self)@);
        }
    }

    /// Remove and return the front element, or `None` when the buffer is
    /// empty.
    pub fn pop_front(&mut self) -> (r: Option<T>)
        requires
            old(self).wf(),
        ensures
            final(self).wf(),
            final(self).spec_capacity() == old(self).spec_capacity(),
            old(self)@.len() == 0 ==> r is None && *final(self) == *old(self),
            old(self)@.len() > 0 ==> r == Some(old(self)@[0]) && final(self)@ == old(self)@.skip(
                1,
            ) && final(self).spec_head() == ring_offset(
                old(self).spec_head(),
                1,
                old(self).spec_capacity(),
            ),
    {
        if self.len == 0 {
            return None;
        }
        let cap = self.buf.len();
        let idx = self.head;
        let item = self.buf[idx].take();
        self.head = if self.head + 1 == cap {
            0
        } else {
            self.head + 1
        };
        self.len = self.len - 1;
        proof {
            assert forall|k: int| 0 <= k < self.len implies {
                &&& ring_offset(self.head as int, k, cap as int) == ring_offset(
                    old(self).head as int,
                    k + 1,
                    cap as int,
                )
                &&& ring_offset(self.head as int, k, cap as int) != idx
            } by {}
            assert(self@ =~= old(self)@.skip(1));
        }
        item
    }

    /// Remove and return the back element, or `None` when the buffer is
    /// empty.
    pub fn pop_back(&mut self) -> (r: Option<T>)
        requires
            old(self).wf(),
        ensures
            final(self).wf(),
            final(self).spec_capacity() == old(self).spec_capacity(),
            final(self).spec_head() == old(self).spec_head(),
            old(self)@.len() == 0 ==> r is None && *final(self) == *old(self),
            old(self)@.len() > 0 ==> r == Some(old(self)@.last()) && final(self)@ == old(
                self,
            )@.drop_last(),
    {
        if self.len == 0 {
            return None;
        }
        let cap = self.buf.len();
        let back = self.len - 1;
        let idx = if back < cap - self.head {
            self.head + back
        } else {
            back - (cap - self.head)
        };
        proof {
            assert(idx == ring_offset(self.head as int, back as int, cap as int));
        }
        let item = self.buf[idx].take();
        self.len = self.len - 1;
        proof {
            assert forall|k: int| 0 <= k < self.len implies ring_offset(
                self.head as int,
                k,
                cap as int,
            ) != idx by {}
            assert(self@ =~= old(self)@.drop_last());
        }
        item
    }

    /// True iff the occupied run does not wrap past the end of the block.
    pub fn is_contiguous(&self) -> (r: bool)
        requires
            self.wf(),
        ensures
            r == self.spec_is_contiguous(),
    {
        self.len <= self.buf.len() - self.head
    }

    /// Length of the first of the two slice views: the whole buffer when the
    /// run is contiguous, else the tail-side run up to the block end.
    pub open spec fn spec_front_len(&self) -> int {
        if self.spec_is_contiguous() {
            self@.len() as int
        } else {
            self.spec_capacity() - self.spec_head()
        }
    }

    /// The first slice view: the longest logical prefix that is contiguous in
    /// the block, starting at `head`.
    pub open spec fn spec_front(&self) -> Seq<T> {
        self@.take(self.spec_front_len())
    }

    /// The second slice view: the rest of the logical sequence, stored from
    /// the block base; empty when the run is contiguous.
    pub open spec fn spec_back(&self) -> Seq<T> {
        self@.skip(self.spec_front_len())
    }

    /// The buffer as an ordered pair of views over the live elements: the
    /// front view first, then the back view, together the logical sequence.
    pub fn as_slices(&self) -> (r: (Vec<&T>, Vec<&T>))
        requires
            self.wf(),
        ensures
            deref_seq(r.0@) == self.spec_front(),
            deref_seq(r.1@) == self.spec_back(),
            r.0@.len() == self.spec_front_len(),
            r.0@.len() + r.1@.len() == self@.len(),
    {
        let cap = self.buf.len();
        let split = if self.len <= cap - self.head {
            self.len
        } else {
            cap - self.head
        };
        let mut front: Vec<&T> = Vec::new();
        let mut i: usize = 0;
        while i < split
            invariant
                i <= split,
                split == self.spec_front_len(),
                split <= self@.len(),
                self.wf(),
                front@.len() == i,
                forall|j: int| 0 <= j < i ==> *#[trigger] front@[j] == self@[j],
            decreases split - i,
        {
            front.push(self.index(i));
            i = i + 1;
        }
        let mut back: Vec<&T> = Vec::new();
        let mut k: usize = split;
        while k < self.len
            invariant
                split <= k <= self@.len(),
                split == self.spec_front_len(),
                self.wf(),
                back@.len() == k - split,
                forall|j: int| 0 <= j < k - split ==> *#[trigger] back@[j] == self@[split + j],
            decreases self@.len() - k,
        {
            back.push(self.index(k));
            k = k + 1;
        }
        proof {
            assert(deref_seq(front@) =~= self.spec_front());
            assert(deref_seq(back@) =~= self.spec_back());
        }
        (front, back)
    }

    /// The physical offset the front element has after contiguity
    /// restoration.  The case split mirrors the relocation strategies: an
    /// already contiguous run keeps its head; a head-side run that fits in
    /// the spare space lands the run at its own length; a tail-side run that
    /// fits lands the run ending at the old head; otherwise the combined
    /// block is aligned at the block start when the tail-side run is the
    /// smaller, else at the block end.
    pub open spec fn spec_contiguous_head(&self) -> int {
        let cap = self.spec_capacity();
        let head = self.spec_head();
        let len = self@.len() as int;
        if head + len <= cap {
            head
        } else {
            let top = cap - head;
            let bottom = len - top;
            let spare = cap - len;
            if bottom <= spare {
                bottom
            } else if top <= spare {
                head - len
            } else if top < bottom {
                0
            } else {
                cap - len
            }
        }
    }

    /// Rearrange the storage in place — no reallocation — so the occupied
    /// run no longer wraps, preserving the logical sequence.
    ///
    /// Exactly one of three relocation strategies runs, chosen to minimize
    /// the elements moved: the head-side run is shifted into the spare space
    /// after the tail-side run when it fits; else the tail-side run is
    /// shifted into the spare space before the head-side run when it fits;
    /// else the smaller run is copied adjacent to the larger and the combined
    /// block is rotated into logical order.
    pub fn make_contiguous(&mut self)
        requires
            old(self).wf(),
        ensures
            final(self).wf(),
            final(self)@ == old(self)@,
            final(self).spec_capacity() == old(self).spec_capacity(),
            final(self).spec_is_contiguous(),
            final(self).spec_head() == old(self).spec_contiguous_head(),
    {
        let cap = self.buf.len();
        if self.len <= cap - self.head {
            return;
        }
        let head = self.head;
        let len = self.len;
        let top = cap - head;
        let bottom = len - top;
        let spare = cap - len;
        let ghost c = cap as int;
        let ghost h = head as int;
        let ghost l = len as int;
        let ghost t = top as int;
        let ghost b = bottom as int;
        if bottom <= spare {
            // Shift the tail-side run forward by `bottom`, then bring the
            // head-side run in right behind it.
            slots::move_run(&mut self.buf, head, bottom, top);
            let ghost mid = self.buf@;
            slots::move_run(&mut self.buf, 0, bottom + top, bottom);
            self.head = bottom;
            proof {
                assert forall|k: int| 0 <= k < l implies {
                    &&& #[trigger] self.buf@[ring_offset(
                        self.head as int,
                        k,
                        self.buf@.len() as int,
                    )] == old(self).buf@[ring_offset(h, k, c)]
                    &&& self.buf@[ring_offset(self.head as int, k, self.buf@.len() as int)] is Some
                } by {
                    let o = ring_offset(h, k, c);
                    assert(old(self).buf@[o] is Some);
                    assert(ring_offset(self.head as int, k, self.buf@.len() as int) == b + k);
                    if k < t {
                        assert(mid[b + k] == old(self).buf@[h + k]);
                        assert(self.buf@[b + k] == mid[b + k]);
                    } else {
                        assert(mid[k - t] == old(self).buf@[k - t]);
                        assert(self.buf@[b + k] == mid[k - t]);
                    }
                }
                assert(self@ =~= old(self)@);
            }
        } else if top <= spare {
            // Shift the head-side run back to end at the old head, then bring
            // the tail-side run in right before it.
            slots::move_run(&mut self.buf, 0, head - bottom, bottom);
            let ghost mid = self.buf@;
            slots::move_run(&mut self.buf, head, head - len, top);
            self.head = head - len;
            proof {
                assert forall|k: int| 0 <= k < l implies {
                    &&& #[trigger] self.buf@[ring_offset(
                        self.head as int,
                        k,
                        self.buf@.len() as int,
                    )] == old(self).buf@[ring_offset(h, k, c)]
                    &&& self.buf@[ring_offset(self.head as int, k, self.buf@.len() as int)] is Some
                } by {
                    let o = ring_offset(h, k, c);
                    assert(old(self).buf@[o] is Some);
                    assert(ring_offset(self.head as int, k, self.buf@.len() as int) == h - l + k);
                    if k < t {
                        assert(mid[h + k] == old(self).buf@[h + k]);
                        assert(self.buf@[h - l + k] == mid[h + k]);
                    } else {
                        assert(mid[h - l + k] == old(self).buf@[k - t]);
                        assert(self.buf@[h - l + k] == mid[h - l + k]);
                    }
                }
                assert(self@ =~= old(self)@);
            }
        } else if top < bottom {
            // Copy the smaller tail-side run right after the head-side run,
            // then rotate the combined block, aligned at the block start,
            // into logical order.
            slots::move_run(&mut self.buf, head, bottom, top);
            let ghost mid = self.buf@;
            slots::rotate_left_range(&mut self.buf, 0, len, bottom);
            self.head = 0;
            proof {
                assert forall|k: int| 0 <= k < l implies {
                    &&& #[trigger] self.buf@[ring_offset(
                        self.head as int,
                        k,
                        self.buf@.len() as int,
                    )] == old(self).buf@[ring_offset(h, k, c)]
                    &&& self.buf@[ring_offset(self.head as int, k, self.buf@.len() as int)] is Some
                } by {
                    let o = ring_offset(h, k, c);
                    assert(old(self).buf@[o] is Some);
                    assert(ring_offset(self.head as int, k, self.buf@.len() as int) == k);
                    if k < t {
                        assert(mid[b + k] == old(self).buf@[h + k]);
                        assert(self.buf@[k] == mid[k + b]);
                    } else {
                        assert(mid[k - t] == old(self).buf@[k - t]);
                        assert(self.buf@[k] == mid[k + b - l]);
                    }
                }
                assert(self@ =~= old(self)@);
            }
        } else {
            // Copy the smaller head-side run right before the tail-side run,
            // then rotate the combined block, aligned at the block end, into
            // logical order.
            slots::move_run(&mut self.buf, 0, spare, bottom);
            let ghost mid = self.buf@;
            slots::rotate_left_range(&mut self.buf, spare, cap, bottom);
            self.head = spare;
            proof {
                let s = spare as int;
                assert forall|k: int| 0 <= k < l implies {
                    &&& #[trigger] self.buf@[ring_offset(
                        self.head as int,
                        k,
                        self.buf@.len() as int,
                    )] == old(self).buf@[ring_offset(h, k, c)]
                    &&& self.buf@[ring_offset(self.head as int, k, self.buf@.len() as int)] is Some
                } by {
                    let o = ring_offset(h, k, c);
                    assert(old(self).buf@[o] is Some);
                    assert(ring_offset(self.head as int, k, self.buf@.len() as int) == s + k);
                    if k < t {
                        assert(mid[h + k] == old(self).buf@[h + k]);
                        assert(self.buf@[s + k] == mid[s + k + b]);
                        assert(s + k + b == h + k);
                    } else {
                        assert(mid[s + k - t] == old(self).buf@[k - t]);
                        assert(self.buf@[s + k] == mid[s + k + b - l]);
                        assert(s + k + b - l == s + k - t);
                    }
                }
                assert(self@ =~= old(self)@);
            }
        }
    }
}

/// Law: for every head/len/capacity configuration, concatenating the two
/// slice views reproduces the exact logical sequence.
pub proof fn lemma_slices_concat<T>(rb: &RingBuffer<T>)
    requires
        rb.wf(),
    ensures
        rb.spec_front() + rb.spec_back() == rb@,
{
    assert(rb.spec_front() + rb.spec_back() =~= rb@);
}

/// Law: a contiguous buffer's slice views are the full run and the empty
/// run — in particular after contiguity restoration, whose contract ensures
/// `spec_is_contiguous()`.
pub proof fn lemma_contiguous_slices<T>(rb: &RingBuffer<T>)
    requires
        rb.wf(),
        rb.spec_is_contiguous(),
    ensures
        rb.spec_front() == rb@,
        rb.spec_back() == Seq::<T>::empty(),
{
    assert(rb.spec_front() =~= rb@);
    assert(rb.spec_back() =~= Seq::<T>::empty());
}

/// Law: capacity follows the doubling schedule 0, 1, 2, 4, 8, … and one
/// growth step always strictly increases it; since no operation shrinks the
/// block, capacity is monotonically non-decreasing.
pub proof fn lemma_capacity_schedule(cap: int)
    requires
        cap >= 0,
    ensures
        next_capacity(cap) > cap,
        next_capacity(0) == 1,
        cap > 0 ==> next_capacity(cap) == 2 * cap,
{
}

} // verus!
