//! In-place moves over the backing slot array.
//!
//! Every relocation the buffer performs — growth fix-up and contiguity
//! restoration — is built from two primitives on a `Vec<Option<T>>`: a
//! possibly-overlapping run move with memmove semantics, and an in-place
//! reversal of a range, from which a left rotation is composed.

use vstd::prelude::*;

verus! {

/// Move `count` slots starting at `src` to the positions starting at `dst`,
/// as a bulk overlapping copy would: afterwards the destination run holds the
/// old source run, and every slot outside both runs is unchanged.  Vacated
/// source slots are left free (`None`).
pub(crate) fn move_run<T>(buf: &mut Vec<Option<T>>, src: usize, dst: usize, count: usize)
    requires
        src + count <= old(buf)@.len(),
        dst + count <= old(buf)@.len(),
    ensures
        final(buf)@.len() == old(buf)@.len(),
        forall|j: int|
            dst <= j < dst + count ==> #[trigger] final(buf)@[j] == old(buf)@[j - dst + src],
        forall|j: int|
            0 <= j < old(buf)@.len() && !(dst <= j < dst + count) && !(src <= j < src + count)
                ==> #[trigger] final(buf)@[j] == old(buf)@[j],
{
    let n = buf.len();
    if dst <= src {
        let mut i: usize = 0;
        while i < count
            invariant
                i <= count,
                n == buf@.len(),
                src + count <= n,
                dst + count <= n,
                dst <= src,
                buf@.len() == old(buf)@.len(),
                forall|j: int| dst <= j < dst + i ==> #[trigger] buf@[j] == old(buf)@[j - dst + src],
                forall|j: int| src + i <= j < src + count ==> #[trigger] buf@[j] == old(buf)@[j],
                forall|j: int|
                    0 <= j < buf@.len() && !(dst <= j < dst + i) && !(src <= j < src + i)
                        ==> #[trigger] buf@[j] == old(buf)@[j],
            decreases count - i,
        {
            let v = buf[src + i].take();
            buf[dst + i] = v;
            i = i + 1;
        }
    } else {
        let mut i: usize = count;
        while i > 0
            invariant
                i <= count,
                n == buf@.len(),
                src + count <= n,
                dst + count <= n,
                dst > src,
                buf@.len() == old(buf)@.len(),
                forall|j: int|
                    dst + i <= j < dst + count ==> #[trigger] buf@[j] == old(buf)@[j - dst + src],
                forall|j: int| src <= j < src + i ==> #[trigger] buf@[j] == old(buf)@[j],
                forall|j: int|
                    0 <= j < buf@.len() && !(dst + i <= j < dst + count) && !(src + i <= j < src
                        + count) ==> #[trigger] buf@[j] == old(buf)@[j],
            decreases i,
        {
            i = i - 1;
            let v = buf[src + i].take();
            buf[dst + i] = v;
        }
    }
}

/// Reverse the slots in `[start, end)` in place; slots outside the range are
/// unchanged.
pub(crate) fn reverse_range<T>(buf: &mut Vec<Option<T>>, start: usize, end: usize)
    requires
        start <= end,
        end <= old(buf)@.len(),
    ensures
        final(buf)@.len() == old(buf)@.len(),
        forall|j: int|
            start <= j < end ==> #[trigger] final(buf)@[j] == old(buf)@[start + end - 1 - j],
        forall|j: int|
            0 <= j < old(buf)@.len() && !(start <= j < end) ==> #[trigger] final(buf)@[j] == old(
                buf,
            )@[j],
{
    let n = buf.len();
    let mut lo: usize = start;
    let mut hi: usize = end;
    while hi - lo > 1
        invariant
            start <= lo,
            hi <= end,
            lo <= hi,
            lo - start == end - hi,
            n == buf@.len(),
            end <= n,
            buf@.len() == old(buf)@.len(),
            forall|j: int| start <= j < lo ==> #[trigger] buf@[j] == old(buf)@[start + end - 1 - j],
            forall|j: int| hi <= j < end ==> #[trigger] buf@[j] == old(buf)@[start + end - 1 - j],
            forall|j: int| lo <= j < hi ==> #[trigger] buf@[j] == old(buf)@[j],
            forall|j: int|
                0 <= j < buf@.len() && !(start <= j < end) ==> #[trigger] buf@[j] == old(buf)@[j],
        decreases hi - lo,
    {
        hi = hi - 1;
        let a = buf[lo].take();
        let b = buf[hi].take();
        buf[lo] = b;
        buf[hi] = a;
        lo = lo + 1;
    }
}

/// Rotate the slots in `[start, end)` left by `k` positions in place, by three
/// range reversals.  Afterwards the slot at `start + i` holds what stood at
/// `start + ((i + k) mod (end - start))`; slots outside the range are
/// unchanged.
pub(crate) fn rotate_left_range<T>(buf: &mut Vec<Option<T>>, start: usize, end: usize, k: usize)
    requires
        start <= end,
        end <= old(buf)@.len(),
        k <= end - start,
    ensures
        final(buf)@.len() == old(buf)@.len(),
        forall|j: int|
            start <= j < end - k ==> #[trigger] final(buf)@[j] == old(buf)@[j + k],
        forall|j: int|
            end - k <= j < end ==> #[trigger] final(buf)@[j] == old(buf)@[j + k - (end - start)],
        forall|j: int|
            0 <= j < old(buf)@.len() && !(start <= j < end) ==> #[trigger] final(buf)@[j] == old(
                buf,
            )@[j],
{
    reverse_range(buf, start, start + k);
    reverse_range(buf, start + k, end);
    reverse_range(buf, start, end);
}

} // verus!
