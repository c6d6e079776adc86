//! The sequence-lock protocol of the shared audio buffer: the writer makes
//! the counter odd while it copies a frame in and even again when done; a
//! reader keeps a copy only if the counter was even and unchanged around it.

use vstd::prelude::*;

verus! {

/// The counter values a writer publishes around a write that starts from
/// `cur`: first `cur + 1` (write in progress), then `cur + 2` (stable),
/// both wrapping at 2^64.
pub fn write_seqs(cur: u64) -> (r: (u64, u64))
    ensures
        r.0 == cur.wrapping_add(1),
        r.1 == cur.wrapping_add(2),
{
    (cur.wrapping_add(1), cur.wrapping_add(2))
}

/// Whether no write is in progress at counter value `seq`.
pub fn is_stable(seq: u64) -> (b: bool)
    ensures
        b == (seq % 2 == 0),
{
    seq % 2 == 0
}

/// Whether a frame copied between reading the counter as `before` and
/// then as `after` is a consistent snapshot.
pub fn read_is_consistent(before: u64, after: u64) -> (b: bool)
    ensures
        b == (before % 2 == 0 && before == after),
{
    before % 2 == 0 && before == after
}

/// From a stable counter, a write shows an odd counter while it is in
/// progress and leaves the counter stable again, 2 further on (wrapping at
/// 2^64).
pub proof fn lemma_write_keeps_parity(cur: u64)
    requires
        cur % 2 == 0,
    ensures
        cur.wrapping_add(1) % 2 == 1,
        cur.wrapping_add(2) % 2 == 0,
        cur < u64::MAX - 1 ==> cur.wrapping_add(2) == cur + 2,
        cur.wrapping_add(2) != cur,
{
}

/// Two writes in a row, from a stable counter, advance it by 4 (wrapping
/// at 2^64) and leave it stable.
pub proof fn lemma_two_writes_advance_by_four(cur: u64)
    requires
        cur % 2 == 0,
    ensures
        cur.wrapping_add(2).wrapping_add(2) == cur.wrapping_add(4),
        cur.wrapping_add(2).wrapping_add(2) % 2 == 0,
{
}

} // verus!
