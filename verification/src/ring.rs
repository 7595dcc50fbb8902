//! Trusted boundary around `bytes::RingBuf`, the ring of bytes that backs
//! every relay buffer.
//!
//! Nothing in this file is proved. Each function states what the matching
//! function of the `bytes` crate does to the ring, over three ghost names for
//! what the ring holds.
use bytes::{Buf, MutBuf, RingBuf};
use vstd::arithmetic::power2::pow2;
use vstd::prelude::*;

verus! {

/// Makes `bytes::RingBuf` known to the verifier as an opaque type.
#[verifier::external_type_specification]
#[verifier::external_body]
pub struct ExRingBuf(RingBuf);

/// The bytes written to the ring and not yet consumed, oldest first.
pub uninterp spec fn ring_unread(ring: RingBuf) -> Seq<u8>;

/// The number of bytes the ring can hold.
pub uninterp spec fn ring_capacity(ring: RingBuf) -> nat;

/// The offset of the read cursor inside the ring's storage.
pub uninterp spec fn ring_cursor(ring: RingBuf) -> nat;

/// Largest capacity a ring is asked for: storage and header stay far below
/// the allocator's limit on every platform.
pub const MAX_RING_CAPACITY: usize = 0x4000_0000;

/// `RingBuf::new`. The crate rounds the capacity up to a power of two, so for
/// a capacity that already is one the ring holds exactly that many bytes. A
/// new ring is empty and reads from offset zero.
#[verifier::external_body]
pub(crate) fn ring_new(capacity: usize) -> (ring: RingBuf)
    requires
        0 < capacity <= MAX_RING_CAPACITY,
        exists|e: nat| capacity == #[trigger] pow2(e),
    ensures
        ring_unread(ring) == Seq::<u8>::empty(),
        ring_capacity(ring) == capacity,
        ring_cursor(ring) == 0,
{
    RingBuf::new(capacity)
}

/// `Buf::remaining` on a ring: the number of unread bytes.
#[verifier::external_body]
pub(crate) fn ring_remaining(ring: &RingBuf) -> (count: usize)
    ensures
        count == ring_unread(*ring).len(),
{
    Buf::remaining(ring)
}

/// `MutBuf::write_slice` on a ring: copies as many leading bytes of `src` as
/// fit into the free space, behind the bytes already held, and returns how
/// many were copied. The read cursor does not move.
#[verifier::external_body]
pub(crate) fn ring_write(ring: &mut RingBuf, src: &[u8]) -> (count: usize)
    requires
        ring_unread(*old(ring)).len() <= ring_capacity(*old(ring)),
    ensures
        count == vstd::math::min(
            src@.len() as int,
            ring_capacity(*old(ring)) - ring_unread(*old(ring)).len(),
        ),
        ring_unread(*final(ring)) == ring_unread(*old(ring)) + src@.take(count as int),
        ring_capacity(*final(ring)) == ring_capacity(*old(ring)),
        ring_cursor(*final(ring)) == ring_cursor(*old(ring)),
{
    MutBuf::write_slice(ring, src)
}

/// `Buf::bytes` on a ring: the unread bytes that lie between the read cursor
/// and the end of the storage, without consuming them. Unread bytes that
/// wrapped around to the start of the storage are not part of the slice.
#[verifier::external_body]
pub(crate) fn ring_front(ring: &RingBuf) -> (front: &[u8])
    requires
        0 < ring_capacity(*ring),
        ring_cursor(*ring) < ring_capacity(*ring),
        ring_unread(*ring).len() <= ring_capacity(*ring),
    ensures
        front@ == ring_unread(*ring).take(
            vstd::math::min(
                ring_unread(*ring).len() as int,
                ring_capacity(*ring) - ring_cursor(*ring),
            ),
        ),
{
    Buf::bytes(ring)
}

/// `Buf::advance` on a ring: consumes `count` unread bytes, or all of them
/// if fewer are held, and moves the read cursor on by as many, wrapping at
/// the capacity.
#[verifier::external_body]
pub(crate) fn ring_advance(ring: &mut RingBuf, count: usize)
    requires
        0 < ring_capacity(*old(ring)),
        ring_cursor(*old(ring)) < ring_capacity(*old(ring)),
        ring_unread(*old(ring)).len() <= ring_capacity(*old(ring)),
    ensures
        ring_unread(*final(ring)) == ring_unread(*old(ring)).skip(
            vstd::math::min(count as int, ring_unread(*old(ring)).len() as int),
        ),
        ring_capacity(*final(ring)) == ring_capacity(*old(ring)),
        ring_cursor(*final(ring)) == (ring_cursor(*old(ring)) + vstd::math::min(
            count as int,
            ring_unread(*old(ring)).len() as int,
        )) % (ring_capacity(*old(ring)) as int),
{
    Buf::advance(ring, count)
}

} // verus!
