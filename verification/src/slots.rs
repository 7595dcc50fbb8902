//! Trusted boundary around `slab::Slab`, the fixed pool of handle slots.
//!
//! Nothing in this file is proved. Each function states what the matching
//! function of the `slab` crate does to the pool, over two ghost names: the
//! slots in use with what each holds, and the free slots in the order in
//! which the pool will hand them out.
use slab::Slab;
use vstd::prelude::*;

verus! {

/// A `slab::Slab` of integers indexed by integers, opaque to the verifier.
/// It is wrapped in a struct of this crate because `Slab` itself, whose
/// index type is bound by a trait of the `slab` crate, cannot be declared
/// to the verifier.
#[verifier::external_body]
pub struct SlotPool {
    inner: Slab<usize, usize>,
}

/// The slots in use, each with the value stored in it.
pub uninterp spec fn slab_entries(slab: SlotPool) -> Map<usize, usize>;

/// The free slots, the one that the next insertion takes first.
pub uninterp spec fn slab_vacant(slab: SlotPool) -> Seq<usize>;

/// Largest pool that is asked for: its storage stays far below the
/// allocator's limit on every platform.
pub const MAX_SLAB_CAPACITY: usize = 0x0100_0000;

/// `Slab::new_starting_at`: a pool of `capacity` slots numbered upwards from
/// `offset`, all free, which are first handed out in ascending order.
#[verifier::external_body]
pub(crate) fn slab_new(offset: usize, capacity: usize) -> (slab: SlotPool)
    requires
        capacity <= MAX_SLAB_CAPACITY,
        offset + capacity <= usize::MAX,
    ensures
        slab_entries(slab).dom() == Set::<usize>::empty(),
        slab_vacant(slab) == Seq::new(capacity as nat, |i: int| (offset + i) as usize),
{
    SlotPool { inner: Slab::new_starting_at(offset, capacity) }
}

/// `Slab::insert`: stores `value` in the first free slot and returns that
/// slot, or returns nothing and changes nothing when no slot is free.
#[verifier::external_body]
pub(crate) fn slab_insert(slab: &mut SlotPool, value: usize) -> (slot: Option<usize>)
    ensures
        match slot {
            Some(index) => {
                &&& slab_vacant(*old(slab)).len() > 0
                &&& index == slab_vacant(*old(slab))[0]
                &&& slab_vacant(*final(slab)) == slab_vacant(*old(slab)).skip(1)
                &&& slab_entries(*final(slab)) == slab_entries(*old(slab)).insert(index, value)
            },
            None => {
                &&& slab_vacant(*old(slab)).len() == 0
                &&& slab_vacant(*final(slab)) == slab_vacant(*old(slab))
                &&& slab_entries(*final(slab)) == slab_entries(*old(slab))
            },
        },
{
    slab.inner.insert(value).ok()
}

/// `Slab::remove` on a slot in use: empties the slot, returns what it held,
/// and makes it the first slot to be handed out again. A slot that is not
/// in use is left out: the crate would then damage its chain of free slots.
#[verifier::external_body]
pub(crate) fn slab_remove(slab: &mut SlotPool, index: usize) -> (value: Option<usize>)
    requires
        slab_entries(*old(slab)).dom().contains(index),
    ensures
        value == Some(slab_entries(*old(slab))[index]),
        slab_entries(*final(slab)) == slab_entries(*old(slab)).remove(index),
        slab_vacant(*final(slab)) == seq![index] + slab_vacant(*old(slab)),
{
    slab.inner.remove(index)
}

/// `Slab::get` on a slot of the pool: what the slot holds, or nothing if it
/// is free. Indices beyond the pool are left out: the crate bounds them by
/// the storage it was given, not by the number of slots.
#[verifier::external_body]
pub(crate) fn slab_get(slab: &SlotPool, index: usize) -> (value: Option<usize>)
    requires
        slab_entries(*slab).dom().contains(index) || slab_vacant(*slab).contains(index),
    ensures
        value == (if slab_entries(*slab).dom().contains(index) {
            Some(slab_entries(*slab)[index])
        } else {
            None
        }),
{
    slab.inner.get(index).copied()
}

} // verus!
