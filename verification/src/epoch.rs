//! The epoch partition of the slot axis and the slot window of an epoch range.

use vstd::prelude::*;

verus! {

/// Width of one epoch: the slot axis is cut into contiguous buckets of this size.
pub const SLOTS_PER_EPOCH: u64 = 432000;

/// The epoch that contains a slot.
pub open spec fn spec_epoch_of_slot(slot: u64) -> int {
    slot as int / SLOTS_PER_EPOCH as int
}

/// Computes the epoch a slot belongs to.
pub fn epoch_of_slot(slot: u64) -> (e: u64)
    ensures
        e == spec_epoch_of_slot(slot),
{
    slot / SLOTS_PER_EPOCH
}

/// Epoch partition law: the epoch of a slot is non-negative, non-decreasing in
/// the slot, and epoch `e` covers exactly the slots
/// `e * SLOTS_PER_EPOCH ..= (e + 1) * SLOTS_PER_EPOCH - 1`.
pub proof fn lemma_epoch_partition(s1: u64, s2: u64, e: int)
    requires
        s1 <= s2,
    ensures
        0 <= spec_epoch_of_slot(s1),
        spec_epoch_of_slot(s1) <= spec_epoch_of_slot(s2),
        spec_epoch_of_slot(s1) == e <==> e * SLOTS_PER_EPOCH <= s1 < (e + 1) * SLOTS_PER_EPOCH,
{
    let d = SLOTS_PER_EPOCH as int;
    assert(0 <= s1 as int / d && s1 as int / d <= s2 as int / d) by (nonlinear_arith)
        requires
            0 <= s1 <= s2,
            d == SLOTS_PER_EPOCH as int,
    ;
    assert(s1 as int / d == e <==> e * d <= s1 < (e + 1) * d) by (nonlinear_arith)
        requires
            0 <= s1,
            d == SLOTS_PER_EPOCH as int,
    ;
}

/// Computes the inclusive slot window `[min_slot, max_slot]` of an inclusive
/// epoch range: `min_slot = start_epoch * SLOTS_PER_EPOCH` and
/// `max_slot = (end_epoch + 1) * SLOTS_PER_EPOCH - 1`.
pub fn slot_window(start_epoch: u64, end_epoch: u64) -> (w: (u64, u64))
    requires
        start_epoch <= end_epoch,
        (end_epoch + 1) * SLOTS_PER_EPOCH - 1 <= u64::MAX,
    ensures
        w.0 == start_epoch * SLOTS_PER_EPOCH,
        w.1 == (end_epoch + 1) * SLOTS_PER_EPOCH - 1,
        w.0 <= w.1,
        spec_epoch_of_slot(w.0) == start_epoch,
        spec_epoch_of_slot(w.1) == end_epoch,
{
    proof {
        assert(start_epoch * SLOTS_PER_EPOCH <= end_epoch * SLOTS_PER_EPOCH
            < (end_epoch + 1) * SLOTS_PER_EPOCH) by (nonlinear_arith)
            requires
                start_epoch <= end_epoch,
        ;
    }
    let min_slot = start_epoch * SLOTS_PER_EPOCH;
    let max_slot = (end_epoch + 1) * SLOTS_PER_EPOCH - 1;
    proof {
        lemma_epoch_partition(min_slot, min_slot, start_epoch as int);
        lemma_epoch_partition(max_slot, max_slot, end_epoch as int);
    }
    (min_slot, max_slot)
}

} // verus!
