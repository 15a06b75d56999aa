//! One page of the signature feed, and the range filter with its stop rule.

use vstd::prelude::*;

verus! {

/// How many entries one feed page holds at most.
pub const PAGE_LIMIT: usize = 1000;

/// One entry of a feed page: a transaction signature and the slot it landed
/// in. Pages come ordered from most recent to oldest.
#[derive(Debug, Clone)]
pub struct SignatureEntry {
    pub signature: String,
    pub slot: u64,
}

/// The entries a page keeps under the closed slot window `[min_slot,
/// max_slot]`, in page order.
pub open spec fn spec_kept(
    page: Seq<SignatureEntry>,
    min_slot: u64,
    max_slot: u64,
) -> Seq<SignatureEntry> {
    page.filter(|e: SignatureEntry| min_slot <= e.slot <= max_slot)
}

/// The exhausted signal: some entry lies below the slot floor. Entries are
/// chronologically descending, so one entry below the floor means every older
/// entry is below it too.
pub open spec fn spec_floor_hit(page: Seq<SignatureEntry>, min_slot: u64) -> bool {
    exists|i: int| 0 <= i < page.len() && (#[trigger] page[i]).slot < min_slot
}

/// Filters a page down to the entries inside the slot window and reports the
/// exhausted signal. An entry above the window is dropped without setting the
/// signal: it is merely too recent, and older in-range entries may still
/// follow further back.
pub fn filter_page(page: &Vec<SignatureEntry>, min_slot: u64, max_slot: u64) -> (r: (
    Vec<SignatureEntry>,
    bool,
))
    ensures
        r.0@ == spec_kept(page@, min_slot, max_slot),
        r.1 == spec_floor_hit(page@, min_slot),
{
    let ghost pred = |e: SignatureEntry| min_slot <= e.slot <= max_slot;
    let mut kept: Vec<SignatureEntry> = Vec::new();
    let mut floor_hit: bool = false;
    let mut i: usize = 0;
    proof {
        reveal(Seq::filter);
        assert(page@.take(0) =~= Seq::<SignatureEntry>::empty());
    }
    while i < page.len()
        invariant
            0 <= i <= page@.len(),
            pred == (|e: SignatureEntry| min_slot <= e.slot <= max_slot),
            kept@ == page@.take(i as int).filter(pred),
            floor_hit == spec_floor_hit(page@.take(i as int), min_slot),
        decreases page@.len() - i,
    {
        let e = &page[i];
        if e.slot < min_slot {
            floor_hit = true;
        } else if e.slot <= max_slot {
            kept.push(SignatureEntry { signature: e.signature.clone(), slot: e.slot });
        }
        proof {
            reveal(Seq::filter);
            assert(page@.take(i + 1).drop_last() =~= page@.take(i as int));
            assert(page@.take(i + 1).last() == page@[i as int]);
            if !(page@[i as int].slot < min_slot) {
                assert(spec_floor_hit(page@.take(i + 1), min_slot) == spec_floor_hit(
                    page@.take(i as int),
                    min_slot,
                )) by {
                    assert(forall|j: int|
                        0 <= j < i ==> page@.take(i + 1)[j] == page@.take(i as int)[j]);
                    if spec_floor_hit(page@.take(i + 1), min_slot) {
                        let j = choose|j: int|
                            0 <= j < page@.take(i + 1).len() && (#[trigger] page@.take(i + 1)[j]).slot
                                < min_slot;
                        assert(j < i);
                        assert(page@.take(i as int)[j].slot < min_slot);
                    }
                }
            } else {
                assert(page@.take(i + 1)[i as int].slot < min_slot);
            }
        }
        i = i + 1;
    }
    proof {
        assert(page@.take(page@.len() as int) =~= page@);
    }
    (kept, floor_hit)
}

} // verus!
