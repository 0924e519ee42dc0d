//! Symbol art slot list updates.

use vstd::prelude::*;

verus! {

/// The slot list after the changes, in order: a change to a slot past the
/// end of the list is ignored, and a later change to a slot wins.
pub open spec fn apply_slots(uuids: Seq<u128>, changes: Seq<(u32, u128)>) -> Seq<u128>
    decreases changes.len(),
{
    if changes.len() == 0 {
        uuids
    } else {
        let prev = apply_slots(uuids, changes.drop_last());
        let (slot, uuid) = changes.last();
        if (slot as int) < prev.len() {
            prev.update(slot as int, uuid)
        } else {
            prev
        }
    }
}

/// The uuids that the changes name, in order, without the empty uuid zero.
pub open spec fn named_uuids(changes: Seq<(u32, u128)>) -> Seq<u128>
    decreases changes.len(),
{
    if changes.len() == 0 {
        Seq::empty()
    } else if changes.last().1 == 0 {
        named_uuids(changes.drop_last())
    } else {
        named_uuids(changes.drop_last()).push(changes.last().1)
    }
}

proof fn lemma_apply_len(uuids: Seq<u128>, changes: Seq<(u32, u128)>)
    ensures
        apply_slots(uuids, changes).len() == uuids.len(),
    decreases changes.len(),
{
    if changes.len() > 0 {
        lemma_apply_len(uuids, changes.drop_last());
    }
}

/// Applies a client's symbol art slot changes to the stored list, and returns
/// the uuids to look up: the client is asked for the data of each one the
/// store does not have.
pub fn change_sa(uuids: &mut Vec<u128>, changes: &Vec<(u32, u128)>) -> (to_check: Vec<u128>)
    ensures
        final(uuids)@ == apply_slots(old(uuids)@, changes@),
        to_check@ == named_uuids(changes@),
{
    let mut to_check: Vec<u128> = Vec::new();
    let mut i: usize = 0;
    while i < changes.len()
        invariant
            0 <= i <= changes@.len(),
            uuids@ == apply_slots(old(uuids)@, changes@.subrange(0, i as int)),
            to_check@ == named_uuids(changes@.subrange(0, i as int)),
        decreases changes@.len() - i,
    {
        let (slot, uuid) = changes[i];
        proof {
            let next = changes@.subrange(0, i + 1);
            assert(next.drop_last() =~= changes@.subrange(0, i as int));
            lemma_apply_len(old(uuids)@, changes@.subrange(0, i as int));
        }
        if (slot as usize) < uuids.len() {
            uuids.set(slot as usize, uuid);
        }
        if uuid != 0 {
            to_check.push(uuid);
        }
        i = i + 1;
    }
    proof {
        assert(changes@.subrange(0, i as int) =~= changes@);
    }
    to_check
}

} // verus!
