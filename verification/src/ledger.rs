//! The conservation law of weighted reference counting, stated over a ledger: the
//! sequence of all handles that are alive, in no particular order.

use vstd::prelude::*;
use vstd::arithmetic::power2::{lemma_pow2_pos, lemma_pow2_unfold};
use crate::handle::OrcView;
use crate::heap::{
    admits, after_alloc, after_release, allocated, is_first_empty, is_full, slots_wf, swept, SlotView,
};
use crate::weight::{lemma_shift_is_pow2, MAX_WEIGHT, MAX_WEIGHT_EXP};

verus! {

/// The weight that one handle owns of slot `slot`: its share if it points there, else none.
pub open spec fn share_in(handle: OrcView, slot: nat) -> nat {
    if handle.slot == slot {
        handle.weight()
    } else {
        0
    }
}

/// The weight that the handles of the ledger own of slot `slot`, all together.
pub open spec fn held(handles: Seq<OrcView>, slot: nat) -> nat
    decreases handles.len(),
{
    if handles.len() == 0 {
        0
    } else {
        held(handles.drop_last(), slot) + share_in(handles.last(), slot)
    }
}

/// No handle of the ledger points to slot `slot`.
pub open spec fn unreferenced(handles: Seq<OrcView>, slot: nat) -> bool {
    forall|i: int| 0 <= i < handles.len() ==> (#[trigger] handles[i]).slot != slot
}

/// Conservation: every handle of the ledger is well formed and points into the arena,
/// and the weight of each slot is what the handles own of it.
pub open spec fn conserved<T>(slots: Seq<SlotView<T>>, handles: Seq<OrcView>) -> bool {
    &&& forall|i: int|
        0 <= i < handles.len() ==> (#[trigger] handles[i]).slot < slots.len() && handles[i].exp
            <= MAX_WEIGHT_EXP
    &&& forall|slot: int| 0 <= slot < slots.len() ==> held(handles, slot as nat) == (#[trigger] slots[slot]).weight
}

/// A handle added to the ledger adds its share.
pub proof fn lemma_held_push(handles: Seq<OrcView>, handle: OrcView, slot: nat)
    ensures
        held(handles.push(handle), slot) == held(handles, slot) + share_in(handle, slot),
{
    assert(handles.push(handle).drop_last() =~= handles);
}

/// A handle taken out of the ledger, wherever it stood, takes its share with it.
pub proof fn lemma_held_remove(handles: Seq<OrcView>, i: int, slot: nat)
    requires
        0 <= i < handles.len(),
    ensures
        held(handles, slot) == held(handles.remove(i), slot) + share_in(handles[i], slot),
    decreases handles.len(),
{
    if i == handles.len() - 1 {
        assert(handles.remove(i) =~= handles.drop_last());
    } else {
        lemma_held_remove(handles.drop_last(), i, slot);
        assert(handles.remove(i).drop_last() =~= handles.drop_last().remove(i));
        assert(handles.remove(i).last() == handles.last());
    }
}

/// A handle replaced in the ledger exchanges its share for that of its replacement.
pub proof fn lemma_held_update(handles: Seq<OrcView>, i: int, handle: OrcView, slot: nat)
    requires
        0 <= i < handles.len(),
    ensures
        held(handles.update(i, handle), slot) + share_in(handles[i], slot) == held(handles, slot)
            + share_in(handle, slot),
{
    lemma_held_remove(handles, i, slot);
    lemma_held_remove(handles.update(i, handle), i, slot);
    assert(handles.update(i, handle).remove(i) =~= handles.remove(i));
}

/// The handles own nothing of a slot exactly when none of them points to it.
pub proof fn lemma_held_zero_iff_unreferenced(handles: Seq<OrcView>, slot: nat)
    ensures
        held(handles, slot) == 0 <==> unreferenced(handles, slot),
    decreases handles.len(),
{
    if handles.len() > 0 {
        let rest = handles.drop_last();
        lemma_held_zero_iff_unreferenced(rest, slot);
        lemma_pow2_pos(handles.last().exp);
        if unreferenced(handles, slot) {
            assert forall|i: int| 0 <= i < rest.len() implies (#[trigger] rest[i]).slot != slot by {
                assert(rest[i] == handles[i]);
            }
            assert(handles[handles.len() - 1].slot != slot);
        }
        if held(handles, slot) == 0 {
            assert forall|i: int| 0 <= i < handles.len() implies (#[trigger] handles[i]).slot
                != slot by {
                if i < rest.len() {
                    assert(rest[i] == handles[i]);
                }
            }
        }
    }
}

/// Conservation, first half. While a slot is occupied its weight is the sum of the
/// shares of the live handles that point to it; this is what `conserved` says, and a
/// new arena with no handle alive starts out so.
pub proof fn lemma_new_arena_conserved<T>(slots: Seq<SlotView<T>>)
    requires
        forall|i: int| 0 <= i < slots.len() ==> (#[trigger] slots[i]).weight == 0,
    ensures
        conserved(slots, Seq::<OrcView>::empty()),
{
}

/// Conservation, second half: a slot is empty exactly when no live handle points to it.
pub proof fn lemma_empty_iff_unreferenced<T>(
    slots: Seq<SlotView<T>>,
    handles: Seq<OrcView>,
    slot: int,
)
    requires
        conserved(slots, handles),
        0 <= slot < slots.len(),
    ensures
        slots[slot].weight == 0 <==> unreferenced(handles, slot as nat),
{
    lemma_held_zero_iff_unreferenced(handles, slot as nat);
}

/// Every live handle may be read through and given back: the arena admits it.
pub proof fn lemma_live_handle_admitted<T>(slots: Seq<SlotView<T>>, handles: Seq<OrcView>, i: int)
    requires
        conserved(slots, handles),
        0 <= i < handles.len(),
    ensures
        admits(slots, handles[i]),
{
    lemma_held_remove(handles, i, handles[i].slot);
    assert(held(handles, handles[i].slot) == slots[handles[i].slot as int].weight);
}

/// An allocation keeps conservation: the slot it claims was empty, so no live handle
/// points to it, and the handle it hands out owns the whole weight of that slot.
pub proof fn lemma_alloc_conserves<T>(
    slots: Seq<SlotView<T>>,
    handles: Seq<OrcView>,
    slot: int,
    value: T,
)
    requires
        conserved(slots, handles),
        is_first_empty(slots, slot),
    ensures
        allocated(slots, value) == after_alloc(slots, slot, value),
        unreferenced(handles, slot as nat),
        conserved(
            after_alloc(slots, slot, value),
            handles.push(OrcView { slot: slot as nat, exp: MAX_WEIGHT_EXP as nat }),
        ),
{
    crate::heap::lemma_first_empty_unique(slots, slot);
    lemma_empty_iff_unreferenced(slots, handles, slot);
    let handle = OrcView { slot: slot as nat, exp: MAX_WEIGHT_EXP as nat };
    let after = after_alloc(slots, slot, value);
    let ledger = handles.push(handle);
    lemma_shift_is_pow2(MAX_WEIGHT_EXP);
    vstd::arithmetic::power2::lemma2_to64_rest();
    assert forall|s: int| 0 <= s < after.len() implies held(ledger, s as nat) == (#[trigger] after[s]).weight by {
        lemma_held_push(handles, handle, s as nat);
        assert(held(handles, s as nat) == slots[s].weight);
    }
    assert forall|i: int| 0 <= i < ledger.len() implies (#[trigger] ledger[i]).slot < after.len()
        && ledger[i].exp <= MAX_WEIGHT_EXP by {
        if i < handles.len() {
            assert(ledger[i] == handles[i]);
        }
    }
}

/// A split keeps conservation without touching the arena: the two halves own together
/// what the handle owned before.
pub proof fn lemma_split_conserves<T>(slots: Seq<SlotView<T>>, handles: Seq<OrcView>, i: int)
    requires
        conserved(slots, handles),
        0 <= i < handles.len(),
        handles[i].exp > 0,
    ensures
        conserved(slots, handles.update(i, handles[i].halved()).push(handles[i].halved())),
{
    let half = handles[i].halved();
    let updated = handles.update(i, half);
    let ledger = updated.push(half);
    lemma_pow2_unfold(handles[i].exp);
    assert forall|s: int| 0 <= s < slots.len() implies held(ledger, s as nat) == (#[trigger] slots[s]).weight by {
        lemma_held_push(updated, half, s as nat);
        lemma_held_update(handles, i, half, s as nat);
        assert(held(handles, s as nat) == slots[s].weight);
    }
    assert forall|j: int| 0 <= j < ledger.len() implies (#[trigger] ledger[j]).slot < slots.len()
        && ledger[j].exp <= MAX_WEIGHT_EXP by {
        if j < handles.len() && j != i {
            assert(ledger[j] == handles[j]);
        } else {
            assert(handles[i].slot < slots.len());
        }
    }
}

/// Giving a handle back keeps conservation: its share leaves the slot's weight and the
/// handle leaves the ledger.
pub proof fn lemma_release_conserves<T>(slots: Seq<SlotView<T>>, handles: Seq<OrcView>, i: int)
    requires
        conserved(slots, handles),
        0 <= i < handles.len(),
    ensures
        admits(slots, handles[i]),
        conserved(after_release(slots, handles[i]), handles.remove(i)),
{
    lemma_live_handle_admitted(slots, handles, i);
    let after = after_release(slots, handles[i]);
    let ledger = handles.remove(i);
    assert forall|s: int| 0 <= s < after.len() implies held(ledger, s as nat) == (#[trigger] after[s]).weight by {
        lemma_held_remove(handles, i, s as nat);
        assert(held(handles, s as nat) == slots[s].weight);
    }
    assert forall|j: int| 0 <= j < ledger.len() implies (#[trigger] ledger[j]).slot < after.len()
        && ledger[j].exp <= MAX_WEIGHT_EXP by {
        if j < i {
            assert(ledger[j] == handles[j]);
        } else {
            assert(ledger[j] == handles[j + 1]);
        }
    }
}

/// A sweep keeps conservation, and it leaves every slot that a live handle points to
/// exactly as it was.
pub proof fn lemma_collect_conserves<T>(slots: Seq<SlotView<T>>, handles: Seq<OrcView>)
    requires
        conserved(slots, handles),
    ensures
        conserved(swept(slots), handles),
        forall|i: int| 0 <= i < handles.len() ==> swept(slots)[(#[trigger] handles[i]).slot as int] == slots[handles[i].slot as int],
{
    let after = swept(slots);
    assert forall|s: int| 0 <= s < after.len() implies held(handles, s as nat) == (#[trigger] after[s]).weight by {
        assert(held(handles, s as nat) == slots[s].weight);
    }
    assert forall|i: int| 0 <= i < handles.len() implies swept(slots)[(#[trigger] handles[i]).slot as int]
        == slots[handles[i].slot as int] by {
        lemma_live_handle_admitted(slots, handles, i);
        lemma_pow2_pos(handles[i].exp);
    }
}

/// A handle that is given back frees the value exactly when it is the last one that
/// points to its slot. Until then the value stays where it is, and no other slot is
/// touched either way.
pub proof fn lemma_release_frees_exactly_when_last<T>(
    slots: Seq<SlotView<T>>,
    handles: Seq<OrcView>,
    i: int,
)
    requires
        conserved(slots, handles),
        0 <= i < handles.len(),
    ensures
        ({
            let slot = handles[i].slot;
            let after = after_release(slots, handles[i]);
            &&& unreferenced(handles.remove(i), slot) ==> after[slot as int] == (SlotView::<T> {
                weight: 0,
                value: None,
            })
            &&& !unreferenced(handles.remove(i), slot) ==> after[slot as int].weight > 0
                && after[slot as int].value == slots[slot as int].value
            &&& forall|other: int|
                0 <= other < slots.len() && other != slot ==> #[trigger] after[other] == slots[other]
        }),
{
    lemma_release_conserves(slots, handles, i);
    lemma_empty_iff_unreferenced(
        after_release(slots, handles[i]),
        handles.remove(i),
        handles[i].slot as int,
    );
}

/// No premature free: while a handle is alive its slot keeps the value, whatever
/// happens to the other handles. Giving another handle back, allocating a new value
/// and sweeping the arena all leave the value of a live handle's slot unchanged.
pub proof fn lemma_no_premature_free<T>(
    slots: Seq<SlotView<T>>,
    handles: Seq<OrcView>,
    live: int,
    other: int,
    value: T,
)
    requires
        slots_wf(slots),
        conserved(slots, handles),
        0 <= live < handles.len(),
        0 <= other < handles.len(),
        live != other,
    ensures
        slots[handles[live].slot as int].value is Some,
        after_release(slots, handles[other])[handles[live].slot as int].value
            == slots[handles[live].slot as int].value,
        allocated(slots, value)[handles[live].slot as int] == slots[handles[live].slot as int],
        swept(slots)[handles[live].slot as int] == slots[handles[live].slot as int],
{
    let slot = handles[live].slot;
    lemma_live_handle_admitted(slots, handles, live);
    lemma_pow2_pos(handles[live].exp);
    lemma_release_frees_exactly_when_last(slots, handles, other);
    if handles[other].slot == slot {
        let rest = handles.remove(other);
        let moved = if live < other {
            live
        } else {
            live - 1
        };
        assert(rest[moved] == handles[live]);
    }
    if !is_full(slots) {
        crate::heap::lemma_first_empty_exists(slots);
    }
}

/// The handles that `splits` successive splits make of one handle, each split applied
/// to the handle that the split before it produced.
pub open spec fn split_chain(start: OrcView, splits: nat) -> Seq<OrcView>
    decreases splits,
{
    if splits == 0 {
        seq![start]
    } else {
        let before = split_chain(start, (splits - 1) as nat);
        before.drop_last().push(before.last().halved()).push(before.last().halved())
    }
}

/// Split arithmetic: as long as the exponent allows a split, the shares of all the
/// handles of a chain of splits add up to the share of the handle it began with; for
/// the handle of a fresh allocation that is the total weight.
pub proof fn lemma_split_chain_sum(start: OrcView, splits: nat)
    requires
        splits <= start.exp,
    ensures
        split_chain(start, splits).len() == splits + 1,
        split_chain(start, splits).last() == (OrcView {
            slot: start.slot,
            exp: (start.exp - splits) as nat,
        }),
        forall|i: int|
            0 <= i < split_chain(start, splits).len() ==> (#[trigger] split_chain(start, splits)[i]).slot
                == start.slot && split_chain(start, splits)[i].exp <= start.exp,
        held(split_chain(start, splits), start.slot) == start.weight(),
        start.exp == MAX_WEIGHT_EXP ==> held(split_chain(start, splits), start.slot) == MAX_WEIGHT,
    decreases splits,
{
    lemma_shift_is_pow2(MAX_WEIGHT_EXP);
    vstd::arithmetic::power2::lemma2_to64_rest();
    if splits == 0 {
        assert(seq![start] =~= Seq::<OrcView>::empty().push(start));
        lemma_held_push(Seq::<OrcView>::empty(), start, start.slot);
    } else {
        let before = split_chain(start, (splits - 1) as nat);
        lemma_split_chain_sum(start, (splits - 1) as nat);
        let half = before.last().halved();
        let shortened = before.drop_last();
        let chain = split_chain(start, splits);
        assert(chain == shortened.push(half).push(half));
        lemma_pow2_unfold(before.last().exp);
        assert(before =~= shortened.push(before.last()));
        lemma_held_push(shortened, before.last(), start.slot);
        lemma_held_push(shortened.push(half), half, start.slot);
        lemma_held_push(shortened, half, start.slot);
        assert forall|i: int| 0 <= i < chain.len() implies (#[trigger] chain[i]).slot == start.slot
            && chain[i].exp <= start.exp by {
            if i < shortened.len() {
                assert(chain[i] == before[i]);
            }
        }
    }
}

/// The arena after the handles of `handles` have been given back one after another,
/// the first one first.
pub open spec fn released_all<T>(slots: Seq<SlotView<T>>, handles: Seq<OrcView>) -> Seq<SlotView<T>>
    decreases handles.len(),
{
    if handles.len() == 0 {
        slots
    } else {
        after_release(released_all(slots, handles.drop_last()), handles.last())
    }
}

/// Giving back the first `count` handles of the ledger keeps conservation for the
/// handles that remain. So a slot's weight is zero exactly when no handle that
/// remains points to it: the counter reaches zero with the last handle and not before.
pub proof fn lemma_release_all<T>(slots: Seq<SlotView<T>>, handles: Seq<OrcView>, count: int)
    requires
        conserved(slots, handles),
        0 <= count <= handles.len(),
    ensures
        released_all(slots, handles.take(count)).len() == slots.len(),
        conserved(released_all(slots, handles.take(count)), handles.skip(count)),
        forall|slot: int|
            0 <= slot < slots.len() ==> ((#[trigger] released_all(slots, handles.take(count))[slot]).weight
                == 0 <==> unreferenced(handles.skip(count), slot as nat)),
    decreases count,
{
    let after = released_all(slots, handles.take(count));
    if count == 0 {
        assert(handles.take(0) =~= Seq::<OrcView>::empty());
        assert(handles.skip(0) =~= handles);
    } else {
        lemma_release_all(slots, handles, count - 1);
        let before = released_all(slots, handles.take(count - 1));
        let remaining = handles.skip(count - 1);
        assert(handles.take(count).drop_last() =~= handles.take(count - 1));
        assert(handles.take(count).last() == handles[count - 1]);
        assert(remaining[0] == handles[count - 1]);
        lemma_release_conserves(before, remaining, 0);
        assert(remaining.remove(0) =~= handles.skip(count));
    }
    assert forall|slot: int| 0 <= slot < slots.len() implies ((#[trigger] after[slot]).weight == 0
        <==> unreferenced(handles.skip(count), slot as nat)) by {
        lemma_empty_iff_unreferenced(after, handles.skip(count), slot);
    }
}

/// The order of the ledger does not matter: two ledgers that hold the same handles
/// own the same weight of every slot.
pub proof fn lemma_held_any_order(first: Seq<OrcView>, second: Seq<OrcView>, slot: nat)
    requires
        first.to_multiset() == second.to_multiset(),
    ensures
        held(first, slot) == held(second, slot),
    decreases second.len(),
{
    vstd::seq_lib::to_multiset_len(first);
    vstd::seq_lib::to_multiset_len(second);
    if second.len() > 0 {
        broadcast use vstd::seq_lib::to_multiset_contains, vstd::seq_lib::to_multiset_remove;

        let handle = second.last();
        assert(second.contains(handle));
        assert(second.to_multiset().count(handle) > 0);
        assert(first.to_multiset().count(handle) > 0);
        assert(first.contains(handle));
        let i = choose|i: int| 0 <= i < first.len() && first[i] == handle;
        assert(second.remove(second.len() - 1) =~= second.drop_last());
        assert(second.drop_last().to_multiset() == second.to_multiset().remove(handle));
        assert(first.remove(i).to_multiset() == first.to_multiset().remove(handle));
        lemma_held_any_order(first.remove(i), second.drop_last(), slot);
        lemma_held_remove(first, i, slot);
    }
}

/// Conservation does not depend on the order of the ledger. Together with
/// `lemma_release_all` this says that the handles may be given back in any order.
pub proof fn lemma_conserved_any_order<T>(
    slots: Seq<SlotView<T>>,
    first: Seq<OrcView>,
    second: Seq<OrcView>,
)
    requires
        conserved(slots, first),
        first.to_multiset() == second.to_multiset(),
    ensures
        conserved(slots, second),
{
    assert forall|slot: int| 0 <= slot < slots.len() implies held(second, slot as nat) == (#[trigger] slots[slot]).weight by {
        lemma_held_any_order(first, second, slot as nat);
        assert(held(first, slot as nat) == slots[slot].weight);
    }
    assert forall|j: int| 0 <= j < second.len() implies (#[trigger] second[j]).slot < slots.len()
        && second[j].exp <= MAX_WEIGHT_EXP by {
        broadcast use vstd::seq_lib::to_multiset_contains;

        assert(second.contains(second[j]));
        assert(second.to_multiset().count(second[j]) > 0);
        assert(first.to_multiset().count(second[j]) > 0);
        assert(first.contains(second[j]));
        let i = choose|i: int| 0 <= i < first.len() && first[i] == second[j];
        assert(first[i].slot < slots.len());
    }
}

/// An arena of `capacity` slots, all of them empty.
pub open spec fn empty_arena<T>(capacity: nat) -> Seq<SlotView<T>> {
    Seq::new(capacity, |i: int| SlotView { weight: 0, value: None })
}

/// The arena after the values of `values` have been allocated one after another, the
/// first one first, with no handle given back in between.
pub open spec fn filled<T>(slots: Seq<SlotView<T>>, values: Seq<T>) -> Seq<SlotView<T>>
    decreases values.len(),
{
    if values.len() == 0 {
        slots
    } else {
        allocated(filled(slots, values.drop_last()), values.last())
    }
}

/// Capacity exhaustion: in a new arena the allocations succeed one slot after another
/// until as many values as there are slots have been stored, and then the arena is
/// full, so the next allocation is refused.
pub proof fn lemma_capacity_exhaustion<T>(capacity: nat, values: Seq<T>)
    requires
        values.len() <= capacity,
    ensures
        filled(empty_arena::<T>(capacity), values).len() == capacity,
        forall|i: int|
            0 <= i < values.len() ==> #[trigger] filled(empty_arena::<T>(capacity), values)[i] == (
            SlotView { weight: MAX_WEIGHT as nat, value: Some(values[i]) }),
        forall|i: int|
            values.len() <= i < capacity ==> #[trigger] filled(empty_arena::<T>(capacity), values)[i]
                == (SlotView::<T> { weight: 0, value: None }),
        values.len() < capacity ==> is_first_empty(
            filled(empty_arena::<T>(capacity), values),
            values.len() as int,
        ),
        values.len() == capacity ==> is_full(filled(empty_arena::<T>(capacity), values)),
    decreases values.len(),
{
    let after = filled(empty_arena::<T>(capacity), values);
    if values.len() > 0 {
        let earlier = values.drop_last();
        let before = filled(empty_arena::<T>(capacity), earlier);
        lemma_capacity_exhaustion(capacity, earlier);
        crate::heap::lemma_first_empty_unique(before, earlier.len() as int);
        assert forall|i: int| 0 <= i < values.len() implies #[trigger] after[i] == (SlotView {
            weight: MAX_WEIGHT as nat,
            value: Some(values[i]),
        }) by {
            if i < earlier.len() {
                assert(earlier[i] == values[i]);
            }
        }
    }
    if values.len() < capacity {
        assert forall|j: int| 0 <= j < values.len() implies (#[trigger] after[j]).weight != 0 by {}
    } else {
        assert forall|j: int| 0 <= j < after.len() implies (#[trigger] after[j]).weight != 0 by {}
    }
}

} // verus!
