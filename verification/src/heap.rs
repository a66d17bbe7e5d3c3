//! The arena: a fixed sequence of slots, each empty or holding a value and its weight.

use vstd::prelude::*;
use crate::error::OrcError;
use crate::handle::{Orc, OrcView};
use crate::pointer::{deconstruct_pointer, ADDRESS_LIMIT};
use crate::weight::{two_two_the, MAX_WEIGHT, MAX_WEIGHT_EXP};

verus! {

/// What a slot holds: the weight that its handles still own, and the stored value.
/// A slot is empty when its weight is zero. Giving back the last handle clears the
/// value with the weight; the invariant itself asks nothing of what an empty slot
/// holds, and a sweep clears whatever is left there.
pub struct SlotView<T> {
    pub weight: nat,
    pub value: Option<T>,
}

/// The slot at `slot` is empty and no slot before it is.
pub open spec fn is_first_empty<T>(slots: Seq<SlotView<T>>, slot: int) -> bool {
    &&& 0 <= slot < slots.len()
    &&& slots[slot].weight == 0
    &&& forall|j: int| 0 <= j < slot ==> (#[trigger] slots[j]).weight != 0
}

/// No slot is empty.
pub open spec fn is_full<T>(slots: Seq<SlotView<T>>) -> bool {
    forall|j: int| 0 <= j < slots.len() ==> (#[trigger] slots[j]).weight != 0
}

/// The arena's invariant: there is at least one slot and every slot address can be
/// packed, no weight exceeds the total weight, and a slot with weight holds a value.
pub open spec fn slots_wf<T>(slots: Seq<SlotView<T>>) -> bool {
    &&& 0 < slots.len() <= ADDRESS_LIMIT
    &&& forall|i: int|
        0 <= i < slots.len() ==> {
            &&& (#[trigger] slots[i]).weight <= MAX_WEIGHT
            &&& slots[i].weight > 0 ==> slots[i].value is Some
        }
}

/// The handle points into the arena and its share is covered by the slot's weight.
pub open spec fn admits<T>(slots: Seq<SlotView<T>>, handle: OrcView) -> bool {
    &&& handle.slot < slots.len()
    &&& handle.exp <= MAX_WEIGHT_EXP
    &&& handle.weight() <= slots[handle.slot as int].weight
}

/// The arena after a value has been stored in slot `slot` with the whole weight.
pub open spec fn after_alloc<T>(slots: Seq<SlotView<T>>, slot: int, value: T) -> Seq<SlotView<T>> {
    slots.update(slot, SlotView { weight: MAX_WEIGHT as nat, value: Some(value) })
}

/// The empty slot that a scan from the start of the arena meets first.
pub open spec fn first_empty<T>(slots: Seq<SlotView<T>>) -> int
    recommends
        !is_full(slots),
{
    choose|slot: int| is_first_empty(slots, slot)
}

/// The arena after an allocation of `value`: the first empty slot takes it, and a full
/// arena stays as it is.
pub open spec fn allocated<T>(slots: Seq<SlotView<T>>, value: T) -> Seq<SlotView<T>> {
    if is_full(slots) {
        slots
    } else {
        after_alloc(slots, first_empty(slots), value)
    }
}

/// An arena that is not full has a first empty slot.
pub proof fn lemma_first_empty_exists<T>(slots: Seq<SlotView<T>>)
    requires
        !is_full(slots),
    ensures
        is_first_empty(slots, first_empty(slots)),
{
    let some_empty = choose|j: int| 0 <= j < slots.len() && (#[trigger] slots[j]).weight == 0;
    lemma_first_empty_before(slots, some_empty);
}

/// Before or at an empty slot stands the first empty one.
proof fn lemma_first_empty_before<T>(slots: Seq<SlotView<T>>, bound: int)
    requires
        0 <= bound < slots.len(),
        slots[bound].weight == 0,
    ensures
        exists|slot: int| is_first_empty(slots, slot),
    decreases bound,
{
    if exists|j: int| 0 <= j < bound && (#[trigger] slots[j]).weight == 0 {
        let earlier = choose|j: int| 0 <= j < bound && (#[trigger] slots[j]).weight == 0;
        lemma_first_empty_before(slots, earlier);
    } else {
        assert(is_first_empty(slots, bound));
    }
}

/// At most one slot is the first empty one.
pub proof fn lemma_first_empty_unique<T>(slots: Seq<SlotView<T>>, slot: int)
    requires
        is_first_empty(slots, slot),
    ensures
        !is_full(slots),
        first_empty(slots) == slot,
{
    let other = first_empty(slots);
    if other < slot {
        assert(slots[other].weight != 0);
    }
    if slot < other {
        assert(slots[slot].weight != 0);
    }
}

/// The arena after a handle has given its share back: the slot's weight goes down by
/// the share, and the value is freed when nothing is left.
pub open spec fn after_release<T>(slots: Seq<SlotView<T>>, handle: OrcView) -> Seq<SlotView<T>>
    recommends
        admits(slots, handle),
{
    let slot = slots[handle.slot as int];
    let left = (slot.weight - handle.weight()) as nat;
    slots.update(
        handle.slot as int,
        SlotView { weight: left, value: if left == 0 { None } else { slot.value } },
    )
}

/// The arena after a sweep: what an empty slot still held is gone, the rest is untouched.
pub open spec fn swept<T>(slots: Seq<SlotView<T>>) -> Seq<SlotView<T>> {
    Seq::new(
        slots.len(),
        |i: int|
            if slots[i].weight == 0 {
                SlotView { weight: 0, value: None }
            } else {
                slots[i]
            },
    )
}

struct OrcInner<T> {
    weight: u64,
    data: Option<T>,
}

/// The heap that holds all allocated values.
pub struct OrcHeap<T> {
    heap: Vec<OrcInner<T>>,
}

impl<T> View for OrcHeap<T> {
    type V = Seq<SlotView<T>>;

    closed spec fn view(&self) -> Seq<SlotView<T>> {
        Seq::new(
            self.heap@.len(),
            |i: int| SlotView { weight: self.heap@[i].weight as nat, value: self.heap@[i].data },
        )
    }
}

impl<T> OrcHeap<T> {
    /// The invariant that every operation of the heap keeps.
    pub open spec fn wf(&self) -> bool {
        slots_wf(self@)
    }

    /// Creates a heap of sixteen slots.
    pub fn new() -> (heap: OrcHeap<T>)
        ensures
            heap.wf(),
            heap@.len() == 16,
            forall|i: int| 0 <= i < 16 ==> #[trigger] heap@[i] == (SlotView::<T> { weight: 0, value: None }),
    {
        OrcHeap::with_capacity(16)
    }

    /// Creates a heap of `capacity` slots, all of them empty. The address of the last
    /// slot must leave the high byte of a word free.
    pub fn with_capacity(capacity: usize) -> (heap: OrcHeap<T>)
        requires
            0 < capacity <= ADDRESS_LIMIT,
        ensures
            heap.wf(),
            heap@.len() == capacity,
            forall|i: int|
                0 <= i < capacity ==> #[trigger] heap@[i] == (SlotView::<T> { weight: 0, value: None }),
    {
        let mut heap: Vec<OrcInner<T>> = Vec::with_capacity(capacity);
        let mut made: usize = 0;
        while made < capacity
            invariant
                made <= capacity,
                heap@.len() == made,
                forall|i: int| 0 <= i < made ==> (#[trigger] heap@[i]).weight == 0 && heap@[i].data is None,
            decreases capacity - made,
        {
            heap.push(OrcInner { weight: 0, data: None });
            made = made + 1;
        }
        let (_, weight) = deconstruct_pointer((capacity - 1) as u64);
        assert(weight == 0);
        OrcHeap { heap }
    }

    /// The number of slots.
    pub fn capacity(&self) -> (capacity: usize)
        ensures
            capacity == self@.len(),
    {
        self.heap.len()
    }

    /// The weight that the handles of slot `slot` still own; zero for an empty slot.
    pub fn weight_at(&self, slot: usize) -> (weight: u64)
        requires
            slot < self@.len(),
        ensures
            weight == self@[slot as int].weight,
    {
        self.heap[slot].weight
    }

    /// Tells whether the heap admits the handle: whether the handle points into the
    /// heap and the slot's weight covers its share.
    pub fn holds(&self, handle: &Orc<T>) -> (held: bool)
        ensures
            held == admits(self@, handle@),
    {
        let address: u64 = handle.slot();
        let exp: u8 = handle.weight_exp();
        if exp > MAX_WEIGHT_EXP || address >= self.heap.len() as u64 {
            return false;
        }
        let position: usize = address as usize;
        two_two_the(exp) <= self.heap[position].weight
    }

    /// Allocates a value in the heap: the first empty slot takes the value and the whole
    /// weight, and the handle that comes back owns all of it. When no slot is empty the
    /// heap stays as it is.
    pub fn allocate(&mut self, value: T) -> (handle: Result<Orc<T>, OrcError>)
        requires
            old(self).wf(),
        ensures
            final(self).wf(),
            final(self)@ == allocated(old(self)@, value),
            match handle {
                Ok(h) => {
                    &&& h.wf()
                    &&& is_first_empty(old(self)@, h@.slot as int)
                    &&& h@.exp == MAX_WEIGHT_EXP
                    &&& h@.weight() == MAX_WEIGHT
                    &&& admits(final(self)@, h@)
                },
                Err(e) => {
                    &&& e == OrcError::OutOfSlots
                    &&& is_full(old(self)@)
                },
            },
    {
        let mut position: usize = 0;
        while position < self.heap.len()
            invariant
                old(self).wf(),
                *self == *old(self),
                position <= self.heap@.len(),
                forall|j: int| 0 <= j < position ==> (#[trigger] self@[j]).weight != 0,
            decreases self.heap@.len() - position,
        {
            if self.heap[position].weight == 0 {
                self.heap[position].weight = MAX_WEIGHT;
                self.heap[position].data = Some(value);
                proof {
                    assert(old(self)@[position as int].weight == 0);
                    assert(self@ =~= after_alloc(old(self)@, position as int, value));
                    assert(is_first_empty(old(self)@, position as int));
                    lemma_first_empty_unique(old(self)@, position as int);
                    crate::weight::lemma_shift_is_pow2(MAX_WEIGHT_EXP);
                    vstd::arithmetic::power2::lemma2_to64_rest();
                }
                return Ok(Orc::whole(position as u64));
            }
            assert(self@[position as int].weight != 0);
            position = position + 1;
        }
        Err(OrcError::OutOfSlots)
    }

    /// Reads the value that the handle points to.
    pub fn get(&self, handle: &Orc<T>) -> (value: &T)
        requires
            self.wf(),
            admits(self@, handle@),
        ensures
            self@[handle@.slot as int].value == Some(*value),
    {
        proof {
            vstd::arithmetic::power2::lemma_pow2_pos(handle@.exp);
            assert(self.heap@.len() == self.heap.len());
            assert(self@[handle@.slot as int].value == self.heap@[handle@.slot as int].data);
        }
        let position: usize = handle.slot() as usize;
        self.heap[position].data.as_ref().unwrap()
    }

    /// Takes a handle back: its share leaves the slot's weight, and when the weight
    /// reaches zero the value is destroyed and the slot is empty again.
    pub fn release(&mut self, handle: Orc<T>)
        requires
            old(self).wf(),
            admits(old(self)@, handle@),
        ensures
            final(self).wf(),
            final(self)@ == after_release(old(self)@, handle@),
    {
        proof {
            assert(self.heap@.len() == self.heap.len());
            assert(self@[handle@.slot as int].weight == self.heap@[handle@.slot as int].weight);
        }
        let position: usize = handle.slot() as usize;
        let exp: u8 = handle.weight_exp();
        if exp == MAX_WEIGHT_EXP {
            proof {
                vstd::arithmetic::power2::lemma2_to64_rest();
            }
            self.heap[position].weight = 0;
            self.heap[position].data = None;
        } else {
            let share: u64 = two_two_the(exp);
            let left: u64 = self.heap[position].weight - share;
            self.heap[position].weight = left;
            if left == 0 {
                self.heap[position].data = None;
            }
        }
        assert(self@ =~= after_release(old(self)@, handle@));
    }

    /// Sweeps the heap: every empty slot lets go of what it still held.
    pub fn collect(&mut self)
        requires
            old(self).wf(),
        ensures
            final(self).wf(),
            final(self)@ == swept(old(self)@),
    {
        let mut position: usize = 0;
        while position < self.heap.len()
            invariant
                position <= self.heap@.len(),
                self@.len() == old(self)@.len(),
                forall|i: int| 0 <= i < position ==> #[trigger] self@[i] == swept(old(self)@)[i],
                forall|i: int| position <= i < self@.len() ==> #[trigger] self@[i] == old(self)@[i],
            decreases self.heap@.len() - position,
        {
            let ghost before = self@;
            assert(before[position as int] == old(self)@[position as int]);
            if self.heap[position].weight == 0 {
                self.heap[position].data = None;
            }
            proof {
                assert(self@[position as int] == swept(old(self)@)[position as int]);
                assert forall|i: int| 0 <= i < self@.len() && i != position implies #[trigger] self@[i]
                    == before[i] by {}
            }
            position = position + 1;
        }
        assert(self@ =~= swept(old(self)@));
    }
}

} // verus!
