//! Handles: a slot address in packed form together with a share of the slot's weight.

use core::marker::PhantomData;
use vstd::prelude::*;
use vstd::arithmetic::power2::pow2;
use crate::error::OrcError;
use crate::pointer::{construct_pointer, deconstruct_pointer, packed_address, ADDRESS_LIMIT};
use crate::weight::{two_two_the, MAX_WEIGHT_EXP};

verus! {

/// What a handle stands for: the slot it points into and the exponent of its share,
/// which is `2^exp` units of the slot's weight.
pub struct OrcView {
    pub slot: nat,
    pub exp: nat,
}

impl OrcView {
    /// The units of weight that the handle owns.
    pub open spec fn weight(self) -> nat {
        pow2(self.exp)
    }

    /// The two handles that a split makes of this one have this view.
    pub open spec fn halved(self) -> OrcView
        recommends
            self.exp > 0,
    {
        OrcView { slot: self.slot, exp: (self.exp - 1) as nat }
    }
}

/// A pointer into an `OrcHeap`.
///
/// The address takes seven bytes and the exponent of the weight the eighth, so a handle
/// is as large as one machine word. A handle is neither `Copy` nor `Clone`: its share
/// of the weight is given back exactly once, by `OrcHeap::release`.
pub struct Orc<T> {
    pointer_data: [u8; 7],
    weight_exp: u8,
    value_type: PhantomData<T>,
}

impl<T> View for Orc<T> {
    type V = OrcView;

    closed spec fn view(&self) -> OrcView {
        OrcView { slot: packed_address(self.pointer_data@), exp: self.weight_exp as nat }
    }
}

impl<T> Orc<T> {
    /// A handle is well formed when its exponent does not exceed the largest one.
    pub open spec fn wf(&self) -> bool {
        self@.exp <= MAX_WEIGHT_EXP
    }

    /// Every handle points below the address limit.
    pub proof fn lemma_slot_below_limit(&self)
        ensures
            self@.slot < ADDRESS_LIMIT,
    {
    }

    /// The handle that an allocation into slot `slot` hands out: it owns the whole weight.
    pub(crate) fn whole(slot: u64) -> (handle: Orc<T>)
        requires
            slot < ADDRESS_LIMIT,
        ensures
            handle@ == (OrcView { slot: slot as nat, exp: MAX_WEIGHT_EXP as nat }),
            handle.wf(),
    {
        let (pointer_data, _) = deconstruct_pointer(slot);
        Orc { pointer_data, weight_exp: MAX_WEIGHT_EXP, value_type: PhantomData }
    }

    /// The address of the slot that the handle points into.
    pub fn slot(&self) -> (slot: u64)
        ensures
            slot == self@.slot,
    {
        construct_pointer(self.pointer_data, 0)
    }

    /// The exponent of the handle's share.
    pub fn weight_exp(&self) -> (exp: u8)
        ensures
            exp == self@.exp,
    {
        self.weight_exp
    }

    /// The handle's share of the slot's weight, `2^exp`.
    pub fn weight(&self) -> (weight: u64)
        requires
            self.wf(),
        ensures
            weight == self@.weight(),
    {
        two_two_the(self.weight_exp)
    }

    /// Splits the handle's share in half: the handle keeps one half and the new handle
    /// gets the other. The slot's counter is not touched. A handle that holds a single
    /// unit cannot be split and is left as it was.
    pub fn split(&mut self) -> (twin: Result<Orc<T>, OrcError>)
        ensures
            match twin {
                Ok(other) => {
                    &&& old(self)@.exp > 0
                    &&& final(self)@ == old(self)@.halved()
                    &&& other@ == old(self)@.halved()
                    &&& final(self)@.weight() + other@.weight() == old(self)@.weight()
                },
                Err(e) => {
                    &&& e == OrcError::CannotSplitFurther
                    &&& old(self)@.exp == 0
                    &&& final(self)@ == old(self)@
                },
            },
            old(self).wf() ==> final(self).wf(),
            old(self).wf() ==> (twin matches Ok(other) ==> other.wf()),
    {
        if self.weight_exp > 0 {
            proof {
                vstd::arithmetic::power2::lemma_pow2_unfold(self@.exp);
            }
            self.weight_exp = self.weight_exp - 1;
            Ok(
                Orc {
                    pointer_data: self.pointer_data,
                    weight_exp: self.weight_exp,
                    value_type: PhantomData,
                },
            )
        } else {
            Err(OrcError::CannotSplitFurther)
        }
    }
}

} // verus!
