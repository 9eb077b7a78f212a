//! Scoped wrapper for a dynamically allocated CSpace slot.
//!
//! A `CSpaceSlot` owns exactly one slot of a `KataSlotAllocator` from the
//! moment it is created until it is either disposed of (which frees the
//! slot) or released (which transfers ownership of the slot number to the
//! caller, e.g. because it is being embedded in a message to another
//! component).  `dispose` consumes the handle, so a slot can never be
//! freed twice through it.

use vstd::prelude::*;

use crate::slot_allocator::{
    count_ones, exists_fit, fits_at, is_first_fit, lemma_not_full_has_clear_bit, range_set,
    seq_set_range, KataSlotAllocator,
};

verus! {

/// Sentinel slot number meaning "no slot owned".
pub const RELEASED_SLOT: usize = usize::MAX;

pub struct CSpaceSlot {
    pub slot: usize,
}

impl CSpaceSlot {
    /// Ownership has been transferred out; scope exit frees nothing.
    pub open spec fn is_released(&self) -> bool {
        self.slot == RELEASED_SLOT
    }

    /// The handle owns one allocated slot of `allocator`.
    pub open spec fn owns(&self, allocator: &KataSlotAllocator) -> bool {
        &&& !self.is_released()
        &&& allocator.spec_base() <= self.slot
        &&& self.slot - allocator.spec_base() < allocator@.len()
        &&& allocator@[self.slot - allocator.spec_base()]
    }

    /// Allocates exactly one slot.  The allocator must not be exhausted:
    /// by policy, slot exhaustion at this call site is unrecoverable.
    pub fn new(allocator: &mut KataSlotAllocator) -> (r: Self)
        requires
            old(allocator).wf(),
            old(allocator).is_initialized(),
            count_ones(old(allocator)@) < old(allocator)@.len(),
        ensures
            final(allocator).wf(),
            final(allocator).is_initialized(),
            final(allocator).spec_base() == old(allocator).spec_base(),
            is_first_fit(old(allocator)@, 1, r.slot - old(allocator).spec_base()),
            final(allocator)@ =~= seq_set_range(
                old(allocator)@,
                r.slot - old(allocator).spec_base(),
                r.slot - old(allocator).spec_base() + 1,
                true,
            ),
            final(allocator).spec_used() == old(allocator).spec_used() + 1,
            r.owns(final(allocator)),
    {
        proof {
            lemma_not_full_has_clear_bit(allocator@);
            let i = choose|i: int| 0 <= i < allocator@.len() && !allocator@[i];
            assert(fits_at(allocator@, 1, i));
            assert(exists_fit(allocator@, 1));
        }
        let slot = allocator.allocate(1).unwrap();
        CSpaceSlot { slot }
    }

    /// Release ownership of the slot; this inhibits the cleanup that
    /// `dispose` would otherwise do.
    pub fn release(&mut self)
        ensures
            final(self).is_released(),
    {
        self.slot = RELEASED_SLOT;
    }

    /// Ends the handle's scope: frees the owned slot back to `allocator`,
    /// or does nothing when ownership was released.  Consumes the handle,
    /// so at most one free can ever happen per allocation.
    pub fn dispose(self, allocator: &mut KataSlotAllocator)
        requires
            old(allocator).wf(),
            old(allocator).is_initialized(),
            !self.is_released() ==> self.owns(old(allocator)),
        ensures
            final(allocator).wf(),
            final(allocator).is_initialized(),
            final(allocator).spec_base() == old(allocator).spec_base(),
            self.is_released() ==> *final(allocator) == *old(allocator),
            !self.is_released() ==> final(allocator)@ =~= seq_set_range(
                old(allocator)@,
                self.slot - old(allocator).spec_base(),
                self.slot - old(allocator).spec_base() + 1,
                false,
            ),
            !self.is_released() ==> final(allocator).spec_used() == old(allocator).spec_used()
                - 1,
    {
        if self.slot != RELEASED_SLOT {
            proof {
                assert(range_set(
                    allocator@,
                    self.slot - allocator.spec_base(),
                    self.slot - allocator.spec_base() + 1,
                ));
            }
            allocator.free(self.slot, 1);
        }
    }
}

} // verus!
