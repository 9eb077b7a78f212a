//! Tests for the scoped CSpace-slot handle.

use kata_core::cspace_slot::CSpaceSlot;
use kata_core::slot_allocator::KataSlotAllocator;

#[test]
fn test_handle_allocates_one_slot() {
    let mut allocator = KataSlotAllocator::new(10, 8);
    let handle = CSpaceSlot::new(&mut allocator);
    assert_eq!(handle.slot, 10);
    assert_eq!(allocator.used_slots(), 1);
    handle.dispose(&mut allocator);
    assert_eq!(allocator.used_slots(), 0);
}

#[test]
fn test_handle_dispose_frees_exactly_its_slot() {
    let mut allocator = KataSlotAllocator::new(0, 8);
    let first = CSpaceSlot::new(&mut allocator);
    let second = CSpaceSlot::new(&mut allocator);
    assert_eq!(first.slot, 0);
    assert_eq!(second.slot, 1);
    assert_eq!(allocator.used_slots(), 2);
    first.dispose(&mut allocator);
    assert_eq!(allocator.used_slots(), 1);
    // First-fit hands the freed slot out again.
    let third = CSpaceSlot::new(&mut allocator);
    assert_eq!(third.slot, 0);
    third.dispose(&mut allocator);
    second.dispose(&mut allocator);
    assert_eq!(allocator.used_slots(), 0);
}

#[test]
fn test_handle_release_inhibits_free() {
    let mut allocator = KataSlotAllocator::new(0, 8);
    let mut handle = CSpaceSlot::new(&mut allocator);
    let slot = handle.slot;
    handle.release();
    handle.dispose(&mut allocator);
    // Ownership was transferred out, so the slot stays allocated.
    assert_eq!(allocator.used_slots(), 1);
    allocator.free(slot, 1);
    assert_eq!(allocator.used_slots(), 0);
}
