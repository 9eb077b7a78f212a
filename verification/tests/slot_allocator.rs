//! Tests for the slot bitmap and the offset slot allocator.

use kata_core::slot_allocator::{KataSlotAllocator, Slots};

const NSLOTS: usize = 64;

#[test]
fn test_slots_new() {
    let slots = Slots::new(NSLOTS);
    assert_eq!(slots.used_slots(), 0);
    assert_eq!(slots.free_slots(), NSLOTS);
}

#[test]
fn test_slots_init() {
    let mut slots = Slots::empty();
    slots.init(NSLOTS);
    assert_eq!(slots.used_slots(), 0);
    assert_eq!(slots.free_slots(), NSLOTS);
}

#[test]
fn test_slots_one() {
    let mut slots = Slots::new(64);
    assert_eq!(slots.used_slots(), 0);
    assert_eq!(slots.free_slots(), NSLOTS);
    let first = slots.alloc_first_fit(1).unwrap();
    assert_eq!(slots.used_slots(), 1);
    assert_eq!(slots.free_slots(), NSLOTS - 1);
    slots.free(first, 1);
    assert_eq!(slots.used_slots(), 0);
    assert_eq!(slots.free_slots(), NSLOTS);
}

#[test]
fn test_slots_one_multi() {
    let mut slots = Slots::new(64);
    assert_eq!(slots.used_slots(), 0);
    assert_eq!(slots.free_slots(), NSLOTS);
    let first = slots.alloc_first_fit(1).unwrap();
    let second = slots.alloc_first_fit(1).unwrap();
    assert_eq!(slots.used_slots(), 2);
    assert_eq!(slots.free_slots(), NSLOTS - 2);
    slots.free(first, 1);
    assert_eq!(slots.used_slots(), 1);
    assert_eq!(slots.free_slots(), NSLOTS - 1);
    slots.free(second, 1);
    assert_eq!(slots.used_slots(), 0);
    assert_eq!(slots.free_slots(), NSLOTS);

    let again = slots.alloc_first_fit(1).unwrap();
    // first-fit so should get same thing
    assert_eq!(first, again);
}

#[test]
fn test_slots_range() {
    let mut slots = Slots::new(64);
    assert_eq!(slots.used_slots(), 0);
    assert_eq!(slots.free_slots(), NSLOTS);
    let first = slots.alloc_first_fit(3).unwrap();
    assert_eq!(slots.used_slots(), 3);
    assert_eq!(slots.free_slots(), NSLOTS - 3);
    slots.free(first, 3);
    assert_eq!(slots.used_slots(), 0);
    assert_eq!(slots.free_slots(), NSLOTS);

    let again = slots.alloc_first_fit(3).unwrap();
    assert_eq!(first, again);
}

#[test]
fn test_slots_range_multi() {
    let mut slots = Slots::new(64);
    assert_eq!(slots.used_slots(), 0);
    assert_eq!(slots.free_slots(), NSLOTS);
    let first = slots.alloc_first_fit(4).unwrap();
    let second = slots.alloc_first_fit(4).unwrap();
    assert_eq!(slots.used_slots(), 4 + 4);
    assert_eq!(slots.free_slots(), NSLOTS - (4 + 4));
    slots.free(first, 4);
    assert_eq!(slots.used_slots(), 4);
    assert_eq!(slots.free_slots(), NSLOTS - 4);
    slots.free(second, 4);
    assert_eq!(slots.used_slots(), 0);
    assert_eq!(slots.free_slots(), NSLOTS);

    let again = slots.alloc_first_fit(4).unwrap();
    assert_eq!(first, again);
}

#[test]
fn test_slots_range_split_free() {
    let mut slots = Slots::new(64);
    assert_eq!(slots.used_slots(), 0);
    assert_eq!(slots.free_slots(), NSLOTS);
    let first = slots.alloc_first_fit(4).unwrap();
    assert_eq!(slots.used_slots(), 4);
    assert_eq!(slots.free_slots(), NSLOTS - 4);
    slots.free(first, 2);
    assert_eq!(slots.used_slots(), 2);
    assert_eq!(slots.free_slots(), NSLOTS - 2);
    slots.free(first + 2, 2);
    assert_eq!(slots.used_slots(), 0);
    assert_eq!(slots.free_slots(), NSLOTS);
}

#[test]
fn test_slots_range_split_free_multi() {
    let mut slots = Slots::new(64);
    assert_eq!(slots.used_slots(), 0);
    assert_eq!(slots.free_slots(), NSLOTS);

    // Request 4 slots
    let first = slots.alloc_first_fit(4).unwrap();
    assert_eq!(slots.used_slots(), 4);
    assert_eq!(slots.free_slots(), NSLOTS - 4);
    // Free the first 2 slots to create a hole
    slots.free(first, 2);
    assert_eq!(slots.used_slots(), 2);
    assert_eq!(slots.free_slots(), NSLOTS - 2);

    // Request another 4 slots
    let second = slots.alloc_first_fit(4).unwrap();
    // The hole is 2-large so our request should go after
    assert_eq!(first + 4, second);
    slots.free(first + 2, 2);
    assert_eq!(slots.used_slots(), 4);
    assert_eq!(slots.free_slots(), NSLOTS - 4);
}

#[test]
fn test_slots_empty() {
    let mut slots = Slots::new(0);
    assert_eq!(slots.used_slots(), 0);
    assert_eq!(slots.free_slots(), 0);
    assert!(slots.alloc_first_fit(1).is_none());
    assert!(slots.alloc_first_fit(8).is_none());
}

#[test]
fn test_slots_too_small() {
    let mut slots = Slots::new(NSLOTS);
    assert_eq!(slots.used_slots(), 0);
    assert_eq!(slots.free_slots(), NSLOTS);
    assert!(slots.alloc_first_fit(NSLOTS + 1).is_none());
}

#[test]
fn test_slots_oospace() {
    let mut slots = Slots::new(4);
    // Allocate 3 of 4 slots
    let first = slots.alloc_first_fit(3).unwrap();
    assert_eq!(slots.free_slots(), 1);
    // Request 2 slots, not enough space
    assert!(slots.alloc_first_fit(2).is_none());

    // Free up [0,1] so free is [0, 1, 3]
    slots.free(first, 2);
    // Request 3 which does not fit.
    assert!(slots.alloc_first_fit(3).is_none());
}

#[test]
fn test_slots_zero_count() {
    let mut slots = Slots::new(NSLOTS);
    assert!(slots.alloc_first_fit(0).is_none());
    assert_eq!(slots.used_slots(), 0);
}

// Exhaustion: a request for one more slot than the capacity fails, the
// whole capacity can be had exactly once, and afterwards nothing fits.
#[test]
fn test_slots_exhaustion() {
    let mut slots = Slots::new(8);
    assert!(slots.alloc_first_fit(9).is_none());
    assert_eq!(slots.alloc_first_fit(8), Some(0));
    assert!(slots.alloc_first_fit(8).is_none());
    assert!(slots.alloc_first_fit(1).is_none());
    assert_eq!(slots.free_slots(), 0);
}

const SLOT_BASE: usize = 10;

#[test]
fn lib_test_slots_one() {
    let mut slots = KataSlotAllocator::new(SLOT_BASE, NSLOTS);
    let first = slots.allocate(1).unwrap();
    assert!(SLOT_BASE <= first && first < SLOT_BASE + NSLOTS);
    slots.free(first, 1);
}

#[test]
fn lib_test_slots_one_multi() {
    let mut slots = KataSlotAllocator::new(SLOT_BASE, NSLOTS);
    let first = slots.allocate(1).unwrap();
    assert!(SLOT_BASE <= first && first < SLOT_BASE + NSLOTS);
    let second = slots.allocate(1).unwrap();
    assert!(SLOT_BASE <= second && second < SLOT_BASE + NSLOTS);
    slots.free(first, 1);
    slots.free(second, 1);
}

#[test]
fn lib_test_slots_range() {
    let mut slots = KataSlotAllocator::new(SLOT_BASE, NSLOTS);
    let first = slots.allocate(3).unwrap();
    assert!(SLOT_BASE <= first && first < SLOT_BASE + NSLOTS);
    assert!(first + 1 < SLOT_BASE + NSLOTS);
    assert!(first + 2 < SLOT_BASE + NSLOTS);
    slots.free(first, 3);
}

#[test]
fn lib_test_slots_range_multi() {
    let mut slots = KataSlotAllocator::new(SLOT_BASE, NSLOTS);
    let first = slots.allocate(4).unwrap();
    let second = slots.allocate(4).unwrap();
    slots.free(first, 4);
    slots.free(second, 4);
}

#[test]
fn lib_test_slots_range_split_free() {
    let mut slots = KataSlotAllocator::new(SLOT_BASE, NSLOTS);
    let first = slots.allocate(4).unwrap();
    slots.free(first, 2);
    slots.free(first + 2, 2);
}

#[test]
fn lib_test_slots_range_split_free_multi() {
    let mut slots = KataSlotAllocator::new(SLOT_BASE, NSLOTS);
    // Request 4 slots
    let first = slots.allocate(4).unwrap();
    // Free the first 2 slots to create a hole
    slots.free(first, 2);

    // Request another 4 slots
    let second = slots.allocate(4).unwrap();
    // The hole is 2-large so our request should go after
    assert_eq!(first + 4, second);
    slots.free(first + 2, 2);
}

#[test]
fn lib_test_slots_oospace() {
    let mut slots = KataSlotAllocator::new(SLOT_BASE, NSLOTS);
    assert!(slots.allocate(NSLOTS + 1).is_none());
}

#[test]
fn lib_test_slots_base_offset() {
    let mut slots = KataSlotAllocator::empty();
    assert_eq!(slots.base_slot(), 0);
    slots.init(SLOT_BASE, NSLOTS);
    assert_eq!(slots.base_slot(), SLOT_BASE);
    assert_eq!(slots.used_slots(), 0);
    assert_eq!(slots.free_slots(), NSLOTS);
    // First-fit starts at the base of the managed range.
    assert_eq!(slots.allocate(1), Some(SLOT_BASE));
}
