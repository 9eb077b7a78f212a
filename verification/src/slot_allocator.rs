//! An allocator for an array of integer-numbered objects, typically used to
//! track capability slots in a CNode.
//!
//! `Slots` is a bitmap of occupied slots together with a used-count;
//! `KataSlotAllocator` adds a base offset so the externally visible slot
//! numbers need not start at zero.  Allocation is first-fit over contiguous
//! runs: the lowest-indexed run of clear bits that is large enough wins.

use vstd::prelude::*;

use crate::bits::{bit_seq, BitMap};

verus! {

/// Number of set bits in `s`.
pub open spec fn count_ones(s: Seq<bool>) -> nat
    decreases s.len(),
{
    if s.len() == 0 {
        0
    } else {
        count_ones(s.drop_last()) + (if s.last() { 1nat } else { 0nat })
    }
}

/// `s` with every index in `[start, end)` replaced by `value`.
pub open spec fn seq_set_range(s: Seq<bool>, start: int, end: int, value: bool) -> Seq<bool> {
    Seq::new(s.len(), |i: int| if start <= i < end { value } else { s[i] })
}

/// Every bit in `[start, end)` is clear.
pub open spec fn range_clear(s: Seq<bool>, start: int, end: int) -> bool {
    forall|i: int| start <= i < end ==> !s[i]
}

/// Every bit in `[start, end)` is set.
pub open spec fn range_set(s: Seq<bool>, start: int, end: int) -> bool {
    forall|i: int| start <= i < end ==> s[i]
}

/// A run of `count` clear bits starts at `b`.
pub open spec fn fits_at(s: Seq<bool>, count: int, b: int) -> bool {
    &&& 0 <= b
    &&& b + count <= s.len()
    &&& range_clear(s, b, b + count)
}

/// Some run of `count` clear bits exists.
pub open spec fn exists_fit(s: Seq<bool>, count: int) -> bool {
    exists|b: int| fits_at(s, count, b)
}

/// `b` is the lowest-indexed run of `count` clear bits: first-fit.
pub open spec fn is_first_fit(s: Seq<bool>, count: int, b: int) -> bool {
    &&& fits_at(s, count, b)
    &&& forall|b2: int| 0 <= b2 < b ==> !fits_at(s, count, b2)
}

pub proof fn lemma_count_ones_le_len(s: Seq<bool>)
    ensures
        count_ones(s) <= s.len(),
    decreases s.len(),
{
    if s.len() > 0 {
        lemma_count_ones_le_len(s.drop_last());
    }
}

pub proof fn lemma_count_ones_all_clear(s: Seq<bool>)
    requires
        range_clear(s, 0, s.len() as int),
    ensures
        count_ones(s) == 0,
    decreases s.len(),
{
    if s.len() > 0 {
        assert(range_clear(s.drop_last(), 0, s.drop_last().len() as int));
        lemma_count_ones_all_clear(s.drop_last());
    }
}

pub proof fn lemma_count_ones_append(a: Seq<bool>, b: Seq<bool>)
    ensures
        count_ones(a + b) == count_ones(a) + count_ones(b),
    decreases b.len(),
{
    if b.len() == 0 {
        assert(a + b =~= a);
    } else {
        assert((a + b).drop_last() =~= a + b.drop_last());
        lemma_count_ones_append(a, b.drop_last());
    }
}

pub proof fn lemma_count_ones_all_set(s: Seq<bool>)
    requires
        range_set(s, 0, s.len() as int),
    ensures
        count_ones(s) == s.len(),
    decreases s.len(),
{
    if s.len() > 0 {
        assert(range_set(s.drop_last(), 0, s.drop_last().len() as int));
        lemma_count_ones_all_set(s.drop_last());
    }
}

/// How writing a whole range moves the count of set bits.
pub proof fn lemma_count_ones_seq_set_range(s: Seq<bool>, start: int, end: int, value: bool)
    requires
        0 <= start <= end <= s.len(),
    ensures
        count_ones(seq_set_range(s, start, end, value)) == count_ones(s) - count_ones(
            s.subrange(start, end),
        ) + (if value {
            end - start
        } else {
            0int
        }),
        count_ones(s.subrange(start, end)) <= end - start,
        range_set(s, start, end) ==> count_ones(s.subrange(start, end)) == end - start,
        range_clear(s, start, end) ==> count_ones(s.subrange(start, end)) == 0,
{
    let a = s.subrange(0, start);
    let b = s.subrange(start, end);
    let c = s.subrange(end, s.len() as int);
    let m = Seq::new((end - start) as nat, |i: int| value);
    let t = seq_set_range(s, start, end, value);
    assert(s =~= a + b + c);
    assert(t =~= a + m + c);
    lemma_count_ones_append(a + b, c);
    lemma_count_ones_append(a, b);
    lemma_count_ones_append(a + m, c);
    lemma_count_ones_append(a, m);
    if value {
        assert(range_set(m, 0, m.len() as int));
        lemma_count_ones_all_set(m);
    } else {
        assert(range_clear(m, 0, m.len() as int));
        lemma_count_ones_all_clear(m);
    }
    lemma_count_ones_le_len(b);
    if range_set(s, start, end) {
        assert(range_set(b, 0, b.len() as int));
        lemma_count_ones_all_set(b);
    }
    if range_clear(s, start, end) {
        assert(range_clear(b, 0, b.len() as int));
        lemma_count_ones_all_clear(b);
    }
}

/// A clear run of length `count` leaves at least `count` slots out of the
/// used-count: `count_ones(s) + count <= s.len()`.
pub proof fn lemma_count_ones_clear_run(s: Seq<bool>, start: int, end: int)
    requires
        0 <= start <= end <= s.len(),
        range_clear(s, start, end),
    ensures
        count_ones(s) + (end - start) <= s.len(),
{
    let a = s.subrange(0, start);
    let b = s.subrange(start, end);
    let c = s.subrange(end, s.len() as int);
    assert(s =~= a + b + c);
    lemma_count_ones_append(a + b, c);
    lemma_count_ones_append(a, b);
    assert(range_clear(b, 0, b.len() as int));
    lemma_count_ones_all_clear(b);
    lemma_count_ones_le_len(a);
    lemma_count_ones_le_len(c);
}

/// If not every bit is set, some bit is clear.
pub proof fn lemma_not_full_has_clear_bit(s: Seq<bool>)
    requires
        count_ones(s) < s.len(),
    ensures
        exists|i: int| 0 <= i < s.len() && !s[i],
    decreases s.len(),
{
    if s.len() > 0 {
        if s.last() {
            lemma_not_full_has_clear_bit(s.drop_last());
            let i = choose|i: int| 0 <= i < s.drop_last().len() && !s.drop_last()[i];
            assert(!s[i]);
        } else {
            assert(!s[s.len() - 1]);
        }
    }
}

/// A bit-per-slot occupancy table plus a used-count.
///
/// Created empty (no storage) for static contexts; `init` allocates the bit
/// storage exactly once.  All mutation goes through `alloc_first_fit` and
/// `free`.
pub struct Slots {
    bits: Option<BitMap>,
    used: usize,
}

impl Slots {
    /// The occupancy bits; the empty sequence while uninitialized.
    pub closed spec fn view(&self) -> Seq<bool> {
        match self.bits {
            Some(b) => bit_seq(&b),
            None => Seq::empty(),
        }
    }

    /// Bit storage has been allocated.
    pub closed spec fn is_initialized(&self) -> bool {
        self.bits is Some
    }

    /// The used-count agrees with the bitmap, whose size fits the machine.
    pub closed spec fn wf(&self) -> bool {
        &&& self.used == count_ones(self@)
        &&& self@.len() <= usize::MAX
    }

    /// The used-count, as the callers see it.
    pub closed spec fn spec_used(&self) -> usize {
        self.used
    }

    pub fn new(size: usize) -> (r: Self)
        ensures
            r.wf(),
            r.is_initialized(),
            r@ =~= Seq::new(size as nat, |i: int| false),
            r.spec_used() == 0,
    {
        let bits = BitMap::repeat(false, size);
        proof {
            lemma_count_ones_all_clear(bit_seq(&bits));
        }
        Slots { bits: Some(bits), used: 0 }
    }

    /// An uninitialized table, usable in static contexts; `init` must be
    /// called before any other method.
    pub fn empty() -> (r: Self)
        ensures
            r.wf(),
            !r.is_initialized(),
            r.spec_used() == 0,
    {
        Slots { bits: None, used: 0 }
    }

    /// One-time setup of the bit storage.
    pub fn init(&mut self, size: usize)
        requires
            old(self).wf(),
            !old(self).is_initialized(),
        ensures
            final(self).wf(),
            final(self).is_initialized(),
            final(self)@ =~= Seq::new(size as nat, |i: int| false),
            final(self).spec_used() == 0,
    {
        let bits = BitMap::repeat(false, size);
        proof {
            lemma_count_ones_all_clear(bit_seq(&bits));
        }
        self.bits = Some(bits);
    }

    pub fn used_slots(&self) -> (r: usize)
        requires
            self.wf(),
        ensures
            r == count_ones(self@),
    {
        self.used
    }

    pub fn free_slots(&self) -> (r: usize)
        requires
            self.wf(),
            self.is_initialized(),
        ensures
            r == self@.len() - count_ones(self@),
    {
        let bits = self.bits.as_ref().unwrap();
        proof {
            lemma_count_ones_le_len(self@);
        }
        bits.len() - self.used
    }

    /// True when every bit in `[start, start + count)` is clear.
    fn run_clear_at(&self, start: usize, count: usize) -> (r: bool)
        requires
            self.wf(),
            self.is_initialized(),
            start + count <= self@.len(),
        ensures
            r == range_clear(self@, start as int, start + count),
    {
        let bits = self.bits.as_ref().unwrap();
        let end = start + count;
        let mut i = start;
        while i < end
            invariant
                start <= i <= end,
                end == start + count,
                end <= bit_seq(bits).len(),
                bit_seq(bits) == self@,
                range_clear(self@, start as int, i as int),
            decreases end - i,
        {
            if bits.get(i) {
                proof {
                    assert(self@[i as int]);
                }
                return false;
            }
            i += 1;
        }
        true
    }

    /// Writes `value` over `[start, end)` and adjusts the used-count.
    /// Setting requires the run to be wholly clear; clearing requires it
    /// to be wholly set (a violation is a caller bug, not a runtime error).
    fn set_range(&mut self, start: usize, end: usize, value: bool)
        requires
            old(self).wf(),
            old(self).is_initialized(),
            start <= end,
            end <= old(self)@.len(),
            value ==> range_clear(old(self)@, start as int, end as int),
            !value ==> range_set(old(self)@, start as int, end as int),
        ensures
            final(self).wf(),
            final(self).is_initialized(),
            final(self)@ =~= seq_set_range(old(self)@, start as int, end as int, value),
            final(self).spec_used() == old(self).spec_used() + (if value {
                end - start
            } else {
                -(end - start)
            }),
    {
        let count = end - start;
        proof {
            lemma_count_ones_seq_set_range(old(self)@, start as int, end as int, value);
            if value {
                lemma_count_ones_clear_run(old(self)@, start as int, end as int);
            }
        }
        let bits = self.bits.take().unwrap();
        let bits = bitmap_set_range(bits, start, end, value);
        if value {
            self.used = self.used + count;
        } else {
            self.used = self.used - count;
        }
        self.bits = Some(bits);
    }

    /// First-fit allocation of `count` contiguous slots: scan bit positions
    /// in ascending order and take the lowest run of `count` clear bits.
    /// Returns the first slot of the run, or `None` when `count` is zero or
    /// no such run exists.
    pub fn alloc_first_fit(&mut self, count: usize) -> (r: Option<usize>)
        requires
            old(self).wf(),
            old(self).is_initialized(),
        ensures
            final(self).wf(),
            final(self).is_initialized(),
            match r {
                None => {
                    &&& *final(self) == *old(self)
                    &&& (count == 0 || !exists_fit(old(self)@, count as int))
                },
                Some(b) => {
                    &&& count >= 1
                    &&& is_first_fit(old(self)@, count as int, b as int)
                    &&& final(self)@ =~= seq_set_range(
                        old(self)@,
                        b as int,
                        b + count,
                        true,
                    )
                    &&& final(self).spec_used() == old(self).spec_used() + count
                },
            },
    {
        if count == 0 {
            return None;
        }
        if count > self.free_slots() {
            proof {
                if exists_fit(self@, count as int) {
                    let b = choose|b: int| fits_at(self@, count as int, b);
                    lemma_count_ones_clear_run(self@, b, b + count);
                }
            }
            return None;
        }
        let len = self.bits.as_ref().unwrap().len();
        let mut b: usize = 0;
        while b <= len - count
            invariant
                *self == *old(self),
                self.wf(),
                self.is_initialized(),
                1 <= count <= len,
                len == self@.len(),
                b <= len - count + 1,
                forall|b2: int| 0 <= b2 < b ==> !fits_at(self@, count as int, b2),
            decreases len - b,
        {
            if self.run_clear_at(b, count) {
                self.set_range(b, b + count, true);
                return Some(b);
            }
            b += 1;
        }
        proof {
            assert forall|b2: int| 0 <= b2 implies !fits_at(self@, count as int, b2) by {
                if b2 >= b {
                    assert(b2 + count > self@.len());
                }
            }
        }
        None
    }

    /// Returns a previously allocated run to the table.  Every bit of the
    /// run must currently be set; freeing anything else is a caller bug.
    pub fn free(&mut self, first_slot: usize, count: usize)
        requires
            old(self).wf(),
            old(self).is_initialized(),
            first_slot + count <= old(self)@.len(),
            range_set(old(self)@, first_slot as int, first_slot + count),
        ensures
            final(self).wf(),
            final(self).is_initialized(),
            final(self)@ =~= seq_set_range(old(self)@, first_slot as int, first_slot + count, false),
            final(self).spec_used() == old(self).spec_used() - count,
    {
        self.set_range(first_slot, first_slot + count, false);
    }
}

/// A slot allocator over a contiguous, possibly offset, range of slot
/// numbers: slot `base_slot + i` corresponds to bit `i` of the table.
pub struct KataSlotAllocator {
    slots: Slots,
    base_slot: usize,
}

impl KataSlotAllocator {
    /// The occupancy bits of the managed range.
    pub closed spec fn view(&self) -> Seq<bool> {
        self.slots@
    }

    /// The inner table's own well-formedness.
    pub closed spec fn slots_wf(&self) -> bool {
        self.slots.wf()
    }

    pub open spec fn wf(&self) -> bool {
        &&& self.slots_wf()
        &&& self.spec_base() + self@.len() <= usize::MAX
    }

    pub closed spec fn is_initialized(&self) -> bool {
        self.slots.is_initialized()
    }

    pub closed spec fn spec_base(&self) -> usize {
        self.base_slot
    }

    pub closed spec fn spec_used(&self) -> usize {
        self.slots.spec_used()
    }

    /// Initializes the slot state.
    pub fn new(first_slot: usize, size: usize) -> (r: Self)
        requires
            first_slot + size <= usize::MAX,
        ensures
            r.wf(),
            r.is_initialized(),
            r@ =~= Seq::new(size as nat, |i: int| false),
            r.spec_base() == first_slot,
            r.spec_used() == 0,
    {
        KataSlotAllocator { slots: Slots::new(size), base_slot: first_slot }
    }

    /// Create a new uninitialized slot allocator.  `init` must be called
    /// before using the allocator.
    pub fn empty() -> (r: Self)
        ensures
            r.wf(),
            !r.is_initialized(),
            r.spec_base() == 0,
            r.spec_used() == 0,
    {
        KataSlotAllocator { slots: Slots::empty(), base_slot: 0 }
    }

    /// One-time setup of the slot state.
    pub fn init(&mut self, first_slot: usize, size: usize)
        requires
            old(self).wf(),
            !old(self).is_initialized(),
            first_slot + size <= usize::MAX,
        ensures
            final(self).wf(),
            final(self).is_initialized(),
            final(self)@ =~= Seq::new(size as nat, |i: int| false),
            final(self).spec_base() == first_slot,
            final(self).spec_used() == 0,
    {
        self.base_slot = first_slot;
        self.slots.init(size);
    }

    /// Returns the base slot number.
    pub fn base_slot(&self) -> (r: usize)
        ensures
            r == self.spec_base(),
    {
        self.base_slot
    }

    /// Returns the number of slots in use.
    pub fn used_slots(&self) -> (r: usize)
        requires
            self.wf(),
        ensures
            r == count_ones(self@),
    {
        self.slots.used_slots()
    }

    /// Returns the number of slots available.
    pub fn free_slots(&self) -> (r: usize)
        requires
            self.wf(),
            self.is_initialized(),
        ensures
            r == self@.len() - count_ones(self@),
    {
        self.slots.free_slots()
    }

    /// First-fit allocation of `count` contiguous slots, reported in the
    /// external slot-number space: on success the result is `base_slot`
    /// plus the lowest run of `count` clear bits.
    pub fn allocate(&mut self, count: usize) -> (r: Option<usize>)
        requires
            old(self).wf(),
            old(self).is_initialized(),
        ensures
            final(self).wf(),
            final(self).is_initialized(),
            final(self).spec_base() == old(self).spec_base(),
            match r {
                None => {
                    &&& *final(self) == *old(self)
                    &&& (count == 0 || !exists_fit(old(self)@, count as int))
                },
                Some(slot) => {
                    &&& count >= 1
                    &&& slot >= old(self).spec_base()
                    &&& is_first_fit(old(self)@, count as int, slot - old(self).spec_base())
                    &&& final(self)@ =~= seq_set_range(
                        old(self)@,
                        slot - old(self).spec_base(),
                        slot - old(self).spec_base() + count,
                        true,
                    )
                    &&& final(self).spec_used() == old(self).spec_used() + count
                },
            },
    {
        match self.slots.alloc_first_fit(count) {
            Some(b) => Some(b + self.base_slot),
            None => None,
        }
    }

    /// Returns a previously allocated run, given in external slot numbers.
    /// The run must lie inside the managed range and be wholly allocated;
    /// anything else is a caller bug.
    pub fn free(&mut self, first_slot: usize, count: usize)
        requires
            old(self).wf(),
            old(self).is_initialized(),
            first_slot >= old(self).spec_base(),
            first_slot - old(self).spec_base() + count <= old(self)@.len(),
            range_set(
                old(self)@,
                first_slot - old(self).spec_base(),
                first_slot - old(self).spec_base() + count,
            ),
        ensures
            final(self).wf(),
            final(self).is_initialized(),
            final(self).spec_base() == old(self).spec_base(),
            final(self)@ =~= seq_set_range(
                old(self)@,
                first_slot - old(self).spec_base(),
                first_slot - old(self).spec_base() + count,
                false,
            ),
            final(self).spec_used() == old(self).spec_used() - count,
    {
        self.slots.free(first_slot - self.base_slot, count)
    }
}

/// Allocator round-trip: allocating a run and immediately freeing it
/// restores the bitmap exactly, so the used and free counts return to
/// their pre-call values and a subsequent first-fit allocation of the
/// same size returns the same slot again.
pub proof fn lemma_alloc_free_round_trip(s: Seq<bool>, count: int, b: int)
    requires
        1 <= count,
        is_first_fit(s, count, b),
    ensures
        seq_set_range(seq_set_range(s, b, b + count, true), b, b + count, false) =~= s,
        count_ones(seq_set_range(seq_set_range(s, b, b + count, true), b, b + count, false))
            == count_ones(s),
        is_first_fit(
            seq_set_range(seq_set_range(s, b, b + count, true), b, b + count, false),
            count,
            b,
        ),
{
    let restored = seq_set_range(seq_set_range(s, b, b + count, true), b, b + count, false);
    assert(restored =~= s);
}

/// Exhaustion: on a fresh table of `capacity` slots, a request for
/// `capacity + 1` slots has no fit, a request for exactly `capacity`
/// slots fits only at slot 0, and once the whole table is allocated no
/// further request of any positive size has a fit.
pub proof fn lemma_exhaustion(capacity: int, count: int)
    requires
        0 <= capacity,
        1 <= count,
    ensures
        !exists_fit(Seq::new(capacity as nat, |i: int| false), capacity + 1),
        capacity >= 1 ==> is_first_fit(Seq::new(capacity as nat, |i: int| false), capacity, 0),
        !exists_fit(seq_set_range(Seq::new(capacity as nat, |i: int| false), 0, capacity, true), count),
{
    let s = Seq::new(capacity as nat, |i: int| false);
    let full = seq_set_range(s, 0, capacity, true);
    if exists_fit(full, count) {
        let b2 = choose|b2: int| fits_at(full, count, b2);
        assert(!full[b2]);
    }
}

/// Writes `value` over `[start, end)` of an owned bit map.
fn bitmap_set_range(bits: BitMap, start: usize, end: usize, value: bool) -> (r: BitMap)
    requires
        start <= end,
        end <= bit_seq(&bits).len(),
    ensures
        bit_seq(&r) =~= seq_set_range(bit_seq(&bits), start as int, end as int, value),
{
    let ghost orig = bit_seq(&bits);
    let mut bits = bits;
    let mut i = start;
    while i < end
        invariant
            start <= i <= end,
            end <= orig.len(),
            bit_seq(&bits).len() == orig.len(),
            forall|j: int|
                0 <= j < orig.len() ==> bit_seq(&bits)[j] == (if start <= j < i {
                    value
                } else {
                    orig[j]
                }),
        decreases end - i,
    {
        bits.set(i, value);
        i += 1;
    }
    bits
}

} // verus!
