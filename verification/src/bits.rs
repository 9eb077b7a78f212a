//! Trusted boundary around the `bitvec` crate.
//!
//! The slot bitmap stores its occupancy table in a `bitvec::boxed::BitBox`.
//! Verus cannot take that type's declaration (its generic bounds are outside
//! traits), so the box lives in the private field of `BitMap`, a struct whose
//! body Verus does not read.  Everything the allocator logic needs is
//! expressed through `bit_seq`, the sequence of booleans a bit map holds,
//! and the small wrappers below.

use vstd::prelude::*;

use bitvec::boxed::BitBox;
use bitvec::order::Lsb0;
use bitvec::vec::BitVec;

verus! {

/// A fixed-size array of bits, backed by `bitvec`.
#[verifier::external_body]
pub struct BitMap {
    bits: BitBox<u8, Lsb0>,
}

/// The bits held by a bit map, index 0 first.
pub uninterp spec fn bit_seq(bits: &BitMap) -> Seq<bool>;

impl BitMap {
    /// Relies on bitvec's `BitVec::repeat`, which builds `len` copies of
    /// `bit`, and `into_boxed_bitslice`, which freezes the length.
    #[verifier::external_body]
    pub fn repeat(bit: bool, len: usize) -> (r: BitMap)
        ensures
            bit_seq(&r) == Seq::new(len as nat, |i: int| bit),
    {
        BitMap { bits: BitVec::repeat(bit, len).into_boxed_bitslice() }
    }

    /// Relies on bitvec's `BitSlice::len`: the number of bits stored.
    #[verifier::external_body]
    pub fn len(&self) -> (r: usize)
        ensures
            r == bit_seq(self).len(),
    {
        self.bits.len()
    }

    /// Relies on bitvec's `Index<usize> for BitSlice`: the bit at `index`.
    #[verifier::external_body]
    pub fn get(&self, index: usize) -> (r: bool)
        requires
            index < bit_seq(self).len(),
        ensures
            r == bit_seq(self)[index as int],
    {
        self.bits[index]
    }

    /// Relies on bitvec's `BitSlice::set`: writes `value` at `index` and
    /// leaves every other bit as it was.
    #[verifier::external_body]
    pub fn set(&mut self, index: usize, value: bool)
        requires
            index < bit_seq(old(self)).len(),
        ensures
            bit_seq(final(self)) == bit_seq(old(self)).update(index as int, value),
    {
        self.bits.set(index, value)
    }
}

} // verus!
