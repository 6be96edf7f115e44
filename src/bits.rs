//! The visibility bitmap of a board, held in a `bitvec::vec::BitVec`.
//!
//! Verus cannot declare `BitVec` itself (its parameters are bound by traits
//! of `bitvec`), so the bit-vector sits in the private field of an opaque
//! struct, and `bits_of` names what it holds.

use bitvec::vec::BitVec;
use vstd::prelude::*;

verus! {

/// A fixed-length sequence of bits.
#[verifier::external_body]
#[derive(Debug)]
pub struct Bits {
    inner: BitVec,
}

/// The bits that a bitmap holds, first to last.
pub uninterp spec fn bits_of(b: Bits) -> Seq<bool>;

/// The largest length of a bitmap: `BitSlice::MAX_BITS` for `usize` storage
/// is `usize::MAX >> 3`, which is this value where `usize` has 32 bits and
/// more where it is wider.
pub const MAX_BITS: usize = 0x1FFF_FFFF;

/// Relies on `BitVec::repeat`: `len` copies of `bit`. It panics above
/// `BitSlice::MAX_BITS`, which `MAX_BITS` never exceeds.
#[verifier::external_body]
pub(crate) fn bits_repeat(bit: bool, len: usize) -> (r: Bits)
    requires
        len <= MAX_BITS,
    ensures
        bits_of(r) == Seq::new(len as nat, |i: int| bit),
{
    Bits { inner: BitVec::repeat(bit, len) }
}

/// Relies on indexing a `BitSlice` by position: the bit at `index`. It
/// panics at or past the end.
#[verifier::external_body]
pub(crate) fn bits_get(b: &Bits, index: usize) -> (r: bool)
    requires
        index < bits_of(*b).len(),
    ensures
        r == bits_of(*b)[index as int],
{
    b.inner[index]
}

/// Relies on `BitSlice::set`: writes `value` at `index` and leaves the other
/// bits as they were. It panics at or past the end.
#[verifier::external_body]
pub(crate) fn bits_set(b: &mut Bits, index: usize, value: bool)
    requires
        index < bits_of(*old(b)).len(),
    ensures
        bits_of(*final(b)) == bits_of(*old(b)).update(index as int, value),
{
    b.inner.set(index, value);
}

} // verus!
