//! Niching strategies: encoding absence as a reserved bit pattern of the
//! present type instead of a separate tag.
//!
//! Each strategy answers two questions about an archived slot: does this
//! pattern mean "absent", and which pattern is written for "absent". The
//! sentinel must be a pattern the present type can never legally hold;
//! a present value that happens to carry the sentinel (a legitimately NaN
//! float under the NaN strategy) is a precondition violation the design
//! does not detect at run time.

use vstd::prelude::*;
use vstd::bytes::{spec_u32_to_le_bytes, spec_u32_from_le_bytes, lemma_auto_spec_u32_to_from_le_bytes};
use crate::desc::{check_nan_bits, is_nan_bits, F32_NAN_BITS};

verus! {

/// Niching for non-zero integers: absence is the zero pattern.
pub struct Zero;

impl Zero {
    /// True when the archived word holds the absent sentinel.
    pub fn is_niched(w: u32) -> (r: bool)
        ensures
            r == (w == 0),
    {
        w == 0
    }

    /// The word written for an absent value.
    pub fn resolve_niched() -> (w: u32)
        ensures
            w == 0u32,
    {
        0
    }
}

/// Niching for never-NaN floats: absence is a NaN pattern.
pub struct NaN;

impl NaN {
    /// True when the archived word holds a NaN pattern.
    pub fn is_niched(w: u32) -> (r: bool)
        ensures
            r == is_nan_bits(w),
    {
        check_nan_bits(w)
    }

    /// The word written for an absent value: the canonical quiet NaN.
    pub fn resolve_niched() -> (w: u32)
        ensures
            w == F32_NAN_BITS,
            is_nan_bits(w),
    {
        proof {
            assert((0x7fc0_0000u32 & 0x7f80_0000u32) == 0x7f80_0000u32) by (bit_vector);
            assert((0x7fc0_0000u32 & 0x007f_ffffu32) != 0u32) by (bit_vector);
        }
        F32_NAN_BITS
    }
}

/// Niching for booleans: absence is a byte value no boolean can hold.
pub struct Bool;

impl Bool {
    /// True when the archived byte holds the absent sentinel.
    pub fn is_niched(b: u8) -> (r: bool)
        ensures
            r == (b > 1),
    {
        b > 1
    }

    /// The byte written for an absent value.
    pub fn resolve_niched() -> (b: u8)
        ensures
            b == 2u8,
    {
        2
    }
}

/// The built-in strategy keyed to a payload's type: zero for non-zero
/// integers, a NaN for floats, an out-of-range byte for booleans.
pub struct DefaultNicher;

impl DefaultNicher {
    /// Delegates to [`Zero`] for non-zero integer slots.
    pub fn is_niched_nonzero(w: u32) -> (r: bool)
        ensures
            r == (w == 0),
    {
        Zero::is_niched(w)
    }

    /// Delegates to [`NaN`] for float slots.
    pub fn is_niched_float(w: u32) -> (r: bool)
        ensures
            r == is_nan_bits(w),
    {
        NaN::is_niched(w)
    }

    /// Delegates to [`Bool`] for boolean slots.
    pub fn is_niched_bool(b: u8) -> (r: bool)
        ensures
            r == (b > 1),
    {
        Bool::is_niched(b)
    }
}

/// Niche correctness for non-zero integers: absence is exactly the zero
/// word's bytes, and no legal present value is encoded as that pattern.
pub proof fn lemma_zero_niche_exact(x: u32)
    requires
        x != 0,
    ensures
        spec_u32_to_le_bytes(x) != spec_u32_to_le_bytes(0u32),
{
    lemma_auto_spec_u32_to_from_le_bytes();
    assert(spec_u32_to_le_bytes(x).len() == 4);
    assert(spec_u32_to_le_bytes(0u32).len() == 4);
    assert(spec_u32_from_le_bytes(spec_u32_to_le_bytes(x)) == x);
    assert(spec_u32_from_le_bytes(spec_u32_to_le_bytes(0u32)) == 0u32);
}

/// Niche correctness for never-NaN floats: absence is exactly the
/// canonical NaN's bytes, and no non-NaN present value is encoded as that
/// pattern.
pub proof fn lemma_nan_niche_exact(w: u32)
    requires
        !is_nan_bits(w),
    ensures
        spec_u32_to_le_bytes(w) != spec_u32_to_le_bytes(F32_NAN_BITS),
{
    lemma_auto_spec_u32_to_from_le_bytes();
    assert((0x7fc0_0000u32 & 0x7f80_0000u32) == 0x7f80_0000u32) by (bit_vector);
    assert((0x7fc0_0000u32 & 0x007f_ffffu32) != 0u32) by (bit_vector);
    assert(spec_u32_to_le_bytes(w).len() == 4);
    assert(spec_u32_to_le_bytes(F32_NAN_BITS).len() == 4);
    assert(spec_u32_from_le_bytes(spec_u32_to_le_bytes(w)) == w);
    assert(spec_u32_from_le_bytes(spec_u32_to_le_bytes(F32_NAN_BITS)) == F32_NAN_BITS);
}

/// Niche correctness for booleans: absence is exactly the byte 2, and a
/// present boolean is encoded as 0 or 1, never the sentinel.
pub proof fn lemma_bool_niche_exact(b: bool)
    ensures
        crate::encoding::bool_byte(b) != 2u8,
{
}

} // verus!
