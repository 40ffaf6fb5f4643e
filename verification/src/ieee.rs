//! Single-precision floats seen through their IEEE 754 bit patterns.
//!
//! The library holds no floating-point values: a caller hands over each
//! `f32` by its bits (`f32::to_bits`), and the library reads from them what
//! its decisions need, finiteness and order.
use vstd::prelude::*;

verus! {

/// The exponent field of a binary32 pattern.
pub const EXPONENT_MASK: u32 = 0x7f80_0000u32;

/// The sign bit of a binary32 pattern.
pub const SIGN_MASK: u32 = 0x8000_0000u32;

/// A binary32 pattern is finite unless its exponent field is all ones
/// (infinities and NaNs).
pub open spec fn is_finite_bits(bits: u32) -> bool {
    bits & EXPONENT_MASK != EXPONENT_MASK
}

/// The key under which binary32 patterns compare, as unsigned integers, in
/// the IEEE 754 `totalOrder` of their values (the order of `f32::total_cmp`):
/// negative patterns have all bits flipped, the others only the sign bit.
pub open spec fn total_order_key(bits: u32) -> u32 {
    if bits & SIGN_MASK != 0 {
        !bits
    } else {
        bits | SIGN_MASK
    }
}

/// The exponent field of a binary64 pattern.
pub const EXPONENT_MASK_64: u64 = 0x7ff0_0000_0000_0000u64;

/// A binary64 pattern is finite unless its exponent field is all ones.
pub open spec fn is_finite_bits_64(bits: u64) -> bool {
    bits & EXPONENT_MASK_64 != EXPONENT_MASK_64
}

/// A binary32 pattern denotes a finite value exactly when its exponent field
/// (bits 23 to 30) is not all ones: zeros, subnormals and normal numbers of
/// every magnitude are finite; infinities and NaNs are not.
pub proof fn lemma_finite_exactly_below_full_exponent(bits: u32)
    ensures
        is_finite_bits(bits) <==> (bits >> 23u32) & 0xffu32 != 0xffu32,
        is_finite_bits(bits) <==> (bits & 0x7f80_0000u32) != 0x7f80_0000u32,
{
    assert(((bits & 0x7f80_0000u32) != 0x7f80_0000u32) <==> ((bits >> 23u32) & 0xffu32 != 0xffu32))
        by (bit_vector);
}

/// A binary64 pattern denotes a finite value exactly when its exponent field
/// (bits 52 to 62) is not all ones.
pub proof fn lemma_finite_exactly_below_full_exponent_64(bits: u64)
    ensures
        is_finite_bits_64(bits) <==> (bits >> 52u64) & 0x7ffu64 != 0x7ffu64,
        is_finite_bits_64(bits) <==> (bits & 0x7ff0_0000_0000_0000u64)
            != 0x7ff0_0000_0000_0000u64,
{
    assert(((bits & 0x7ff0_0000_0000_0000u64) != 0x7ff0_0000_0000_0000u64) <==> ((bits >> 52u64)
        & 0x7ffu64 != 0x7ffu64)) by (bit_vector);
}

/// Whether the double with bit pattern `bits` is finite.
pub fn is_finite_64(bits: u64) -> (finite: bool)
    ensures
        finite == is_finite_bits_64(bits),
{
    bits & EXPONENT_MASK_64 != EXPONENT_MASK_64
}

/// Whether the float with bit pattern `bits` is finite.
pub fn is_finite(bits: u32) -> (finite: bool)
    ensures
        finite == is_finite_bits(bits),
{
    bits & EXPONENT_MASK != EXPONENT_MASK
}

/// The total-order key of the float with bit pattern `bits`.
pub fn order_key(bits: u32) -> (key: u32)
    ensures
        key == total_order_key(bits),
{
    if bits & SIGN_MASK != 0 {
        !bits
    } else {
        bits | SIGN_MASK
    }
}

/// The total order separates every two bit patterns: only a pattern ties
/// with itself.
pub proof fn lemma_total_order_key_injective(a: u32, b: u32)
    ensures
        total_order_key(a) == total_order_key(b) ==> a == b,
{
    assert(((a & 0x8000_0000u32) != 0 && (b & 0x8000_0000u32) != 0 && !a == !b) ==> a == b)
        by (bit_vector);
    assert(((a & 0x8000_0000u32) == 0 && (b & 0x8000_0000u32) == 0
        && (a | 0x8000_0000u32) == (b | 0x8000_0000u32)) ==> a == b) by (bit_vector);
    assert(((a & 0x8000_0000u32) != 0 && (b & 0x8000_0000u32) == 0) ==> !a != (b | 0x8000_0000u32))
        by (bit_vector);
    assert(((a & 0x8000_0000u32) == 0 && (b & 0x8000_0000u32) != 0) ==> (a | 0x8000_0000u32) != !b)
        by (bit_vector);
}

/// Every non-negative pattern (sign bit clear) orders after every negative
/// one (sign bit set).
pub proof fn lemma_total_order_sign(a: u32, b: u32)
    requires
        a & SIGN_MASK != 0,
        b & SIGN_MASK == 0,
    ensures
        total_order_key(a) < total_order_key(b),
{
    assert(((a & 0x8000_0000u32) != 0 && (b & 0x8000_0000u32) == 0) ==> !a < (b | 0x8000_0000u32))
        by (bit_vector);
}

/// Among patterns with the sign bit clear (zero and positive values), the
/// total order is the order of the bit patterns, which for these floats is the
/// order of their magnitudes.
pub proof fn lemma_total_order_nonnegative(a: u32, b: u32)
    requires
        a & SIGN_MASK == 0,
        b & SIGN_MASK == 0,
    ensures
        total_order_key(a) < total_order_key(b) <==> a < b,
{
    assert(((a & 0x8000_0000u32) == 0 && (b & 0x8000_0000u32) == 0) ==> ((a | 0x8000_0000u32) < (
    b | 0x8000_0000u32) <==> a < b)) by (bit_vector);
}

/// Among patterns with the sign bit set (negative values), the total order
/// reverses the order of the bit patterns: the larger magnitude comes first.
pub proof fn lemma_total_order_negative(a: u32, b: u32)
    requires
        a & SIGN_MASK != 0,
        b & SIGN_MASK != 0,
    ensures
        total_order_key(a) < total_order_key(b) <==> b < a,
{
    assert(((a & 0x8000_0000u32) != 0 && (b & 0x8000_0000u32) != 0) ==> (!a < !b <==> b < a))
        by (bit_vector);
}

} // verus!
