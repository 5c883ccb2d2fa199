//! Equality of IEEE-754 doubles, on the bit patterns that stand for them
//! in this library (`f64::to_bits`).

use vstd::prelude::*;

verus! {

/// The exponent bits of a double.
pub const F64_EXPONENT_MASK: u64 = 0x7ff0_0000_0000_0000u64;

/// The fraction (mantissa) bits of a double.
pub const F64_FRACTION_MASK: u64 = 0x000f_ffff_ffff_ffffu64;

/// All bits of a double but its sign.
pub const F64_MAGNITUDE_MASK: u64 = 0x7fff_ffff_ffff_ffffu64;

/// The bit pattern is a NaN: all exponent bits set, fraction not zero.
pub open spec fn f64_bits_is_nan(bits: u64) -> bool {
    (bits & F64_EXPONENT_MASK) == F64_EXPONENT_MASK && (bits & F64_FRACTION_MASK) != 0
}

/// The bit pattern is `+0.0` or `-0.0`.
pub open spec fn f64_bits_is_zero(bits: u64) -> bool {
    (bits & F64_MAGNITUDE_MASK) == 0
}

/// IEEE-754 equality of two doubles given by their bit patterns: a NaN
/// equals nothing, the two zeros are equal, all other values are equal
/// exactly when their bits are.
pub open spec fn spec_f64_bits_eq(a: u64, b: u64) -> bool {
    &&& !f64_bits_is_nan(a)
    &&& !f64_bits_is_nan(b)
    &&& (a == b || (f64_bits_is_zero(a) && f64_bits_is_zero(b)))
}

/// `==` on two doubles, given as bit patterns.
pub fn f64_bits_eq(a: u64, b: u64) -> (eq: bool)
    ensures
        eq == spec_f64_bits_eq(a, b),
{
    let a_nan = (a & F64_EXPONENT_MASK) == F64_EXPONENT_MASK && (a & F64_FRACTION_MASK) != 0;
    let b_nan = (b & F64_EXPONENT_MASK) == F64_EXPONENT_MASK && (b & F64_FRACTION_MASK) != 0;
    !a_nan && !b_nan && (a == b || ((a & F64_MAGNITUDE_MASK) == 0 && (b & F64_MAGNITUDE_MASK) == 0))
}

/// `==` on two optional doubles: both absent, or both present and equal.
pub open spec fn spec_opt_f64_bits_eq(a: Option<u64>, b: Option<u64>) -> bool {
    match (a, b) {
        (Some(x), Some(y)) => spec_f64_bits_eq(x, y),
        (None, None) => true,
        _ => false,
    }
}

/// `==` on two optional doubles, given as bit patterns.
pub fn opt_f64_bits_eq(a: Option<u64>, b: Option<u64>) -> (eq: bool)
    ensures
        eq == spec_opt_f64_bits_eq(a, b),
{
    match (a, b) {
        (Some(x), Some(y)) => f64_bits_eq(x, y),
        (None, None) => true,
        _ => false,
    }
}

/// Double equality is symmetric, and reflexive on every value but NaN.
pub proof fn lemma_f64_bits_eq_symmetric_and_reflexive(a: u64, b: u64)
    ensures
        spec_f64_bits_eq(a, b) == spec_f64_bits_eq(b, a),
        spec_f64_bits_eq(a, a) == !f64_bits_is_nan(a),
{
}


/// What double equality means on bit patterns: a NaN equals nothing; the
/// two zeros (`+0.0` and `-0.0`) equal each other; any other value equals
/// exactly the value with the same bits.
pub proof fn law_f64_bits_eq_meaning(a: u64, b: u64)
    ensures
        f64_bits_is_nan(a) || f64_bits_is_nan(b) ==> !spec_f64_bits_eq(a, b),
        f64_bits_is_zero(a) && f64_bits_is_zero(b) ==> spec_f64_bits_eq(a, b),
        !f64_bits_is_nan(a) && !f64_bits_is_zero(a) ==> (spec_f64_bits_eq(a, b) <==> a == b),
{
    if f64_bits_is_zero(a) && f64_bits_is_zero(b) {
        assert(a & F64_EXPONENT_MASK == 0 && b & F64_EXPONENT_MASK == 0) by (bit_vector)
            requires
                a & 0x7fff_ffff_ffff_ffffu64 == 0,
                b & 0x7fff_ffff_ffff_ffffu64 == 0,
        ;
    }
}

} // verus!
