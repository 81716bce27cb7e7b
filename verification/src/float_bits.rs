//! The order of 32-bit floats, read off their bits.
//!
//! Samples, probabilities and thresholds cross this library as the bits of
//! IEEE 754 single-precision numbers. Nothing is computed with them, but some
//! are compared.

use vstd::arithmetic::power2::{
    lemma_pow2_pos, lemma_pow2_strictly_increases, lemma_pow2_unfold, pow2,
};
use vstd::prelude::*;

verus! {

/// The sign bit.
pub const SIGN_BIT: u32 = 0x8000_0000;

/// The bits of positive infinity.
pub const INFINITY_BITS: u32 = 0x7f80_0000;

/// The bits of the float `1.0`.
pub const ONE_BITS: u32 = 0x3f80_0000;

/// The bits of the float `0.5`.
pub const HALF_BITS: u32 = 0x3f00_0000;

/// The bits of `bits` without the sign.
pub open spec fn magnitude(bits: u32) -> int {
    if bits >= SIGN_BIT {
        bits - SIGN_BIT
    } else {
        bits as int
    }
}

/// Whether the bits are no number.
pub open spec fn is_nan(bits: u32) -> bool {
    magnitude(bits) > INFINITY_BITS
}

/// An integer that orders as the number does: numbers of either sign order by
/// the size of their bits, and the two zeros are equal.
pub open spec fn order_key(bits: u32) -> int {
    if bits >= SIGN_BIT {
        -magnitude(bits)
    } else {
        magnitude(bits)
    }
}

/// Whether the float `a` is at least the float `b`; false of what is no
/// number.
pub open spec fn float_ge(a: u32, b: u32) -> bool {
    !is_nan(a) && !is_nan(b) && order_key(a) >= order_key(b)
}

/// Whether the float lies in `[0, 1)`.
pub open spec fn in_unit_range(bits: u32) -> bool {
    !is_nan(bits) && order_key(0) <= order_key(bits) < order_key(ONE_BITS)
}

fn key(bits: u32) -> (r: i64)
    ensures
        r == order_key(bits),
{
    if bits >= SIGN_BIT {
        -((bits - SIGN_BIT) as i64)
    } else {
        bits as i64
    }
}

fn nan(bits: u32) -> (r: bool)
    ensures
        r == is_nan(bits),
{
    let m: u32 = if bits >= SIGN_BIT {
        bits - SIGN_BIT
    } else {
        bits
    };
    m > INFINITY_BITS
}

/// Whether the float `a` is at least the float `b`.
pub fn at_least(a: u32, b: u32) -> (r: bool)
    ensures
        r == float_ge(a, b),
{
    !nan(a) && !nan(b) && key(a) >= key(b)
}

/// Whether the float lies in `[0, 1)`.
pub fn is_in_unit_range(bits: u32) -> (r: bool)
    ensures
        r == in_unit_range(bits),
{
    !nan(bits) && 0 <= key(bits) && key(bits) < key(ONE_BITS)
}

// ---------------------------------------------------------------------------
// Laws
// ---------------------------------------------------------------------------

/// The size of a finite number, counted in the smallest positive one: a
/// fraction of 23 bits, with a leading one in front of it and scaled by the
/// exponent in the eight bits above, unless that is zero.
pub open spec fn size_of(magnitude: int) -> int {
    let exponent = magnitude / 0x80_0000;
    let fraction = magnitude % 0x80_0000;
    if exponent == 0 {
        fraction
    } else {
        (fraction + 0x80_0000) * pow2((exponent - 1) as nat)
    }
}

/// The number that finite float bits stand for, counted in the smallest
/// positive one.
pub open spec fn number_of(bits: u32) -> int {
    if bits >= 0x8000_0000 {
        -size_of(bits - 0x8000_0000)
    } else {
        size_of(bits as int)
    }
}

/// Whether float bits stand for a number, and not for an infinity either: the
/// exponent is not all ones.
pub open spec fn is_finite(bits: u32) -> bool {
    bits < 0x7f80_0000 || 0x8000_0000 <= bits < 0xff80_0000
}

proof fn lemma_sizes_grow(a: int, b: int)
    requires
        0 <= a < b,
    ensures
        0 <= size_of(a) < size_of(b),
{
    let (e, f) = (a / 0x80_0000, b / 0x80_0000);
    let (x, y) = (a % 0x80_0000, b % 0x80_0000);
    let p = pow2((e - 1) as nat) as int;
    let q = pow2((f - 1) as nat) as int;
    if e > 0 {
        lemma_pow2_pos((e - 1) as nat);
    }
    if f > 0 {
        lemma_pow2_pos((f - 1) as nat);
    }
    assert(e <= f);
    assert(e == f ==> x < y);
    if e == 0 {
        if f > 0 {
            assert((y + 0x80_0000) * q >= y + 0x80_0000) by (nonlinear_arith)
                requires
                    y >= 0,
                    q >= 1,
            ;
        }
    } else if e == f {
        assert(0 <= (x + 0x80_0000) * p < (y + 0x80_0000) * p) by (nonlinear_arith)
            requires
                0 <= x < y,
                p >= 1,
        ;
    } else {
        lemma_pow2_unfold(e as nat);
        if e < f - 1 {
            lemma_pow2_strictly_increases(e as nat, (f - 1) as nat);
        }
        assert(q >= 2 * p);
        assert(0 <= (x + 0x80_0000) * p < (y + 0x80_0000) * q) by (nonlinear_arith)
            requires
                0 <= x < 0x80_0000,
                0 <= y,
                p >= 1,
                q >= 2 * p,
        ;
    }
}

/// Float bits compare as the numbers do that they stand for, whatever their
/// signs, and with the two zeros equal.
pub proof fn law_bits_compare_as_numbers(a: u32, b: u32)
    requires
        is_finite(a),
        is_finite(b),
    ensures
        float_ge(a, b) == (number_of(a) >= number_of(b)),
        (order_key(a) > order_key(b)) == (number_of(a) > number_of(b)),
        (order_key(a) == order_key(b)) == (number_of(a) == number_of(b)),
{
    let (x, y) = (magnitude(a), magnitude(b));
    if x < y {
        lemma_sizes_grow(x, y);
    }
    if y < x {
        lemma_sizes_grow(y, x);
    }
    if x > 0 {
        lemma_sizes_grow(0, x);
    }
    if y > 0 {
        lemma_sizes_grow(0, y);
    }
}

/// What is no number is at least nothing, and nothing is at least it.
pub proof fn law_no_number_compares(nan: u32, other: u32)
    requires
        0x7f80_0000 < nan < 0x8000_0000 || 0xff80_0000 < nan,
    ensures
        !float_ge(nan, other),
        !float_ge(other, nan),
        !in_unit_range(nan),
{
}

/// A float is in the unit range exactly where it stands for a number from zero
/// on and below one.
pub proof fn law_unit_range_ends_below_one(bits: u32)
    ensures
        in_unit_range(bits) == (is_finite(bits) && 0 <= number_of(bits) < number_of(0x3f80_0000)),
{
    if is_finite(bits) {
        law_bits_compare_as_numbers(bits, 0);
        law_bits_compare_as_numbers(bits, 0x3f80_0000);
        assert(number_of(0) == 0);
    }
}

} // verus!
