//! f32 values as their IEEE 754 bit patterns: the few constants and tests that
//! decisions need. Arithmetic on them is the caller's.
#[allow(unused_imports)]
use vstd::arithmetic::power2::{
    lemma_pow2_pos, lemma_pow2_strictly_increases, lemma_pow2_unfold, pow2,
};
use vstd::prelude::*;

verus! {

/// `0.0`.
pub const F32_ZERO: u32 = 0x0000_0000;

/// `1.0`.
pub const F32_ONE: u32 = 0x3F80_0000;

/// `1.5`.
pub const F32_ONE_AND_A_HALF: u32 = 0x3FC0_0000;

/// `2.0`.
pub const F32_TWO: u32 = 0x4000_0000;

/// `32.0`.
pub const F32_THIRTY_TWO: u32 = 0x4200_0000;

/// `10000.0`.
pub const F32_TEN_THOUSAND: u32 = 0x461C_4000;

/// `1e-6`.
pub const F32_MILLIONTH: u32 = 0x3586_37BD;

/// The smallest normal f16, `6.1035156e-5`.
pub const F32_LEAST_NORMAL_HALF: u32 = 0x3880_0000;

/// Positive infinity.
pub const F32_INFINITY: u32 = 0x7F80_0000;

/// Negative infinity.
pub const F32_NEG_INFINITY: u32 = 0xFF80_0000;

/// The value is zero, of either sign.
pub open spec fn is_zero(bits: u32) -> bool {
    bits == 0 || bits == 0x8000_0000
}

/// Whether the value is zero, of either sign.
pub fn zero(bits: u32) -> (yes: bool)
    ensures
        yes == is_zero(bits),
{
    bits == 0 || bits == 0x8000_0000
}

/// The value is greater than the positive finite value `floor`: bit patterns of
/// positive values are ordered as the values are, up to infinity.
pub open spec fn exceeds(bits: u32, floor: u32) -> bool {
    floor < bits <= F32_INFINITY
}

/// Whether the value is greater than the positive finite value `floor`.
pub fn greater(bits: u32, floor: u32) -> (yes: bool)
    ensures
        yes == exceeds(bits, floor),
{
    floor < bits && bits <= F32_INFINITY
}

/// The value with its sign turned.
pub open spec fn negated(bits: u32) -> u32 {
    if bits < 0x8000_0000 {
        (bits + 0x8000_0000) as u32
    } else {
        (bits - 0x8000_0000) as u32
    }
}

/// Turns the sign.
pub fn negate(bits: u32) -> (out: u32)
    ensures
        out == negated(bits),
{
    if bits < 0x8000_0000 {
        bits + 0x8000_0000
    } else {
        bits - 0x8000_0000
    }
}

/// An integer that orders f32 values as IEEE's total order does: negative NaN below
/// negative infinity below ... `-0.0` below `0.0` ... below positive NaN.
pub open spec fn total_order(bits: u32) -> int {
    if bits < 0x8000_0000 {
        bits as int
    } else {
        0x7fff_ffff - bits
    }
}

/// An integer that orders f32 values as IEEE's total order does.
pub fn order_key(bits: u32) -> (key: i64)
    ensures
        key == total_order(bits),
{
    if bits < 0x8000_0000 {
        bits as i64
    } else {
        0x7fff_ffff - bits as i64
    }
}

/// The value without its sign.
pub open spec fn magnitude(bits: u32) -> int {
    if bits < 0x8000_0000 {
        bits as int
    } else {
        bits - 0x8000_0000
    }
}

/// The value is not a number.
pub open spec fn is_nan(bits: u32) -> bool {
    magnitude(bits) > F32_INFINITY
}

/// An integer that orders f32 values as `<` does, the two zeros being one.
pub open spec fn value_order(bits: u32) -> int {
    if bits < 0x8000_0000 {
        bits as int
    } else {
        0x8000_0000 - bits
    }
}

/// `a >= b`, which is false where either is not a number.
pub open spec fn is_at_least(a: u32, b: u32) -> bool {
    !is_nan(a) && !is_nan(b) && value_order(a) >= value_order(b)
}

/// `a > b`, which is false where either is not a number.
pub open spec fn is_above(a: u32, b: u32) -> bool {
    !is_nan(a) && !is_nan(b) && value_order(a) > value_order(b)
}

fn value_key(bits: u32) -> (key: Option<i64>)
    ensures
        match key {
            Some(k) => !is_nan(bits) && k == value_order(bits),
            None => is_nan(bits),
        },
{
    let key: i64 = if bits < 0x8000_0000 {
        bits as i64
    } else {
        0x8000_0000 - bits as i64
    };
    if key > F32_INFINITY as i64 || key < -(F32_INFINITY as i64) {
        None
    } else {
        Some(key)
    }
}

/// Whether `a >= b`.
pub fn at_least(a: u32, b: u32) -> (yes: bool)
    ensures
        yes == is_at_least(a, b),
{
    match (value_key(a), value_key(b)) {
        (Some(x), Some(y)) => x >= y,
        _ => false,
    }
}

/// Whether `a > b`.
pub fn above(a: u32, b: u32) -> (yes: bool)
    ensures
        yes == is_above(a, b),
{
    match (value_key(a), value_key(b)) {
        (Some(x), Some(y)) => x > y,
        _ => false,
    }
}

/// What a pattern without its sign amounts to, in units of the least value above zero: its
/// 23 low bits, behind a leading one where the exponent is not the least, doubled as often
/// as the exponent says.
pub open spec fn units(magnitude: int) -> int {
    let exponent = magnitude / 0x80_0000;
    let fraction = magnitude % 0x80_0000;
    if exponent == 0 {
        fraction
    } else {
        (0x80_0000 + fraction) * pow2((exponent - 1) as nat) as int
    }
}

/// What a pattern amounts to, in the same units.
pub open spec fn amount(bits: u32) -> int {
    if bits < 0x8000_0000 {
        units(bits as int)
    } else {
        -units(bits - 0x8000_0000)
    }
}

proof fn units_grow(a: int, b: int)
    requires
        0 <= a < b <= F32_INFINITY,
    ensures
        0 <= units(a) < units(b),
{
    let (e, f) = (a / 0x80_0000, a % 0x80_0000);
    let (g, h) = (b / 0x80_0000, b % 0x80_0000);
    assert(0 <= e <= g);
    if e > 0 {
        lemma_pow2_pos((e - 1) as nat);
        let p = pow2((e - 1) as nat) as int;
        assert(0 < (0x80_0000 + f) * p) by (nonlinear_arith)
            requires
                0 < p,
                0 <= f,
        ;
    }
    if g > 0 {
        lemma_pow2_pos((g - 1) as nat);
        let q = pow2((g - 1) as nat) as int;
        if e == g {
            assert((0x80_0000 + f) * q < (0x80_0000 + h) * q) by (nonlinear_arith)
                requires
                    0 < q,
                    f < h,
            ;
        } else {
            assert(0x80_0000 * q <= (0x80_0000 + h) * q) by (nonlinear_arith)
                requires
                    0 < q,
                    0 <= h,
            ;
            if e == 0 {
                assert(0x80_0000 <= 0x80_0000 * q) by (nonlinear_arith)
                    requires
                        0 < q,
                ;
            } else {
                let p = pow2((e - 1) as nat) as int;
                lemma_pow2_unfold(e as nat);
                assert(pow2(e as nat) == 2 * p);
                if e < g - 1 {
                    lemma_pow2_strictly_increases(e as nat, (g - 1) as nat);
                }
                assert(2 * p <= q);
                assert((0x80_0000 + f) * p < 0x80_0000 * (2 * p)) by (nonlinear_arith)
                    requires
                        0 < p,
                        f < 0x80_0000,
                ;
                assert(0x80_0000 * (2 * p) <= 0x80_0000 * q) by (nonlinear_arith)
                    requires
                        2 * p <= q,
                ;
            }
        }
    }
}

/// Comparing patterns is comparing what they amount to: `>=` and `>` hold of two numbers
/// exactly where they hold of their amounts, the two zeros are one, and what is not a
/// number compares with nothing.
pub proof fn patterns_compare_as_numbers(a: u32, b: u32)
    ensures
        is_nan(a) || is_nan(b) ==> !is_at_least(a, b) && !is_above(a, b),
        !is_nan(a) && !is_nan(b) ==> (is_at_least(a, b) <==> amount(a) >= amount(b)),
        !is_nan(a) && !is_nan(b) ==> (is_above(a, b) <==> amount(a) > amount(b)),
        !is_nan(a) && !is_nan(b) && amount(a) > amount(b) ==> total_order(a) > total_order(b),
        !is_nan(a) ==> (is_zero(a) <==> amount(a) == 0),
        !is_nan(a) ==> amount(negated(a)) == -amount(a),
{
    if !is_nan(a) && !is_nan(b) {
        let (x, y) = (magnitude(a), magnitude(b));
        if x < y {
            units_grow(x, y);
        } else if y < x {
            units_grow(y, x);
        }
        if x > 0 {
            units_grow(0, x);
        }
        if y > 0 {
            units_grow(0, y);
        }
    }
    if !is_nan(a) && magnitude(a) > 0 {
        units_grow(0, magnitude(a));
    }
}

} // verus!
