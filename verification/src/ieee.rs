//! Single-precision numbers carried as their IEEE 754 bit patterns.
//!
//! Positions, scales and colours travel through this library as `u32` bit patterns: they are
//! stored, moved and compared here, and computed with elsewhere. The model of a pattern is an
//! exact integer, the number it denotes in units of 2^-149, which is the spacing of the
//! subnormal numbers.
use vstd::arithmetic::power2::{lemma_pow2_adds, lemma_pow2_pos, lemma_pow2_unfold, pow2};
use vstd::prelude::*;

verus! {

/// Bit pattern of 0.0.
pub const ZERO: u32 = 0;

/// Bit pattern of 1.0.
pub const ONE: u32 = 0x3f80_0000;

/// Bit pattern of positive infinity.
pub const INFINITY: u32 = 0x7f80_0000;

/// Bit pattern of negative infinity.
pub const NEG_INFINITY: u32 = 0xff80_0000;

/// Whether the sign bit is set.
pub open spec fn is_negative(bits: u32) -> bool {
    bits >= 0x8000_0000
}

/// The pattern without its sign bit.
pub open spec fn magnitude(bits: u32) -> int {
    if is_negative(bits) {
        bits - 0x8000_0000
    } else {
        bits as int
    }
}

/// Whether the pattern is one of the NaNs.
pub open spec fn is_nan(bits: u32) -> bool {
    magnitude(bits) > 0x7f80_0000
}

/// The number that an unsigned pattern denotes, in units of 2^-149. Infinity gets the value
/// that follows the largest finite one.
pub open spec fn magnitude_value(m: int) -> int {
    let exponent = m / 0x80_0000;
    let fraction = m % 0x80_0000;
    if exponent == 0 {
        fraction
    } else {
        (0x80_0000 + fraction) * pow2((exponent - 1) as nat)
    }
}

/// The number that a pattern denotes, in units of 2^-149. Both zeros denote 0.
pub open spec fn value(bits: u32) -> int {
    if is_negative(bits) {
        -magnitude_value(magnitude(bits))
    } else {
        magnitude_value(magnitude(bits))
    }
}

/// Ordering key of a pattern: increasing in the value, with every NaN below every number.
pub open spec fn rank(bits: u32) -> int {
    if is_nan(bits) {
        -0x8000_0000
    } else if is_negative(bits) {
        -magnitude(bits)
    } else {
        magnitude(bits)
    }
}

proof fn lemma_magnitude_step(m: int)
    requires
        0 <= m,
    ensures
        magnitude_value(m) < magnitude_value(m + 1),
{
    let e = m / 0x80_0000;
    let f = m % 0x80_0000;
    if f == 0x7f_ffff {
        assert((m + 1) / 0x80_0000 == e + 1);
        assert((m + 1) % 0x80_0000 == 0);
        if e == 0 {
            vstd::arithmetic::power2::lemma2_to64();
        } else {
            lemma_pow2_unfold(e as nat);
            lemma_pow2_pos((e - 1) as nat);
            let p = pow2((e - 1) as nat) as int;
            assert(pow2(e as nat) == 2 * p);
            assert(0x100_0000 * p == 0x80_0000 * (2 * p)) by (nonlinear_arith);
            assert(0xff_ffff * p < 0x100_0000 * p) by (nonlinear_arith)
                requires
                    p > 0,
            ;
        }
    } else {
        assert((m + 1) / 0x80_0000 == e);
        assert((m + 1) % 0x80_0000 == f + 1);
        if e != 0 {
            lemma_pow2_pos((e - 1) as nat);
            let p = pow2((e - 1) as nat) as int;
            assert((0x80_0000 + f) * p < (0x80_0000 + f + 1) * p) by (nonlinear_arith)
                requires
                    p > 0,
            ;
        }
    }
}

proof fn lemma_magnitude_increases(a: int, b: int)
    requires
        0 <= a < b,
    ensures
        magnitude_value(a) < magnitude_value(b),
    decreases b - a,
{
    lemma_magnitude_step(b - 1);
    if a < b - 1 {
        lemma_magnitude_increases(a, b - 1);
    }
}

/// Ranks order the numbers exactly as their values do.
pub proof fn rank_orders_values(a: u32, b: u32)
    requires
        !is_nan(a),
        !is_nan(b),
    ensures
        rank(a) < rank(b) <==> value(a) < value(b),
        rank(a) == rank(b) <==> value(a) == value(b),
{
    let ma = magnitude(a);
    let mb = magnitude(b);
    assert(magnitude_value(0) == 0);
    if 0 < ma {
        lemma_magnitude_increases(0, ma);
    }
    if 0 < mb {
        lemma_magnitude_increases(0, mb);
    }
    if ma < mb {
        lemma_magnitude_increases(ma, mb);
    } else if mb < ma {
        lemma_magnitude_increases(mb, ma);
    }
}

/// Ordering key of a bit pattern.
pub fn order_key(bits: u32) -> (key: i32)
    ensures
        key == rank(bits),
{
    let negative = bits >= 0x8000_0000;
    let m: u32 = if negative { bits - 0x8000_0000 } else { bits };
    if m > 0x7f80_0000 {
        i32::MIN
    } else if negative {
        -(m as i32)
    } else {
        m as i32
    }
}

/// `a < b` on the numbers; false when either is NaN.
pub fn less(a: u32, b: u32) -> (r: bool)
    ensures
        r <==> !is_nan(a) && !is_nan(b) && value(a) < value(b),
{
    let ka: i32 = order_key(a);
    let kb: i32 = order_key(b);
    proof {
        if !is_nan(a) && !is_nan(b) {
            rank_orders_values(a, b);
        }
    }
    i32::MIN < ka && ka < kb
}

/// `a <= b` on the numbers; false when either is NaN.
pub fn less_equal(a: u32, b: u32) -> (r: bool)
    ensures
        r <==> !is_nan(a) && !is_nan(b) && value(a) <= value(b),
{
    let ka: i32 = order_key(a);
    let kb: i32 = order_key(b);
    proof {
        if !is_nan(a) && !is_nan(b) {
            rank_orders_values(a, b);
        }
    }
    i32::MIN < ka && ka <= kb
}

/// The pattern held inside `[low, high]`: the nearer bound when the number lies outside, the
/// pattern itself otherwise. A NaN stays as it is.
pub open spec fn clamped(bits: u32, low: u32, high: u32) -> u32 {
    if is_nan(bits) {
        bits
    } else if value(bits) < value(low) {
        low
    } else if value(high) < value(bits) {
        high
    } else {
        bits
    }
}

/// Clamps a number between two bounds.
pub fn clamp(bits: u32, low: u32, high: u32) -> (r: u32)
    requires
        !is_nan(low),
        !is_nan(high),
        value(low) <= value(high),
    ensures
        r == clamped(bits, low, high),
{
    if less(bits, low) {
        low
    } else if less(high, bits) {
        high
    } else {
        bits
    }
}

/// A clamped number lies between its bounds, and one that already does is kept.
pub proof fn clamping_holds_bounds(bits: u32, low: u32, high: u32)
    requires
        !is_nan(bits),
        !is_nan(low),
        !is_nan(high),
        value(low) <= value(high),
    ensures
        value(low) <= value(clamped(bits, low, high)) <= value(high),
        value(low) <= value(bits) <= value(high) ==> clamped(
            bits,
            low,
            high,
        ) == bits,
        clamped(clamped(bits, low, high), low, high) == clamped(bits, low, high),
{
}

/// The pattern with its sign bit flipped.
pub open spec fn negated(bits: u32) -> u32 {
    if is_negative(bits) {
        (bits - 0x8000_0000) as u32
    } else {
        (bits + 0x8000_0000) as u32
    }
}

/// Negates a number.
pub fn negate(bits: u32) -> (r: u32)
    ensures
        r == negated(bits),
        value(r) == -value(bits),
        is_nan(r) == is_nan(bits),
{
    if bits >= 0x8000_0000 {
        bits - 0x8000_0000
    } else {
        bits + 0x8000_0000
    }
}

/// The smaller of two numbers, or the other one where one is NaN.
pub open spec fn smaller(a: u32, b: u32) -> u32 {
    if is_nan(a) || (!is_nan(b) && value(b) < value(a)) {
        b
    } else {
        a
    }
}

/// The larger of two numbers, or the other one where one is NaN.
pub open spec fn larger(a: u32, b: u32) -> u32 {
    if is_nan(a) || (!is_nan(b) && value(a) < value(b)) {
        b
    } else {
        a
    }
}

/// Whether a pattern is NaN.
pub fn nan(bits: u32) -> (r: bool)
    ensures
        r == is_nan(bits),
{
    order_key(bits) == i32::MIN
}

/// Minimum that ignores NaN.
pub fn min(a: u32, b: u32) -> (r: u32)
    ensures
        r == smaller(a, b),
{
    if nan(a) || less(b, a) {
        b
    } else {
        a
    }
}

/// Maximum that ignores NaN.
pub fn max(a: u32, b: u32) -> (r: u32)
    ensures
        r == larger(a, b),
{
    if nan(a) || less(a, b) {
        b
    } else {
        a
    }
}

/// The number `v / 2^24`, which single precision holds exactly.
pub fn unit_fraction(v: u32) -> (bits: u32)
    requires
        v < 0x100_0000,
    ensures
        !is_nan(bits),
        !is_negative(bits),
        value(bits) == v * pow2(125),
{
    if v == 0 {
        return 0;
    }
    let mut m: u32 = v;
    let mut e: u32 = 126;
    let ghost mut shift: nat = 0;
    proof {
        vstd::arithmetic::power2::lemma2_to64();
    }
    while m < 0x80_0000
        invariant
            0 < m < 0x100_0000,
            v < 0x100_0000,
            0 < v,
            e == 126 - shift,
            shift <= 23,
            m == v * pow2(shift),
        decreases 0x100_0000 - m,
    {
        proof {
            if shift == 23 {
                vstd::arithmetic::power2::lemma2_to64();
                assert(v * pow2(23) >= 0x80_0000) by (nonlinear_arith)
                    requires
                        v >= 1,
                        pow2(23) == 0x80_0000,
                ;
            }
            lemma_pow2_unfold(shift + 1);
            assert(v * (2 * pow2(shift)) == 2 * (v * pow2(shift))) by (nonlinear_arith);
            shift = shift + 1;
        }
        m = m * 2;
        e = e - 1;
    }
    let bits: u32 = e * 0x80_0000 + (m - 0x80_0000);
    proof {
        lemma_pow2_adds(shift, (125 - shift) as nat);
        assert(bits / 0x80_0000 == e);
        assert(bits % 0x80_0000 == m - 0x80_0000);
        let p = pow2((e - 1) as nat) as int;
        let q = pow2(shift) as int;
        assert((v * q) * p == v * (q * p)) by (nonlinear_arith);
    }
    bits
}

/// Clamping keeps the order of numbers. Together with its bounds this leaves one result: what
/// lies below goes to the lower bound, what lies above to the upper one.
pub proof fn clamping_keeps_the_order(a: u32, b: u32, low: u32, high: u32)
    requires
        !is_nan(a),
        !is_nan(b),
        !is_nan(low),
        !is_nan(high),
        value(low) <= value(high),
        value(a) <= value(b),
    ensures
        value(clamped(a, low, high)) <= value(clamped(b, low, high)),
        value(a) <= value(low) ==> value(clamped(a, low, high)) == value(low),
        value(high) <= value(b) ==> value(clamped(b, low, high)) == value(high),
{
}

/// What is no number is not clamped to one.
pub proof fn clamping_keeps_nan(bits: u32, low: u32, high: u32)
    requires
        is_nan(bits),
    ensures
        clamped(bits, low, high) == bits,
{
}

/// The smaller and the larger of two numbers are the two, in order; where one is no number, the
/// other one is both.
pub proof fn extremes_are_the_operands(a: u32, b: u32)
    ensures
        smaller(a, b) == a || smaller(a, b) == b,
        larger(a, b) == a || larger(a, b) == b,
        !is_nan(a) && !is_nan(b) ==> value(smaller(a, b)) <= value(a) <= value(larger(a, b))
            && value(smaller(a, b)) <= value(b) <= value(larger(a, b)) && !is_nan(smaller(a, b))
            && !is_nan(larger(a, b)),
        is_nan(a) ==> smaller(a, b) == b && larger(a, b) == b,
        is_nan(b) && !is_nan(a) ==> smaller(a, b) == a && larger(a, b) == a,
{
}

/// Negating twice gives the number back, and negating changes nothing but the sign.
pub proof fn negating_undoes_itself(bits: u32)
    ensures
        negated(negated(bits)) == bits,
        negated(bits) != bits,
        value(negated(bits)) == -value(bits),
        is_nan(negated(bits)) == is_nan(bits),
{
}

/// Negating turns the order of numbers round.
pub proof fn negating_turns_the_order(a: u32, b: u32)
    requires
        !is_nan(a),
        !is_nan(b),
        value(a) < value(b),
    ensures
        value(negated(b)) < value(negated(a)),
{
    negating_undoes_itself(a);
    negating_undoes_itself(b);
}

/// The infinities are numbers, and no number lies outside them.
pub proof fn infinities_bound_numbers(bits: u32)
    requires
        !is_nan(bits),
    ensures
        !is_nan(INFINITY),
        !is_nan(NEG_INFINITY),
        value(NEG_INFINITY) <= value(bits) <= value(INFINITY),
        value(NEG_INFINITY) == -value(INFINITY),
{
    rank_orders_values(bits, INFINITY);
    rank_orders_values(NEG_INFINITY, bits);
}

/// Patterns above an infinity of the same sign are the ones that are no numbers.
pub proof fn nan_patterns_lie_beyond_infinity(bits: u32)
    ensures
        is_nan(bits) <==> (INFINITY < bits < 0x8000_0000) || NEG_INFINITY < bits,
        is_nan(bits) ==> rank(bits) < rank(NEG_INFINITY),
{
}

/// The next exponent doubles a number, and the smallest patterns count up from zero.
pub proof fn exponents_double(bits: u32)
    requires
        0x80_0000 <= bits < 0x7f00_0000,
    ensures
        value((bits + 0x80_0000) as u32) == 2 * value(bits),
{
    let e = (bits / 0x80_0000) as int;
    let f = (bits % 0x80_0000) as int;
    let next = (bits + 0x80_0000) as u32;
    assert(next / 0x80_0000 == e + 1);
    assert(next % 0x80_0000 == f);
    lemma_pow2_unfold(e as nat);
    let p = pow2((e - 1) as nat) as int;
    assert((0x80_0000 + f) * (2 * p) == 2 * ((0x80_0000 + f) * p)) by (nonlinear_arith);
}

/// Patterns without an exponent count up from zero in the unit, and so do the next ones.
pub proof fn small_patterns_count(bits: u32)
    requires
        bits < 0x100_0000,
    ensures
        value(bits) == bits,
{
    vstd::arithmetic::power2::lemma2_to64();
    let m = bits as int;
    assert(magnitude(bits) == m);
    if bits >= 0x80_0000 {
        assert(m / 0x80_0000 == 1);
        assert(m % 0x80_0000 == m - 0x80_0000);
        assert((0x80_0000 + m % 0x80_0000) * pow2(0) == m) by (nonlinear_arith)
            requires
                pow2(0) == 1,
                m % 0x80_0000 == m - 0x80_0000,
        ;
    } else {
        assert(m / 0x80_0000 == 0);
        assert(m % 0x80_0000 == m);
    }
}

/// What a pattern with an exponent denotes.
pub proof fn exponents_scale_fractions(bits: u32, exponent: nat, fraction: int)
    requires
        exponent > 0,
        0 <= fraction < 0x80_0000,
        bits < 0x8000_0000,
        bits == exponent * 0x80_0000 + fraction,
    ensures
        value(bits) == (0x80_0000 + fraction) * pow2((exponent - 1) as nat),
{
    assert(bits as int / 0x80_0000 == exponent);
    assert(bits as int % 0x80_0000 == fraction);
}

} // verus!
