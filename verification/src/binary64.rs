//! IEEE 754 binary64 numbers, handled as their 64-bit patterns.
//!
//! Everything that can be decided from the pattern alone lives here: the class
//! of a value (NaN, infinite, finite, zero), its sign and magnitude, the order
//! of two values, and clamping to the unit interval. Nothing in this module
//! rounds, so every result is exact.
//!
//! A finite pattern denotes the number `scaled_value(x) / 2^1074`; the order
//! that this module computes is proved to be the order of those numbers.

use vstd::arithmetic::power2::*;
use vstd::prelude::*;

verus! {

/// The sign bit; also the pattern of `-0.0`.
pub const SIGN_BIT: u64 = 0x8000_0000_0000_0000;

/// The pattern of `+0.0`.
pub const ZERO: u64 = 0;

/// The pattern of `1.0`.
pub const ONE: u64 = 0x3FF0_0000_0000_0000;

/// The pattern of `-1.0`.
pub const NEGATIVE_ONE: u64 = 0xBFF0_0000_0000_0000;

/// The pattern of positive infinity: every larger magnitude is a NaN.
pub const INFINITY: u64 = 0x7FF0_0000_0000_0000;

/// The pattern of negative infinity.
pub const NEGATIVE_INFINITY: u64 = 0xFFF0_0000_0000_0000;

/// Two to the power 52: the weight of the significand's implicit leading
/// bit, and the step from one exponent to the next.
pub const HIDDEN_BIT: u64 = 0x0010_0000_0000_0000;

/// The pattern with the sign bit cleared.
pub open spec fn magnitude(x: u64) -> u64 {
    if x >= SIGN_BIT {
        (x - SIGN_BIT) as u64
    } else {
        x
    }
}

/// The sign bit is set (true of `-0.0` and of half the NaNs as well).
pub open spec fn negative(x: u64) -> bool {
    x >= SIGN_BIT
}

/// The pattern with the sign bit flipped.
pub open spec fn negation(x: u64) -> u64 {
    if x >= SIGN_BIT {
        (x - SIGN_BIT) as u64
    } else {
        (x + SIGN_BIT) as u64
    }
}

/// Not a number: the exponent field is all ones and the fraction is not zero.
pub open spec fn nan(x: u64) -> bool {
    magnitude(x) > INFINITY
}

/// Positive or negative infinity.
pub open spec fn infinite(x: u64) -> bool {
    magnitude(x) == INFINITY
}

/// Zero, subnormal or normal.
pub open spec fn finite(x: u64) -> bool {
    magnitude(x) < INFINITY
}

/// `+0.0` or `-0.0`: exactly the patterns that compare equal to zero.
pub open spec fn zero(x: u64) -> bool {
    magnitude(x) == 0
}

/// Position of a pattern on the number line of all non-NaN patterns: the
/// magnitude, counted downwards from zero for negative patterns. Both zeros
/// share position 0.
pub open spec fn rank(x: u64) -> int {
    if negative(x) {
        -(magnitude(x) as int)
    } else {
        magnitude(x) as int
    }
}

/// The comparison `a < b` of IEEE 754: false whenever a NaN is involved.
pub open spec fn below(a: u64, b: u64) -> bool {
    !nan(a) && !nan(b) && rank(a) < rank(b)
}

/// The larger of two values, ignoring a NaN: if one argument is a NaN the
/// other is chosen; of two values that compare equal, the first.
pub open spec fn greater_of(a: u64, b: u64) -> u64 {
    if nan(a) {
        b
    } else if nan(b) {
        a
    } else if below(a, b) {
        b
    } else {
        a
    }
}

/// A value repaired and confined to `[-1, 1]`: NaN and the infinities become
/// `+0.0`, a finite value outside the interval becomes the nearer bound, and
/// a value inside it is kept bit for bit.
pub open spec fn sanitized(x: u64) -> u64 {
    if !finite(x) {
        ZERO
    } else if below(x, NEGATIVE_ONE) {
        NEGATIVE_ONE
    } else if below(ONE, x) {
        ONE
    } else {
        x
    }
}

/// The number that a magnitude `m` below `INFINITY` denotes, in units of
/// `2^-1074` (the smallest subnormal): the fraction alone where the exponent
/// field is zero, else the fraction with its hidden bit, shifted.
pub open spec fn scaled_magnitude(m: u64) -> int {
    let exponent = m / HIDDEN_BIT;
    let fraction = m % HIDDEN_BIT;
    if exponent == 0 {
        fraction as int
    } else {
        (HIDDEN_BIT + fraction) * pow2((exponent - 1) as nat)
    }
}

/// The number that a finite pattern denotes, in units of `2^-1074`.
pub open spec fn scaled_value(x: u64) -> int {
    if negative(x) {
        -scaled_magnitude(magnitude(x))
    } else {
        scaled_magnitude(magnitude(x))
    }
}

/// An integer confined to `[low, high]`.
pub open spec fn confined(v: int, low: int, high: int) -> int {
    if v < low {
        low
    } else if v > high {
        high
    } else {
        v
    }
}

/// The absolute value: the sign bit cleared.
pub fn abs(x: u64) -> (r: u64)
    ensures
        r == magnitude(x),
{
    if x >= SIGN_BIT {
        x - SIGN_BIT
    } else {
        x
    }
}

/// The negated value: the sign bit flipped.
pub fn neg(x: u64) -> (r: u64)
    ensures
        r == negation(x),
{
    if x >= SIGN_BIT {
        x - SIGN_BIT
    } else {
        x + SIGN_BIT
    }
}

/// Whether `x` is a NaN.
pub fn is_nan(x: u64) -> (r: bool)
    ensures
        r == nan(x),
{
    abs(x) > INFINITY
}

/// Whether `x` is positive or negative infinity.
pub fn is_infinite(x: u64) -> (r: bool)
    ensures
        r == infinite(x),
{
    abs(x) == INFINITY
}

/// Whether `x` compares equal to zero.
pub fn is_zero(x: u64) -> (r: bool)
    ensures
        r == zero(x),
{
    abs(x) == 0
}

/// Decides `a < b`.
pub fn lt(a: u64, b: u64) -> (r: bool)
    ensures
        r == below(a, b),
{
    if is_nan(a) || is_nan(b) {
        return false;
    }
    let ma: u64 = abs(a);
    let mb: u64 = abs(b);
    if a >= SIGN_BIT {
        if b >= SIGN_BIT {
            ma > mb
        } else {
            ma > 0 || mb > 0
        }
    } else {
        if b >= SIGN_BIT {
            false
        } else {
            ma < mb
        }
    }
}

/// The larger of `a` and `b`, ignoring a NaN.
pub fn max(a: u64, b: u64) -> (r: u64)
    ensures
        r == greater_of(a, b),
{
    if is_nan(a) {
        b
    } else if is_nan(b) {
        a
    } else if lt(a, b) {
        b
    } else {
        a
    }
}

/// Repairs one value and confines it to `[-1, 1]`.
pub fn clamp_unit(x: u64) -> (r: u64)
    ensures
        r == sanitized(x),
{
    if is_nan(x) || is_infinite(x) {
        ZERO
    } else if lt(x, NEGATIVE_ONE) {
        NEGATIVE_ONE
    } else if lt(ONE, x) {
        ONE
    } else {
        x
    }
}

proof fn lemma_scaled_magnitude_bounds(m: u64)
    requires
        m < INFINITY,
    ensures
        m / HIDDEN_BIT == 0 ==> scaled_magnitude(m) == m,
        m / HIDDEN_BIT >= 1 ==> HIDDEN_BIT * pow2((m / HIDDEN_BIT - 1) as nat) <= scaled_magnitude(
            m,
        ) < HIDDEN_BIT * pow2((m / HIDDEN_BIT) as nat),
{
    let exponent = m / HIDDEN_BIT;
    let fraction = m % HIDDEN_BIT;
    if exponent >= 1 {
        let p = pow2((exponent - 1) as nat) as int;
        lemma_pow2_pos((exponent - 1) as nat);
        lemma_pow2_unfold(exponent as nat);
        assert(HIDDEN_BIT * p <= (HIDDEN_BIT + fraction) * p < HIDDEN_BIT * (2 * p))
            by (nonlinear_arith)
            requires
                0 <= fraction < HIDDEN_BIT,
                p > 0,
        ;
    }
}

/// A smaller magnitude denotes a smaller number.
proof fn lemma_scaled_magnitude_increases(m1: u64, m2: u64)
    requires
        m1 < m2 < INFINITY,
    ensures
        scaled_magnitude(m1) < scaled_magnitude(m2),
{
    let e1 = m1 / HIDDEN_BIT;
    let e2 = m2 / HIDDEN_BIT;
    let f1 = m1 % HIDDEN_BIT;
    let f2 = m2 % HIDDEN_BIT;
    lemma_scaled_magnitude_bounds(m1);
    lemma_scaled_magnitude_bounds(m2);
    if e1 == e2 {
        if e1 >= 1 {
            let p = pow2((e1 - 1) as nat) as int;
            lemma_pow2_pos((e1 - 1) as nat);
            assert((HIDDEN_BIT + f1) * p < (HIDDEN_BIT + f2) * p) by (nonlinear_arith)
                requires
                    f1 < f2,
                    p > 0,
            ;
        }
    } else {
        assert(e1 < e2);
        let low = pow2((e2 - 1) as nat) as int;
        lemma_pow2_pos((e2 - 1) as nat);
        if e1 >= 1 {
            let high = pow2(e1 as nat) as int;
            if e1 < e2 - 1 {
                lemma_pow2_strictly_increases(e1 as nat, (e2 - 1) as nat);
            }
            assert(HIDDEN_BIT * high <= HIDDEN_BIT * low) by (nonlinear_arith)
                requires
                    high <= low,
            ;
        } else {
            assert(HIDDEN_BIT * 1 <= HIDDEN_BIT * low) by (nonlinear_arith)
                requires
                    1 <= low,
            ;
        }
    }
}

/// The order on patterns is the order of the numbers they denote: for finite
/// `a` and `b`, `a < b` holds exactly when `a` denotes the smaller number.
pub proof fn lemma_order_is_numeric(a: u64, b: u64)
    requires
        finite(a),
        finite(b),
    ensures
        below(a, b) <==> scaled_value(a) < scaled_value(b),
        rank(a) == rank(b) <==> scaled_value(a) == scaled_value(b),
{
    let ma = magnitude(a);
    let mb = magnitude(b);
    lemma_scaled_magnitude_bounds(ma);
    lemma_scaled_magnitude_bounds(mb);
    if ma < mb {
        lemma_scaled_magnitude_increases(ma, mb);
    } else if mb < ma {
        lemma_scaled_magnitude_increases(mb, ma);
    }
    lemma_scaled_magnitude_increases_from_zero(ma);
    lemma_scaled_magnitude_increases_from_zero(mb);
}

proof fn lemma_scaled_magnitude_increases_from_zero(m: u64)
    requires
        m < INFINITY,
    ensures
        scaled_magnitude(m) >= 0,
        scaled_magnitude(m) == 0 <==> m == 0,
{
    if m > 0 {
        lemma_scaled_magnitude_increases(0, m);
    }
}

/// `1.0` denotes `2^1074` units, and `-1.0` the opposite.
pub proof fn lemma_scaled_one()
    ensures
        scaled_value(ONE) == pow2(1074),
        scaled_value(NEGATIVE_ONE) == -pow2(1074),
{
    assert(ONE / HIDDEN_BIT == 1023 && ONE % HIDDEN_BIT == 0);
    assert(magnitude(NEGATIVE_ONE) == ONE);
    lemma_pow2_adds(52, 1022);
    lemma2_to64_rest();
}

/// Sanitizing maps NaN and both infinities to `+0.0`, and a finite value to
/// the value of the same number confined to `[-1, 1]`; a value already inside
/// the interval keeps its pattern.
pub proof fn lemma_sanitized_is_clamp(x: u64)
    ensures
        nan(x) || infinite(x) ==> sanitized(x) == ZERO,
        finite(sanitized(x)),
        finite(x) ==> scaled_value(sanitized(x)) == confined(
            scaled_value(x),
            -pow2(1074),
            pow2(1074) as int,
        ),
        finite(x) && -pow2(1074) <= scaled_value(x) <= pow2(1074) ==> sanitized(x) == x,
{
    lemma_scaled_one();
    if finite(x) {
        lemma_order_is_numeric(x, ONE);
        lemma_order_is_numeric(ONE, x);
        lemma_order_is_numeric(x, NEGATIVE_ONE);
        lemma_order_is_numeric(NEGATIVE_ONE, x);
    }
}

} // verus!
