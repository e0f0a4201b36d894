//! Numbers.  A number is an IEEE 754 binary64 value, held as its 64 bits:
//! one sign bit, eleven exponent bits, fifty-two fraction bits.  This module
//! decides what can be decided on the bits alone (sign, order, whether a
//! value is a whole number); arithmetic is left to the host.

use vstd::prelude::*;
use vstd::arithmetic::power2::{
    lemma2_to64, lemma2_to64_rest, lemma_pow2_adds, lemma_pow2_pos, lemma_pow2_strictly_increases,
    lemma_pow2_unfold, pow2,
};

verus! {

/// The sign bit.
pub const SIGN: u64 = 0x8000_0000_0000_0000;

/// The least significant exponent bit.
pub const HIDDEN: u64 = 0x0010_0000_0000_0000;

/// Positive infinity.  Greater magnitudes are not numbers (NaN).
pub const INFINITY: u64 = 0x7FF0_0000_0000_0000;

/// Negative infinity.
pub const NEG_INFINITY: u64 = 0xFFF0_0000_0000_0000;

/// The number 0.
pub const ZERO: u64 = 0;

/// The number 1.
pub const ONE: u64 = 0x3FF0_0000_0000_0000;

/// The number -1.
pub const MINUS_ONE: u64 = 0xBFF0_0000_0000_0000;

/// The number 200.
pub const TWO_HUNDRED: u64 = 0x4069_0000_0000_0000;

/// The binary64 value nearest to the circle constant.
pub const PI: u64 = 0x4009_21FB_5444_2D18;

/// The binary64 value nearest to Euler's number.
pub const E: u64 = 0x4005_BF0A_8B14_5769;

/// Whether the sign bit is set.
pub open spec fn is_negative(bits: u64) -> bool {
    bits >= SIGN
}

/// The bits without the sign bit.
pub open spec fn magnitude(bits: u64) -> u64 {
    if bits >= SIGN {
        (bits - SIGN) as u64
    } else {
        bits
    }
}

/// Whether the bits hold no number.
pub open spec fn is_nan(bits: u64) -> bool {
    magnitude(bits) > INFINITY
}

/// Whether the bits hold zero, of either sign.
pub open spec fn is_zero(bits: u64) -> bool {
    magnitude(bits) == 0
}

/// The place of a number in the order of all numbers: the greater value
/// has the greater rank ([`lemma_rank_orders_values`]), the infinities
/// stand at the ends, and the two zeros share rank 0.
pub open spec fn rank(bits: u64) -> int {
    if is_negative(bits) {
        -(magnitude(bits) as int)
    } else {
        magnitude(bits) as int
    }
}

/// `a < b`, which is false when either holds no number.
pub open spec fn less(a: u64, b: u64) -> bool {
    !is_nan(a) && !is_nan(b) && rank(a) < rank(b)
}

/// `a <= b`, which is false when either holds no number.
pub open spec fn at_most(a: u64, b: u64) -> bool {
    !is_nan(a) && !is_nan(b) && rank(a) <= rank(b)
}

/// The value with the opposite sign.
pub open spec fn negated(bits: u64) -> u64 {
    if bits >= SIGN {
        (bits - SIGN) as u64
    } else {
        (bits + SIGN) as u64
    }
}

/// The greater of two values; where one holds no number, the other.
pub open spec fn maximum(a: u64, b: u64) -> u64 {
    if is_nan(a) {
        b
    } else if is_nan(b) {
        a
    } else if rank(a) < rank(b) {
        b
    } else {
        a
    }
}

/// The lesser of two values; where one holds no number, the other.
pub open spec fn minimum(a: u64, b: u64) -> u64 {
    if is_nan(a) {
        b
    } else if is_nan(b) {
        a
    } else if rank(b) < rank(a) {
        b
    } else {
        a
    }
}

/// The whole number that the bits hold, if they hold one that is not
/// negative ([`lemma_whole_is_the_value`]).  A value with biased exponent
/// `e` above 0 and fraction `f` is `(2^52 + f) * 2^(e - 1075)`.
pub open spec fn whole(bits: u64) -> Option<nat> {
    let m = magnitude(bits);
    let exponent = m / HIDDEN;
    let significand = (HIDDEN + m % HIDDEN) as nat;
    if m == 0 {
        Some(0)
    } else if is_negative(bits) || m >= INFINITY || exponent < 1023 {
        None
    } else if exponent >= 1075 {
        Some(significand * pow2((exponent - 1075) as nat))
    } else if significand % pow2((1075 - exponent) as nat) == 0 {
        Some(significand / pow2((1075 - exponent) as nat))
    } else {
        None
    }
}

/// Whether the bits hold a number other than an infinity.
pub open spec fn is_finite(bits: u64) -> bool {
    magnitude(bits) < INFINITY
}

/// The exponent field.
pub open spec fn exponent(bits: u64) -> nat {
    (magnitude(bits) / HIDDEN) as nat
}

/// The fraction field.
pub open spec fn fraction(bits: u64) -> nat {
    (magnitude(bits) % HIDDEN) as nat
}

/// The absolute value of a finite number, in units of `2^-1074`: the
/// fraction alone where the exponent field is 0, and else the fraction
/// with a leading one, times `2^(exponent - 1)`.
pub open spec fn size(bits: u64) -> nat {
    if exponent(bits) == 0 {
        fraction(bits)
    } else {
        ((HIDDEN + fraction(bits)) * pow2((exponent(bits) - 1) as nat)) as nat
    }
}

/// The value of a finite number, in units of `2^-1074`.
pub open spec fn value(bits: u64) -> int {
    if is_negative(bits) {
        -(size(bits) as int)
    } else {
        size(bits) as int
    }
}

/// Among finite numbers without their signs, the greater bits hold the
/// greater value.
pub proof fn lemma_size_grows_with_magnitude(a: u64, b: u64)
    requires
        is_finite(a),
        is_finite(b),
        magnitude(a) < magnitude(b),
    ensures
        size(a) < size(b),
{
    let ea = exponent(a);
    let fa = fraction(a);
    let eb = exponent(b);
    let fb = fraction(b);
    let h = HIDDEN as nat;
    assert(magnitude(a) == ea * h + fa && fa < h && magnitude(b) == eb * h + fb && fb < h);
    assert(ea <= eb) by (nonlinear_arith)
        requires
            ea * h + fa < eb * h + fb,
            fa < h,
            fb < h,
    ;
    if ea == eb {
        assert(fa < fb) by (nonlinear_arith)
            requires
                ea * h + fa < eb * h + fb,
                ea == eb,
        ;
        if ea > 0 {
            let p = pow2((ea - 1) as nat);
            lemma_pow2_pos((ea - 1) as nat);
            assert((h + fa) * p < (h + fb) * p) by (nonlinear_arith)
                requires
                    fa < fb,
                    p > 0,
            ;
        }
    } else {
        let q = pow2((eb - 1) as nat);
        lemma_pow2_pos((eb - 1) as nat);
        assert(h * q <= (h + fb) * q) by (nonlinear_arith);
        if ea == 0 {
            assert(h <= h * q) by (nonlinear_arith)
                requires
                    q > 0,
            ;
        } else {
            let p = pow2((ea - 1) as nat);
            lemma_pow2_pos((ea - 1) as nat);
            lemma_pow2_unfold(ea);
            if ea < eb - 1 {
                lemma_pow2_strictly_increases(ea, (eb - 1) as nat);
            }
            assert(pow2(ea) <= q);
            assert((h + fa) * p < h * (2 * p)) by (nonlinear_arith)
                requires
                    fa < h,
                    p > 0,
            ;
            assert(h * (2 * p) <= h * q) by (nonlinear_arith)
                requires
                    2 * p <= q,
            ;
        }
    }
}

/// The rank orders the finite numbers as their values do.
pub proof fn lemma_rank_orders_values(a: u64, b: u64)
    requires
        is_finite(a),
        is_finite(b),
    ensures
        rank(a) < rank(b) <==> value(a) < value(b),
        rank(a) == rank(b) <==> value(a) == value(b),
{
    lemma_size_is_zero_for_zero(a);
    lemma_size_is_zero_for_zero(b);
    if magnitude(a) < magnitude(b) {
        lemma_size_grows_with_magnitude(a, b);
    } else if magnitude(b) < magnitude(a) {
        lemma_size_grows_with_magnitude(b, a);
    } else {
        assert(size(a) == size(b));
    }
}

/// The value of a finite number is zero for the two zeros and for no other
/// number.
pub proof fn lemma_size_is_zero_for_zero(bits: u64)
    requires
        is_finite(bits),
    ensures
        size(bits) == 0 <==> magnitude(bits) == 0,
{
    let e = exponent(bits);
    let f = fraction(bits);
    let h = HIDDEN as nat;
    assert(magnitude(bits) == e * h + f);
    if e > 0 {
        let p = pow2((e - 1) as nat);
        lemma_pow2_pos((e - 1) as nat);
        assert((h + f) * p > 0) by (nonlinear_arith)
            requires
                h > 0,
                p > 0,
        ;
        assert(e * h + f > 0) by (nonlinear_arith)
            requires
                e > 0,
                h > 0,
        ;
    }
}

/// A finite number holds the whole number `k` exactly where its value is
/// `k`, that is `k * 2^1074` units.
pub proof fn lemma_whole_is_the_value(bits: u64, k: nat)
    requires
        is_finite(bits),
    ensures
        whole(bits) == Some(k) <==> (value(bits) == k * pow2(1074) && (k == 0 || !is_negative(
            bits,
        ))),
{
    let e = exponent(bits);
    let f = fraction(bits);
    let h = HIDDEN as nat;
    let m = h + f;
    let unit = pow2(1074);
    lemma2_to64();
    lemma2_to64_rest();
    lemma_pow2_pos(1074);
    lemma_size_is_zero_for_zero(bits);
    assert(magnitude(bits) == e * h + f && f < h);
    assert(e < 2047) by (nonlinear_arith)
        requires
            e * h + f < 0x7FF0_0000_0000_0000,
            h == 0x0010_0000_0000_0000,
    ;
    if magnitude(bits) == 0 {
        assert(k * unit == 0 <==> k == 0) by (nonlinear_arith)
            requires
                unit > 0,
        ;
    } else if is_negative(bits) {
        assert(k * unit >= 0) by (nonlinear_arith)
            requires
                unit > 0,
        ;
    } else if e == 0 {
        // below the least normal number, and so below one
        assert(k * unit == 0 || k * unit >= unit) by (nonlinear_arith)
            requires
                unit > 0,
        ;
        lemma_pow2_strictly_increases(52, 1074);
    } else {
        let p = pow2((e - 1) as nat);
        lemma_pow2_pos((e - 1) as nat);
        if e >= 1075 {
            let q = pow2((e - 1075) as nat);
            lemma_pow2_adds((e - 1075) as nat, 1074);
            assert(m * (q * unit) == (m * q) * unit) by (nonlinear_arith);
            assert((m * q) * unit == k * unit <==> m * q == k) by (nonlinear_arith)
                requires
                    unit > 0,
            ;
        } else {
            let q = pow2((1075 - e) as nat);
            lemma_pow2_pos((1075 - e) as nat);
            lemma_pow2_adds((1075 - e) as nat, (e - 1) as nat);
            assert(q * p == unit);
            // m * p == k * q * p  exactly where  m == k * q
            assert(m * p == k * unit <==> m == k * q) by (nonlinear_arith)
                requires
                    q * p == unit,
                    p > 0,
            ;
            if e < 1023 {
                // m < 2^53 <= q, so m is no multiple of q but zero
                if e < 1022 {
                    lemma_pow2_strictly_increases(53, (1075 - e) as nat);
                }
                assert(m < pow2(53) <= q);
                assert(m == k * q ==> k == 0) by (nonlinear_arith)
                    requires
                        m < q,
                        q > 0,
                ;
            } else if m % q == 0 {
                assert(m == k * q <==> m / q == k) by (nonlinear_arith)
                    requires
                        m % q == 0,
                        q > 0,
                ;
            } else {
                assert(m != k * q) by (nonlinear_arith)
                    requires
                        m % q != 0,
                        q > 0,
                ;
            }
        }
    }
}

/// A value with biased exponent `exponent` and fraction `fraction` whose
/// significand is `n` units of `2^shift` holds the whole number `n`.
pub proof fn lemma_decode(bits: u64, exponent: nat, fraction: nat, shift: nat, unit: nat, n: nat)
    requires
        bits == exponent * HIDDEN + fraction,
        fraction < HIDDEN,
        1023 <= exponent < 1075,
        shift == 1075 - exponent,
        unit == pow2(shift),
        HIDDEN + fraction == n * unit,
    ensures
        whole(bits) == Some(n),
{
    lemma_pow2_pos(shift);
    lemma_fields(bits, exponent, fraction);
    assert((n * unit) % unit == 0 && (n * unit) / unit == n) by (nonlinear_arith)
        requires
            unit >= 1,
    ;
}

/// A value with biased exponent `exponent` of at least 1075 holds its
/// significand times `2^(exponent - 1075)`.
pub proof fn lemma_decode_large(
    bits: u64,
    exponent: nat,
    fraction: nat,
    shift: nat,
    unit: nat,
    n: nat,
)
    requires
        bits == exponent * HIDDEN + fraction,
        fraction < HIDDEN,
        1075 <= exponent < 2047,
        shift == exponent - 1075,
        unit == pow2(shift),
        (HIDDEN + fraction) * unit == n,
    ensures
        whole(bits) == Some(n),
{
    lemma_fields(bits, exponent, fraction);
}

/// The fields of a positive finite value.
pub proof fn lemma_fields(bits: u64, exponent: nat, fraction: nat)
    requires
        bits == exponent * HIDDEN + fraction,
        fraction < HIDDEN,
        1 <= exponent < 2047,
    ensures
        0 < bits < INFINITY,
        bits / HIDDEN == exponent,
        bits % HIDDEN == fraction,
{
    assert(0 < bits < INFINITY) by (nonlinear_arith)
        requires
            bits == exponent * HIDDEN + fraction,
            fraction < HIDDEN,
            1 <= exponent < 2047,
            HIDDEN == 0x0010_0000_0000_0000,
            INFINITY == 0x7FF0_0000_0000_0000,
    ;
    assert(bits / HIDDEN == exponent && bits % HIDDEN == fraction) by (nonlinear_arith)
        requires
            bits == exponent * HIDDEN + fraction,
            fraction < HIDDEN,
            HIDDEN == 0x0010_0000_0000_0000,
    ;
}

/// The constants hold the numbers they are named after.
pub proof fn lemma_constants_hold_their_values()
    ensures
        whole(ZERO) == Some(0nat),
        whole(ONE) == Some(1nat),
        whole(TWO_HUNDRED) == Some(200nat),
        value(ONE) == pow2(1074),
        value(MINUS_ONE) == -value(ONE),
        value(TWO_HUNDRED) == 200 * pow2(1074),
        is_finite(PI) && is_finite(E) && !is_negative(PI) && !is_negative(E),
        !is_finite(INFINITY) && !is_nan(INFINITY) && !is_finite(NEG_INFINITY) && !is_nan(
            NEG_INFINITY,
        ),
        rank(NEG_INFINITY) < rank(INFINITY),
{
    lemma2_to64();
    lemma2_to64_rest();
    lemma_decode(ONE, 1023, 0, 52, 0x10_0000_0000_0000, 1);
    lemma_decode(TWO_HUNDRED, 1030, 0x9_0000_0000_0000, 45, 0x2000_0000_0000, 200);
    lemma_whole_is_the_value(ONE, 1);
    lemma_whole_is_the_value(TWO_HUNDRED, 200);
    assert(magnitude(MINUS_ONE) == ONE);
}

/// Whether the sign bit is set.
pub fn is_negative_bits(bits: u64) -> (r: bool)
    ensures
        r == is_negative(bits),
{
    bits >= SIGN
}

/// The absolute value: the bits without the sign bit.
pub fn magnitude_of(bits: u64) -> (r: u64)
    ensures
        r == magnitude(bits),
{
    if bits >= SIGN {
        bits - SIGN
    } else {
        bits
    }
}

/// Whether the bits hold no number.
pub fn is_nan_bits(bits: u64) -> (r: bool)
    ensures
        r == is_nan(bits),
{
    magnitude_of(bits) > INFINITY
}

/// Whether the bits hold zero, of either sign.
pub fn is_zero_bits(bits: u64) -> (r: bool)
    ensures
        r == is_zero(bits),
{
    magnitude_of(bits) == 0
}

/// Whether `rank(a) < rank(b)`.
fn rank_below(a: u64, b: u64) -> (r: bool)
    ensures
        r == (rank(a) < rank(b)),
{
    let ma = magnitude_of(a);
    let mb = magnitude_of(b);
    if a >= SIGN {
        if b >= SIGN {
            mb < ma
        } else {
            ma > 0 || mb > 0
        }
    } else {
        if b >= SIGN {
            false
        } else {
            ma < mb
        }
    }
}

/// `a < b`, which is false when either holds no number.
pub fn less_than(a: u64, b: u64) -> (r: bool)
    ensures
        r == less(a, b),
{
    !is_nan_bits(a) && !is_nan_bits(b) && rank_below(a, b)
}

/// `a <= b`, which is false when either holds no number.
pub fn at_most_bits(a: u64, b: u64) -> (r: bool)
    ensures
        r == at_most(a, b),
{
    !is_nan_bits(a) && !is_nan_bits(b) && !rank_below(b, a)
}

/// The value with the opposite sign.
pub fn negate(bits: u64) -> (r: u64)
    ensures
        r == negated(bits),
{
    if bits >= SIGN {
        bits - SIGN
    } else {
        bits + SIGN
    }
}

/// The greater of two values; where one holds no number, the other.
pub fn max_of(a: u64, b: u64) -> (r: u64)
    ensures
        r == maximum(a, b),
{
    if is_nan_bits(a) {
        b
    } else if is_nan_bits(b) {
        a
    } else if rank_below(a, b) {
        b
    } else {
        a
    }
}

/// The lesser of two values; where one holds no number, the other.
pub fn min_of(a: u64, b: u64) -> (r: u64)
    ensures
        r == minimum(a, b),
{
    if is_nan_bits(a) {
        b
    } else if is_nan_bits(b) {
        a
    } else if rank_below(b, a) {
        b
    } else {
        a
    }
}

/// `2^n`.
fn power_of_two(n: u64) -> (r: u64)
    requires
        n <= 52,
    ensures
        r == pow2(n as nat),
        1 <= r <= HIDDEN,
{
    let mut r: u64 = 1;
    let mut i: u64 = 0;
    proof {
        lemma2_to64();
        lemma2_to64_rest();
    }
    while i < n
        invariant
            i <= n <= 52,
            r == pow2(i as nat),
            r * pow2((52 - i) as nat) == HIDDEN,
        decreases n - i,
    {
        proof {
            lemma_pow2_unfold((i + 1) as nat);
            lemma_pow2_unfold((52 - i) as nat);
            lemma_pow2_pos((52 - i - 1) as nat);
            assert(r * (2 * pow2((52 - i - 1) as nat)) == (2 * r) * pow2((52 - i - 1) as nat))
                by (nonlinear_arith);
            assert(2 * r <= (2 * r) * pow2((52 - i - 1) as nat)) by (nonlinear_arith)
                requires
                    pow2((52 - i - 1) as nat) >= 1,
            ;
        }
        r = 2 * r;
        i += 1;
    }
    proof {
        lemma_pow2_pos(n as nat);
        lemma_pow2_pos((52 - n) as nat);
        assert(r <= r * pow2((52 - n) as nat)) by (nonlinear_arith)
            requires
                pow2((52 - n) as nat) >= 1,
        ;
    }
    r
}

/// What [`whole_number`] finds in a value.
#[derive(Debug, Clone, Copy, PartialEq, Eq, Structural)]
pub enum Whole {
    /// Negative, not finite, or with a fractional part.
    No,
    /// A whole number of at most `limit`.
    Small(u64),
    /// A whole number above `limit`.
    Large,
}

/// Whether `bits` holds a whole number that is not negative, and which one
/// if it is at most `limit`.
pub fn whole_number(bits: u64, limit: u64) -> (r: Whole)
    requires
        limit < HIDDEN,
    ensures
        r == match whole(bits) {
            None => Whole::No,
            Some(k) => if k <= limit {
                Whole::Small(k as u64)
            } else {
                Whole::Large
            },
        },
{
    let m = magnitude_of(bits);
    if m == 0 {
        return Whole::Small(0);
    }
    if bits >= SIGN || m >= INFINITY {
        return Whole::No;
    }
    let exponent = m / HIDDEN;
    let significand = HIDDEN + m % HIDDEN;
    if exponent < 1023 {
        Whole::No
    } else if exponent >= 1075 {
        proof {
            lemma_pow2_pos((exponent - 1075) as nat);
            assert(significand * pow2((exponent - 1075) as nat) >= significand)
                by (nonlinear_arith)
                requires
                    pow2((exponent - 1075) as nat) >= 1,
            ;
        }
        Whole::Large
    } else {
        let unit = power_of_two(1075 - exponent);
        if significand % unit == 0 {
            let k = significand / unit;
            if k <= limit {
                Whole::Small(k)
            } else {
                Whole::Large
            }
        } else {
            Whole::No
        }
    }
}

} // verus!
