//! Lox numbers: IEEE 754 doubles, held as their 64-bit patterns.
//!
//! What can be said of a double by looking at its bits is decided here:
//! equality, order, negation, and the doubles that stand for a truth value
//! or a length. Sums, products and quotients are left to the host.

use vstd::prelude::*;
use vstd::arithmetic::power2::{lemma2_to64, lemma2_to64_rest, lemma_pow2_pos, lemma_pow2_unfold, pow2};
use vstd::arithmetic::div_mod::lemma_div_denominator;

verus! {

/// The sign bit.
pub const SIGN: u64 = 0x8000_0000_0000_0000;

/// Positive infinity; every larger magnitude is a NaN.
pub const INFINITY: u64 = 0x7FF0_0000_0000_0000;

/// The double 0.0.
pub const ZERO: u64 = 0;

/// The double 1.0.
pub const ONE: u64 = 0x3FF0_0000_0000_0000;

/// The least significand of a normal double with its hidden bit: 2^52.
pub const HIDDEN: u64 = 0x0010_0000_0000_0000;

/// The bits without the sign.
pub open spec fn magnitude(bits: u64) -> int {
    if bits >= SIGN {
        bits - SIGN
    } else {
        bits as int
    }
}

/// Not a number: an all-ones exponent with a nonzero fraction.
pub open spec fn nan(bits: u64) -> bool {
    magnitude(bits) > INFINITY
}

/// Where a double that is no NaN stands in the order of doubles: doubles
/// compare as these integers do. Both zeros stand at 0.
pub open spec fn ordinal(bits: u64) -> int {
    if bits >= SIGN {
        -magnitude(bits)
    } else {
        magnitude(bits)
    }
}

/// IEEE equality: a NaN equals nothing, itself included; the two zeros are
/// equal.
pub open spec fn same(a: u64, b: u64) -> bool {
    !nan(a) && !nan(b) && ordinal(a) == ordinal(b)
}

/// IEEE `<`: false where either side is a NaN.
pub open spec fn below(a: u64, b: u64) -> bool {
    !nan(a) && !nan(b) && ordinal(a) < ordinal(b)
}

/// The double with the other sign.
pub open spec fn opposite(bits: u64) -> u64 {
    if bits >= SIGN {
        (bits - SIGN) as u64
    } else {
        (bits + SIGN) as u64
    }
}

/// `bits` is the double nearest to the natural number `n`, the one with
/// the even significand where two are equally near. A double with
/// exponent field `e` and 53-bit significand `m` has the value
/// `m * 2^(e - 1075)`, and its bits are `e * 2^52 + (m - 2^52)`.
pub open spec fn nearest(n: nat, bits: u64) -> bool {
    if n == 0 {
        bits == ZERO
    } else if n < 2 * HIDDEN {
        exists|k: nat|
            k <= 52 && HIDDEN <= n * #[trigger] pow2(k) < 2 * HIDDEN && bits == (1075 - k) * HIDDEN
                + (n * pow2(k) - HIDDEN)
    } else {
        exists|j: nat|
            1 <= j <= 11 && HIDDEN <= n / #[trigger] pow2(j) < 2 * HIDDEN && bits == (1075 + j)
                * HIDDEN + (n / pow2(j) - HIDDEN) + round_up(n, pow2(j))
    }
}

/// Whether dropping the remainder of `n / d` rounds up: 1 where the
/// remainder is over half of `d`, or is half of it and the quotient is odd.
pub open spec fn round_up(n: nat, d: nat) -> int {
    let q = n / d;
    let r = n % d;
    if 2 * r > d || (2 * r == d && q % 2 == 1) {
        1
    } else {
        0
    }
}

pub fn is_nan(bits: u64) -> (yes: bool)
    ensures
        yes == nan(bits),
{
    let magnitude = if bits >= SIGN {
        bits - SIGN
    } else {
        bits
    };
    magnitude > INFINITY
}

/// `bits - SIGN` for a negative double, else `bits`, with a flag for the
/// sign.
fn split(bits: u64) -> (parts: (bool, u64))
    ensures
        parts.0 == (bits >= SIGN),
        parts.1 == magnitude(bits),
{
    if bits >= SIGN {
        (true, bits - SIGN)
    } else {
        (false, bits)
    }
}

pub fn equal(a: u64, b: u64) -> (yes: bool)
    ensures
        yes == same(a, b),
{
    if is_nan(a) || is_nan(b) {
        return false;
    }
    let (a_negative, a_magnitude) = split(a);
    let (b_negative, b_magnitude) = split(b);
    if a_magnitude == 0 && b_magnitude == 0 {
        true
    } else {
        a_negative == b_negative && a_magnitude == b_magnitude
    }
}

pub fn less(a: u64, b: u64) -> (yes: bool)
    ensures
        yes == below(a, b),
{
    if is_nan(a) || is_nan(b) {
        return false;
    }
    let (a_negative, a_magnitude) = split(a);
    let (b_negative, b_magnitude) = split(b);
    if a_negative {
        if b_negative {
            a_magnitude > b_magnitude
        } else {
            a_magnitude > 0 || b_magnitude > 0
        }
    } else {
        if b_negative {
            false
        } else {
            a_magnitude < b_magnitude
        }
    }
}

/// IEEE `<=`: less or equal, false where either side is a NaN.
pub fn less_equal(a: u64, b: u64) -> (yes: bool)
    ensures
        yes == (below(a, b) || same(a, b)),
{
    less(a, b) || equal(a, b)
}

pub fn negate(bits: u64) -> (negated: u64)
    ensures
        negated == opposite(bits),
{
    if bits >= SIGN {
        bits - SIGN
    } else {
        bits + SIGN
    }
}

/// 1.0 for `true`, 0.0 for `false`.
pub fn from_bool(value: bool) -> (bits: u64)
    ensures
        bits == if value {
            ONE
        } else {
            ZERO
        },
{
    if value {
        ONE
    } else {
        ZERO
    }
}

/// The double nearest to a length.
pub fn from_length(length: usize) -> (bits: u64)
    ensures
        nearest(length as nat, bits),
{
    let n = length as u64;
    if n == 0 {
        return ZERO;
    }
    proof {
        lemma2_to64();
        lemma2_to64_rest();
    }
    if n < 2 * HIDDEN {
        let mut m: u64 = n;
        let mut k: u64 = 0;
        while m < HIDDEN
            invariant
                0 < n,
                0 < m < 2 * HIDDEN,
                m == n * pow2(k as nat),
                k <= 52,
                m * pow2((52 - k) as nat) == n * HIDDEN,
            decreases 52 - k,
        {
            proof {
                lemma2_to64();
                lemma_pow2_unfold((k + 1) as nat);
                assert(n * (2 * pow2(k as nat)) == 2 * (n * pow2(k as nat))) by (nonlinear_arith);
                assert(k < 52) by {
                    if k == 52 {
                        assert(m * 1 == m);
                        assert(n * HIDDEN >= HIDDEN) by (nonlinear_arith)
                            requires
                                n >= 1,
                        ;
                    }
                }
                lemma_pow2_unfold((52 - k) as nat);
                assert(m * (2 * pow2((51 - k) as nat)) == (2 * m) * pow2((51 - k) as nat))
                    by (nonlinear_arith);
            }
            m = m * 2;
            k = k + 1;
        }
        (1075 - k) * HIDDEN + (m - HIDDEN)
    } else {
        let mut d: u64 = 2;
        let mut j: u64 = 1;
        proof {
            lemma_div_denominator(n as int, 1, 2);
        }
        while n / d >= 2 * HIDDEN
            invariant
                1 <= j <= 11,
                d == pow2(j as nat),
                d >= 2,
                d * pow2((11 - j) as nat) == 2048,
                n / ((d / 2) as u64) >= 2 * HIDDEN,
            decreases 11 - j,
        {
            proof {
                lemma2_to64();
                lemma_pow2_unfold((j + 1) as nat);
                assert(j < 11) by {
                    if j == 11 {
                        assert(d * 1 == d);
                        assert(n / 2048 < 2 * HIDDEN);
                    }
                }
                lemma_pow2_unfold((11 - j) as nat);
                let p = pow2((10 - j) as nat);
                lemma_pow2_pos((10 - j) as nat);
                assert(d * (2 * p) == (2 * d) * p) by (nonlinear_arith);
                assert(2 * d <= 2048) by (nonlinear_arith)
                    requires
                        (2 * d) * p == 2048,
                        p >= 1,
                        d >= 0,
                ;
            }
            d = d * 2;
            j = j + 1;
        }
        let q = n / d;
        let r = n % d;
        proof {
            let half = (d / 2) as int;
            assert(half * 2 == d) by {
                lemma_pow2_unfold(j as nat);
            }
            lemma_div_denominator(n as int, half, 2);
            assert(q == (n as int / half) / 2);
        }
        let up: u64 = if r > d - r || (r == d - r && q % 2 == 1) {
            1
        } else {
            0
        };
        (1075 + j) * HIDDEN + (q - HIDDEN) + up
    }
}


/// A power of two with a larger exponent is at least twice as large.
proof fn lemma_pow2_doubles(a: nat, b: nat)
    requires
        a < b,
    ensures
        2 * pow2(a) <= pow2(b),
    decreases b - a,
{
    lemma_pow2_unfold(b);
    if a + 1 < b {
        lemma_pow2_doubles(a, (b - 1) as nat);
    }
}

/// Every natural number below 2^64 has exactly one nearest double: what
/// `from_length` returns is determined by the length.
pub proof fn law_nearest_unique(n: nat, a: u64, b: u64)
    requires
        nearest(n, a),
        nearest(n, b),
    ensures
        a == b,
{
    lemma2_to64();
    lemma2_to64_rest();
    if n == 0 {
    } else if n < 2 * HIDDEN {
        let j = choose|k: nat|
            k <= 52 && HIDDEN <= n * #[trigger] pow2(k) < 2 * HIDDEN && a == (1075 - k) * HIDDEN + (
            n * pow2(k) - HIDDEN);
        let k = choose|k: nat|
            k <= 52 && HIDDEN <= n * #[trigger] pow2(k) < 2 * HIDDEN && b == (1075 - k) * HIDDEN + (
            n * pow2(k) - HIDDEN);
        if j < k {
            lemma_pow2_doubles(j, k);
            assert(n * pow2(k) >= 2 * (n * pow2(j))) by (nonlinear_arith)
                requires
                    2 * pow2(j) <= pow2(k),
                    n >= 0,
            ;
        }
        if k < j {
            lemma_pow2_doubles(k, j);
            assert(n * pow2(j) >= 2 * (n * pow2(k))) by (nonlinear_arith)
                requires
                    2 * pow2(k) <= pow2(j),
                    n >= 0,
            ;
        }
    } else {
        let j = choose|j: nat|
            1 <= j <= 11 && HIDDEN <= n / #[trigger] pow2(j) < 2 * HIDDEN && a == (1075 + j)
                * HIDDEN + (n / pow2(j) - HIDDEN) + round_up(n, pow2(j));
        let k = choose|j: nat|
            1 <= j <= 11 && HIDDEN <= n / #[trigger] pow2(j) < 2 * HIDDEN && b == (1075 + j)
                * HIDDEN + (n / pow2(j) - HIDDEN) + round_up(n, pow2(j));
        if j < k {
            lemma_quotient_halves(n, j, k);
        }
        if k < j {
            lemma_quotient_halves(n, k, j);
        }
    }
}

/// Dividing by a larger power of two gives at most half the quotient.
proof fn lemma_quotient_halves(n: nat, a: nat, b: nat)
    requires
        a < b,
    ensures
        n / pow2(b) <= (n / pow2(a)) / 2,
    decreases b - a,
{
    lemma_pow2_pos(a);
    lemma_pow2_pos((b - 1) as nat);
    lemma_pow2_unfold(b);
    lemma_div_denominator(n as int, pow2((b - 1) as nat) as int, 2);
    assert(pow2((b - 1) as nat) * 2 == pow2(b));
    assert(n / pow2(b) == (n / pow2((b - 1) as nat)) / 2);
    if a + 1 < b {
        lemma_quotient_halves(n, a, (b - 1) as nat);
    }
}

/// Doubles that are no NaN are totally ordered, and equal doubles take
/// each other's place in the order.
pub proof fn law_order(a: u64, b: u64)
    requires
        !nan(a),
        !nan(b),
    ensures
        below(a, b) || same(a, b) || below(b, a),
        !(below(a, b) && below(b, a)),
        !(below(a, b) && same(a, b)),
        same(a, b) == same(b, a),
        same(a, a),
{
}

/// A NaN is neither equal to nor below or above any double, and negating
/// a double twice gives the double back.
pub proof fn law_nan(a: u64, b: u64)
    ensures
        nan(a) ==> !same(a, b) && !same(b, a) && !below(a, b) && !below(b, a),
        opposite(opposite(a)) == a,
        nan(opposite(a)) == nan(a),
{
}

} // verus!
