//! Order and sign of reals held as IEEE-754 binary64 bit patterns.
//!
//! A pattern is a sign bit followed by a 63-bit magnitude. Magnitudes above
//! that of infinity are not numbers. Among numbers, the order of the reals is
//! the order of the signed magnitudes, with both zeros equal.

use vstd::prelude::*;
use vstd::arithmetic::power2::{
    lemma2_to64,
    lemma2_to64_rest,
    lemma_pow2_adds,
    lemma_pow2_pos,
    lemma_pow2_strictly_increases,
    lemma_pow2_unfold,
    pow2,
};

verus! {

/// The sign bit.
pub const SIGN_MASK: u64 = 0x8000_0000_0000_0000;

/// The bits of exponent and fraction.
pub const MAGNITUDE_MASK: u64 = 0x7FFF_FFFF_FFFF_FFFF;

/// The pattern of positive infinity.
pub const INFINITY: u64 = 0x7FF0_0000_0000_0000;

/// The pattern of the greatest finite real.
pub const MAX: u64 = 0x7FEF_FFFF_FFFF_FFFF;

/// The pattern of `0.0`.
pub const ZERO: u64 = 0;

/// The pattern of `1.0`.
pub const ONE: u64 = 0x3FF0_0000_0000_0000;

/// Exponent and fraction, without the sign.
pub open spec fn magnitude(b: u64) -> u64 {
    b & MAGNITUDE_MASK
}

/// Whether the sign bit is set.
pub open spec fn is_negative(b: u64) -> bool {
    b & SIGN_MASK != 0
}

/// Whether the pattern stands for no number.
pub open spec fn is_nan(b: u64) -> bool {
    magnitude(b) > INFINITY
}

/// Position of a number on the real line, up to a monotone rescaling.
pub open spec fn ordinal(b: u64) -> int {
    if is_negative(b) {
        -(magnitude(b) as int)
    } else {
        magnitude(b) as int
    }
}

/// `a < b` as reals; false as soon as one side is not a number.
pub open spec fn float_lt(a: u64, b: u64) -> bool {
    !is_nan(a) && !is_nan(b) && ordinal(a) < ordinal(b)
}

/// The pattern of `-x` for the pattern of `x`.
pub open spec fn negated(b: u64) -> u64 {
    b ^ SIGN_MASK
}

/// Whether `a` is less than `b`, as reals.
pub fn lt(a: u64, b: u64) -> (r: bool)
    ensures
        r == float_lt(a, b),
{
    let ma = a & MAGNITUDE_MASK;
    let mb = b & MAGNITUDE_MASK;
    if ma > INFINITY || mb > INFINITY {
        return false;
    }
    let a_neg = (a & SIGN_MASK) != 0;
    let b_neg = (b & SIGN_MASK) != 0;
    if a_neg {
        if b_neg {
            ma > mb
        } else {
            ma != 0 || mb != 0
        }
    } else {
        if b_neg {
            false
        } else {
            ma < mb
        }
    }
}

/// The pattern of the negated real.
pub fn neg(b: u64) -> (r: u64)
    ensures
        r == negated(b),
{
    b ^ SIGN_MASK
}

/// Negation flips the sign and keeps the magnitude.
pub proof fn lemma_negated(b: u64)
    ensures
        magnitude(negated(b)) == magnitude(b),
        is_negative(negated(b)) == !is_negative(b),
        ordinal(negated(b)) == -ordinal(b),
        negated(negated(b)) == b,
{
    assert((b ^ 0x8000_0000_0000_0000u64) & 0x7FFF_FFFF_FFFF_FFFFu64 == b
        & 0x7FFF_FFFF_FFFF_FFFFu64) by (bit_vector);
    assert(((b ^ 0x8000_0000_0000_0000u64) & 0x8000_0000_0000_0000u64 != 0) == !(b
        & 0x8000_0000_0000_0000u64 != 0)) by (bit_vector);
    assert((b ^ 0x8000_0000_0000_0000u64) ^ 0x8000_0000_0000_0000u64 == b) by (bit_vector);
}

/// On numbers, "not less than" is transitive, so a run without descents is ascending throughout.
pub proof fn lemma_not_lt_transitive(a: u64, b: u64, c: u64)
    requires
        !is_nan(a),
        !is_nan(b),
        !is_nan(c),
        !float_lt(b, a),
        !float_lt(c, b),
    ensures
        !float_lt(c, a),
{
}

/// The position of the highest bit that is set in `n`; zero for zero.
pub open spec fn log2_floor(n: nat) -> nat
    decreases n,
{
    if n <= 1 {
        0
    } else {
        1 + log2_floor(n / 2)
    }
}

/// The pattern of the real nearest to the whole number `n`, the one with the
/// even fraction where two are equally near: the exponent of `n`, biased by
/// 1023, above the 52 fraction bits of `n`, rounded where `n` has more.
pub open spec fn index_bits(n: nat) -> nat {
    if n == 0 {
        0
    } else {
        let e = log2_floor(n);
        if e <= 52 {
            (1022 + e) * pow2(52) + n * pow2((52 - e) as nat)
        } else {
            let unit = pow2((e - 52) as nat);
            let kept = n / unit;
            let dropped = n % unit;
            let up: nat = if 2 * dropped > unit || (2 * dropped == unit && kept % 2 == 1) {
                1
            } else {
                0
            };
            (1022 + e) * pow2(52) + kept + up
        }
    }
}

proof fn lemma_log2_floor(n: nat, e: nat)
    requires
        pow2(e) <= n < pow2(e + 1),
    ensures
        log2_floor(n) == e,
    decreases e,
{
    lemma2_to64();
    if e == 0 {
        assert(n == 1);
    } else {
        lemma_pow2_unfold(e);
        lemma_pow2_unfold(e + 1);
        assert(n >= 2);
        lemma_log2_floor(n / 2, (e - 1) as nat);
    }
}

/// The pattern of the real that stands for the whole number `i`.
pub fn from_index(i: usize) -> (r: u64)
    ensures
        r == index_bits(i as nat),
{
    let n: u64 = i as u64;
    if n == 0 {
        return 0;
    }
    proof {
        lemma2_to64();
        lemma2_to64_rest();
    }
    let mut e: u64 = 0;
    let mut top: u64 = 1;
    while top <= n / 2
        invariant
            top == pow2(e as nat),
            1 <= top <= n,
            e <= 63,
        decreases n - top,
    {
        proof {
            lemma2_to64();
            lemma2_to64_rest();
            lemma_pow2_unfold((e + 1) as nat);
            if e >= 63 {
                assert(pow2(63) == 0x8000000000000000);
            }
        }
        top = top * 2;
        e = e + 1;
    }
    proof {
        lemma2_to64();
        lemma2_to64_rest();
        lemma_pow2_unfold((e + 1) as nat);
        lemma_log2_floor(n as nat, e as nat);
        assert(n * pow2(0) == n);
    }
    let base: u64 = (1022 + e) * 0x10_0000_0000_0000;
    if e <= 52 {
        let mut scaled: u64 = n;
        let mut j: u64 = e;
        while j < 52
            invariant
                e <= j <= 52,
                scaled == n * pow2((j - e) as nat),
                scaled < pow2((j + 1) as nat),
            decreases 52 - j,
        {
            proof {
                lemma2_to64();
                lemma2_to64_rest();
                lemma_pow2_unfold((j + 1 - e) as nat);
                lemma_pow2_unfold((j + 2) as nat);
                lemma_pow2_strictly_increases((j + 1) as nat, 54);
                assert(pow2(54) == 0x40000000000000);
                let t = pow2((j - e) as nat);
                assert(n * (2 * t) == 2 * (n * t)) by (nonlinear_arith);
            }
            scaled = scaled * 2;
            j = j + 1;
        }
        proof {
            lemma2_to64();
            lemma2_to64_rest();
            assert(pow2(53) == 0x20000000000000);
            assert(pow2(52) == 0x10000000000000);
        }
        base + scaled
    } else {
        let mut unit: u64 = 1;
        let mut j: u64 = 52;
        while j < e
            invariant
                52 <= j <= e <= 63,
                unit == pow2((j - 52) as nat),
                unit <= 0x800,
            decreases e - j,
        {
            proof {
                lemma2_to64();
                lemma2_to64_rest();
                lemma_pow2_unfold((j + 1 - 52) as nat);
                if j + 1 - 52 < 11 {
                    lemma_pow2_strictly_increases((j + 1 - 52) as nat, 11);
                }
                assert(pow2(11) == 0x800);
            }
            unit = unit * 2;
            j = j + 1;
        }
        proof {
            lemma2_to64();
            lemma2_to64_rest();
            lemma_pow2_pos((e - 52) as nat);
            lemma_pow2_adds(53, (e - 52) as nat);
            assert(pow2(52) == 0x10000000000000);
            assert(pow2(53) == 0x20000000000000);
            let bound = pow2(53) as int;
            let u = unit as int;
            let m = n as int;
            assert(m < bound * u);
            assert(m / u < bound) by (nonlinear_arith)
                requires
                    m < bound * u,
                    u > 0,
                    m >= 0,
            ;
        }
        let kept = n / unit;
        let dropped = n % unit;
        let up: u64 = if 2 * dropped > unit || (2 * dropped == unit && kept % 2 == 1) {
            1
        } else {
            0
        };
        base + kept + up
    }
}

} // verus!
