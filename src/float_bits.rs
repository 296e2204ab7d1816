//! Floating-point values as the machine holds them: their IEEE 754
//! binary64 bit patterns. Comparison, negation, the zero test and the
//! exact conversion of a 32-bit integer are decided on the pattern; the
//! arithmetic proper is left to the host (see `runner`).

use vstd::arithmetic::power2::{lemma_pow2_adds, lemma_pow2_pos, lemma_pow2_unfold, pow2};
use vstd::prelude::*;

verus! {

/// The sign bit of a binary64 pattern.
pub const SIGN_BIT: u64 = 0x8000_0000_0000_0000;

/// 2^52: one unit of the exponent field.
pub const EXPONENT_UNIT: u64 = 0x10_0000_0000_0000;

/// Whether the sign bit is set.
pub open spec fn is_negative(b: u64) -> bool {
    b >= SIGN_BIT
}

/// The pattern without its sign bit.
pub open spec fn magnitude(b: u64) -> nat {
    (b % SIGN_BIT) as nat
}

/// The biased exponent field (11 bits).
pub open spec fn exponent(b: u64) -> nat {
    magnitude(b) / (EXPONENT_UNIT as nat)
}

/// The fraction field (52 bits).
pub open spec fn fraction(b: u64) -> nat {
    (b % EXPONENT_UNIT) as nat
}

/// Not a number: all exponent bits set and a non-zero fraction.
pub open spec fn is_nan(b: u64) -> bool {
    exponent(b) == 2047 && fraction(b) != 0
}

/// Positive or negative zero.
pub open spec fn is_zero(b: u64) -> bool {
    magnitude(b) == 0
}

/// Apart from NaN, binary64 values are ordered as sign and magnitude:
/// this key orders them as their values are ordered, and gives both zeros
/// the same place.
pub open spec fn order_key(b: u64) -> int {
    if is_negative(b) {
        -magnitude(b)
    } else {
        magnitude(b) as int
    }
}

/// Three-way comparison of two floats: -1, 0 or 1, and -2 when either is NaN
/// (the pair is unordered).
pub open spec fn compare_spec(a: u64, b: u64) -> i32 {
    if is_nan(a) || is_nan(b) {
        -2i32
    } else if order_key(a) < order_key(b) {
        -1i32
    } else if order_key(a) > order_key(b) {
        1
    } else {
        0
    }
}

/// The pattern with its sign bit flipped, which is what negation does.
pub open spec fn negate_spec(b: u64) -> u64 {
    if is_negative(b) {
        (b - SIGN_BIT) as u64
    } else {
        (b + SIGN_BIT) as u64
    }
}

/// The largest `p` with 2^p <= n (0 for n < 2).
pub open spec fn log2(n: nat) -> nat
    decreases n,
{
    if n < 2 {
        0
    } else {
        1 + log2(n / 2)
    }
}

/// The absolute value of a 32-bit integer.
pub open spec fn abs(i: i32) -> nat {
    if i < 0 {
        (-i) as nat
    } else {
        i as nat
    }
}

/// The binary64 pattern of the integer `i`: zero is +0.0; otherwise the
/// leading one of |i| becomes the hidden bit and the bits below it the top
/// of the fraction.
pub open spec fn float_of_int_spec(i: i32) -> u64 {
    if i == 0 {
        0
    } else {
        let n = abs(i);
        let p = log2(n);
        let sign: nat = if i < 0 {
            SIGN_BIT as nat
        } else {
            0
        };
        (sign + (1023 + p) * (EXPONENT_UNIT as nat) + (n * pow2((52 - p) as nat) - pow2(
            52,
        ))) as u64
    }
}

/// `b` holds exactly the integer value `i`: its value
/// (2^52 + fraction) * 2^(exponent - 1075), with its sign, is `i`.
pub open spec fn represents(b: u64, i: int) -> bool {
    if i == 0 {
        is_zero(b)
    } else {
        &&& is_negative(b) == (i < 0)
        &&& 1023 <= exponent(b) <= 1075
        &&& pow2(52) + fraction(b) == (if i < 0 {
            -i
        } else {
            i
        }) * pow2((1075 - exponent(b)) as nat)
    }
}

proof fn lemma_log2_bounds(n: nat)
    requires
        n >= 1,
    ensures
        pow2(log2(n)) <= n < pow2(log2(n) + 1),
    decreases n,
{
    lemma_pow2_unfold(log2(n) + 1);
    if n >= 2 {
        lemma_log2_bounds(n / 2);
        lemma_pow2_unfold(log2(n));
    } else {
        lemma_pow2_unfold(1);
        reveal(pow2);
        assert(pow2(0) == 1) by {
            vstd::arithmetic::power2::lemma2_to64();
        }
    }
}

proof fn lemma_log2_small(n: nat)
    requires
        1 <= n <= 0x8000_0000,
    ensures
        log2(n) <= 31,
{
    lemma_log2_bounds(n);
    if log2(n) > 31 {
        vstd::arithmetic::power2::lemma_pow2_strictly_increases(31, log2(n));
        vstd::arithmetic::power2::lemma2_to64();
    }
}

proof fn lemma_pow2_le_inv(a: nat, b: nat)
    requires
        pow2(a) <= pow2(b),
    ensures
        a <= b,
{
    if a > b {
        vstd::arithmetic::power2::lemma_pow2_strictly_increases(b, a);
    }
}

proof fn lemma_log2_unique(n: nat, q: nat)
    requires
        pow2(q) <= n < pow2(q + 1),
    ensures
        q == log2(n),
{
    lemma_pow2_pos(q);
    lemma_log2_bounds(n);
    let l = log2(n);
    if q < l {
        if q + 1 < l {
            vstd::arithmetic::power2::lemma_pow2_strictly_increases(q + 1, l);
        }
    } else if q > l {
        if l + 1 < q {
            vstd::arithmetic::power2::lemma_pow2_strictly_increases(l + 1, q);
        }
    }
}

/// Converting a 32-bit integer loses nothing: the pattern holds the integer
/// exactly.
pub proof fn lemma_float_of_int_exact(i: i32)
    ensures
        represents(float_of_int_spec(i), i as int),
{
    if i != 0 {
        let n = abs(i);
        let p = log2(n);
        lemma_log2_bounds(n);
        lemma_log2_small(n);
        let q = (52 - p) as nat;
        lemma_pow2_adds(p, q);
        lemma_pow2_adds(p + 1, q);
        lemma_pow2_pos(q);
        vstd::arithmetic::power2::lemma2_to64();
        vstd::arithmetic::power2::lemma2_to64_rest();
        assert(pow2(52) == 0x10_0000_0000_0000);
        assert(pow2(53) == 0x20_0000_0000_0000);
        let x = n * pow2(q);
        assert(pow2(p) * pow2(q) <= x < pow2(p + 1) * pow2(q)) by (nonlinear_arith)
            requires
                pow2(p) <= n < pow2(p + 1),
                pow2(q) > 0,
                x == n * pow2(q),
        ;
        assert(p + q == 52);
        assert(p + 1 + q == 53);
        let m = (x - pow2(52)) as nat;
        let mag = (1023 + p) * (EXPONENT_UNIT as nat) + m;
        assert(mag < SIGN_BIT as nat);
        let b = float_of_int_spec(i);
        if i < 0 {
            assert(b as nat == SIGN_BIT as nat + mag);
        } else {
            assert(b as nat == mag);
        }
        assert(magnitude(b) == mag);
        assert(exponent(b) == 1023 + p) by (nonlinear_arith)
            requires
                magnitude(b) == (1023 + p) * 0x10_0000_0000_0000 + m,
                m < 0x10_0000_0000_0000,
                exponent(b) == magnitude(b) / 0x10_0000_0000_0000,
        ;
        assert(fraction(b) == m) by (nonlinear_arith)
            requires
                b as nat == (if i < 0 { 0x8000_0000_0000_0000nat } else { 0nat }) + (1023 + p)
                    * 0x10_0000_0000_0000 + m,
                m < 0x10_0000_0000_0000,
                fraction(b) == b as nat % 0x10_0000_0000_0000,
        ;
    }
}

/// Whether the pattern is a NaN.
pub fn is_nan_bits(b: u64) -> (r: bool)
    ensures
        r == is_nan(b),
{
    (b % SIGN_BIT) / EXPONENT_UNIT == 2047 && b % EXPONENT_UNIT != 0
}

/// Whether the pattern is +0.0 or -0.0.
pub fn is_zero_bits(b: u64) -> (r: bool)
    ensures
        r == is_zero(b),
{
    b % SIGN_BIT == 0
}

/// The negation of a float: its sign bit flipped.
pub fn negate_bits(b: u64) -> (r: u64)
    ensures
        r == negate_spec(b),
{
    if b >= SIGN_BIT {
        b - SIGN_BIT
    } else {
        b + SIGN_BIT
    }
}

/// Three-way comparison of two floats, -2 for an unordered (NaN) pair.
pub fn compare_f64(a: u64, b: u64) -> (r: i32)
    ensures
        r == compare_spec(a, b),
{
    if is_nan_bits(a) || is_nan_bits(b) {
        return -2;
    }
    let ka: i128 = if a >= SIGN_BIT {
        -((a % SIGN_BIT) as i128)
    } else {
        (a % SIGN_BIT) as i128
    };
    let kb: i128 = if b >= SIGN_BIT {
        -((b % SIGN_BIT) as i128)
    } else {
        (b % SIGN_BIT) as i128
    };
    if ka < kb {
        -1
    } else if ka > kb {
        1
    } else {
        0
    }
}

/// The binary64 pattern of a 32-bit integer; the conversion is exact
/// (see `lemma_float_of_int_exact`).
pub fn float_of_int(i: i32) -> (r: u64)
    ensures
        r == float_of_int_spec(i),
        represents(r, i as int),
{
    proof {
        lemma_float_of_int_exact(i);
    }
    if i == 0 {
        return 0;
    }
    let n: u64 = if i < 0 {
        (-(i as i64)) as u64
    } else {
        i as u64
    };
    assert(n == abs(i));
    proof {
        lemma_log2_bounds(n as nat);
        lemma_log2_small(n as nat);
        vstd::arithmetic::power2::lemma2_to64();
    }
    // top = 2^p, the leading one of n
    let mut p: u64 = 0;
    let mut top: u64 = 1;
    while top <= n / 2
        invariant
            1 <= n <= 0x8000_0000,
            top == pow2(p as nat),
            p <= 31,
            1 <= top <= n,
        decreases n - top,
    {
        proof {
            lemma_pow2_unfold(p as nat + 1);
            vstd::arithmetic::power2::lemma2_to64();
            lemma_pow2_le_inv(p as nat + 1, 31);
        }
        top = top * 2;
        p = p + 1;
    }
    assert(p == log2(n as nat)) by {
        lemma_pow2_unfold(p as nat + 1);
        lemma_log2_unique(n as nat, p as nat);
    }
    // scale = 2^(52 - p)
    let mut scale: u64 = 1;
    let mut k: u64 = 0;
    while k < 52 - p
        invariant
            p <= 31,
            k <= 52 - p,
            scale == pow2(k as nat),
            scale > 0,
        decreases 52 - p - k,
    {
        proof {
            lemma_pow2_unfold(k as nat + 1);
            vstd::arithmetic::power2::lemma_pow2_strictly_increases(k as nat + 1, 53);
            vstd::arithmetic::power2::lemma2_to64_rest();
        }
        scale = scale * 2;
        k = k + 1;
    }
    assert(k == 52 - p);
    proof {
        vstd::arithmetic::power2::lemma2_to64_rest();
        lemma_pow2_adds(p as nat, (52 - p) as nat);
        lemma_pow2_adds(p as nat + 1, (52 - p) as nat);
        assert(pow2(p as nat) * scale <= n * scale < pow2(p as nat + 1) * scale) by (
        nonlinear_arith)
            requires
                pow2(p as nat) <= n < pow2(p as nat + 1),
                scale > 0,
        ;
        lemma_pow2_pos(k as nat);
    }
    let sign: u64 = if i < 0 {
        SIGN_BIT
    } else {
        0
    };
    sign + (1023 + p) * EXPONENT_UNIT + (n * scale - EXPONENT_UNIT)
}

} // verus!
