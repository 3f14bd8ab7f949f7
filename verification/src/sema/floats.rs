//! Exact operations on `f32` values held as their IEEE 754 bit patterns: negation, comparison,
//! and the conversions between `f32` and `i32` that compile-time evaluation performs.
use vstd::prelude::*;
use vstd::arithmetic::power2::{pow2, lemma2_to64, lemma_pow2_unfold, lemma_pow2_strictly_increases};
use vstd::arithmetic::div_mod::lemma_div_denominator;

verus! {

/// The biased exponent of an `f32` bit pattern.
pub open spec fn exponent_field(b: u32) -> int {
    (b as int / 0x80_0000) % 0x100
}

/// The stored fraction of an `f32` bit pattern.
pub open spec fn fraction_field(b: u32) -> int {
    b as int % 0x80_0000
}

/// Whether the sign bit is set.
pub open spec fn sign_set(b: u32) -> bool {
    b as int >= 0x8000_0000
}

/// Whether a bit pattern is a finite `f32` (neither an infinity nor a NaN).
pub open spec fn finite_bits(b: u32) -> bool {
    exponent_field(b) != 0xff
}

/// A number that orders finite `f32` values as their values are ordered: the magnitude bits,
/// negated for a negative value. Both zeros have key 0.
pub open spec fn order_key(b: u32) -> int {
    let m = b as int % 0x8000_0000;
    if sign_set(b) {
        -m
    } else {
        m
    }
}

/// The bit pattern of the negated value: the sign bit flipped.
pub open spec fn negated_bits(b: u32) -> u32 {
    if sign_set(b) {
        (b - 0x8000_0000) as u32
    } else {
        (b + 0x8000_0000) as u32
    }
}

/// The magnitude of a finite value, truncated toward zero: the significand scaled by the
/// exponent, with fractional digits dropped. Subnormal values are below 1.
pub open spec fn truncated_magnitude(b: u32) -> nat {
    let e = exponent_field(b);
    if e == 0 {
        0
    } else {
        let significand = (fraction_field(b) + 0x80_0000) as nat;
        if e >= 150 {
            significand * pow2((e - 150) as nat)
        } else {
            significand / pow2((150 - e) as nat)
        }
    }
}

/// An `f32` converted to `i32` as the language does it: NaN is 0, values at or beyond the
/// range saturate, and anything else is truncated toward zero.
pub open spec fn truncated_i32(b: u32) -> i32 {
    if exponent_field(b) == 0xff && fraction_field(b) != 0 {
        0
    } else if exponent_field(b) == 0xff || truncated_magnitude(b) >= 0x8000_0000 {
        if sign_set(b) {
            i32::MIN
        } else {
            i32::MAX
        }
    } else if sign_set(b) {
        (-(truncated_magnitude(b) as int)) as i32
    } else {
        truncated_magnitude(b) as i32
    }
}

/// The position of the highest set bit of a positive number.
pub open spec fn top_bit(m: nat) -> nat
    decreases m,
{
    if m <= 1 {
        0
    } else {
        1 + top_bit(m / 2)
    }
}

/// Whether a quotient `q` with remainder `r` rounds up to the nearest even: above the half, or
/// at the half with `q` odd.
pub open spec fn rounds_up(q: nat, r: nat, half: nat) -> bool {
    r > half || (r == half && q % 2 == 1)
}

/// The `f32` nearest to an `i32`, ties to even, as a bit pattern. A significand that rounds up
/// to the next power of two carries into the exponent.
pub open spec fn i32_to_f32_bits(v: i32) -> u32 {
    let m: nat = if v < 0 {
        (-(v as int)) as nat
    } else {
        v as nat
    };
    let sign: nat = if v < 0 {
        0x8000_0000
    } else {
        0
    };
    if m == 0 {
        0
    } else {
        let k = top_bit(m);
        if k <= 23 {
            (sign + (k + 127) * 0x80_0000 + m * pow2((23 - k) as nat) - 0x80_0000) as u32
        } else {
            let s = (k - 23) as nat;
            let q = m / pow2(s);
            let r = m % pow2(s);
            let rounded = if rounds_up(q, r, pow2((s - 1) as nat)) {
                q + 1
            } else {
                q
            };
            (sign + (k + 127) * 0x80_0000 + rounded - 0x80_0000) as u32
        }
    }
}

/// Whether a bit pattern is a finite `f32`.
pub fn is_finite_bits(b: u32) -> (finite: bool)
    ensures
        finite == finite_bits(b),
{
    (b / 0x80_0000) % 0x100 != 0xff
}

/// The order key of a bit pattern.
pub fn key_of(b: u32) -> (key: i64)
    ensures
        key == order_key(b),
{
    let m: i64 = (b % 0x8000_0000) as i64;
    if b >= 0x8000_0000 {
        -m
    } else {
        m
    }
}

/// Negates an `f32` given by its bits.
pub fn negate_bits(b: u32) -> (n: u32)
    ensures
        n == negated_bits(b),
{
    if b >= 0x8000_0000 {
        b - 0x8000_0000
    } else {
        b + 0x8000_0000
    }
}

/// `sig * 2^n` for `n <= 7`.
fn scale_up(sig: u64, n: u64) -> (m: u64)
    requires
        sig < 0x100_0000,
        n <= 7,
    ensures
        m == sig * pow2(n as nat),
{
    proof {
        lemma2_to64();
    }
    let mut m: u64 = sig;
    let mut i: u64 = 0;
    while i < n
        invariant
            i <= n <= 7,
            sig < 0x100_0000,
            m == sig * pow2(i as nat),
            pow2(i as nat) <= 128,
            m < 0x100_0000 * pow2(i as nat),
        decreases n - i,
    {
        proof {
            lemma_pow2_unfold((i + 1) as nat);
            lemma_pow2_strictly_increases((i + 1) as nat, 8);
            lemma2_to64();
            assert(sig * pow2((i + 1) as nat) == sig * (2 * pow2(i as nat)));
            assert(sig * (2 * pow2(i as nat)) == 2 * (sig * pow2(i as nat))) by (nonlinear_arith);
        }
        m = m * 2;
        i = i + 1;
    }
    m
}

/// `sig / 2^n`.
fn scale_down(sig: u64, n: u64) -> (m: u64)
    ensures
        m == sig as nat / pow2(n as nat),
{
    proof {
        lemma2_to64();
    }
    let mut m: u64 = sig;
    let mut i: u64 = 0;
    while i < n
        invariant
            i <= n,
            m == sig as nat / pow2(i as nat),
        decreases n - i,
    {
        proof {
            lemma_pow2_unfold((i + 1) as nat);
            vstd::arithmetic::power2::lemma_pow2_pos(i as nat);
            lemma_div_denominator(sig as int, pow2(i as nat) as int, 2);
            assert(pow2(i as nat) * 2 == pow2((i + 1) as nat));
        }
        m = m / 2;
        i = i + 1;
    }
    m
}

/// Converts an `f32` given by its bits to `i32`: NaN to 0, saturating at the range's ends,
/// truncating toward zero otherwise.
pub fn f32_bits_to_i32(b: u32) -> (v: i32)
    ensures
        v == truncated_i32(b),
{
    let e: u32 = (b / 0x80_0000) % 0x100;
    let f: u32 = b % 0x80_0000;
    let negative = b >= 0x8000_0000;
    if e == 0xff {
        if f != 0 {
            return 0;
        }
        return if negative {
            i32::MIN
        } else {
            i32::MAX
        };
    }
    if e == 0 {
        return 0;
    }
    let sig: u64 = (f + 0x80_0000) as u64;
    if e >= 158 {
        proof {
            lemma2_to64();
            if e > 158 {
                lemma_pow2_strictly_increases(8, (e - 150) as nat);
            }
            let p = pow2((e - 150) as nat);
            assert(sig * p >= 0x8000_0000) by (nonlinear_arith)
                requires
                    sig >= 0x80_0000,
                    p >= 256,
            ;
        }
        return if negative {
            i32::MIN
        } else {
            i32::MAX
        };
    }
    let m: u64 = if e >= 150 {
        scale_up(sig, (e - 150) as u64)
    } else {
        scale_down(sig, (150 - e) as u64)
    };
    assert(m == truncated_magnitude(b));
    if m >= 0x8000_0000 {
        if negative {
            i32::MIN
        } else {
            i32::MAX
        }
    } else if negative {
        -(m as i32)
    } else {
        m as i32
    }
}

/// The highest set bit of a positive number lies at `top_bit`.
pub proof fn lemma_top_bit(m: nat)
    requires
        m >= 1,
    ensures
        pow2(top_bit(m)) <= m < pow2(top_bit(m) + 1),
    decreases m,
{
    lemma_pow2_unfold(top_bit(m) + 1);
    if m >= 2 {
        lemma_top_bit(m / 2);
        lemma_pow2_unfold(top_bit(m));
    } else {
        lemma2_to64();
    }
}

/// Converts an `i32` to the nearest `f32`, ties to even, as a bit pattern.
pub fn i32_to_f32(v: i32) -> (b: u32)
    ensures
        b == i32_to_f32_bits(v),
{
    let m: u64 = if v < 0 {
        (-(v as i64)) as u64
    } else {
        v as u64
    };
    let sign: u64 = if v < 0 {
        0x8000_0000
    } else {
        0
    };
    if m == 0 {
        return 0;
    }
    let mut t: u64 = m;
    let mut k: u64 = 0;
    while t > 1
        invariant
            t >= 1,
            k + t <= m,
            top_bit(m as nat) == k + top_bit(t as nat),
        decreases t,
    {
        t = t / 2;
        k = k + 1;
    }
    proof {
        lemma_top_bit(m as nat);
        lemma2_to64();
        if k > 32 {
            lemma_pow2_strictly_increases(32, k as nat);
        }
    }
    assert(k <= 31);
    if k <= 23 {
        let n: u64 = 23 - k;
        let mut x: u64 = m;
        let mut j: u64 = 0;
        while j < n
            invariant
                j <= n <= 23,
                m <= 0x8000_0000,
                x == m * pow2(j as nat),
                x <= 0x8000_0000 * pow2(j as nat),
                pow2(j as nat) <= 0x80_0000,
            decreases n - j,
        {
            proof {
                lemma2_to64();
                lemma_pow2_unfold((j + 1) as nat);
                if j + 1 < 23 {
                    lemma_pow2_strictly_increases((j + 1) as nat, 23);
                }
                assert(m * pow2((j + 1) as nat) == m * (2 * pow2(j as nat)));
                assert(m * (2 * pow2(j as nat)) == 2 * (m * pow2(j as nat))) by (nonlinear_arith);
            }
            x = x * 2;
            j = j + 1;
        }
        let total: u64 = sign + (k + 127) * 0x80_0000 + x - 0x80_0000;
        (total as u32)
    } else {
        let s: u64 = k - 23;
        let mut p: u64 = 1;
        let mut i: u64 = 0;
        while i < s
            invariant
                i <= s <= 9,
                p == pow2(i as nat),
                p <= 0x200,
            decreases s - i,
        {
            proof {
                lemma2_to64();
                lemma_pow2_unfold((i + 1) as nat);
                if i + 1 < 9 {
                    lemma_pow2_strictly_increases((i + 1) as nat, 9);
                }
            }
            p = p * 2;
            i = i + 1;
        }
        proof {
            vstd::arithmetic::power2::lemma_pow2_pos(s as nat);
        }
        let q: u64 = m / p;
        let r: u64 = m % p;
        let half: u64 = p / 2;
        let rounded: u64 = if r > half || (r == half && q % 2 == 1) {
            q + 1
        } else {
            q
        };
        let total: u64 = sign + (k + 127) * 0x80_0000 + rounded - 0x80_0000;
        (total as u32)
    }
}

} // verus!
