//! Single-precision arithmetic on raw 32-bit patterns.
//!
//! The whole pipeline stores every scalar as the bit pattern of an IEEE 754
//! single-precision value, held in a plain `u32`. The arithmetic itself is
//! done by outside soft-float code behind the trusted wrappers below; each
//! operation's result is named by an uninterpreted spec function, so that
//! every contract downstream can speak of it exactly.

use rustc_apfloat::Float as ApFloat;
use vstd::prelude::*;

verus! {

/// The sum of the two single-precision values with these bit patterns.
pub uninterp spec fn add_bits_of(a: u32, b: u32) -> u32;

/// The difference `a - b` of the two single-precision values with these bit patterns.
pub uninterp spec fn sub_bits_of(a: u32, b: u32) -> u32;

/// The product of the two single-precision values with these bit patterns.
pub uninterp spec fn mul_bits_of(a: u32, b: u32) -> u32;

/// The quotient `a / b` of the two single-precision values with these bit patterns.
pub uninterp spec fn div_bits_of(a: u32, b: u32) -> u32;

/// Whether `r` is the integer square root of `n`.
pub open spec fn is_isqrt(n: int, r: int) -> bool {
    0 <= r && r * r <= n && n < (r + 1) * (r + 1)
}

/// The integer square root of a nonnegative number.
pub open spec fn spec_isqrt(n: int) -> int {
    choose|r: int| is_isqrt(n, r)
}

pub proof fn lemma_isqrt_unique(n: int, r1: int, r2: int)
    requires
        is_isqrt(n, r1),
        is_isqrt(n, r2),
    ensures
        r1 == r2,
{
    if r1 < r2 {
        assert((r1 + 1) * (r1 + 1) <= r2 * r2) by (nonlinear_arith)
            requires
                0 <= r1,
                0 <= r2,
                r1 < r2,
        ;
    }
    if r2 < r1 {
        assert((r2 + 1) * (r2 + 1) <= r1 * r1) by (nonlinear_arith)
            requires
                0 <= r1,
                0 <= r2,
                r2 < r1,
        ;
    }
}

/// The integer square root of a 48-bit number, by bisection.
fn isqrt48(n: u64) -> (r: u64)
    requires
        n < 0x1_0000_0000_0000u64,
    ensures
        is_isqrt(n as int, r as int),
        r == spec_isqrt(n as int),
{
    let mut lo: u64 = 0;
    let mut hi: u64 = 0x100_0000;
    while hi - lo > 1
        invariant
            lo < hi <= 0x100_0000u64,
            (lo as int) * (lo as int) <= n as int,
            (n as int) < (hi as int) * (hi as int),
        decreases hi - lo,
    {
        let mid = lo + (hi - lo) / 2;
        proof {
            assert((mid as int) * (mid as int) <= 0x1_0000_0000_0000) by (nonlinear_arith)
                requires
                    0 <= mid as int <= 0x100_0000,
            ;
        }
        let sq = mid * mid;
        if sq <= n {
            lo = mid;
        } else {
            hi = mid;
        }
    }
    proof {
        assert(hi == lo + 1);
        assert(is_isqrt(n as int, lo as int));
        let w = spec_isqrt(n as int);
        assert(is_isqrt(n as int, w));
        lemma_isqrt_unique(n as int, lo as int, w);
    }
    lo
}

/// Normalizes a positive significand below two-to-the-23rd by doubling it,
/// decrementing the exponent each time.
pub open spec fn spec_norm(m: int, e: int) -> (int, int)
    decreases 0x1000000 - m,
        when 0 < m
{
    if m >= 0x800000 {
        (m, e)
    } else {
        spec_norm(2 * m, e - 1)
    }
}

/// The bit pattern of the square root of the single-precision value with
/// this bit pattern: correctly rounded, ties to even, computed exactly on
/// integers. Zeroes pass through, negative values and NaNs yield the quiet
/// NaN, and positive infinity passes through.
pub open spec fn sqrt_bits_of(x: u32) -> u32 {
    if x == 0u32 || x == 0x8000_0000u32 {
        x
    } else if x >= 0x8000_0000u32 {
        0x7FC0_0000u32
    } else if x >= 0x7F80_0000u32 {
        if x == 0x7F80_0000u32 {
            x
        } else {
            0x7FC0_0000u32
        }
    } else {
        let exp = x as int / 0x800000;
        let frac = x as int % 0x800000;
        let me = if exp == 0 {
            spec_norm(frac, -149)
        } else {
            (frac + 0x800000, exp - 150)
        };
        let ne = if me.1 % 2 == 0 {
            (me.0 * 0x1000000, (me.1 - 24) / 2)
        } else {
            (me.0 * 0x800000, (me.1 - 23) / 2)
        };
        let s0 = spec_isqrt(ne.0);
        let rem = ne.0 - s0 * s0;
        let sr = if rem > s0 {
            s0 + 1
        } else {
            s0
        };
        let me2 = if sr >= 0x1000000 {
            (sr / 2, ne.1 + 1)
        } else {
            (sr, ne.1)
        };
        ((me2.1 + 150) * 0x800000 + (me2.0 - 0x800000)) as u32
    }
}

/// Computes the square-root bit pattern, exactly as `sqrt_bits_of`
/// describes.
#[verifier::rlimit(100)]
pub fn sqrt_bits(x: u32) -> (r: u32)
    ensures
        r == sqrt_bits_of(x),
{
    if x == 0 || x == 0x8000_0000 {
        return x;
    }
    if x >= 0x8000_0000 {
        return 0x7FC0_0000;
    }
    if x >= 0x7F80_0000 {
        if x == 0x7F80_0000 {
            return x;
        }
        return 0x7FC0_0000;
    }
    let exp: i64 = (x / 0x800000) as i64;
    let frac: i64 = (x % 0x800000) as i64;
    let mut m: i64;
    let mut e: i64;
    if exp == 0 {
        m = frac;
        e = -149;
        proof {
            vstd::arithmetic::power2::lemma2_to64();
        }
        while m < 0x800000
            invariant
                0 < m < 0x1000000,
                -149 - 24 <= e <= -149,
                m as int >= vstd::arithmetic::power2::pow2((- 149 - e) as nat),
                spec_norm(frac as int, -149) == spec_norm(m as int, e as int),
                frac as int > 0,
            decreases 0x1000000 - m,
        {
            proof {
                vstd::arithmetic::power2::lemma2_to64();
                let k = (-149 - e) as nat;
                vstd::arithmetic::power2::lemma_pow2_unfold((k + 1) as nat);
                assert(vstd::arithmetic::power2::pow2((k + 1) as nat) == 2
                    * vstd::arithmetic::power2::pow2(k));
                if e - 1 < -149 - 24 {
                    assert(k >= 24);
                    if k > 24 {
                        vstd::arithmetic::power2::lemma_pow2_strictly_increases(24, k);
                    }
                    assert(vstd::arithmetic::power2::pow2(24) == 0x1000000);
                    assert(false);
                }
            }
            m = 2 * m;
            e = e - 1;
        }
        proof {
            assert(spec_norm(m as int, e as int) == (m as int, e as int));
        }
    } else {
        m = frac + 0x800000;
        e = exp - 150;
    }
    proof {
        assert(0x800000 <= m as int && (m as int) < 0x1000000);
        assert(-173 <= e as int && e as int <= 104);
        assert((m as int) * 0x1000000 < 0x1_0000_0000_0000) by (nonlinear_arith)
            requires
                (m as int) < 0x1000000,
        ;
        assert((m as int) * 0x800000 < 0x1_0000_0000_0000) by (nonlinear_arith)
            requires
                (m as int) < 0x1000000,
        ;
        assert((m as int) * 0x1000000 >= 0x800000 * 0x1000000) by (nonlinear_arith)
            requires
                (m as int) >= 0x800000,
        ;
        assert((m as int) * 0x800000 >= 0x800000 * 0x800000) by (nonlinear_arith)
            requires
                (m as int) >= 0x800000,
        ;
    }
    let nn: i64;
    let e2: i64;
    let even = (e + 200) % 2 == 0;
    proof {
        assert(even == ((e as int) % 2 == 0));
    }
    if even {
        nn = m * 0x1000000;
        e2 = (e - 24) / 2;
        proof {
            assert(e2 as int == ((e as int) - 24) / 2);
        }
    } else {
        nn = m * 0x800000;
        e2 = (e - 23) / 2;
        proof {
            assert(e2 as int == ((e as int) - 23) / 2);
        }
    }
    let s0u = isqrt48(nn as u64);
    proof {
        assert(is_isqrt(nn as int, s0u as int));
        assert(s0u as int <= 0x1000000) by (nonlinear_arith)
            requires
                0 <= s0u as int,
                (s0u as int) * (s0u as int) <= nn as int,
                (nn as int) < 0x1_0000_0000_0000,
        ;
    }
    let s0 = s0u as i64;
    let rem = nn - s0 * s0;
    let sr: i64 = if rem > s0 {
        s0 + 1
    } else {
        s0
    };
    let mm: i64;
    let ee: i64;
    if sr >= 0x1000000 {
        mm = sr / 2;
        ee = e2 + 1;
        proof {
            assert(mm as int == (sr as int) / 2);
        }
    } else {
        mm = sr;
        ee = e2;
    }
    let out = (ee + 150) * 0x800000 + (mm - 0x800000);
    #[verifier::truncate] (out as u32)
}

/// The single-precision value denoted by a decimal literal, or `None` when the
/// text is not a well-formed decimal numeral.
pub uninterp spec fn decimal_bits_of(s: Seq<char>) -> Option<u32>;

/// Relies on rustc_apfloat::ieee::Single's Add impl (correctly rounded IEEE
/// addition, ties to even): the result depends on the operand bits alone.
#[verifier::external_body]
pub fn add_bits(a: u32, b: u32) -> (r: u32)
    ensures
        r == add_bits_of(a, b),
{
    let x = <rustc_apfloat::ieee::Single as ApFloat>::from_bits(a as u128);
    let y = <rustc_apfloat::ieee::Single as ApFloat>::from_bits(b as u128);
    (x + y).value.to_bits() as u32
}

/// Relies on rustc_apfloat::ieee::Single's Sub impl (correctly rounded IEEE
/// subtraction, ties to even): the result depends on the operand bits alone.
#[verifier::external_body]
pub fn sub_bits(a: u32, b: u32) -> (r: u32)
    ensures
        r == sub_bits_of(a, b),
{
    let x = <rustc_apfloat::ieee::Single as ApFloat>::from_bits(a as u128);
    let y = <rustc_apfloat::ieee::Single as ApFloat>::from_bits(b as u128);
    (x - y).value.to_bits() as u32
}

/// Relies on rustc_apfloat::ieee::Single's Mul impl (correctly rounded IEEE
/// multiplication, ties to even): the result depends on the operand bits alone.
#[verifier::external_body]
pub fn mul_bits(a: u32, b: u32) -> (r: u32)
    ensures
        r == mul_bits_of(a, b),
{
    let x = <rustc_apfloat::ieee::Single as ApFloat>::from_bits(a as u128);
    let y = <rustc_apfloat::ieee::Single as ApFloat>::from_bits(b as u128);
    (x * y).value.to_bits() as u32
}

/// Relies on rustc_apfloat::ieee::Single's Div impl (correctly rounded IEEE
/// division, ties to even): the result depends on the operand bits alone.
#[verifier::external_body]
pub fn div_bits(a: u32, b: u32) -> (r: u32)
    ensures
        r == div_bits_of(a, b),
{
    let x = <rustc_apfloat::ieee::Single as ApFloat>::from_bits(a as u128);
    let y = <rustc_apfloat::ieee::Single as ApFloat>::from_bits(b as u128);
    (x / y).value.to_bits() as u32
}

/// Relies on rustc_apfloat::ieee::Single::from_str, which parses a decimal
/// numeral to the nearest single-precision value, ties to even, and rejects
/// malformed text: the result depends on the text alone. The length bound
/// keeps clear of the parser's hexadecimal path, whose exponent bookkeeping
/// asserts on texts whose digit distance overflows a 32-bit exponent.
#[verifier::external_body]
pub fn decimal_bits(text: &Vec<char>) -> (r: Option<u32>)
    requires
        text@.len() < 0x2000_0000,
    ensures
        r == decimal_bits_of(text@),
{
    let s: String = text.iter().collect();
    match s.parse::<rustc_apfloat::ieee::Single>() {
        Ok(v) => Some(rustc_apfloat::Float::to_bits(v) as u32),
        Err(_) => None,
    }
}

} // verus!
