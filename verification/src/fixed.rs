//! Fixed-point numbers.
//!
//! Audio features and their tolerances are whole numbers of millionths.
//! A catalog that holds them in the single-precision binary format hands over
//! the 32 bits of each value; the number of millionths is then the value
//! rounded to the nearest millionth, a value halfway between two millionths
//! going to the even one.

use vstd::arithmetic::div_mod::{lemma_basic_div, lemma_small_mod};
use vstd::arithmetic::power2::{
    lemma2_to64, lemma2_to64_rest, lemma_pow2_strictly_increases, lemma_pow2_unfold, pow2,
};
use vstd::prelude::*;

verus! {

/// How many millionths make one.
pub const MILLIONTHS: i64 = 1_000_000;

/// The whole number nearest to `n / d`; halfway cases go to the even number.
pub open spec fn nearest(n: nat, d: nat) -> nat {
    let whole = n / d;
    let rest = n % d;
    if 2 * rest > d || (2 * rest == d && whole % 2 == 1) {
        whole + 1
    } else {
        whole
    }
}

/// The sign bit of a single-precision value is set.
pub open spec fn binary32_negative(bits: u32) -> bool {
    bits >= 0x8000_0000
}

/// The exponent field of a single-precision value: the eight bits below the
/// sign bit.
pub open spec fn binary32_exponent(bits: u32) -> nat {
    (bits as nat % 0x8000_0000) / 0x80_0000
}

/// The fraction field of a single-precision value: its lowest 23 bits.
pub open spec fn binary32_fraction(bits: u32) -> nat {
    bits as nat % 0x80_0000
}

/// A single-precision value is finite unless its exponent field is all ones.
pub open spec fn binary32_finite(bits: u32) -> bool {
    binary32_exponent(bits) != 255
}

/// The significand of a finite single-precision value as a whole number: the
/// fraction, with the implicit leading bit unless the exponent field is
/// zero.
pub open spec fn binary32_significand(bits: u32) -> nat {
    if binary32_exponent(bits) == 0 {
        binary32_fraction(bits)
    } else {
        binary32_fraction(bits) + 0x80_0000
    }
}

/// The power of two that scales the significand of a finite single-precision
/// value: the size of the value is `significand * 2^power`.
pub open spec fn binary32_power(bits: u32) -> int {
    if binary32_exponent(bits) == 0 {
        -149
    } else {
        binary32_exponent(bits) - 150
    }
}

/// The size of a finite single-precision value in millionths, rounded to the
/// nearest whole number.
pub open spec fn binary32_millionths(bits: u32) -> nat {
    let scaled = binary32_significand(bits) * 1_000_000;
    let power = binary32_power(bits);
    if power >= 0 {
        scaled * pow2(power as nat)
    } else {
        nearest(scaled, pow2((-power) as nat))
    }
}

/// The number of millionths that a single-precision value stands for, if it
/// is finite and the number fits.
pub open spec fn millionths_of_binary32(bits: u32) -> Option<i64> {
    if !binary32_finite(bits) || binary32_millionths(bits) > i64::MAX {
        None
    } else if binary32_negative(bits) {
        Some((-(binary32_millionths(bits) as int)) as i64)
    } else {
        Some(binary32_millionths(bits) as i64)
    }
}

/// Two to the power of `e`.
fn power_of_two(e: u32) -> (p: u64)
    requires
        e <= 62,
    ensures
        p == pow2(e as nat),
{
    let mut p: u64 = 1;
    let mut i: u32 = 0;
    proof {
        lemma2_to64();
    }
    while i < e
        invariant
            i <= e <= 62,
            p == pow2(i as nat),
        decreases e - i,
    {
        proof {
            lemma_pow2_unfold((i + 1) as nat);
            lemma_pow2_strictly_increases((i + 1) as nat, 63);
            lemma2_to64_rest();
        }
        p = p * 2;
        i += 1;
    }
    p
}

/// The whole number nearest to `n / d`; halfway cases go to the even number.
pub fn round_quotient(n: u64, d: u64) -> (q: u64)
    requires
        d > 0,
    ensures
        q == nearest(n as nat, d as nat),
{
    let whole: u64 = n / d;
    let rest: u64 = n % d;
    let up: bool = rest > d - rest || (rest == d - rest && whole % 2 == 1);
    if up {
        assert(whole < u64::MAX) by (nonlinear_arith)
            requires
                whole == n as int / d as int,
                rest == n as int % d as int,
                rest >= d - rest,
                d > 0,
                n <= u64::MAX,
                rest > 0,
        {
            assert(n as int == d * whole + rest) by (nonlinear_arith)
                requires
                    whole == n as int / d as int,
                    rest == n as int % d as int,
                    d > 0,
            ;
        }
        whole + 1
    } else {
        whole
    }
}

/// Reads a single-precision value, given by its 32 bits, as a number of
/// millionths. There is none if the value is infinite or no number, or if
/// its millionths do not fit.
pub fn millionths_from_binary32(bits: u32) -> (millionths: Option<i64>)
    ensures
        millionths == millionths_of_binary32(bits),
{
    let negative: bool = bits >= 0x8000_0000;
    let exponent: u32 = (bits % 0x8000_0000) / 0x80_0000;
    let fraction: u32 = bits % 0x80_0000;
    if exponent == 255 {
        return None;
    }
    let significand: u64 = if exponent == 0 {
        fraction as u64
    } else {
        fraction as u64 + 0x80_0000
    };
    let scaled: u64 = significand * 1_000_000;
    proof {
        lemma2_to64();
        lemma2_to64_rest();
    }
    let size: u128 = if exponent >= 150 {
        let up: u32 = exponent - 150;
        if up >= 21 {
            proof {
                if up > 21 {
                    lemma_pow2_strictly_increases(21, up as nat);
                }
                let factor: int = pow2(up as nat) as int;
                let wide: int = scaled as int;
                assert(wide * factor > i64::MAX) by (nonlinear_arith)
                    requires
                        wide >= 0x80_0000 * 1_000_000,
                        factor >= 0x20_0000,
                ;
            }
            return None;
        }
        let factor: u64 = power_of_two(up);
        proof {
            if up < 20 {
                lemma_pow2_strictly_increases(up as nat, 20);
            }
            assert(scaled * factor <= 0x100_0000 * 1_000_000 * 0x10_0000) by (nonlinear_arith)
                requires
                    scaled <= 0x100_0000 * 1_000_000,
                    factor <= 0x10_0000,
            ;
        }
        scaled as u128 * factor as u128
    } else {
        let down: u32 = if exponent == 0 {
            149
        } else {
            150 - exponent
        };
        if down >= 46 {
            proof {
                if down > 46 {
                    lemma_pow2_strictly_increases(46, down as nat);
                }
                let d = pow2(down as nat);
                lemma_basic_div(scaled as int, d as int);
                lemma_small_mod(scaled as nat, d);
            }
            0
        } else {
            round_quotient(scaled, power_of_two(down)) as u128
        }
    };
    assert(size == binary32_millionths(bits));
    if size > i64::MAX as u128 {
        None
    } else if negative {
        Some(-(size as i64))
    } else {
        Some(size as i64)
    }
}

} // verus!
