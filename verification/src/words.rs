//! Arithmetic on 128-bit unsigned magnitudes held as two 64-bit words.
//!
//! A word pair `(high, low)` stands for the integer `high * 2^64 + low`.
//! Addition wraps modulo 2^128; subtraction asks that the minuend be at
//! least the subtrahend; multiplication returns the middle 128 bits of the
//! 256-bit product, that is `(a * b / 2^120) mod 2^128`, which rescales the
//! product of two Q8.120 magnitudes back to Q8.120.

use vstd::arithmetic::div_mod::lemma_fundamental_div_mod;
use vstd::arithmetic::div_mod::lemma_fundamental_div_mod_converse;
use vstd::prelude::*;

verus! {

/// The integer a word pair stands for: `high * 2^64 + low`.
pub open spec fn wide(w: (u64, u64)) -> int {
    w.0 * 0x10000000000000000 + w.1
}

/// Carry-propagating addition of two 128-bit magnitudes, wrapping mod 2^128.
pub fn add_u128(a: (u64, u64), b: (u64, u64)) -> (r: (u64, u64))
    ensures
        wide(r) == (wide(a) + wide(b)) % 0x100000000000000000000000000000000int,
{
    let s_low: u128 = a.1 as u128 + b.1 as u128;
    let low: u64 = (s_low % 0x10000000000000000) as u64;
    let carry: u128 = s_low / 0x10000000000000000;
    let s_high: u128 = a.0 as u128 + b.0 as u128 + carry;
    let high: u64 = (s_high % 0x10000000000000000) as u64;
    proof {
        let c: int = (a.1 + b.1) / 0x10000000000000000;
        let q: int = (a.0 + b.0 + c) / 0x10000000000000000;
        lemma_fundamental_div_mod(a.1 + b.1, 0x10000000000000000);
        lemma_fundamental_div_mod(a.0 + b.0 + c, 0x10000000000000000);
        lemma_fundamental_div_mod_converse(
            wide(a) + wide(b),
            0x100000000000000000000000000000000int,
            q,
            high * 0x10000000000000000 + low,
        );
    }
    (high, low)
}

/// The word pair standing for an integer in `[0, 2^128)`, high word first.
pub open spec fn words_of(n: int) -> (u64, u64) {
    (((n / 0x10000000000000000) % 0x10000000000000000) as u64, (n % 0x10000000000000000) as u64)
}

/// `wide` and `words_of` are inverse on word pairs.
pub proof fn lemma_words_of_wide(w: (u64, u64))
    ensures
        words_of(wide(w)) == w,
{
    lemma_fundamental_div_mod_converse(wide(w), 0x10000000000000000, w.0 as int, w.1 as int);
    vstd::arithmetic::div_mod::lemma_small_mod(w.0 as nat, 0x10000000000000000);
}

/// `wide` and `words_of` are inverse on integers in `[0, 2^128)`.
pub proof fn lemma_wide_words_of(n: int)
    requires
        0 <= n < 0x100000000000000000000000000000000int,
    ensures
        wide(words_of(n)) == n,
{
    lemma_fundamental_div_mod(n, 0x10000000000000000);
    assert(n / 0x10000000000000000 < 0x10000000000000000);
    vstd::arithmetic::div_mod::lemma_small_mod((n / 0x10000000000000000) as nat, 0x10000000000000000);
}

/// Borrow-propagating subtraction of a smaller magnitude from a larger one.
pub fn sub_u128(a: (u64, u64), b: (u64, u64)) -> (r: (u64, u64))
    requires
        wide(b) <= wide(a),
    ensures
        wide(r) == wide(a) - wide(b),
{
    if a.1 >= b.1 {
        (a.0 - b.0, a.1 - b.1)
    } else {
        let low: u64 = ((a.1 as u128 + 0x10000000000000000) - b.1 as u128) as u64;
        (a.0 - 1 - b.0, low)
    }
}

/// A product of two numbers below a bound stays below the bound's square.
pub(crate) proof fn lemma_mul_below_square(x: int, y: int, m: int)
    by (nonlinear_arith)
    requires
        0 <= x < m,
        0 <= y < m,
    ensures
        0 <= x * y,
        x * y <= (m - 1) * (m - 1),
{
}

/// Multiplication of two 128-bit magnitudes, rescaled from Q16.240 back to
/// Q8.120: the result is the middle 128 bits `(a * b / 2^120) mod 2^128` of
/// the 256-bit product.  Bits above wrap off silently; bits below are
/// truncated.
pub fn mul_u128(a: (u64, u64), b: (u64, u64)) -> (r: (u64, u64))
    ensures
        wide(r) == (wide(a) * wide(b)) / 0x1000000000000000000000000000000int
            % 0x100000000000000000000000000000000int,
{
    proof {
        lemma_mul_below_square(a.0 as int, b.0 as int, 0x10000000000000000int);
        lemma_mul_below_square(a.0 as int, b.1 as int, 0x10000000000000000int);
        lemma_mul_below_square(a.1 as int, b.0 as int, 0x10000000000000000int);
        lemma_mul_below_square(a.1 as int, b.1 as int, 0x10000000000000000int);
    }
    // the four 64x64 partial products of the 256-bit multiplication
    let hh: u128 = a.0 as u128 * b.0 as u128;
    let hl: u128 = a.0 as u128 * b.1 as u128;
    let lh: u128 = a.1 as u128 * b.0 as u128;
    let ll: u128 = a.1 as u128 * b.1 as u128;
    proof {
        lemma_fundamental_div_mod(hh as int, 0x10000000000000000);
        lemma_fundamental_div_mod(hl as int, 0x10000000000000000);
        lemma_fundamental_div_mod(lh as int, 0x10000000000000000);
        lemma_fundamental_div_mod(ll as int, 0x10000000000000000);
    }
    // column sums with carries: (p3, p2, p1) are the high 192 bits of the
    // product, that is the product shifted right by one word
    let s0: u128 = hl % 0x10000000000000000 + lh % 0x10000000000000000 + ll
        / 0x10000000000000000;
    let p1: u64 = (s0 % 0x10000000000000000) as u64;
    let c0: u128 = s0 / 0x10000000000000000;
    let s1: u128 = hh % 0x10000000000000000 + hl / 0x10000000000000000 + lh
        / 0x10000000000000000 + c0;
    let p2: u64 = (s1 % 0x10000000000000000) as u64;
    let c1: u128 = s1 / 0x10000000000000000;
    let p3_wide: u128 = hh / 0x10000000000000000 + c1;
    let ghost t: int = hh * 0x10000000000000000int + hl + lh + (ll as int)
        / 0x10000000000000000int;
    proof {
        lemma_fundamental_div_mod(s0 as int, 0x10000000000000000);
        lemma_fundamental_div_mod(s1 as int, 0x10000000000000000);
        assert(t == p3_wide * 0x100000000000000000000000000000000int + p2
            * 0x10000000000000000int + p1);
        // the full 256-bit product, and `t` as its high three words
        assert(wide(a) * wide(b) == hh * 0x100000000000000000000000000000000int + hl
            * 0x10000000000000000int + lh * 0x10000000000000000int + ll) by (nonlinear_arith)
            requires
                hh == a.0 * b.0,
                hl == a.0 * b.1,
                lh == a.1 * b.0,
                ll == a.1 * b.1,
                wide(a) == a.0 * 0x10000000000000000int + a.1,
                wide(b) == b.0 * 0x10000000000000000int + b.1,
        ;
        lemma_fundamental_div_mod_converse(
            wide(a) * wide(b),
            0x10000000000000000,
            t,
            (ll as int) % 0x10000000000000000int,
        );
        // t == product / 2^64, so p3_wide fits one word
        lemma_mul_below_square(wide(a), wide(b), 0x100000000000000000000000000000000int);
        assert(p3_wide < 0x10000000000000000);
    }
    let p3: u64 = p3_wide as u64;
    // rescale: shift the 192-bit value (p3, p2, p1) right by 56 bits and
    // keep the low 128 bits of the outcome
    let q1: u64 = p1 / 0x100000000000000;
    let q2: u64 = p2 / 0x100000000000000;
    let low: u64 = (p2 % 0x100000000000000) * 0x100 + q1;
    let high: u64 = (p3 % 0x100000000000000) * 0x100 + q2;
    proof {
        lemma_fundamental_div_mod(p1 as int, 0x100000000000000);
        lemma_fundamental_div_mod(p2 as int, 0x100000000000000);
        lemma_fundamental_div_mod(p3 as int, 0x100000000000000);
        let u: int = p3_wide * 0x1000000000000000000int + p2 * 0x100int + q1;
        lemma_fundamental_div_mod_converse(t, 0x100000000000000, u, (p1 as int) % 0x100000000000000int);
        vstd::arithmetic::div_mod::lemma_div_denominator(
            wide(a) * wide(b),
            0x10000000000000000,
            0x100000000000000,
        );
        assert(u == wide(a) * wide(b) / 0x1000000000000000000000000000000int);
        lemma_fundamental_div_mod_converse(
            u,
            0x100000000000000000000000000000000int,
            (p3 as int) / 0x100000000000000,
            high * 0x10000000000000000int + low,
        );
    }
    (high, low)
}

} // verus!
