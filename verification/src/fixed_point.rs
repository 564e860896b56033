//! The Q8.120 signed fixed-point number type.
//!
//! A value is a sign together with a 128-bit unsigned magnitude split into
//! two 64-bit words: the high word holds 8 integer bits and 56 fraction
//! bits, the low word 64 more fraction bits.  The real number represented
//! is `sign * (high * 2^-56 + low * 2^-120)`; equivalently, `value()` below
//! gives the represented number scaled by 2^120, as a mathematical integer.
//!
//! Zero is canonical: magnitude `(0, 0)` carries the sign `Neutral`, and a
//! well-formed non-zero magnitude never does.  Arithmetic that wraps past
//! the 8 integer bits truncates silently, as the contracts state.

use crate::words::add_u128;
use crate::words::lemma_wide_words_of;
use crate::words::lemma_words_of_wide;
use crate::words::mul_u128;
use crate::words::sub_u128;
use crate::words::wide;
use crate::words::words_of;
use core::cmp::Ordering;
use core::ops::Neg;
use vstd::arithmetic::power2::pow2;
use vstd::prelude::*;

verus! {

/// Tri-state sign used for sign-magnitude arithmetic.
#[derive(Clone, Copy, PartialEq, Eq, Structural, Debug)]
pub enum Sign {
    Negative,
    Neutral,
    Positive,
}

/// The integer -1, 0 or 1 a sign stands for.
pub open spec fn sign_int(s: Sign) -> int {
    match s {
        Sign::Negative => -1,
        Sign::Neutral => 0,
        Sign::Positive => 1,
    }
}

impl Sign {
    /// Negation at the spec level: swaps `Negative` and `Positive`.
    pub open spec fn flip(self) -> Sign {
        match self {
            Sign::Negative => Sign::Positive,
            Sign::Neutral => Sign::Neutral,
            Sign::Positive => Sign::Negative,
        }
    }
}

impl vstd::std_specs::ops::NegSpecImpl for Sign {
    open spec fn obeys_neg_spec() -> bool {
        true
    }

    open spec fn neg_req(self) -> bool {
        true
    }

    open spec fn neg_spec(self) -> Sign {
        self.flip()
    }
}

impl core::ops::Neg for Sign {
    type Output = Sign;

    fn neg(self) -> (r: Sign)
        ensures
            r == self.flip(),
    {
        match self {
            Sign::Negative => Sign::Positive,
            Sign::Neutral => Sign::Neutral,
            Sign::Positive => Sign::Negative,
        }
    }
}

/// The ordering of two mathematical integers.
pub open spec fn order_of(a: int, b: int) -> Ordering {
    if a < b {
        Ordering::Less
    } else if a == b {
        Ordering::Equal
    } else {
        Ordering::Greater
    }
}

/// Compare two signs in the order `Negative < Neutral < Positive`.
fn sign_cmp(a: Sign, b: Sign) -> (r: Ordering)
    ensures
        r == order_of(sign_int(a), sign_int(b)),
{
    match (a, b) {
        (Sign::Negative, Sign::Negative) => Ordering::Equal,
        (Sign::Negative, _) => Ordering::Less,
        (Sign::Neutral, Sign::Negative) => Ordering::Greater,
        (Sign::Neutral, Sign::Neutral) => Ordering::Equal,
        (Sign::Neutral, Sign::Positive) => Ordering::Less,
        (Sign::Positive, Sign::Positive) => Ordering::Equal,
        (Sign::Positive, _) => Ordering::Greater,
    }
}

/// A Q8.120 signed fixed-point number.
#[allow(non_camel_case_types)]
#[derive(Clone, Copy, Debug)]
pub struct f8_120 {
    /// `(high, low)`: the 128-bit magnitude, high word first.
    pub words: (u64, u64),
    /// The sign; `Neutral` exactly for canonical zero.
    pub sign: Sign,
}

impl f8_120 {
    /// The magnitude as a mathematical integer in `[0, 2^128)`.
    pub open spec fn mag(self) -> int {
        wide(self.words)
    }

    /// The represented number scaled by 2^120: `sign * magnitude`.
    pub open spec fn value(self) -> int {
        sign_int(self.sign) * self.mag()
    }

    /// Well-formedness: the sign is `Neutral` exactly when the magnitude is zero.
    pub open spec fn wf(self) -> bool {
        self.mag() == 0 <==> self.sign == Sign::Neutral
    }

    /// Canonical zero at the spec level.
    pub open spec fn zero_spec() -> f8_120 {
        f8_120 { words: (0, 0), sign: Sign::Neutral }
    }

    /// The integer one, `(2^56, 0)` with sign `Positive`, at the spec level.
    pub open spec fn one_spec() -> f8_120 {
        f8_120 { words: (0x100000000000000, 0), sign: Sign::Positive }
    }

    /// How two values compare: by sign first, then by magnitude, with the
    /// direction reversed when both are negative.
    pub open spec fn cmp_spec(self, other: f8_120) -> Ordering {
        if self.sign != other.sign {
            order_of(sign_int(self.sign), sign_int(other.sign))
        } else {
            match self.sign {
                Sign::Neutral => Ordering::Equal,
                Sign::Positive => order_of(self.mag(), other.mag()),
                Sign::Negative => order_of(other.mag(), self.mag()),
            }
        }
    }

    /// The same magnitude under the opposite sign.
    pub open spec fn negated(self) -> f8_120 {
        f8_120 { words: self.words, sign: self.sign.flip() }
    }

    /// What addition returns: zero operands pass the other through; equal
    /// signs add magnitudes mod 2^128 and keep the sign; different signs
    /// subtract the smaller magnitude from the larger and take the sign of
    /// the larger operand, with canonical zero on equal magnitudes.
    pub open spec fn add_spec(self, other: f8_120) -> f8_120 {
        if self.sign == Sign::Neutral {
            other
        } else if other.sign == Sign::Neutral {
            self
        } else if self.sign == other.sign {
            f8_120 {
                words: words_of(
                    (self.mag() + other.mag()) % 0x100000000000000000000000000000000int,
                ),
                sign: self.sign,
            }
        } else if self.mag() == other.mag() {
            f8_120::zero_spec()
        } else if self.mag() > other.mag() {
            f8_120 { words: words_of(self.mag() - other.mag()), sign: self.sign }
        } else {
            f8_120 { words: words_of(other.mag() - self.mag()), sign: other.sign }
        }
    }

    /// What subtraction returns: exactly `self.add_spec(other.negated())`,
    /// written out by the same case analysis without building the negation.
    pub open spec fn sub_spec(self, other: f8_120) -> f8_120 {
        self.add_spec(other.negated())
    }

    /// What multiplication returns: a zero operand gives canonical zero;
    /// otherwise the magnitude is the 256-bit magnitude product rescaled
    /// from Q16.240 to Q8.120, `(ma * mb / 2^120) mod 2^128`, with sign
    /// `Positive` exactly when the operand signs match, and canonical zero
    /// whenever the rescaled magnitude is all zero.
    pub open spec fn mul_spec(self, other: f8_120) -> f8_120 {
        if self.sign == Sign::Neutral || other.sign == Sign::Neutral {
            f8_120::zero_spec()
        } else {
            let m = (self.mag() * other.mag()) / 0x1000000000000000000000000000000int
                % 0x100000000000000000000000000000000int;
            if m == 0 {
                f8_120::zero_spec()
            } else {
                f8_120 {
                    words: words_of(m),
                    sign: if self.sign == other.sign {
                        Sign::Positive
                    } else {
                        Sign::Negative
                    },
                }
            }
        }
    }

    /// Build a value from its raw parts, unchecked as to canonical zero.
    pub fn new(words: (u64, u64), sign: Sign) -> (r: f8_120)
        ensures
            r == (f8_120 { words, sign }),
    {
        f8_120 { words, sign }
    }

    /// Canonical zero.
    pub fn zero() -> (r: f8_120)
        ensures
            r == f8_120::zero_spec(),
            r.value() == 0,
            r.wf(),
    {
        f8_120::new((0, 0), Sign::Neutral)
    }

    /// The integer one in Q8.120.
    pub fn one() -> (r: f8_120)
        ensures
            r == f8_120::one_spec(),
            r.value() == 0x1000000000000000000000000000000,
            r.wf(),
    {
        f8_120::new((0x100000000000000, 0), Sign::Positive)
    }

    /// Compare magnitudes alone, high word first.
    pub fn words_cmp(&self, other: &Self) -> (r: Ordering)
        ensures
            r == order_of(self.mag(), other.mag()),
    {
        proof {
            lemma_words_order(self.words, other.words);
        }
        if self.words.0 < other.words.0 {
            Ordering::Less
        } else if self.words.0 > other.words.0 {
            Ordering::Greater
        } else {
            if self.words.1 < other.words.1 {
                Ordering::Less
            } else if self.words.1 > other.words.1 {
                Ordering::Greater
            } else {
                Ordering::Equal
            }
        }
    }

    /// Compare two values: sign first, then magnitude, direction flipped
    /// for negative operands.  On well-formed values this is exactly the
    /// order of the represented numbers.
    pub fn cmp(&self, other: &Self) -> (r: Ordering)
        ensures
            r == self.cmp_spec(*other),
            self.wf() && other.wf() ==> r == order_of(self.value(), other.value()),
    {
        proof {
            if self.wf() && other.wf() {
                lemma_cmp_reflects_value(*self, *other);
            }
        }
        let sc = sign_cmp(self.sign, other.sign);
        match sc {
            Ordering::Equal => match self.sign {
                Sign::Neutral => Ordering::Equal,
                Sign::Positive => self.words_cmp(other),
                Sign::Negative => other.words_cmp(self),
            },
            _ => sc,
        }
    }
}

/// Lexicographic comparison of word pairs agrees with the order of the
/// 128-bit integers they stand for.
proof fn lemma_words_order(a: (u64, u64), b: (u64, u64))
    ensures
        a.0 < b.0 ==> wide(a) < wide(b),
        a.0 > b.0 ==> wide(a) > wide(b),
        a.0 == b.0 ==> wide(a) - wide(b) == a.1 - b.1,
{
}

/// `value` read off branch by branch: the magnitude, its negation, or zero,
/// as the sign directs.
proof fn lemma_value_by_sign(x: f8_120)
    ensures
        x.sign == Sign::Positive ==> x.value() == x.mag(),
        x.sign == Sign::Negative ==> x.value() == -x.mag(),
        x.sign == Sign::Neutral ==> x.value() == 0,
{
    if x.sign == Sign::Positive {
        assert(sign_int(x.sign) == 1);
    } else if x.sign == Sign::Negative {
        assert(sign_int(x.sign) == -1);
    } else {
        assert(sign_int(x.sign) == 0);
    }
}

/// On a well-formed value the sign fixes the side of zero, so that `value`
/// can be read off linearly from the magnitude.
proof fn lemma_sign_value(x: f8_120)
    requires
        x.wf(),
    ensures
        x.sign == Sign::Neutral ==> x.value() == 0,
        x.sign == Sign::Positive ==> x.value() == x.mag() && x.mag() > 0,
        x.sign == Sign::Negative ==> x.value() == -x.mag() && x.mag() > 0,
{
}

/// On well-formed values, `cmp_spec` is the order of the represented numbers.
pub proof fn lemma_cmp_reflects_value(a: f8_120, b: f8_120)
    requires
        a.wf(),
        b.wf(),
    ensures
        a.cmp_spec(b) == order_of(a.value(), b.value()),
{
    lemma_sign_value(a);
    lemma_sign_value(b);
}

impl vstd::std_specs::cmp::PartialEqSpecImpl for f8_120 {
    open spec fn obeys_eq_spec() -> bool {
        true
    }

    open spec fn eq_spec(&self, other: &Self) -> bool {
        self.cmp_spec(*other) == Ordering::Equal
    }
}

impl PartialEq for f8_120 {
    /// Equality through `cmp`: equal signs and, when the sign is not
    /// `Neutral`, equal magnitudes.
    fn eq(&self, other: &Self) -> (r: bool) {
        matches!(self.cmp(other), Ordering::Equal)
    }
}

impl vstd::std_specs::cmp::PartialOrdSpecImpl for f8_120 {
    open spec fn obeys_partial_cmp_spec() -> bool {
        true
    }

    open spec fn partial_cmp_spec(&self, other: &Self) -> Option<Ordering> {
        Some(self.cmp_spec(*other))
    }
}

impl PartialOrd for f8_120 {
    /// Total: always `Some` of the sign-magnitude comparison.
    fn partial_cmp(&self, other: &Self) -> (r: Option<Ordering>) {
        Some(self.cmp(other))
    }
}

impl Default for f8_120 {
    /// The default value is canonical zero.
    fn default() -> (r: Self)
        ensures
            r == f8_120::zero_spec(),
    {
        f8_120::zero()
    }
}

impl vstd::std_specs::ops::NegSpecImpl for f8_120 {
    open spec fn obeys_neg_spec() -> bool {
        true
    }

    open spec fn neg_req(self) -> bool {
        true
    }

    open spec fn neg_spec(self) -> f8_120 {
        self.negated()
    }
}

impl core::ops::Neg for f8_120 {
    type Output = f8_120;

    /// Negation flips the sign in place and fixes `Neutral`.
    fn neg(self) -> (r: f8_120)
        ensures
            r == self.negated(),
            r.value() == -self.value(),
            self.wf() ==> r.wf(),
    {
        f8_120::new(self.words, self.sign.neg())
    }
}

impl vstd::std_specs::ops::AddSpecImpl for f8_120 {
    open spec fn obeys_add_spec() -> bool {
        true
    }

    open spec fn add_req(self, rhs: f8_120) -> bool {
        true
    }

    open spec fn add_spec(self, rhs: f8_120) -> f8_120 {
        self.add_spec(rhs)
    }
}

impl core::ops::Add for f8_120 {
    type Output = f8_120;

    /// Sign-magnitude addition; the magnitude wraps silently past 2^128.
    fn add(self, other: f8_120) -> (r: f8_120)
        ensures
            r == self.add_spec(other),
    {
        if self.sign == Sign::Neutral {
            return other;
        }
        if other.sign == Sign::Neutral {
            return self;
        }
        if self.sign == other.sign {
            let w = add_u128(self.words, other.words);
            proof {
                lemma_words_of_wide(w);
            }
            f8_120::new(w, self.sign)
        } else {
            match self.words_cmp(&other) {
                Ordering::Equal => f8_120::zero(),
                Ordering::Greater => {
                    let w = sub_u128(self.words, other.words);
                    proof {
                        lemma_words_of_wide(w);
                    }
                    f8_120::new(w, self.sign)
                },
                Ordering::Less => {
                    let w = sub_u128(other.words, self.words);
                    proof {
                        lemma_words_of_wide(w);
                    }
                    f8_120::new(w, other.sign)
                },
            }
        }
    }
}

impl vstd::std_specs::ops::SubSpecImpl for f8_120 {
    open spec fn obeys_sub_spec() -> bool {
        true
    }

    open spec fn sub_req(self, rhs: f8_120) -> bool {
        true
    }

    open spec fn sub_spec(self, rhs: f8_120) -> f8_120 {
        self.sub_spec(rhs)
    }
}

impl core::ops::Sub for f8_120 {
    type Output = f8_120;

    /// Sign-magnitude subtraction, the same case analysis as addition with
    /// the right operand's sign read in reverse.
    fn sub(self, other: f8_120) -> (r: f8_120)
        ensures
            r == self.sub_spec(other),
    {
        if self.sign == Sign::Neutral {
            return other.neg();
        }
        if other.sign == Sign::Neutral {
            return self;
        }
        if self.sign != other.sign {
            let w = add_u128(self.words, other.words);
            proof {
                lemma_words_of_wide(w);
            }
            f8_120::new(w, self.sign)
        } else {
            match self.words_cmp(&other) {
                Ordering::Equal => f8_120::zero(),
                Ordering::Greater => {
                    let w = sub_u128(self.words, other.words);
                    proof {
                        lemma_words_of_wide(w);
                    }
                    f8_120::new(w, self.sign)
                },
                Ordering::Less => {
                    let w = sub_u128(other.words, self.words);
                    proof {
                        lemma_words_of_wide(w);
                    }
                    f8_120::new(w, self.sign.neg())
                },
            }
        }
    }
}

impl vstd::std_specs::ops::MulSpecImpl for f8_120 {
    open spec fn obeys_mul_spec() -> bool {
        true
    }

    open spec fn mul_req(self, rhs: f8_120) -> bool {
        true
    }

    open spec fn mul_spec(self, rhs: f8_120) -> f8_120 {
        self.mul_spec(rhs)
    }
}

impl core::ops::Mul for f8_120 {
    type Output = f8_120;

    /// Sign-magnitude multiplication with rescaling; integer bits beyond
    /// the eighth wrap off silently and fraction bits beyond the 120th are
    /// truncated.
    fn mul(self, other: f8_120) -> (r: f8_120)
        ensures
            r == self.mul_spec(other),
    {
        if self.sign == Sign::Neutral || other.sign == Sign::Neutral {
            return f8_120::zero();
        }
        let w = mul_u128(self.words, other.words);
        if w.0 == 0 && w.1 == 0 {
            f8_120::zero()
        } else {
            proof {
                lemma_words_of_wide(w);
            }
            f8_120::new(
                w,
                if self.sign == other.sign {
                    Sign::Positive
                } else {
                    Sign::Negative
                },
            )
        }
    }
}

/// Division truncated toward zero, the rounding rule the rescaled product
/// follows on signed values.
pub open spec fn div_trunc(x: int, d: int) -> int {
    if x >= 0 {
        x / d
    } else {
        -((-x) / d)
    }
}

/// Multiplication always yields a well-formed value, and when the rescaled
/// magnitude product stays below 2^128 it is the product of the represented
/// values, truncated toward zero to the Q8.120 grid.
pub proof fn lemma_mul_value(a: f8_120, b: f8_120)
    requires
        a.wf(),
        b.wf(),
    ensures
        a.mul_spec(b).wf(),
        (a.mag() * b.mag()) / 0x1000000000000000000000000000000int
            < 0x100000000000000000000000000000000int ==> a.mul_spec(b).value() == div_trunc(
            a.value() * b.value(),
            0x1000000000000000000000000000000int,
        ),
{
    lemma_sign_value(a);
    lemma_sign_value(b);
    let r = a.mul_spec(b);
    lemma_value_by_sign(r);
    if a.sign == Sign::Neutral || b.sign == Sign::Neutral {
        assert(a.value() * b.value() == 0) by (nonlinear_arith)
            requires
                a.value() == 0 || b.value() == 0,
        ;
    } else {
        let p: int = a.mag() * b.mag();
        crate::words::lemma_mul_below_square(a.mag(), b.mag(), 0x100000000000000000000000000000000int);
        let d: int = p / 0x1000000000000000000000000000000int;
        let m: int = d % 0x100000000000000000000000000000000int;
        if m != 0 {
            lemma_wide_words_of(m);
        }
        if d < 0x100000000000000000000000000000000int {
            vstd::arithmetic::div_mod::lemma_small_mod(
                d as nat,
                0x100000000000000000000000000000000nat,
            );
            if a.sign == b.sign {
                assert(a.value() * b.value() == p) by (nonlinear_arith)
                    requires
                        (a.value() == a.mag() && b.value() == b.mag()) || (a.value() == -a.mag()
                            && b.value() == -b.mag()),
                        p == a.mag() * b.mag(),
                ;
            } else {
                assert(a.value() * b.value() == -p) by (nonlinear_arith)
                    requires
                        (a.value() == a.mag() && b.value() == -b.mag()) || (a.value() == -a.mag()
                            && b.value() == b.mag()),
                        p == a.mag() * b.mag(),
                ;
            }
        }
    }
}

/// The overflow-free cases of addition are exact on represented values, and
/// the result is well-formed unless the magnitude sum wraps to exactly zero.
/// Addition of equal non-neutral signs: the magnitudes add mod 2^128.
#[verifier::spinoff_prover]
proof fn lemma_add_same_sign(a: f8_120, b: f8_120)
    requires
        a.wf(),
        b.wf(),
        a.sign == b.sign,
        a.sign != Sign::Neutral,
    ensures
        a.mag() + b.mag() < 0x100000000000000000000000000000000int ==> a.add_spec(b).value()
            == a.value() + b.value(),
        (a.mag() + b.mag()) % 0x100000000000000000000000000000000int != 0 ==> a.add_spec(b).wf(),
{
    lemma_sign_value(a);
    lemma_sign_value(b);
    let r = a.add_spec(b);
    lemma_value_by_sign(r);
    let s: int = (a.mag() + b.mag()) % 0x100000000000000000000000000000000int;
    lemma_wide_words_of(s);
    assert(r.mag() == s);
    assert(r.sign == a.sign);
    if a.mag() + b.mag() < 0x100000000000000000000000000000000int {
        vstd::arithmetic::div_mod::lemma_small_mod(
            (a.mag() + b.mag()) as nat,
            0x100000000000000000000000000000000nat,
        );
        assert(r.mag() == a.mag() + b.mag());
        if a.sign == Sign::Positive {
            assert(r.value() == r.mag());
        } else {
            assert(r.value() == -r.mag());
        }
    }
}

/// Addition of opposite non-neutral signs: exact subtraction of the
/// smaller magnitude, with the larger operand's sign.
#[verifier::spinoff_prover]
proof fn lemma_add_diff_sign(a: f8_120, b: f8_120)
    requires
        a.wf(),
        b.wf(),
        a.sign != b.sign,
        a.sign != Sign::Neutral,
        b.sign != Sign::Neutral,
    ensures
        a.add_spec(b).value() == a.value() + b.value(),
        a.add_spec(b).wf(),
{
    lemma_sign_value(a);
    lemma_sign_value(b);
    let r = a.add_spec(b);
    lemma_value_by_sign(r);
    if a.mag() == b.mag() {
        assert(r.value() == 0);
    } else if a.mag() > b.mag() {
        lemma_wide_words_of(a.mag() - b.mag());
        assert(r.mag() == a.mag() - b.mag());
        if a.sign == Sign::Positive {
            assert(r.value() == r.mag());
        } else {
            assert(r.value() == -r.mag());
        }
    } else {
        lemma_wide_words_of(b.mag() - a.mag());
        assert(r.mag() == b.mag() - a.mag());
        if b.sign == Sign::Positive {
            assert(r.value() == r.mag());
        } else {
            assert(r.value() == -r.mag());
        }
    }
}

#[verifier::spinoff_prover]
pub proof fn lemma_add_value(a: f8_120, b: f8_120)
    requires
        a.wf(),
        b.wf(),
    ensures
        a.sign != b.sign || a.mag() + b.mag() < 0x100000000000000000000000000000000int
            ==> a.add_spec(b).value() == a.value() + b.value(),
        a.sign != b.sign || (a.mag() + b.mag()) % 0x100000000000000000000000000000000int != 0
            || a.sign == Sign::Neutral ==> a.add_spec(b).wf(),
{
    if a.sign == Sign::Neutral {
        lemma_sign_value(a);
        assert(a.add_spec(b) == b);
    } else if b.sign == Sign::Neutral {
        lemma_sign_value(b);
        assert(a.add_spec(b) == a);
    } else if a.sign == b.sign {
        lemma_add_same_sign(a, b);
    } else {
        lemma_add_diff_sign(a, b);
    }
}

/// Subtraction is addition of the negated right operand, so the same exactness
/// and well-formedness carry over.
pub proof fn lemma_sub_value(a: f8_120, b: f8_120)
    requires
        a.wf(),
        b.wf(),
    ensures
        a.sign == b.sign || a.mag() + b.mag() < 0x100000000000000000000000000000000int
            ==> a.sub_spec(b).value() == a.value() - b.value(),
        a.sign == b.sign || (a.mag() + b.mag()) % 0x100000000000000000000000000000000int != 0
            || a.sign == Sign::Neutral ==> a.sub_spec(b).wf(),
{
    assert(b.negated().wf()) by {
        lemma_sign_value(b);
    }
    lemma_add_value(a, b.negated());
    lemma_sign_value(b);
}

/// A logical shift of `val` right by `count` bits, as an integer: negative
/// counts shift left and wrap mod 2^64, and any count past the 64-bit
/// register in either direction discards everything.
pub open spec fn shifted(val: u64, count: int) -> int {
    if count >= 64 {
        0
    } else if count >= 0 {
        (val as int) / (pow2(count as nat) as int)
    } else if count > -64 {
        (val * pow2((-count) as nat)) % 0x10000000000000000int
    } else {
        0
    }
}

/// 2^k as a 64-bit word.
fn two_to(k: u32) -> (r: u64)
    requires
        k < 64,
    ensures
        r as int == pow2(k as nat),
{
    proof {
        vstd::arithmetic::power2::lemma2_to64();
        vstd::arithmetic::power2::lemma2_to64_rest();
    }
    let mut r: u64 = 1;
    let mut i: u32 = 0;
    while i < k
        invariant
            i <= k,
            k < 64,
            r as int == pow2(i as nat),
        decreases k - i,
    {
        proof {
            vstd::arithmetic::power2::lemma_pow2_unfold((i + 1) as nat);
            vstd::arithmetic::power2::lemma_pow2_strictly_increases(i as nat, 63);
            vstd::arithmetic::power2::lemma2_to64_rest();
        }
        r = r * 2;
        i = i + 1;
    }
    r
}

/// Shift `val` right by `count` bits; a negative count shifts left.  Shift
/// amounts of 64 or more in either direction saturate to zero rather than
/// falling into undefined behaviour.
pub fn safe_shr(val: u64, count: i16) -> (r: u64)
    ensures
        r as int == shifted(val, count as int),
{
    if count >= 0 {
        if count >= 64 {
            0
        } else {
            let p = two_to(count as u32);
            proof {
                vstd::arithmetic::power2::lemma_pow2_pos(count as nat);
            }
            val / p
        }
    } else {
        if count <= -64 {
            0
        } else {
            let n: u32 = (-(count as i32)) as u32;
            let p = two_to(n);
            proof {
                crate::words::lemma_mul_below_square(val as int, p as int, 0x10000000000000000int);
            }
            (((val as u128) * (p as u128)) % 0x10000000000000000) as u64
        }
    }
}

/// What conversion from a float decomposition builds: each magnitude word
/// is the mantissa shifted so that the float's fraction lines up with the
/// word's place in the Q8.120 layout, and a zero magnitude forces the sign
/// to `Neutral` whatever the float's sign bit said.
pub open spec fn conv_spec(mantissa: u64, exponent: int, negative: bool) -> f8_120 {
    let w1 = shifted(mantissa, -56 - exponent) as u64;
    let w2 = shifted(mantissa, -120 - exponent) as u64;
    if w1 == 0 && w2 == 0 {
        f8_120::zero_spec()
    } else {
        f8_120 {
            words: (w1, w2),
            sign: if negative {
                Sign::Negative
            } else {
                Sign::Positive
            },
        }
    }
}

impl f8_120 {
    /// Build a value from the integer decomposition of an IEEE float: the
    /// represented number is `mantissa * 2^exponent`, negated when
    /// `negative` holds.  Fraction bits below the 120-bit resolution are
    /// truncated; integer bits past the eighth wrap off.
    pub fn from_parts(mantissa: u64, exponent: i16, negative: bool) -> (r: f8_120)
        requires
            -30000 <= exponent <= 30000,
        ensures
            r == conv_spec(mantissa, exponent as int, negative),
            r.wf(),
    {
        let word1 = safe_shr(mantissa, 8 - 64 - exponent);
        let word2 = safe_shr(mantissa, 8 - 128 - exponent);
        if word1 == 0 && word2 == 0 {
            f8_120::new((word1, word2), Sign::Neutral)
        } else {
            f8_120::new(
                (word1, word2),
                if negative {
                    Sign::Negative
                } else {
                    Sign::Positive
                },
            )
        }
    }

    /// The integer part as a signed byte: the top 8 bits of the high word,
    /// reinterpreted in two's complement and negated for negative values.
    /// Integer parts outside the signed 8-bit range wrap; there is no
    /// saturation.
    pub fn to_i8(&self) -> (r: i8)
        ensures
            r as int == to_i8_spec(*self),
    {
        let t: u64 = self.words.0 / 0x100000000000000;
        let s: i16 = if t < 128 {
            t as i16
        } else {
            t as i16 - 256
        };
        let v: i16 = if matches!(self.sign, Sign::Negative) {
            if s == -128 {
                -128
            } else {
                -s
            }
        } else {
            s
        };
        v as i8
    }
}

/// An integer wrapped into the signed 8-bit range.
pub open spec fn wrap_i8(v: int) -> int {
    ((v + 128) % 256) - 128
}

/// What `to_i8` reads off a value: the top byte of the high word in two's
/// complement, negated with wrap when the sign is `Negative`.
pub open spec fn to_i8_spec(x: f8_120) -> int {
    let t = x.words.0 / 0x100000000000000;
    let s = if t < 128 {
        t as int
    } else {
        t - 256
    };
    if x.sign == Sign::Negative {
        wrap_i8(-s)
    } else {
        s
    }
}

impl vstd::std_specs::convert::FromSpecImpl<u8> for f8_120 {
    open spec fn obeys_from_spec() -> bool {
        true
    }

    open spec fn from_spec(v: u8) -> f8_120 {
        if v == 0 {
            f8_120::zero_spec()
        } else {
            f8_120 { words: ((v * 0x100000000000000) as u64, 0), sign: Sign::Positive }
        }
    }
}

impl From<u8> for f8_120 {
    /// An unsigned byte becomes its integer value in Q8.120: the byte in
    /// the top 8 bits of the high word.
    fn from(v: u8) -> (r: f8_120) {
        let w: u64 = (v as u64) * 0x100000000000000;
        if v == 0 {
            f8_120::zero()
        } else {
            f8_120::new((w, 0), Sign::Positive)
        }
    }
}

/// `(x * 2^a) / 2^(a + d) == x / 2^d` for nonnegative `x`: shifting left
/// then right further cancels into a shorter right shift.
proof fn lemma_shift_cancel(x: int, a: nat, d: nat)
    requires
        0 <= x,
    ensures
        (x * pow2(a)) / (pow2((a + d) as nat) as int) == x / (pow2(d) as int),
{
    vstd::arithmetic::power2::lemma_pow2_pos(a);
    vstd::arithmetic::power2::lemma_pow2_pos(d);
    vstd::arithmetic::power2::lemma_pow2_adds(a, d);
    vstd::arithmetic::mul::lemma_mul_nonnegative(x, pow2(a) as int);
    vstd::arithmetic::div_mod::lemma_div_denominator(
        x * pow2(a),
        pow2(a) as int,
        pow2(d) as int,
    );
    vstd::arithmetic::div_mod::lemma_div_multiples_vanish(x, pow2(a) as int);
    assert(pow2(a) * x == x * pow2(a)) by (nonlinear_arith);
}

/// `(x * 2^b) % 2^a == 0` when `a <= b`: a left shift by at least `a` bits
/// leaves nothing below the `a`-bit line.
proof fn lemma_shift_mod_zero(x: int, b: nat, a: nat)
    requires
        a <= b,
        0 <= x,
    ensures
        (x * pow2(b)) % (pow2(a) as int) == 0,
{
    vstd::arithmetic::power2::lemma_pow2_pos(a);
    vstd::arithmetic::power2::lemma_pow2_pos((b - a) as nat);
    vstd::arithmetic::power2::lemma_pow2_adds((b - a) as nat, a);
    vstd::arithmetic::mul::lemma_mul_is_associative(
        x,
        pow2((b - a) as nat) as int,
        pow2(a) as int,
    );
    vstd::arithmetic::div_mod::lemma_mod_multiples_basic(
        x * (pow2((b - a) as nat) as int),
        pow2(a) as int,
    );
}

/// Conversion from a float decomposition is exact whenever the represented
/// number lies on the Q8.120 grid and its magnitude fits: the magnitude is
/// exactly `mantissa * 2^(exponent + 120)` and the sign follows the
/// float's, with canonical zero for a zero mantissa.
pub proof fn lemma_from_parts_exact(m: u64, e: int, neg: bool)
    requires
        -120 <= e,
        m * pow2((e + 120) as nat) < 0x100000000000000000000000000000000int,
    ensures
        conv_spec(m, e, neg).mag() == m * pow2((e + 120) as nat),
        conv_spec(m, e, neg).wf(),
        conv_spec(m, e, neg).value() == (if neg {
            -1int
        } else {
            1int
        }) * (m * pow2((e + 120) as nat)),
{
    vstd::arithmetic::power2::lemma2_to64();
    vstd::arithmetic::power2::lemma2_to64_rest();
    vstd::arithmetic::power2::lemma_pow2_pos((e + 120) as nat);
    vstd::arithmetic::mul::lemma_mul_basics(m as int);
    vstd::arithmetic::mul::lemma_mul_nonnegative(m as int, pow2((e + 120) as nat) as int);
    let f: int = m * pow2((e + 120) as nat);
    let r = conv_spec(m, e, neg);
    lemma_value_by_sign(r);
    if m == 0 {
        assert(shifted(m, -56 - e) == 0);
        assert(shifted(m, -120 - e) == 0);
    } else if e + 120 < 64 {
        // the mantissa lands across the low word: the low word is the
        // shifted mantissa mod 2^64, the high word what moved past it
        vstd::arithmetic::div_mod::lemma_fundamental_div_mod(f, 0x10000000000000000int);
        assert(shifted(m, -120 - e) == f % 0x10000000000000000int) by {
            if e == -120 {
                assert(pow2(0) == 1);
                vstd::arithmetic::mul::lemma_mul_basics(m as int);
                vstd::arithmetic::div_mod::lemma_div_basics(m as int);
                vstd::arithmetic::div_mod::lemma_small_mod(m as nat, 0x10000000000000000nat);
            } else {
                assert(-64 < -120 - e < 0);
                assert((-(-120 - e)) as nat == (e + 120) as nat);
                assert(shifted(m, -120 - e) == (m * pow2((-(-120 - e)) as nat))
                    % 0x10000000000000000int);
            }
        }
        assert(shifted(m, -56 - e) == f / 0x10000000000000000int) by {
            if e == -120 {
                assert(f == m);
                vstd::arithmetic::div_mod::lemma_basic_div(f, 0x10000000000000000int);
            } else {
                lemma_shift_cancel(m as int, (e + 120) as nat, (-56 - e) as nat);
            }
        }
        assert(f / 0x10000000000000000int < 0x10000000000000000int);
    } else {
        // the mantissa reaches into the high word
        assert(e + 120 < 128) by {
            if e + 120 >= 128 {
                vstd::arithmetic::power2::lemma_pow2_adds(64, 64);
                vstd::arithmetic::power2::lemma_pow2_adds(128, (e - 8) as nat);
                vstd::arithmetic::power2::lemma_pow2_pos((e - 8) as nat);
                assert((128 + (e - 8)) as nat == (e + 120) as nat);
                assert(pow2(128) == 0x100000000000000000000000000000000nat);
                assert(m * pow2((e + 120) as nat) >= pow2((e + 120) as nat)) by (nonlinear_arith)
                    requires
                        m >= 1,
                        pow2((e + 120) as nat) > 0,
                ;
                assert(pow2((e + 120) as nat) >= 0x100000000000000000000000000000000nat)
                    by (nonlinear_arith)
                    requires
                        pow2((e + 120) as nat) == 0x100000000000000000000000000000000nat * pow2(
                            (e - 8) as nat,
                        ),
                        pow2((e - 8) as nat) >= 1,
                ;
            }
        }
        let g: int = m * pow2((e + 56) as nat);
        vstd::arithmetic::power2::lemma_pow2_adds((e + 56) as nat, 64);
        vstd::arithmetic::mul::lemma_mul_is_associative(
            m as int,
            pow2((e + 56) as nat) as int,
            pow2(64) as int,
        );
        assert(f == g * 0x10000000000000000int);
        vstd::arithmetic::mul::lemma_mul_nonnegative(m as int, pow2((e + 56) as nat) as int);
        assert(g < 0x10000000000000000int);
        assert(shifted(m, -120 - e) == 0);
        assert(shifted(m, -56 - e) == g) by {
            if e == -56 {
                assert(pow2(0) == 1);
                vstd::arithmetic::mul::lemma_mul_basics(m as int);
                vstd::arithmetic::div_mod::lemma_div_basics(m as int);
                assert(g == m);
            } else {
                assert(shifted(m, -56 - e) == (m * pow2((e + 56) as nat)) % 0x10000000000000000int);
            }
            vstd::arithmetic::div_mod::lemma_small_mod(g as nat, 0x10000000000000000nat);
        }
        assert(r.mag() == g * 0x10000000000000000int + 0);
    }
}

} // verus!
