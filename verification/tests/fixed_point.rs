use mandelrust::fixed_point::{f8_120, safe_shr, Sign};
use std::cmp::Ordering;

/// The (mantissa, exponent, sign) decomposition of an IEEE single, such
/// that `value == sign * mantissa * 2^exponent`.
fn integer_decode_f32(val: f32) -> (u64, i16, i8) {
    let bits = val.to_bits();
    let sign: i8 = if bits >> 31 == 0 { 1 } else { -1 };
    let mut exponent: i16 = ((bits >> 23) & 0xff) as i16;
    let mantissa = if exponent == 0 {
        (bits & 0x7fffff) << 1
    } else {
        (bits & 0x7fffff) | 0x800000
    };
    exponent -= 127 + 23;
    (mantissa as u64, exponent, sign)
}

/// The (mantissa, exponent, sign) decomposition of an IEEE double.
fn integer_decode_f64(val: f64) -> (u64, i16, i8) {
    let bits = val.to_bits();
    let sign: i8 = if bits >> 63 == 0 { 1 } else { -1 };
    let mut exponent: i16 = ((bits >> 52) & 0x7ff) as i16;
    let mantissa = if exponent == 0 {
        (bits & 0xfffffffffffff) << 1
    } else {
        (bits & 0xfffffffffffff) | 0x10000000000000
    };
    exponent -= 1023 + 52;
    (mantissa, exponent, sign)
}

fn fp_from_f32(val: f32) -> f8_120 {
    let (mantissa, exponent, sign) = integer_decode_f32(val);
    f8_120::from_parts(mantissa, exponent, sign < 0)
}

fn fp_from_f64(val: f64) -> f8_120 {
    let (mantissa, exponent, sign) = integer_decode_f64(val);
    f8_120::from_parts(mantissa, exponent, sign < 0)
}

fn sign_to_f32(s: Sign) -> f32 {
    match s {
        Sign::Negative => -1.0,
        Sign::Neutral => 0.0,
        Sign::Positive => 1.0,
    }
}

fn sign_to_f64(s: Sign) -> f64 {
    match s {
        Sign::Negative => -1.0,
        Sign::Neutral => 0.0,
        Sign::Positive => 1.0,
    }
}

fn f32_from_fp(val: f8_120) -> f32 {
    let mut f = 0.0f32;
    f += val.words.0 as f32 * 2f32.powi(8 - 64);
    f += val.words.1 as f32 * 2f32.powi(8 - 128);
    f *= sign_to_f32(val.sign);
    f
}

fn f64_from_fp(val: f8_120) -> f64 {
    let mut f = 0.0f64;
    f += val.words.0 as f64 * 2f64.powi(8 - 64);
    f += val.words.1 as f64 * 2f64.powi(8 - 128);
    f *= sign_to_f64(val.sign);
    f
}

#[test]
fn test_conversion() {
    let test32 = |mut val: f32| {
        for _ in 0..128 {
            let fp = fp_from_f32(val);
            let f = f32_from_fp(fp);
            assert_eq!(f, val);
            val /= 2.0;
            val = (val * 2f32.powi(120)).trunc() / 2f32.powi(120);
        }
    };
    let test64 = |mut val: f64| {
        for _ in 0..128 {
            let fp = fp_from_f64(val);
            let f = f64_from_fp(fp);
            assert_eq!(f, val);
            val /= 2.0;
            val = (val * 2f64.powi(120)).trunc() / 2f64.powi(120);
        }
    };

    test32(1.0);
    test64(1.0);
    test32(128.0);
    test64(128.0);
    test32(f32::from_bits(0b0_10000110_11111111111111111111111_u32));
    test64(f64::from_bits(
        0b0_10000000110_1111111111111111111111111111111100000000000000000000_u64,
    ));
    test64(f64::from_bits(
        0b0_10000000110_1111111111111111111111111111111111111111111111111111_u64,
    ));
    test64(f64::from_bits(
        0b0_10000000110_0101010101010101010101010101010101010101010101010101_u64,
    ));
    test64(f64::from_bits(
        0b0_10000000110_0110011100011110000111110000011111100000011111110000_u64,
    ));

    test32(-1.0);
    test64(-1.0);
    test32(-128.0);
    test64(-128.0);
    test32(-f32::from_bits(0b0_10000110_11111111111111111111111_u32));
    test64(-f64::from_bits(
        0b0_10000000110_1111111111111111111111111111111100000000000000000000_u64,
    ));
    test64(-f64::from_bits(
        0b0_10000000110_1111111111111111111111111111111111111111111111111111_u64,
    ));
    test64(-f64::from_bits(
        0b0_10000000110_0101010101010101010101010101010101010101010101010101_u64,
    ));
    test64(-f64::from_bits(
        0b0_10000000110_0110011100011110000111110000011111100000011111110000_u64,
    ));
}

#[test]
fn test_cmp() {
    let w1 = [0, 1, 5];
    let w2 = [0x0000000000000000u64, 0x8000000000000000, 0xC000000000000000];
    let mut fix = Vec::new();
    let mut float = Vec::new();
    for a in w1.iter().cloned() {
        for b in w2.iter().cloned() {
            if a == 0 && b == 0 {
                let val = f8_120::new((a, b), Sign::Neutral);
                fix.push(val);
                float.push(f32_from_fp(val));
            } else {
                let val = f8_120::new((a, b), Sign::Positive);
                fix.push(val);
                float.push(f32_from_fp(val));
                let val = f8_120::new((a, b), Sign::Negative);
                fix.push(val);
                float.push(f32_from_fp(val));
            }
        }
    }

    for (a1, b1) in fix.iter().cloned().zip(float.iter().cloned()) {
        for (a2, b2) in fix.iter().cloned().zip(float.iter().cloned()) {
            assert!(a1.cmp(&a2) == b1.partial_cmp(&b2).unwrap());
        }
    }
}

#[test]
fn test_add_sub() {
    let w1 = [0, 1, 5];
    let w2 = [0x0000000000000000u64, 0x8000000000000000, 0xC000000000000000];
    let mut fix = Vec::new();
    let mut float = Vec::new();
    for a in w1.iter().cloned() {
        for b in w2.iter().cloned() {
            if a == 0 && b == 0 {
                let val = f8_120::new((a, b), Sign::Neutral);
                fix.push(val);
                float.push(f32_from_fp(val));
            } else {
                let val = f8_120::new((a, b), Sign::Positive);
                fix.push(val);
                float.push(f32_from_fp(val));
                let val = f8_120::new((a, b), Sign::Negative);
                fix.push(val);
                float.push(f32_from_fp(val));
            }
        }
    }

    for (a1, b1) in fix.iter().cloned().zip(float.iter().cloned()) {
        for (a2, b2) in fix.iter().cloned().zip(float.iter().cloned()) {
            assert!(f32_from_fp(a1 + a2) == b1 + b2);
            assert!(f32_from_fp(a1 - a2) == b1 - b2);
        }
    }
}

#[test]
fn test_mul() {
    let f: Vec<f64> = vec![1.0, 10.0, 127.0, 170.0, 85.0];
    let mut floats = Vec::new();
    for v in f {
        floats.push(v);
        floats.push(-v);
        floats.push(v * 2f64.powi(-1));
        floats.push(v * 2f64.powi(-60));
        floats.push(v * 2f64.powi(-64));
        floats.push(v * 2f64.powi(-100));
        floats.push(v * 2f64.powi(-120));
    }

    let cut = |mut x: f64| {
        x = (x * 2f64.powi(120)).trunc() / 2f64.powi(120);
        x = (x / 2f64.powi(8)).fract() * 2f64.powi(8);
        x
    };

    let mut floats: Vec<f64> = floats.iter().map(|&x| cut(x)).filter(|&x| x.is_normal()).collect();
    floats.push(0.0);

    for f1 in floats.iter().cloned() {
        for f2 in floats.iter().cloned() {
            let fix1 = fp_from_f64(f1);
            let fix2 = fp_from_f64(f2);
            let fix3 = fix1 * fix2;
            let f3 = fp_from_f64(f1 * f2);
            assert!(fix3 == f3);
        }
    }
}

#[test]
fn canonical_zero_everywhere() {
    let zero = f8_120::zero();
    assert!(zero.words == (0, 0));
    assert!(zero.sign == Sign::Neutral);
    assert!(f8_120::default().sign == Sign::Neutral);

    // conversion in: a zero float lands on canonical zero whatever its sign bit
    assert!(fp_from_f64(0.0).sign == Sign::Neutral);
    assert!(fp_from_f64(-0.0).sign == Sign::Neutral);
    assert!(fp_from_f64(0.0).words == (0, 0));

    // a sum that cancels exactly is canonical zero
    let one = f8_120::one();
    let minus_one = -one;
    let sum = one + minus_one;
    assert!(sum.words == (0, 0));
    assert!(sum.sign == Sign::Neutral);
    let diff = one - one;
    assert!(diff.words == (0, 0));
    assert!(diff.sign == Sign::Neutral);

    // multiplication by zero, and a product whose truncation is all-zero
    assert!((one * zero).sign == Sign::Neutral);
    let tiny = f8_120::new((0, 1), Sign::Positive);
    let prod = tiny * tiny;
    assert!(prod.words == (0, 0));
    assert!(prod.sign == Sign::Neutral);

    // byte conversion in: zero is neutral, anything else positive
    assert!(f8_120::from(0u8).sign == Sign::Neutral);
    assert!(f8_120::from(7u8).sign == Sign::Positive);
}

#[test]
fn arithmetic_wraps_past_the_integer_bits() {
    // the 8-bit integer part overflows silently: 128 + 128 wraps to zero
    // magnitude while keeping the operands' sign, the one way a non-zero
    // construction escapes the canonical-zero rule
    let big = fp_from_f64(128.0);
    let sum = big + big;
    assert!(sum.words == (0, 0));
    assert!(sum.sign == Sign::Positive);

    // 80 + 80 wraps into the sign-magnitude value 160, which reads back as
    // 160 (the float conversion keeps all eight integer bits unsigned)
    let eighty = fp_from_f64(80.0);
    assert_eq!(f64_from_fp(eighty + eighty), 160.0);

    // multiplication re-normalizes: a product wrapping to zero magnitude
    // comes out as canonical zero
    let sixteen = fp_from_f64(16.0);
    let prod = sixteen * sixteen;
    assert!(prod.words == (0, 0));
    assert!(prod.sign == Sign::Neutral);

    // a product past 256 keeps only the low eight integer bits
    let twenty = fp_from_f64(20.0);
    assert_eq!(f64_from_fp(twenty * twenty), (20.0 * 20.0) % 256.0);
}

#[test]
fn one_is_unit() {
    let one = f8_120::one();
    assert!(one.words == (1 << 56, 0));
    assert!(one.sign == Sign::Positive);
    assert_eq!(f64_from_fp(one), 1.0);
    let x = fp_from_f64(0.8125);
    assert!(x * one == x);
    assert!(one * x == x);
    assert!(x + f8_120::zero() == x);
}

#[test]
fn from_u8_matches_float_conversion() {
    for v in [0u8, 1, 2, 100, 127, 255] {
        let a = f8_120::from(v);
        let b = fp_from_f64(v as f64);
        assert!(a == b);
        assert!(a.words == b.words);
        assert!(a.sign == b.sign);
    }
}

#[test]
fn to_i8_reads_integer_part() {
    assert_eq!(fp_from_f64(5.75).to_i8(), 5);
    assert_eq!(fp_from_f64(-5.75).to_i8(), -5);
    assert_eq!(f8_120::zero().to_i8(), 0);
    assert_eq!(fp_from_f64(127.0).to_i8(), 127);
    // no saturation: an integer part past the signed range wraps
    let high = f8_120::new((200u64 << 56, 0), Sign::Positive);
    assert_eq!(high.to_i8(), 200u8 as i8);
    let low = f8_120::new((128u64 << 56, 0), Sign::Negative);
    assert_eq!(low.to_i8(), -128);
}

#[test]
fn safe_shr_saturates_past_the_register() {
    assert_eq!(safe_shr(0xffff, 4), 0xfff);
    assert_eq!(safe_shr(1, 0), 1);
    assert_eq!(safe_shr(0xffff_ffff_ffff_ffff, 64), 0);
    assert_eq!(safe_shr(0xffff_ffff_ffff_ffff, 100), 0);
    assert_eq!(safe_shr(1, -4), 16);
    assert_eq!(safe_shr(1, -63), 1u64 << 63);
    assert_eq!(safe_shr(0xffff_ffff_ffff_ffff, -64), 0);
    assert_eq!(safe_shr(3, -63), 1u64 << 63);
}

#[test]
fn order_matches_float_order() {
    let a = fp_from_f64(-2.5);
    let b = fp_from_f64(0.25);
    let c = fp_from_f64(3.0);
    assert!(a.cmp(&b) == Ordering::Less);
    assert!(c.cmp(&b) == Ordering::Greater);
    assert!(b.cmp(&b) == Ordering::Equal);
    assert!(a.cmp(&c) == Ordering::Less);
    assert!((-c).cmp(&a) == Ordering::Less);
}
