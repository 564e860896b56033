use mandelrust::escape::partial_et;
use mandelrust::fixed_point::{f8_120, Sign};
use mandelrust::job::{make_jobs, Job};
use mandelrust::palette::{interpolate, render_pixels, Color, PixelClass};

fn integer_decode_f64(val: f64) -> (u64, i16, i8) {
    let bits = val.to_bits();
    let sign: i8 = if bits >> 63 == 0 { 1 } else { -1 };
    let mut exponent: i16 = ((bits >> 52) & 0x7ff) as i16;
    let mantissa = if exponent == 0 {
        (bits & 0xfffffffffffff) << 1
    } else {
        (bits & 0xfffffffffffff) | 0x10000000000000
    };
    exponent -= 1023 + 52;
    (mantissa, exponent, sign)
}

fn fp_from_f64(val: f64) -> f8_120 {
    let (mantissa, exponent, sign) = integer_decode_f64(val);
    f8_120::from_parts(mantissa, exponent, sign < 0)
}

fn sign_to_f64(s: Sign) -> f64 {
    match s {
        Sign::Negative => -1.0,
        Sign::Neutral => 0.0,
        Sign::Positive => 1.0,
    }
}

fn f64_from_fp(val: f8_120) -> f64 {
    let mut f = 0.0f64;
    f += val.words.0 as f64 * 2f64.powi(8 - 64);
    f += val.words.1 as f64 * 2f64.powi(8 - 128);
    f *= sign_to_f64(val.sign);
    f
}

/// The double-precision tail of the iteration, continuing from where the
/// fixed-point phase stopped.
fn partial_et_f64(
    x: f64,
    y: f64,
    max_i: i32,
    max_xy: f64,
    mut x1: f64,
    mut y1: f64,
    mut i: i32,
) -> (f64, f64, i32) {
    let mut xx = x1 * x1;
    let mut yy = y1 * y1;
    while xx + yy <= max_xy && i < max_i {
        let xtemp = xx - yy + x;
        y1 = 2.0 * x1 * y1 + y;
        x1 = xtemp;
        i += 1;
        xx = x1 * x1;
        yy = y1 * y1;
    }
    (x1, y1, i)
}

/// Two-phase escape time with smooth colouring: fixed point inside the
/// unit disk, doubles beyond it, and the renormalized continuous index at
/// the end, or the cap for points that never escape.
fn escape_time(x: f8_120, y: f8_120, max: i32) -> f64 {
    let two = f8_120::from(2u8);
    let (x1, y1, i) = partial_et(x, y, max, f8_120::one(), two, x, y, 0);
    let (x1, y1, i) = partial_et_f64(
        f64_from_fp(x),
        f64_from_fp(y),
        max,
        256.0 * 256.0,
        f64_from_fp(x1),
        f64_from_fp(y1),
        i,
    );

    let log_zn = (x1 * x1 + y1 * y1).ln() / 2.0;
    let nu = (log_zn / 2.0f64.ln()).ln() / 2.0f64.ln();
    let col = i as f64 + 1.0 - nu;

    if i == max {
        max as f64
    } else {
        col
    }
}

fn classify(col: f64, max: i32) -> PixelClass {
    if col as i32 == max {
        PixelClass::Inside
    } else {
        PixelClass::Escaped {
            trunc: col.trunc() as usize,
            fract: (col.fract() * 2f64.powi(32)) as u64,
        }
    }
}

fn test_palette() -> Vec<Color> {
    let bytes: [u8; 36] = [
        255, 0, 0, 127, 127, 127, 255, 255, 0, 127, 127, 127, 0, 255, 0, 127, 127, 127, 0, 255,
        255, 127, 127, 127, 0, 0, 255, 127, 127, 127, 255, 0, 255, 127, 127, 127,
    ];
    let mut tex = Vec::new();
    for ch in bytes.chunks(3) {
        tex.push(Color { r: ch[0], g: ch[1], b: ch[2] });
    }
    tex
}

#[test]
fn origin_reaches_the_cap() {
    // c = 0 lies in the set: the fixed-point phase alone runs to the cap
    let zero = f8_120::zero();
    let two = f8_120::from(2u8);
    let (_, _, i) = partial_et(zero, zero, 100, f8_120::one(), two, zero, zero, 0);
    assert_eq!(i, 100);
    assert_eq!(escape_time(zero, zero, 100), 100.0);
}

#[test]
fn two_escapes_at_once() {
    // c = 2 leaves the unit disk before the first step and escapes within
    // a couple of double-precision iterations
    let two = f8_120::from(2u8);
    let zero = f8_120::zero();
    let (x1, _, i) = partial_et(two, zero, 100, f8_120::one(), two, two, zero, 0);
    assert_eq!(i, 0);
    assert_eq!(f64_from_fp(x1), 2.0);
    let col = escape_time(two, zero, 100);
    assert!(0.0 <= col && col < 2.0);
}

#[test]
fn four_by_four_frame() {
    // a 4x4 raster at scale 1 centred on the origin, one job for all rows
    let width: usize = 4;
    let height: usize = 4;
    let max = 100;
    let scale = fp_from_f64(1.0);
    let center = (fp_from_f64(0.0), fp_from_f64(0.0));
    let jobs = make_jobs(width, height, 1, scale, center);
    assert_eq!(jobs.len(), 1);
    let job = &jobs[0];
    assert_eq!(job.row, 0);
    assert_eq!(job.rows, 4);

    let y0 = fp_from_f64(((job.row as f64 / job.height as f64) - 0.5) * 2.0);
    let step_x = fp_from_f64(2.0 / job.width as f64);
    let step_y = fp_from_f64(2.0 / job.height as f64);
    let coords = job.coords(y0, step_x, step_y);
    assert_eq!(coords.len(), 16);

    let tex = test_palette();
    let mut classes = Vec::new();
    for (cx, cy) in coords.iter() {
        classes.push(classify(escape_time(*cx, *cy, max), max));
    }
    let buf = render_pixels(&classes, &tex);
    assert_eq!(buf.len(), 64);

    // alpha is 255 on every pixel
    for p in 0..16 {
        assert_eq!(buf[4 * p + 3], 255);
    }
    // the pixel whose coordinate is exactly the origin is in the set: black
    let p0 = (2 * width + 2) * 4;
    assert_eq!(&buf[p0..p0 + 4], &[0, 0, 0, 255]);
    // corner pixels (coordinates around +-1 and beyond) escape after a few
    // iterations and are coloured, not black
    for (rr, cc) in [(0usize, 0usize), (0, 3), (3, 0), (3, 3)] {
        let q = (rr * width + cc) * 4;
        let rgb = &buf[q..q + 3];
        assert!(rgb != [0, 0, 0]);
        assert_eq!(buf[q + 3], 255);
        let idx = rr * width + cc;
        match classes[idx] {
            PixelClass::Escaped { trunc, .. } => assert!(trunc < 8),
            PixelClass::Inside => panic!("corner pixel classified as in the set"),
        }
    }
}

#[test]
fn jobs_partition_the_raster() {
    let cases: [(usize, usize); 6] = [(600, 128), (5, 2), (4, 8), (1, 1), (0, 3), (97, 10)];
    let scale = fp_from_f64(1.0);
    let center = (scale, scale);
    for (height, target) in cases {
        let jobs = make_jobs(64, height, target, scale, center);
        // strips cover 0..height in order, without gaps or overlaps
        let mut next_row: usize = 0;
        for job in jobs.iter() {
            assert_eq!(job.row, next_row);
            assert!(job.rows >= 1);
            next_row += job.rows;
        }
        assert_eq!(next_row, height);
        // every strip but the last has exactly max(height/target, 1) rows
        let h = std::cmp::max(height / target, 1);
        for (k, job) in jobs.iter().enumerate() {
            if k + 1 < jobs.len() {
                assert_eq!(job.rows, h);
            } else {
                assert!(job.rows <= h);
            }
        }
    }
}

#[test]
fn interpolate_blends_neighbours() {
    let tex = vec![
        Color { r: 0, g: 0, b: 0 },
        Color { r: 255, g: 255, b: 255 },
        Color { r: 10, g: 20, b: 30 },
    ];
    // fraction zero picks the first entry exactly
    let c = interpolate(&tex, 1, 0);
    assert_eq!((c.r, c.g, c.b), (255, 255, 255));
    // halfway between black and white rounds down to 127
    let half = 1u64 << 31;
    let c = interpolate(&tex, 0, half);
    assert_eq!((c.r, c.g, c.b), (127, 127, 127));
    // the cyclic wrap pairs the last entry with the first
    let c = interpolate(&tex, 2, half);
    assert_eq!((c.r, c.g, c.b), (5, 10, 15));
    // indices reduce modulo the palette length
    let c = interpolate(&tex, 4, 0);
    assert_eq!((c.r, c.g, c.b), (255, 255, 255));
}

#[test]
fn render_pixels_packs_rgba() {
    let tex = vec![Color { r: 9, g: 1, b: 47 }, Color { r: 4, g: 4, b: 73 }];
    let classes = vec![
        PixelClass::Inside,
        PixelClass::Escaped { trunc: 0, fract: 0 },
        PixelClass::Escaped { trunc: 1, fract: 0 },
    ];
    let buf = render_pixels(&classes, &tex);
    assert_eq!(buf, vec![0, 0, 0, 255, 9, 1, 47, 255, 4, 4, 73, 255]);
}

#[test]
fn coords_follow_the_view_transform() {
    let scale = fp_from_f64(0.5);
    let center = (fp_from_f64(0.25), fp_from_f64(-0.75));
    let job = Job::new(0, 2, 3, 4, scale, center);
    let y0 = fp_from_f64(-1.0);
    let step_x = fp_from_f64(0.125);
    let step_y = fp_from_f64(0.25);
    let v = job.coords(y0, step_x, step_y);
    assert_eq!(v.len(), 6);
    for rr in 0..2usize {
        for cc in 0..3usize {
            let (px, py) = v[rr * 3 + cc];
            let x = -1.0 + cc as f64 * 0.125;
            let y = -1.0 + rr as f64 * 0.25;
            assert_eq!(f64_from_fp(px), -0.25 + x * 0.5);
            assert_eq!(f64_from_fp(py), 0.75 + y * 0.5);
        }
    }
}
