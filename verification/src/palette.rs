//! Palette colours, smooth-colour interpolation and RGBA pixel packing.
//!
//! A palette is a non-empty cyclic sequence of RGB records.  A pixel that
//! escaped carries a continuous colour index; its integer part picks the
//! two neighbouring palette entries and its fractional part, expressed in
//! units of 2^-32, blends them channel by channel, rounded down.  A pixel
//! that reached the iteration cap bypasses the palette and is painted
//! opaque black.  Alpha is always 255.

use vstd::prelude::*;

verus! {

/// One RGB palette entry.
#[derive(Clone, Copy, PartialEq, Eq, Structural, Debug)]
pub struct Color {
    /// Red channel.
    pub r: u8,
    /// Green channel.
    pub g: u8,
    /// Blue channel.
    pub b: u8,
}

/// The classification the escape evaluator hands back for one pixel:
/// either the orbit was still inside when the iteration budget ran out,
/// or it escaped with a continuous colour index split into its integer
/// part and its fraction in units of 2^-32.
#[derive(Clone, Copy, PartialEq, Eq, Structural, Debug)]
pub enum PixelClass {
    /// The iteration cap was reached: the pixel belongs to the set.
    Inside,
    /// The orbit escaped; the continuous index is `trunc + fract / 2^32`.
    Escaped {
        /// Integer part of the continuous colour index.
        trunc: usize,
        /// Fractional part, in units of 2^-32; always below 2^32.
        fract: u64,
    },
}

/// One channel blended between two palette entries with fraction
/// `f / 2^32`: the floor of `(c1 * (2^32 - f) + c2 * f) / 2^32`.
pub open spec fn blend(c1: u8, c2: u8, f: u64) -> int {
    (c1 * (0x100000000 - f) + c2 * f) / 0x100000000
}

/// Blend one colour channel; the fraction weighs the second entry.
fn blend_channel(c1: u8, c2: u8, f: u64) -> (r: u8)
    requires
        f < 0x100000000,
    ensures
        r as int == blend(c1, c2, f),
{
    proof {
        vstd::arithmetic::mul::lemma_mul_inequality(c1 as int, 255, 0x100000000 - f);
        vstd::arithmetic::mul::lemma_mul_inequality(c2 as int, 255, f as int);
    }
    let v: u64 = (c1 as u64) * (0x100000000 - f) + (c2 as u64) * f;
    (v / 0x100000000) as u8
}

/// Linear interpolation between the two palette entries on both sides of
/// a continuous colour index: entry `trunc mod n` weighted with
/// `1 - fract`, the cyclically next entry with `fract`, channel by
/// channel, rounded down to 8 bits.
pub fn interpolate(tex: &Vec<Color>, trunc: usize, fract: u64) -> (c: Color)
    requires
        tex.len() > 0,
        fract < 0x100000000,
    ensures
        ({
            let n = tex@.len() as int;
            let c1 = tex@[(trunc as int) % n];
            let c2 = tex@[(trunc + 1) % n];
            c.r as int == blend(c1.r, c2.r, fract) && c.g as int == blend(c1.g, c2.g, fract)
                && c.b as int == blend(c1.b, c2.b, fract)
        }),
{
    let n = tex.len();
    let t0 = trunc % n;
    let t1 = (t0 + 1) % n;
    proof {
        lemma_next_index(trunc as int, n as int);
    }
    let c1 = tex[t0];
    let c2 = tex[t1];
    Color {
        r: blend_channel(c1.r, c2.r, fract),
        g: blend_channel(c1.g, c2.g, fract),
        b: blend_channel(c1.b, c2.b, fract),
    }
}

/// Stepping to the cyclically next entry commutes with reducing the index
/// first: `(a mod n + 1) mod n == (a + 1) mod n`.
proof fn lemma_next_index(a: int, n: int)
    requires
        0 <= a,
        1 <= n,
    ensures
        (a % n + 1) % n == (a + 1) % n,
{
    if n == 1 {
        vstd::arithmetic::div_mod::lemma_mod_bound(a, 1);
        vstd::arithmetic::div_mod::lemma_mod_bound(a + 1, 1);
        vstd::arithmetic::div_mod::lemma_mod_bound(a % 1 + 1, 1);
    } else {
        vstd::arithmetic::div_mod::lemma_small_mod(1nat, n as nat);
        vstd::arithmetic::div_mod::lemma_add_mod_noop(a, 1, n);
    }
}

/// The four RGBA bytes of one pixel: opaque black when the iteration cap
/// was reached, the interpolated palette colour otherwise, with alpha 255
/// in every case.
pub open spec fn pixel_rgba(p: PixelClass, tex: Seq<Color>) -> Seq<u8> {
    match p {
        PixelClass::Inside => seq![0u8, 0u8, 0u8, 255u8],
        PixelClass::Escaped { trunc, fract } => {
            let n = tex.len() as int;
            let c1 = tex[(trunc as int) % n];
            let c2 = tex[(trunc + 1) % n];
            seq![
                blend(c1.r, c2.r, fract) as u8,
                blend(c1.g, c2.g, fract) as u8,
                blend(c1.b, c2.b, fract) as u8,
                255u8,
            ]
        },
    }
}

/// Pack one classified pixel into the RGBA byte buffer.
fn push_pixel(buf: &mut Vec<u8>, tex: &Vec<Color>, p: PixelClass)
    requires
        tex.len() > 0,
        p matches PixelClass::Escaped { trunc, fract } ==> fract < 0x100000000,
        old(buf).len() + 4 <= usize::MAX,
    ensures
        final(buf)@ == old(buf)@ + pixel_rgba(p, tex@),
{
    match p {
        PixelClass::Inside => {
            buf.push(0);
            buf.push(0);
            buf.push(0);
            buf.push(255);
        },
        PixelClass::Escaped { trunc, fract } => {
            let c = interpolate(tex, trunc, fract);
            buf.push(c.r);
            buf.push(c.g);
            buf.push(c.b);
            buf.push(255);
        },
    }
    proof {
        assert(final(buf)@ =~= old(buf)@ + pixel_rgba(p, tex@));
    }
}

/// Turn a strip's classified pixels into its RGBA bytes, four per pixel in
/// order: black with alpha 255 for pixels in the set, the interpolated
/// palette colour with alpha 255 for the rest.
pub fn render_pixels(results: &Vec<PixelClass>, tex: &Vec<Color>) -> (buf: Vec<u8>)
    requires
        tex.len() > 0,
        results.len() * 4 <= usize::MAX,
        forall|k: int|
            0 <= k < results@.len() ==> ((#[trigger] results@[k]) matches PixelClass::Escaped {
                trunc,
                fract,
            } ==> fract < 0x100000000),
    ensures
        buf@.len() == 4 * results@.len(),
        forall|k: int|
            0 <= k < results@.len() ==> buf@.subrange(4 * k, 4 * k + 4) == pixel_rgba(
                #[trigger] results@[k],
                tex@,
            ),
        forall|i: int| 0 <= i < buf@.len() && i % 4 == 3 ==> buf@[i] == 255,
{
    let mut buf: Vec<u8> = Vec::new();
    let mut k: usize = 0;
    while k < results.len()
        invariant
            tex.len() > 0,
            k <= results.len(),
            results.len() * 4 <= usize::MAX,
            buf@.len() == 4 * k,
            forall|k2: int|
                0 <= k2 < results@.len() ==> ((#[trigger] results@[k2])
                    matches PixelClass::Escaped { trunc, fract } ==> fract < 0x100000000),
            forall|j: int|
                0 <= j < k ==> buf@.subrange(4 * j, 4 * j + 4) == pixel_rgba(
                    #[trigger] results@[j],
                    tex@,
                ),
        decreases results.len() - k,
    {
        proof {
            vstd::arithmetic::mul::lemma_mul_inequality(k as int + 1, results@.len() as int, 4);
        }
        let ghost prior = buf@;
        push_pixel(&mut buf, tex, results[k]);
        proof {
            assert forall|j: int| 0 <= j < k + 1 implies buf@.subrange(4 * j, 4 * j + 4)
                == pixel_rgba(#[trigger] results@[j], tex@) by {
                if j < k {
                    assert(buf@.subrange(4 * j, 4 * j + 4) =~= prior.subrange(4 * j, 4 * j + 4));
                } else {
                    assert(buf@.subrange(4 * j, 4 * j + 4) =~= pixel_rgba(results@[j], tex@));
                }
            }
        }
        k = k + 1;
    }
    proof {
        assert forall|i: int| 0 <= i < buf@.len() && i % 4 == 3 implies buf@[i] == 255 by {
            let j = i / 4;
            vstd::arithmetic::div_mod::lemma_fundamental_div_mod(i, 4);
            assert(buf@.subrange(4 * j, 4 * j + 4) == pixel_rgba(results@[j], tex@));
            assert(buf@[i] == buf@.subrange(4 * j, 4 * j + 4)[i - 4 * j]);
            assert(pixel_rgba(results@[j], tex@)[3] == 255);
        }
    }
    buf
}

} // verus!
