//! Colour output helpers: clamping, the gamma-2 transform, quantization to
//! 8-bit channels, and line-based textual pixel emission for the portable
//! pixel-map format.

use vstd::prelude::*;
use crate::fixed::{
    div_trunc, div_trunc_i128, fx_sqrt, fx_sqrt_spec, lemma_div_trunc_magnitude,
    lemma_div_trunc_ordered, lemma_fx_sqrt_monotone, lemma_sqrt_floor_bounds,
    lemma_sqrt_floor_unique, FX_ONE,
};
use crate::interval::{clamp_spec, Interval};
use crate::vec3::{Vec3, V3};

verus! {

/// One quantized pixel: red, green and blue channel bytes.
#[derive(Clone, Copy, PartialEq, Eq, Structural, Debug)]
pub struct Rgb {
    pub r: u8,
    pub g: u8,
    pub b: u8,
}

/// The gamma-2 transform: square root for positive input, 0 otherwise.
pub open spec fn gamma_spec(v: int) -> int {
    if v > 0 {
        fx_sqrt_spec(v)
    } else {
        0
    }
}

/// `floor(255.999 * v)` for a channel `v` in the fixed-point encoding.
pub open spec fn byte_of(v: int) -> int {
    div_trunc(v * 255999, 65536000)
}

/// The whole per-channel pipeline: clamp into `[0, 1]`, gamma-correct,
/// quantize to an integer in `[0, 255]`.
pub open spec fn quantize_channel_spec(v: int) -> int {
    byte_of(gamma_spec(clamp_spec(0, 65536, v)))
}

/// The gamma transform of a clamped channel stays within `[0, FX_ONE]`.
pub proof fn lemma_gamma_range(v: int)
    requires
        0 <= v <= 65536,
    ensures
        0 <= gamma_spec(v) <= 65536,
{
    if v > 0 {
        lemma_sqrt_floor_bounds(v * 65536);
        lemma_sqrt_floor_unique(65536int * 65536, 65536);
        crate::fixed::lemma_sqrt_floor_monotone(v * 65536, 65536int * 65536);
    }
}

pub fn linear_to_gamma(lc: i64) -> (r: i64)
    ensures
        r == gamma_spec(lc as int),
{
    if lc > 0 {
        fx_sqrt(lc)
    } else {
        0
    }
}

/// Clamp a channel into `[0, 1]`, gamma-correct it and quantize it to a byte.
pub fn quantize_channel(v: i64) -> (r: u8)
    ensures
        r == quantize_channel_spec(v as int),
{
    let intensity = Interval::new(0, FX_ONE);
    let c = intensity.clamp(v);
    let g = linear_to_gamma(c);
    proof {
        lemma_gamma_range(c as int);
        lemma_div_trunc_magnitude((g as int) * 255999, 65536000);
    }
    let wide = (g as i128) * 255999;
    let q = div_trunc_i128(wide, 65536000);
    q as u8
}

/// Clamp, gamma-correct and quantize all three channels of a colour.
pub fn quantize_colour(pixel_colour: &Vec3) -> (r: Rgb)
    ensures
        r.r == quantize_channel_spec(pixel_colour@.x),
        r.g == quantize_channel_spec(pixel_colour@.y),
        r.b == quantize_channel_spec(pixel_colour@.z),
{
    Rgb {
        r: quantize_channel(pixel_colour.x),
        g: quantize_channel(pixel_colour.y),
        b: quantize_channel(pixel_colour.z),
    }
}

/// Quantization preserves the order of channels: a brighter linear channel
/// never quantizes below a darker one.
pub proof fn lemma_quantize_monotone(a: int, b: int)
    requires
        0 <= a <= b <= 65536,
    ensures
        quantize_channel_spec(a) <= quantize_channel_spec(b),
{
    let ga = gamma_spec(a);
    let gb = gamma_spec(b);
    lemma_gamma_range(a);
    lemma_gamma_range(b);
    if a > 0 {
        lemma_fx_sqrt_monotone(a, b);
    }
    lemma_div_trunc_ordered(ga * 255999, gb * 255999, 65536000);
}

/// The decimal digits of `n`, most significant first (`0` for inputs below 1).
pub open spec fn dec_seq(n: int) -> Seq<u8>
    decreases n,
{
    if n < 10 {
        seq![(48 + if 0 <= n { n } else { 0 }) as u8]
    } else {
        dec_seq(n / 10).push((48 + n % 10) as u8)
    }
}

/// Appends the decimal digits of `n` to `out`.
pub fn push_dec(n: u32, out: &mut Vec<u8>)
    ensures
        final(out)@ == old(out)@ + dec_seq(n as int),
    decreases n,
{
    if n < 10 {
        out.push(48 + n as u8);
        proof {
            assert(final(out)@ =~= old(out)@ + dec_seq(n as int));
        }
    } else {
        push_dec(n / 10, out);
        out.push(48 + (n % 10) as u8);
        proof {
            assert(final(out)@ =~= old(out)@ + dec_seq(n as int));
        }
    }
}

/// The PPM text for one already-quantized pixel: the three channel bytes as
/// decimals, space-separated, with a trailing newline.
pub open spec fn rgb_line_spec(px: Rgb) -> Seq<u8> {
    dec_seq(px.r as int) + seq![32u8] + dec_seq(px.g as int) + seq![32u8] + dec_seq(
        px.b as int,
    ) + seq![10u8]
}

/// One PPM pixel line for a linear colour: quantize, then format.
pub open spec fn colour_line_spec(c: V3) -> Seq<u8> {
    dec_seq(quantize_channel_spec(c.x)) + seq![32u8] + dec_seq(quantize_channel_spec(c.y))
        + seq![32u8] + dec_seq(quantize_channel_spec(c.z)) + seq![10u8]
}

/// Renders a quantized pixel as one textual PPM line.
pub fn rgb_line(px: &Rgb) -> (line: Vec<u8>)
    ensures
        line@ == rgb_line_spec(*px),
{
    let mut line: Vec<u8> = Vec::new();
    push_dec(px.r as u32, &mut line);
    line.push(32);
    push_dec(px.g as u32, &mut line);
    line.push(32);
    push_dec(px.b as u32, &mut line);
    line.push(10);
    proof {
        assert(line@ =~= rgb_line_spec(*px));
    }
    line
}

/// Clamps, gamma-corrects and quantizes a colour and renders it as one
/// textual PPM pixel line.
pub fn write_colour(pixel_colour: &Vec3) -> (line: Vec<u8>)
    ensures
        line@ == colour_line_spec(pixel_colour@),
{
    let q = quantize_colour(pixel_colour);
    let line = rgb_line(&q);
    proof {
        assert(line@ =~= colour_line_spec(pixel_colour@));
    }
    line
}

/// The three-line PPM header: the magic token, the image dimensions, and the
/// maximum channel value 255.
pub open spec fn header_spec(w: int, h: int) -> Seq<u8> {
    seq![80u8, 51u8, 10u8] + dec_seq(w) + seq![32u8] + dec_seq(h) + seq![
        10u8,
        50u8,
        53u8,
        53u8,
        10u8,
    ]
}

/// Renders the PPM header for an image of the given dimensions.
pub fn ppm_header(width: i64, height: i64) -> (hdr: Vec<u8>)
    requires
        0 <= width <= 0xffff_ffff,
        0 <= height <= 0xffff_ffff,
    ensures
        hdr@ == header_spec(width as int, height as int),
{
    let mut hdr: Vec<u8> = Vec::new();
    hdr.push(80);
    hdr.push(51);
    hdr.push(10);
    push_dec(width as u32, &mut hdr);
    hdr.push(32);
    push_dec(height as u32, &mut hdr);
    hdr.push(10);
    hdr.push(50);
    hdr.push(53);
    hdr.push(53);
    hdr.push(10);
    proof {
        assert(hdr@ =~= header_spec(width as int, height as int));
    }
    hdr
}

} // verus!
