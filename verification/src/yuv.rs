//! YUV -> RGB conversion of single samples.
use vstd::prelude::*;
use crate::array::to_array_ref_mut;
use crate::dec_clip_tables::clamp;

verus! {

/// Fixed-point precision of the YUV -> RGB conversion.
const YUV_FIX2: i32 = 6;
/// Mask of the 14 bits that a representable value occupies.
const YUV_MASK2: i32 = 16383;

/// `v * coeff / 256`, rounded toward minus infinity.
pub open spec fn mult_hi_spec(v: int, coeff: int) -> int {
    v * coeff / 256
}

/// The 14-bit fixed-point value `v` as a byte: `v / 64`, saturated.
pub open spec fn clip8_spec(v: int) -> u8 {
    clamp(v / 64, 0, 255) as u8
}

/// Red of the pixel `(y, v)`.
pub open spec fn yuv_to_r_spec(y: u8, v: u8) -> u8 {
    clip8_spec(mult_hi_spec(y as int, 19077) + mult_hi_spec(v as int, 26149) - 14234)
}

/// Green of the pixel `(y, u, v)`.
pub open spec fn yuv_to_g_spec(y: u8, u: u8, v: u8) -> u8 {
    clip8_spec(mult_hi_spec(y as int, 19077) - mult_hi_spec(u as int, 6419) - mult_hi_spec(v as int, 13320) + 8708)
}

/// Blue of the pixel `(y, u)`.
pub open spec fn yuv_to_b_spec(y: u8, u: u8) -> u8 {
    clip8_spec(mult_hi_spec(y as int, 19077) + mult_hi_spec(u as int, 33050) - 17685)
}

fn mult_hi(v: i32, coeff: i32) -> (r: i32)
    requires
        0 <= v <= 255,
        0 <= coeff <= 40000,
    ensures
        r == mult_hi_spec(v as int, coeff as int),
{
    assert(0 <= v * coeff <= 255 * 40000) by (nonlinear_arith)
        requires
            0 <= v <= 255,
            0 <= coeff <= 40000;
    let p = v * coeff;
    assert(p >> 8u32 == p / 256) by (bit_vector)
        requires
            p >= 0;
    p >> 8
}

fn vp8_clip8(v: i32) -> (r: u8)
    ensures
        r == clip8_spec(v as int),
{
    if v & !YUV_MASK2 == 0 {
        assert(0 <= v < 16384 && (v >> 6i32) & 0xff == v / 64) by (bit_vector)
            requires
                v & !16383i32 == 0;
        ((v >> YUV_FIX2) & 0xff) as u8
    } else if v < 0 {
        0
    } else {
        assert(v >= 16384) by (bit_vector)
            requires
                v & !16383i32 != 0,
                v >= 0;
        255
    }
}

fn vp8_yuv_to_r(y: u8, v: u8) -> (r: u8)
    ensures
        r == yuv_to_r_spec(y, v),
{
    vp8_clip8(mult_hi(y as i32, 19077) + mult_hi(v as i32, 26149) - 14234)
}

fn vp8_yuv_to_g(y: u8, u: u8, v: u8) -> (r: u8)
    ensures
        r == yuv_to_g_spec(y, u, v),
{
    vp8_clip8(mult_hi(y as i32, 19077) - mult_hi(u as i32, 6419) - mult_hi(v as i32, 13320) + 8708)
}

fn vp8_yuv_to_b(y: u8, u: u8) -> (r: u8)
    ensures
        r == yuv_to_b_spec(y, u),
{
    vp8_clip8(mult_hi(y as i32, 19077) + mult_hi(u as i32, 33050) - 17685)
}

/// The R, G, B bytes of a pixel.
pub open spec fn rgb_spec(y: u8, u: u8, v: u8) -> Seq<u8> {
    seq![yuv_to_r_spec(y, v), yuv_to_g_spec(y, u, v), yuv_to_b_spec(y, u)]
}

/// The B, G, R bytes of a pixel.
pub open spec fn bgr_spec(y: u8, u: u8, v: u8) -> Seq<u8> {
    seq![yuv_to_b_spec(y, u), yuv_to_g_spec(y, u, v), yuv_to_r_spec(y, v)]
}

/// The two bytes of a pixel in RGB-565: 5 bits of red, 6 of green, 5 of blue.
pub open spec fn rgb565_spec(y: u8, u: u8, v: u8) -> Seq<u8> {
    let r = yuv_to_r_spec(y, v);
    let g = yuv_to_g_spec(y, u, v);
    let b = yuv_to_b_spec(y, u);
    seq![(r & 0xf8) | (g >> 5u8), ((g << 3u8) & 0xe0) | (b >> 3u8)]
}

/// The two bytes of an opaque pixel in RGBA-4444.
pub open spec fn rgba4444_spec(y: u8, u: u8, v: u8) -> Seq<u8> {
    let r = yuv_to_r_spec(y, v);
    let g = yuv_to_g_spec(y, u, v);
    let b = yuv_to_b_spec(y, u);
    seq![(r & 0xf0) | (g >> 4u8), (b & 0xf0) | 0x0f]
}

pub fn vp8_yuv_to_rgb(y: u8, u: u8, v: u8, rgb: &mut [u8; 3])
    ensures
        final(rgb)@ == rgb_spec(y, u, v),
{
    rgb[0] = vp8_yuv_to_r(y, v);
    rgb[1] = vp8_yuv_to_g(y, u, v);
    rgb[2] = vp8_yuv_to_b(y, u);
    assert(rgb@ =~= rgb_spec(y, u, v));
}

pub fn vp8_yuv_to_bgr(y: u8, u: u8, v: u8, bgr: &mut [u8; 3])
    ensures
        final(bgr)@ == bgr_spec(y, u, v),
{
    bgr[0] = vp8_yuv_to_b(y, u);
    bgr[1] = vp8_yuv_to_g(y, u, v);
    bgr[2] = vp8_yuv_to_r(y, v);
    assert(bgr@ =~= bgr_spec(y, u, v));
}

pub fn vp8_yuv_to_rgb_565(y: u8, u: u8, v: u8, out: &mut [u8; 2])
    ensures
        final(out)@ == rgb565_spec(y, u, v),
{
    let r = vp8_yuv_to_r(y, v);  // 5 usable bits
    let g = vp8_yuv_to_g(y, u, v);  // 6 usable bits
    let b = vp8_yuv_to_b(y, u);  // 5 usable bits
    let rg = (r & 0xf8) | (g >> 5);
    let gb = ((g << 3) & 0xe0) | (b >> 3);
    out[0] = rg;
    out[1] = gb;
    assert(out@ =~= rgb565_spec(y, u, v));
}

pub fn vp8_yuv_to_rgba_4444(y: u8, u: u8, v: u8, out: &mut [u8; 2])
    ensures
        final(out)@ == rgba4444_spec(y, u, v),
{
    let r = vp8_yuv_to_r(y, v);  // 4 usable bits
    let g = vp8_yuv_to_g(y, u, v);  // 4 usable bits
    let b = vp8_yuv_to_b(y, u);  // 4 usable bits
    let rg = (r & 0xf0) | (g >> 4);
    let ba = (b & 0xf0) | 0x0f;  // overwrite the lower 4 bits
    out[0] = rg;
    out[1] = ba;
    assert(out@ =~= rgba4444_spec(y, u, v));
}

//-----------------------------------------------------------------------------
// Alpha handling variants

pub fn vp8_yuv_to_rgba(y: u8, u: u8, v: u8, rgba: &mut [u8; 4])
    ensures
        final(rgba)@ == rgb_spec(y, u, v).push(0xff),
{
    {
        let s: &mut [u8] = rgba;
        let head = to_array_ref_mut::<u8, 3>(s);
        vp8_yuv_to_rgb(y, u, v, head);
    }
    rgba[3] = 0xff;
    assert(rgba@ =~= rgb_spec(y, u, v).push(0xff));
}

pub fn vp8_yuv_to_bgra(y: u8, u: u8, v: u8, bgra: &mut [u8; 4])
    ensures
        final(bgra)@ == bgr_spec(y, u, v).push(0xff),
{
    {
        let s: &mut [u8] = bgra;
        let head = to_array_ref_mut::<u8, 3>(s);
        vp8_yuv_to_bgr(y, u, v, head);
    }
    bgra[3] = 0xff;
    assert(bgra@ =~= bgr_spec(y, u, v).push(0xff));
}

pub fn vp8_yuv_to_argb(y: u8, u: u8, v: u8, argb: &mut [u8; 4])
    ensures
        final(argb)@ == seq![0xffu8] + rgb_spec(y, u, v),
{
    argb[0] = 0xff;
    {
        let s: &mut [u8] = argb;
        let (_first, rest) = s.split_at_mut(1);
        let tail = to_array_ref_mut::<u8, 3>(rest);
        vp8_yuv_to_rgb(y, u, v, tail);
    }
    assert(argb@ =~= seq![0xffu8] + rgb_spec(y, u, v));
}

/// The BGR bytes of a pixel are its RGB bytes in reverse order.
pub proof fn law_bgr_reverses_rgb(y: u8, u: u8, v: u8)
    ensures
        bgr_spec(y, u, v) == rgb_spec(y, u, v).reverse(),
{
    assert(bgr_spec(y, u, v) =~= rgb_spec(y, u, v).reverse());
}

proof fn lemma_mult_hi_ordered(a: int, b: int, c: int)
    requires
        a <= b,
        0 <= c,
    ensures
        mult_hi_spec(a, c) <= mult_hi_spec(b, c),
{
    assert(a * c <= b * c) by (nonlinear_arith)
        requires
            a <= b,
            0 <= c,
    ;
    vstd::arithmetic::div_mod::lemma_div_is_ordered(a * c, b * c, 256);
}

proof fn lemma_clip8_ordered(a: int, b: int)
    requires
        a <= b,
    ensures
        clip8_spec(a) <= clip8_spec(b),
{
    vstd::arithmetic::div_mod::lemma_div_is_ordered(a, b, 64);
}

/// Each channel follows its inputs: more luma never darkens red, green or
/// blue; more red-difference chroma `v` never lowers red, more
/// blue-difference chroma `u` never lowers blue, and more of either never
/// raises green.
pub proof fn law_yuv_channels_are_monotone(y1: u8, y2: u8, u1: u8, u2: u8, v1: u8, v2: u8)
    requires
        y1 <= y2,
        u1 <= u2,
        v1 <= v2,
    ensures
        yuv_to_r_spec(y1, v1) <= yuv_to_r_spec(y2, v2),
        yuv_to_b_spec(y1, u1) <= yuv_to_b_spec(y2, u2),
        yuv_to_g_spec(y1, u2, v2) <= yuv_to_g_spec(y2, u1, v1),
{
    lemma_mult_hi_ordered(y1 as int, y2 as int, 19077);
    lemma_mult_hi_ordered(v1 as int, v2 as int, 26149);
    lemma_mult_hi_ordered(u1 as int, u2 as int, 6419);
    lemma_mult_hi_ordered(v1 as int, v2 as int, 13320);
    lemma_mult_hi_ordered(u1 as int, u2 as int, 33050);
    lemma_clip8_ordered(
        mult_hi_spec(y1 as int, 19077) + mult_hi_spec(v1 as int, 26149) - 14234,
        mult_hi_spec(y2 as int, 19077) + mult_hi_spec(v2 as int, 26149) - 14234,
    );
    lemma_clip8_ordered(
        mult_hi_spec(y1 as int, 19077) + mult_hi_spec(u1 as int, 33050) - 17685,
        mult_hi_spec(y2 as int, 19077) + mult_hi_spec(u2 as int, 33050) - 17685,
    );
    lemma_clip8_ordered(
        mult_hi_spec(y1 as int, 19077) - mult_hi_spec(u2 as int, 6419) - mult_hi_spec(v2 as int, 13320) + 8708,
        mult_hi_spec(y2 as int, 19077) - mult_hi_spec(u1 as int, 6419) - mult_hi_spec(v1 as int, 13320) + 8708,
    );
}

} // verus!
