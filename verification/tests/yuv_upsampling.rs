use webp_dec::upsampling::{
    FancyUpsampler, YuvToArgbUpsampler, YuvToBgraUpsampler, YuvToRgb565Upsampler,
    YuvToRgbUpsampler, YuvToRgbaUpsampler,
};
use webp_dec::yuv::{
    vp8_yuv_to_argb, vp8_yuv_to_bgr, vp8_yuv_to_bgra, vp8_yuv_to_rgb, vp8_yuv_to_rgb_565,
    vp8_yuv_to_rgba, vp8_yuv_to_rgba_4444,
};

fn rgb(y: u8, u: u8, v: u8) -> [u8; 3] {
    let mut out = [0u8; 3];
    vp8_yuv_to_rgb(y, u, v, &mut out);
    out
}

#[test]
fn yuv_to_rgb_values() {
    assert_eq!(rgb(128, 128, 128), [130, 130, 130]);
    assert_eq!(rgb(0, 0, 0), [0, 136, 0]);
    assert_eq!(rgb(255, 255, 255), [255, 125, 255]);
    assert_eq!(rgb(81, 90, 240), [254, 0, 0]);
    assert_eq!(rgb(41, 240, 110), [0, 0, 255]);
    assert_eq!(rgb(100, 100, 120), [85, 115, 41]);
}

#[test]
fn bgr_is_reversed_rgb() {
    for (y, u, v) in [(100u8, 100u8, 120u8), (3, 250, 7), (255, 0, 128)] {
        let mut bgr = [0u8; 3];
        vp8_yuv_to_bgr(y, u, v, &mut bgr);
        let mut r = rgb(y, u, v);
        r.reverse();
        assert_eq!(bgr, r);
    }
}

#[test]
fn alpha_variants_are_opaque() {
    let mut rgba = [0u8; 4];
    vp8_yuv_to_rgba(100, 100, 120, &mut rgba);
    assert_eq!(rgba, [85, 115, 41, 255]);
    let mut bgra = [0u8; 4];
    vp8_yuv_to_bgra(100, 100, 120, &mut bgra);
    assert_eq!(bgra, [41, 115, 85, 255]);
    let mut argb = [0u8; 4];
    vp8_yuv_to_argb(100, 100, 120, &mut argb);
    assert_eq!(argb, [255, 85, 115, 41]);
}

#[test]
fn packed_16bit_formats() {
    let mut o = [0u8; 2];
    vp8_yuv_to_rgb_565(100, 100, 120, &mut o);
    assert_eq!(o, [83, 133]);
    vp8_yuv_to_rgb_565(81, 90, 240, &mut o);
    assert_eq!(o, [248, 0]);
    vp8_yuv_to_rgba_4444(100, 100, 120, &mut o);
    assert_eq!(o, [87, 47]);
    vp8_yuv_to_rgba_4444(81, 90, 240, &mut o);
    assert_eq!(o, [240, 15]);
}

const TOP_Y: [u8; 4] = [100, 120, 140, 160];
const BOT_Y: [u8; 4] = [110, 130, 150, 170];
const TOP_U: [u8; 2] = [100, 160];
const TOP_V: [u8; 2] = [120, 150];
const CUR_U: [u8; 2] = [90, 200];
const CUR_V: [u8; 2] = [140, 100];

#[test]
fn line_pair_even_width() {
    let mut top = vec![0u8; 12 + 2];
    let mut bot = vec![0u8; 12];
    YuvToRgbUpsampler {}.upsample_line_pair(
        &TOP_Y,
        Some((&BOT_Y[..], &mut bot[..])),
        &TOP_U,
        &TOP_V,
        &CUR_U,
        &CUR_V,
        &mut top,
        4,
    );
    assert_eq!(
        top,
        vec![93, 112, 37, 121, 126, 97, 154, 130, 193, 184, 143, 252, 0, 0]
    );
    assert_eq!(bot, vec![121, 117, 39, 134, 136, 111, 140, 149, 233, 155, 167, 255]);
}

#[test]
fn line_pair_odd_width_and_no_bottom() {
    let mut top = vec![9u8; 4 * 3];
    YuvToBgraUpsampler::do_upsample_line_pair(&TOP_Y, None, &TOP_U, &TOP_V, &CUR_U, &CUR_V, &mut top, 3);
    assert_eq!(top, vec![37, 112, 93, 255, 97, 126, 121, 255, 193, 130, 154, 255]);
    let mut one = vec![0u8; 3];
    let mut one_bot = vec![0u8; 3];
    YuvToRgbUpsampler::do_upsample_line_pair(
        &TOP_Y,
        Some((&BOT_Y[..], &mut one_bot[..])),
        &TOP_U,
        &TOP_V,
        &CUR_U,
        &CUR_V,
        &mut one,
        1,
    );
    assert_eq!(one, vec![93, 112, 37]);
    assert_eq!(one_bot, vec![121, 117, 39]);
}

#[test]
fn line_pair_rgb565() {
    let mut top = vec![0u8; 8];
    YuvToRgb565Upsampler::do_upsample_line_pair(&TOP_Y, None, &TOP_U, &TOP_V, &CUR_U, &CUR_V, &mut top, 4);
    assert_eq!(top, vec![91, 132, 123, 236, 156, 24, 188, 127]);
}

#[test]
fn flat_chroma_upsamples_to_itself() {
    let y = [10u8, 60, 110, 160, 210];
    let chroma_u = [77u8; 3];
    let chroma_v = [200u8; 3];
    let mut top = vec![0u8; 15];
    let mut bot = vec![0u8; 15];
    YuvToRgbUpsampler::do_upsample_line_pair(
        &y,
        Some((&y[..], &mut bot[..])),
        &chroma_u,
        &chroma_v,
        &chroma_u,
        &chroma_v,
        &mut top,
        5,
    );
    for i in 0..5 {
        assert_eq!(&top[3 * i..3 * i + 3], &rgb(y[i], 77, 200));
        assert_eq!(&bot[3 * i..3 * i + 3], &rgb(y[i], 77, 200));
    }
}

#[test]
fn fancy_interpolation_is_weighted_mean() {
    // with luma fixed, the u/v reaching pixel 1 of the top row is
    // (9a + 3b + 3c + d + 8) / 16 over the chroma square
    let (a, b, c, d) = (100u32, 160u32, 90u32, 200u32);
    let u = ((9 * a + 3 * b + 3 * c + d + 8) / 16) as u8;
    let (va, vb, vc, vd) = (120u32, 150u32, 140u32, 100u32);
    let v = ((9 * va + 3 * vb + 3 * vc + vd + 8) / 16) as u8;
    let mut top = vec![0u8; 12];
    YuvToRgbUpsampler::do_upsample_line_pair(&TOP_Y, None, &TOP_U, &TOP_V, &CUR_U, &CUR_V, &mut top, 4);
    assert_eq!(&top[3..6], &rgb(TOP_Y[1], u, v));
}

#[test]
fn convert_444_stops_at_shortest() {
    let y = [100u8, 120, 140, 160];
    let u = [100u8, 160, 90];
    let v = [120u8, 150, 140, 1, 2];
    let mut dst = vec![5u8; 3 * 3 + 2];
    YuvToRgbUpsampler::convert_yuv_444(&y, &u, &v, &mut dst);
    assert_eq!(&dst[..9], &[85, 115, 41, 156, 91, 186, 164, 150, 68]);
    assert_eq!(&dst[9..], &[5, 5]);
    let mut argb = vec![0u8; 4];
    YuvToArgbUpsampler::convert_yuv_444(&y, &u, &v, &mut argb);
    assert_eq!(argb, vec![255, 85, 115, 41]);
    let mut rgba = vec![0u8; 4];
    YuvToRgbaUpsampler::convert_yuv_444(&y, &u, &v, &mut rgba);
    assert_eq!(rgba, vec![85, 115, 41, 255]);
}

#[test]
fn load_uv_packs_lanes() {
    assert_eq!(YuvToRgbUpsampler::load_uv(0x12, 0x34), 0x0034_0012);
    assert_eq!(YuvToRgbUpsampler::xstep(), 3);
    assert_eq!(YuvToRgbaUpsampler::xstep(), 4);
    assert_eq!(YuvToRgb565Upsampler::xstep(), 2);
}
