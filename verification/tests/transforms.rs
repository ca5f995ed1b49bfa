use webp_dec::dec::{
    clip_8b, dither_combine_8x8, transform_ac3, transform_dc, transform_dc_uv, transform_one,
    transform_two, transform_uv, transform_wht, wht_input_fits,
};
use webp_dec::dec_clip_tables::{vp8_kabs0, vp8_kclip1, vp8_ksclip1, vp8_ksclip2};
use webp_dec::frame_dec::{do_transform, do_uv_transform, k_scan};

/// Positions of the 4x4 block at `off` in a buffer of stride 32.
fn in_block(off: usize, p: usize) -> bool {
    p >= off && (p - off) % 32 < 4 && (p - off) / 32 < 4
}

#[test]
fn clip_tables_saturate() {
    assert_eq!(vp8_kclip1(-255), 0);
    assert_eq!(vp8_kclip1(-5), 0);
    assert_eq!(vp8_kclip1(100), 100);
    assert_eq!(vp8_kclip1(300), 255);
    assert_eq!(vp8_kclip1(511), 255);
    assert_eq!(vp8_ksclip1(-1020), -128);
    assert_eq!(vp8_ksclip1(50), 50);
    assert_eq!(vp8_ksclip1(1020), 127);
    assert_eq!(vp8_ksclip2(-112), -16);
    assert_eq!(vp8_ksclip2(5), 5);
    assert_eq!(vp8_ksclip2(112), 15);
    assert_eq!(vp8_kabs0(-255), 255);
    assert_eq!(vp8_kabs0(0), 0);
    assert_eq!(vp8_kabs0(17), 17);
}

#[test]
fn clip_8b_saturates() {
    assert_eq!(clip_8b(-1), 0);
    assert_eq!(clip_8b(0), 0);
    assert_eq!(clip_8b(100), 100);
    assert_eq!(clip_8b(255), 255);
    assert_eq!(clip_8b(256), 255);
    assert_eq!(clip_8b(60000), 255);
}

#[test]
fn transform_dc_adds_rounded_dc() {
    let mut dst = [100u8; 128];
    transform_dc(8, &mut dst);
    for p in 0..128 {
        assert_eq!(dst[p], if in_block(0, p) { 101 } else { 100 }, "p = {}", p);
    }
    let mut dst = [0u8; 128];
    transform_dc(-100, &mut dst);
    assert!(dst.iter().all(|&v| v == 0));
}

#[test]
fn transform_dc_matches_full_transform() {
    for dc in [-300i16, -9, 8, 16, 1000] {
        let mut a = [0u8; 128];
        let mut b = [0u8; 128];
        for p in 0..128 {
            a[p] = (p * 7 % 251) as u8;
            b[p] = a[p];
        }
        let mut data = [0i16; 16];
        data[0] = dc;
        transform_one(&data, &mut a);
        transform_dc(dc, &mut b);
        assert_eq!(a, b);
    }
}

#[test]
fn transform_ac3_matches_full_transform() {
    let mut a = [0u8; 128];
    let mut b = [0u8; 128];
    for p in 0..128 {
        a[p] = (p * 13 % 256) as u8;
        b[p] = a[p];
    }
    let mut data = [0i16; 16];
    data[0] = 20;
    data[1] = 30;
    data[4] = -10;
    transform_one(&data, &mut a);
    transform_ac3(&[20, 30, 0, 0, -10], &mut b);
    assert_eq!(a, b);
}

#[test]
fn transform_wht_spreads_dc() {
    let mut input = [0i16; 16];
    input[0] = 8;
    let mut out = [7i16; 256];
    transform_wht(&input, &mut out);
    for k in 0..256 {
        if k % 16 == 0 {
            assert_eq!(out[k], 1, "k = {}", k);
        } else {
            assert_eq!(out[k], 7, "k = {}", k);
        }
    }
}

#[test]
fn transform_two_does_one_or_two_blocks() {
    let mut input = [0i16; 32];
    input[0] = 16;
    input[16] = 24;
    let mut one = [50u8; 132];
    transform_two(&input, &mut one, false);
    let mut two = [50u8; 132];
    transform_two(&input, &mut two, true);
    for p in 0..132 {
        assert_eq!(one[p], if in_block(0, p) { 52 } else { 50 });
        let expect = if in_block(0, p) { 52 } else if in_block(4, p) { 53 } else { 50 };
        assert_eq!(two[p], expect, "p = {}", p);
    }
}

#[test]
fn transform_uv_and_dc_uv_agree_on_dc_only_input() {
    let mut input = [0i16; 64];
    input[0] = 8;
    input[16] = 16;
    input[32] = -8;
    input[48] = 0;
    let mut a = [60u8; 260];
    let mut b = [60u8; 260];
    transform_uv(&input, &mut a);
    transform_dc_uv(&input, &mut b);
    assert_eq!(a[..], b[..]);
    assert_eq!(a[0], 61);
    assert_eq!(a[4], 62);
    assert_eq!(a[128], 59);
    assert_eq!(a[132], 60);
    assert_eq!(a[200], 60);
}

#[test]
fn k_scan_offsets() {
    assert_eq!(k_scan(0), 0);
    assert_eq!(k_scan(1), 4);
    assert_eq!(k_scan(3), 12);
    assert_eq!(k_scan(4), 128);
    assert_eq!(k_scan(15), 12 + 12 * 32);
}

#[test]
fn do_transform_selects_by_top_bits() {
    let mut src = [0i16; 32];
    src[0] = 8;
    let mut none = [10u8; 132];
    do_transform(0x3fff_ffff, &src, &mut none);
    assert!(none.iter().all(|&v| v == 10));
    let mut dc = [10u8; 132];
    do_transform(0x4000_0000, &src, &mut dc);
    assert_eq!(dc[0], 11);
    assert_eq!(dc[3 * 32 + 3], 11);
    assert_eq!(dc[4], 10);
    let mut full = [10u8; 132];
    do_transform(0xc000_0000, &src, &mut full);
    assert_eq!(full[..], dc[..]);
    // the dc-only path needs just one coefficient and 128 bytes
    let mut short = [10u8; 128];
    do_transform(0x4000_0000, &[8], &mut short);
    assert_eq!(short[0], 11);
}

#[test]
fn do_uv_transform_skips_empty_blocks() {
    let mut src = [0i16; 64];
    src[0] = 40;
    let mut dst = [30u8; 260];
    do_uv_transform(0, &src, &mut dst);
    assert!(dst.iter().all(|&v| v == 30));
    do_uv_transform(0x01, &src, &mut dst);
    assert_eq!(dst[0], 35);
    assert_eq!(dst[4], 30);
}

#[test]
fn dither_centred_pattern_is_neutral() {
    let dither = [128u8; 64];
    let mut dst = vec![77u8; 8 * 10];
    dither_combine_8x8(&dither, &mut dst, 10);
    assert!(dst.iter().all(|&v| v == 77));
}

#[test]
fn dither_adds_scaled_delta() {
    let dither = [255u8; 64];
    let mut dst = vec![250u8; 8 * 8];
    dst[9] = 10;
    dither_combine_8x8(&dither, &mut dst, 8);
    assert_eq!(dst[0], 255);
    assert_eq!(dst[9], 18);
}

#[test]
fn wht_overflow_check() {
    let mut input = [0i16; 16];
    input[0] = 8;
    assert!(wht_input_fits(&input));
    input[0] = 20000;
    input[12] = 20000;
    assert!(!wht_input_fits(&input));
    let big = [8000i16; 16];
    assert!(!wht_input_fits(&big));
    let mid = [2047i16; 16];
    assert!(wht_input_fits(&mid));
    let mut out = [0i16; 256];
    transform_wht(&mid, &mut out);
    // all sixteen outputs of a flat input land on the first one
    assert_eq!(out[0], (16 * 2047 + 3) >> 3);
    assert_eq!(out[16], 0);
}
