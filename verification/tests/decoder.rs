use webp_dec::offsetref::OffsetSliceRefMut;
use webp_dec::vp8_dec::{
    cache_extents, k_filter_extra_rows, VP8Decoder, VP8FInfo, VP8MBData, VP8TopSamples, U_OFF,
    V_OFF, YUV_SIZE, Y_OFF,
};

fn block(is_i4x4: u8, mode: u8, non_zero_y: u32) -> VP8MBData {
    VP8MBData {
        coeffs: [0; 384],
        is_i4x4,
        imodes: [mode; 16],
        uvmode: 0,
        non_zero_y,
        non_zero_uv: 0,
        dither: 0,
        skip: 0,
        segment: 0,
    }
}

fn top() -> VP8TopSamples {
    VP8TopSamples { y: [0; 16], u: [0; 8], v: [0; 8] }
}

fn finfo(limit: u8, inner: u8) -> VP8FInfo {
    VP8FInfo { f_limit: limit, f_ilevel: 5, f_inner: inner, hev_thresh: 1 }
}

#[test]
fn filter_extents() {
    assert_eq!(k_filter_extra_rows(0), 0);
    assert_eq!(k_filter_extra_rows(1), 2);
    assert_eq!(k_filter_extra_rows(2), 8);
    assert_eq!(cache_extents(2, 32, 16, 3), (256, 64, 3));
    assert_eq!(cache_extents(1, 32, 16, 3), (64, 16, 3));
    assert_eq!(cache_extents(0, 32, 16, 3), (0, 0, 0));
}

#[test]
fn first_macroblock_is_grey() {
    let mut yuv_t = [top()];
    let mut f_info = [finfo(0, 0)];
    let mut yuv_b = [0u8; YUV_SIZE];
    let mut cy = vec![0u8; 256];
    let mut cu = vec![0u8; 64];
    let mut cv = vec![0u8; 64];
    let mut data = [block(0, 0, 0)];
    {
        let mut dec = VP8Decoder {
            mb_w: 1,
            mb_h: 2,
            yuv_t: &mut yuv_t,
            f_info: &mut f_info,
            yuv_b: &mut yuv_b,
            cache_y: OffsetSliceRefMut::new(&mut cy, 0),
            cache_u: OffsetSliceRefMut::new(&mut cu, 0),
            cache_v: OffsetSliceRefMut::new(&mut cv, 0),
            cache_y_stride: 16,
            cache_uv_stride: 8,
            mb_x: 0,
            mb_y: 0,
            mb_data: &mut data,
            filter_type: 0,
        };
        dec.reconstruct_row(0);
    }
    assert!(cy.iter().all(|&v| v == 0x80));
    assert!(cu.iter().all(|&v| v == 0x80));
    assert!(cv.iter().all(|&v| v == 0x80));
    // the bottom samples are kept for the next row
    assert_eq!(yuv_t[0].y, [0x80; 16]);
    assert_eq!(yuv_t[0].u, [0x80; 8]);
    // the top row of the work buffer stays grey, the left column is 129
    for p in 7..28 {
        assert_eq!(yuv_b[p], 127, "p = {}", p);
    }
    for p in 551..560 {
        assert_eq!(yuv_b[p], 127);
    }
    assert_eq!(yuv_b[Y_OFF - 1 + 32], 129);
    assert_eq!(yuv_b[U_OFF - 1], 129);
    assert_eq!(yuv_b[V_OFF - 1 + 7 * 32], 129);
}

#[test]
fn dc_residual_lands_in_first_block() {
    let mut yuv_t = [top()];
    let mut f_info = [finfo(0, 0)];
    let mut yuv_b = [0u8; YUV_SIZE];
    let mut cy = vec![0u8; 256];
    let mut cu = vec![0u8; 64];
    let mut cv = vec![0u8; 64];
    let mut b = block(0, 0, 0x4000_0000);
    b.coeffs[0] = 16;
    let mut data = [b];
    {
        let mut dec = VP8Decoder {
            mb_w: 1,
            mb_h: 1,
            yuv_t: &mut yuv_t,
            f_info: &mut f_info,
            yuv_b: &mut yuv_b,
            cache_y: OffsetSliceRefMut::new(&mut cy, 0),
            cache_u: OffsetSliceRefMut::new(&mut cu, 0),
            cache_v: OffsetSliceRefMut::new(&mut cv, 0),
            cache_y_stride: 16,
            cache_uv_stride: 8,
            mb_x: 0,
            mb_y: 0,
            mb_data: &mut data,
            filter_type: 0,
        };
        dec.reconstruct_row(0);
    }
    for y in 0..16 {
        for x in 0..16 {
            let expect = if x < 4 && y < 4 { 0x80 + 2 } else { 0x80 };
            assert_eq!(cy[16 * y + x], expect, "x = {}, y = {}", x, y);
        }
    }
    // last row: the top samples are not saved
    assert_eq!(yuv_t[0].y, [0; 16]);
}

#[test]
fn large_dc_residuals_saturate() {
    let mut yuv_t = [top()];
    let mut f_info = [finfo(0, 0)];
    let mut yuv_b = [0u8; YUV_SIZE];
    let mut cy = vec![0u8; 256];
    let mut cu = vec![0u8; 64];
    let mut cv = vec![0u8; 64];
    // DC-only blocks take coefficients beyond the full transform's range
    let mut b = block(0, 0, 0x4000_0000);
    b.coeffs[0] = 3000;
    b.non_zero_uv = 0x0001;
    b.coeffs[256] = 4000;
    b.coeffs[320] = -4000;
    let mut data = [b];
    {
        let mut dec = VP8Decoder {
            mb_w: 1,
            mb_h: 1,
            yuv_t: &mut yuv_t,
            f_info: &mut f_info,
            yuv_b: &mut yuv_b,
            cache_y: OffsetSliceRefMut::new(&mut cy, 0),
            cache_u: OffsetSliceRefMut::new(&mut cu, 0),
            cache_v: OffsetSliceRefMut::new(&mut cv, 0),
            cache_y_stride: 16,
            cache_uv_stride: 8,
            mb_x: 0,
            mb_y: 0,
            mb_data: &mut data,
            filter_type: 0,
        };
        dec.reconstruct_row(0);
    }
    for y in 0..16 {
        for x in 0..16 {
            let expect = if x < 4 && y < 4 { 255 } else { 0x80 };
            assert_eq!(cy[16 * y + x], expect, "x = {}, y = {}", x, y);
        }
    }
    for y in 0..8 {
        for x in 0..8 {
            let corner = x < 4 && y < 4;
            assert_eq!(cu[8 * y + x], if corner { 255 } else { 0x80 }, "u: x = {}, y = {}", x, y);
            // the v plane takes the bits above the low byte, which are clear
            assert_eq!(cv[8 * y + x], 0x80, "v: x = {}, y = {}", x, y);
        }
    }
}

#[test]
fn two_macroblocks_in_4x4_mode() {
    let mut yuv_t = [top(), top()];
    let mut f_info = [finfo(0, 0), finfo(0, 0)];
    let mut yuv_b = [0u8; YUV_SIZE];
    let mut cy = vec![0u8; 32 * 16];
    let mut cu = vec![0u8; 16 * 8];
    let mut cv = vec![0u8; 16 * 8];
    let mut data = [block(1, 0, 0), block(1, 0, 0)];
    {
        let mut dec = VP8Decoder {
            mb_w: 2,
            mb_h: 2,
            yuv_t: &mut yuv_t,
            f_info: &mut f_info,
            yuv_b: &mut yuv_b,
            cache_y: OffsetSliceRefMut::new(&mut cy, 0),
            cache_u: OffsetSliceRefMut::new(&mut cu, 0),
            cache_v: OffsetSliceRefMut::new(&mut cv, 0),
            cache_y_stride: 32,
            cache_uv_stride: 16,
            mb_x: 0,
            mb_y: 0,
            mb_data: &mut data,
            filter_type: 0,
        };
        dec.reconstruct_row(0);
    }
    // first 4x4 block: (4 + 4 * 127 + 4 * 129) / 8
    assert_eq!(cy[0], 128);
    assert_eq!(cy[3 * 32 + 3], 128);
    for p in 7..28 {
        assert_eq!(yuv_b[p], 127, "p = {}", p);
    }
    for p in 567..576 {
        assert_eq!(yuv_b[p], 127);
    }
    assert_eq!(yuv_t[1].y[15], cy[15 * 32 + 31]);
}

#[test]
fn do_filter_without_limit_changes_nothing() {
    let mut yuv_t = [top(), top()];
    let mut f_info = [finfo(0, 1), finfo(0, 1)];
    let mut yuv_b = [0u8; YUV_SIZE];
    let mut cy: Vec<u8> = (0..(32 * 20)).map(|i| (i * 7 % 256) as u8).collect();
    let copy = cy.clone();
    let mut cu = vec![0u8; 16 * 10];
    let mut cv = vec![0u8; 16 * 10];
    let mut data = [block(0, 0, 0), block(0, 0, 0)];
    {
        let mut dec = VP8Decoder {
            mb_w: 2,
            mb_h: 2,
            yuv_t: &mut yuv_t,
            f_info: &mut f_info,
            yuv_b: &mut yuv_b,
            cache_y: OffsetSliceRefMut::new(&mut cy, 64),
            cache_u: OffsetSliceRefMut::new(&mut cu, 16),
            cache_v: OffsetSliceRefMut::new(&mut cv, 16),
            cache_y_stride: 32,
            cache_uv_stride: 16,
            mb_x: 1,
            mb_y: 1,
            mb_data: &mut data,
            filter_type: 2,
        };
        dec.do_filter(1, 1);
        assert_eq!(dec.cache_y.zero, 64);
    }
    assert_eq!(cy, copy);
}

#[test]
fn do_filter_simple_smooths_top_edge() {
    let mut yuv_t = [top()];
    let mut f_info = [finfo(40, 0)];
    let mut yuv_b = [0u8; YUV_SIZE];
    // two extra rows above the macroblock, then its 16 rows
    let mut cy = vec![100u8; 16 * 18];
    for i in 32..cy.len() {
        cy[i] = 110;
    }
    let mut cu = vec![0u8; 8 * 8];
    let mut cv = vec![0u8; 8 * 8];
    let mut data = [block(0, 0, 0)];
    {
        let mut dec = VP8Decoder {
            mb_w: 1,
            mb_h: 2,
            yuv_t: &mut yuv_t,
            f_info: &mut f_info,
            yuv_b: &mut yuv_b,
            cache_y: OffsetSliceRefMut::new(&mut cy, 32),
            cache_u: OffsetSliceRefMut::new(&mut cu, 0),
            cache_v: OffsetSliceRefMut::new(&mut cv, 0),
            cache_y_stride: 16,
            cache_uv_stride: 8,
            mb_x: 0,
            mb_y: 1,
            mb_data: &mut data,
            filter_type: 1,
        };
        dec.do_filter(0, 1);
    }
    for x in 0..16 {
        assert_eq!(cy[x], 100);
        assert_eq!(cy[16 + x], 102);
        assert_eq!(cy[32 + x], 107);
        assert_eq!(cy[48 + x], 110);
    }
}

#[test]
fn do_filter_complex_smooths_top_edge() {
    let mut yuv_t = [top()];
    let mut f_info = [finfo(40, 0)];
    let mut yuv_b = [0u8; YUV_SIZE];
    // eight extra luma rows above the macroblock (stride 16), four for chroma
    let mut cy = vec![100u8; 16 * 24];
    for i in 128..cy.len() {
        cy[i] = 110;
    }
    let mut cu = vec![50u8; 8 * 12];
    let mut cv = vec![60u8; 8 * 12];
    let mut data = [block(0, 0, 0)];
    {
        let mut dec = VP8Decoder {
            mb_w: 1,
            mb_h: 2,
            yuv_t: &mut yuv_t,
            f_info: &mut f_info,
            yuv_b: &mut yuv_b,
            cache_y: OffsetSliceRefMut::new(&mut cy, 128),
            cache_u: OffsetSliceRefMut::new(&mut cu, 32),
            cache_v: OffsetSliceRefMut::new(&mut cv, 32),
            cache_y_stride: 16,
            cache_uv_stride: 8,
            mb_x: 0,
            mb_y: 1,
            mb_data: &mut data,
            filter_type: 2,
        };
        dec.do_filter(0, 1);
        assert_eq!(dec.cache_y.zero, 128);
    }
    let rows = [(-4, 100u8), (-3, 101), (-2, 103), (-1, 104), (0, 106), (1, 107), (2, 109), (3, 110)];
    for (r, v) in rows {
        for x in 0..16 {
            assert_eq!(cy[(128 + 16 * r + x) as usize], v, "row {}", r);
        }
    }
    assert!(cu.iter().all(|&v| v == 50));
    assert!(cv.iter().all(|&v| v == 60));
}
