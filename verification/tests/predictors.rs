use webp_dec::dec::{assign, dc16, dc16_no_top_left, dc4, dc8_uv_no_top_left, he16, he4, put16, tm4, ve16, ve4, vr4};
use webp_dec::offsetref::OffsetArray;
use webp_dec::vp8_dec::{
    copy_32b_left, get_mode, vp8_pred_chroma8, vp8_pred_luma16, vp8_pred_luma4, PredMode, U_OFF,
    V_OFF, YUV_SIZE, Y_OFF,
};

#[test]
fn put16_fills_block() {
    let mut dst = [1u8; 496];
    put16(9, &mut dst);
    for p in 0..496 {
        assert_eq!(dst[p], if p % 32 < 16 { 9 } else { 1 }, "p = {}", p);
    }
}

#[test]
fn dc16_averages_top_and_left() {
    let mut w = OffsetArray::<u8, 528, 32> { arr: [0u8; 528] };
    for x in 0..16 {
        w.arr[x] = 10; // row above the block
    }
    for y in 0..16 {
        w.arr[31 + 32 * y] = 20; // column left of the block
    }
    dc16(&mut w);
    // (16 + 16 * 10 + 16 * 20) / 32
    for y in 0..16 {
        for x in 0..16 {
            assert_eq!(w.arr[32 + 32 * y + x], 15);
        }
    }
    assert_eq!(w.arr[31], 20);
    assert_eq!(w.arr[0], 10);
}

#[test]
fn dc16_no_top_left_is_grey() {
    let mut dst = [3u8; 496];
    dc16_no_top_left(&mut dst);
    assert_eq!(dst[0], 0x80);
    assert_eq!(dst[15 * 32 + 15], 0x80);
    assert_eq!(dst[16], 3);
    let mut c = [3u8; 232];
    dc8_uv_no_top_left(&mut c);
    assert_eq!(c[7 * 32 + 7], 0x80);
    assert_eq!(c[8], 3);
}

#[test]
fn ve16_and_he16_copy_edges() {
    let mut v = OffsetArray::<u8, 528, 32> { arr: [0u8; 528] };
    for x in 0..16 {
        v.arr[x] = x as u8 * 3;
    }
    ve16(&mut v);
    assert_eq!(v.arr[32 + 32 * 7 + 5], 15);
    let mut h = OffsetArray::<u8, 497, 1> { arr: [0u8; 497] };
    for y in 0..16 {
        h.arr[32 * y] = y as u8 + 100;
    }
    he16(&mut h);
    assert_eq!(h.arr[1 + 32 * 4 + 9], 104);
}

#[test]
fn he4_writes_averaged_rows() {
    // exercises the little-endian 32-bit store
    let mut w = OffsetArray::<u8, 161, 33> { arr: [0u8; 161] };
    w.arr[0] = 10; // top-left
    w.arr[32] = 20;
    w.arr[64] = 30;
    w.arr[96] = 40;
    w.arr[128] = 50;
    he4(&mut w);
    let rows = [
        (10 + 2 * 20 + 30 + 2) / 4,
        (20 + 2 * 30 + 40 + 2) / 4,
        (30 + 2 * 40 + 50 + 2) / 4,
        (40 + 2 * 50 + 50 + 2) / 4,
    ];
    for y in 0..4 {
        for x in 0..4 {
            assert_eq!(w.arr[33 + 32 * y + x] as u32, rows[y], "x = {}, y = {}", x, y);
        }
        assert_eq!(w.arr[33 + 32 * y + 4], 0);
    }
}

#[test]
fn ve4_smooths_top_row() {
    let mut w = OffsetArray::<u8, 161, 33> { arr: [0u8; 161] };
    let top = [8u8, 16, 24, 32, 40, 48];
    for i in 0..6 {
        w.arr[i] = top[i];
    }
    ve4(&mut w);
    for x in 0..4 {
        let expect = (top[x] as u32 + 2 * top[x + 1] as u32 + top[x + 2] as u32 + 2) / 4;
        for y in 0..4 {
            assert_eq!(w.arr[33 + 32 * y + x] as u32, expect);
        }
    }
}

#[test]
fn dc4_and_tm4() {
    let mut w = OffsetArray::<u8, 160, 32> { arr: [0u8; 160] };
    for i in 0..4 {
        w.arr[i] = 100;
        w.arr[31 + 32 * i] = 60;
    }
    dc4(&mut w);
    assert_eq!(w.arr[32], 80);
    assert_eq!(w.arr[32 + 3 * 32 + 3], 80);
    let mut t = OffsetArray::<u8, 133, 33> { arr: [0u8; 133] };
    t.arr[0] = 50; // top-left
    for i in 0..4 {
        t.arr[1 + i] = 200; // top
        t.arr[32 * (i + 1)] = 100 + 30 * i as u8; // left
    }
    tm4(&mut t);
    for y in 0..4 {
        let expect = (200 + 100 + 30 * y as i32 - 50).min(255) as u8;
        for x in 0..4 {
            assert_eq!(t.arr[33 + 32 * y + x], expect);
        }
    }
}

#[test]
fn vr4_on_flat_edges_is_flat() {
    let mut w = OffsetArray::<u8, 133, 33> { arr: [90u8; 133] };
    vr4(&mut w);
    assert!(w.arr.iter().all(|&v| v == 90));
}

#[test]
fn get_mode_falls_back_at_edges() {
    assert_eq!(get_mode(0, 0, 0), PredMode::DcNoTopLeft);
    assert_eq!(get_mode(0, 3, 0), PredMode::DcNoLeft);
    assert_eq!(get_mode(2, 0, 0), PredMode::DcNoTop);
    assert_eq!(get_mode(2, 3, 0), PredMode::Dc);
    assert_eq!(get_mode(0, 0, 1), PredMode::Tm);
    assert_eq!(get_mode(5, 5, 2), PredMode::Ve);
    assert_eq!(get_mode(5, 5, 3), PredMode::He);
    assert_eq!(get_mode(5, 5, 4), PredMode::DcNoTop);
    assert_eq!(get_mode(5, 5, 5), PredMode::DcNoLeft);
    assert_eq!(get_mode(5, 5, 6), PredMode::DcNoTopLeft);
}

#[test]
fn copy_32b_left_moves_four_bytes() {
    let mut a: Vec<u8> = (0..40).collect();
    copy_32b_left(&mut a, 2, 20);
    assert_eq!(&a[0..8], &[0, 1, 20, 21, 22, 23, 6, 7]);
    assert_eq!(&a[20..24], &[20, 21, 22, 23]);
}

#[test]
fn pred_luma4_dc_in_work_buffer() {
    let mut buf = [0u8; YUV_SIZE];
    let off = Y_OFF + 4;
    for i in 0..4 {
        buf[off - 32 + i] = 40; // above
        buf[off - 1 + 32 * i] = 20; // left
    }
    vp8_pred_luma4(&mut buf, off, 0);
    assert_eq!(buf[off], 30);
    assert_eq!(buf[off + 3 * 32 + 3], 30);
    assert_eq!(buf[off + 4], 0);
    assert_eq!(buf[off - 32], 40);
}

#[test]
fn pred_luma16_and_chroma8_modes() {
    let mut buf = [7u8; YUV_SIZE];
    vp8_pred_luma16(&mut buf, Y_OFF, PredMode::DcNoTopLeft);
    assert_eq!(buf[Y_OFF], 0x80);
    assert_eq!(buf[Y_OFF + 15 * 32 + 15], 0x80);
    assert_eq!(buf[Y_OFF + 16], 7);
    vp8_pred_chroma8(&mut buf, U_OFF, PredMode::Ve);
    assert_eq!(buf[U_OFF + 5 * 32 + 2], 7);
    for i in 0..8 {
        buf[V_OFF - 1 + 32 * i] = 10 * i as u8;
    }
    vp8_pred_chroma8(&mut buf, V_OFF, PredMode::He);
    assert_eq!(buf[V_OFF + 6 * 32 + 3], 60);
    vp8_pred_chroma8(&mut buf, U_OFF, PredMode::DcNoTopLeft);
    assert_eq!(buf[U_OFF + 7 * 32 + 7], 0x80);
}

#[test]
fn assign_writes_listed_samples() {
    let mut buf = vec![0u8; 4 * 32];
    assign(&mut buf, [(3, 3), (2, 2), (1, 1), (0, 0)], 9);
    assert_eq!(buf[0], 9);
    assert_eq!(buf[33], 9);
    assert_eq!(buf[66], 9);
    assert_eq!(buf[99], 9);
    assert_eq!(buf.iter().filter(|&&v| v == 9).count(), 4);
}
