use webp_dec::dec::{
    h_filter_16, simple_h_filter_16, simple_v_filter_16, simple_v_filter_16i, v_filter_16,
    v_filter_8i,
};
use webp_dec::offsetref::OffsetSliceRefMut;

#[test]
fn simple_filter_leaves_flat_area() {
    let mut buf = vec![120u8; 16 * 4];
    let mut p = OffsetSliceRefMut::new(&mut buf, 32);
    simple_v_filter_16(&mut p, 16, 40);
    assert_eq!(p.zero, 32);
    assert!(buf.iter().all(|&v| v == 120));
}

#[test]
fn simple_filter_softens_step() {
    // rows 0, 1 above the edge hold 100, rows 2, 3 below hold 110
    let mut buf = vec![100u8; 16 * 4];
    for i in 32..64 {
        buf[i] = 110;
    }
    let mut p = OffsetSliceRefMut::new(&mut buf, 32);
    simple_v_filter_16(&mut p, 16, 40);
    for x in 0..16 {
        assert_eq!(buf[x], 100);
        assert_eq!(buf[16 + x], 102);
        assert_eq!(buf[32 + x], 107);
        assert_eq!(buf[48 + x], 110);
    }
}

#[test]
fn simple_filter_skips_strong_edge() {
    let mut buf = vec![10u8; 16 * 4];
    for i in 32..64 {
        buf[i] = 200;
    }
    let mut p = OffsetSliceRefMut::new(&mut buf, 32);
    simple_v_filter_16(&mut p, 16, 4);
    assert_eq!(buf[16], 10);
    assert_eq!(buf[32], 200);
}

#[test]
fn simple_h_filter_softens_vertical_step() {
    // 16 rows of stride 4: columns 0, 1 hold 100, columns 2, 3 hold 110
    let mut buf = vec![0u8; 4 * 16];
    for y in 0..16 {
        buf[4 * y] = 100;
        buf[4 * y + 1] = 100;
        buf[4 * y + 2] = 110;
        buf[4 * y + 3] = 110;
    }
    let mut p = OffsetSliceRefMut::new(&mut buf, 2);
    simple_h_filter_16(&mut p, 4, 40);
    for y in 0..16 {
        assert_eq!(&buf[4 * y..4 * y + 4], &[100, 102, 107, 110]);
    }
}

#[test]
fn simple_inner_filter_on_flat_block() {
    let mut buf = vec![33u8; 16 * 16];
    let mut p = OffsetSliceRefMut::new(&mut buf, 0);
    simple_v_filter_16i(&mut p, 16, 10);
    assert_eq!(p.zero, 0);
    assert!(buf.iter().all(|&v| v == 33));
}

#[test]
fn complex_edge_filters_move_the_zero_position() {
    let mut buf = vec![64u8; 32 * 24];
    let mut p = OffsetSliceRefMut::new(&mut buf, 4 * 32);
    v_filter_16(&mut p, 32, 10, 5, 1);
    assert_eq!(p.zero, 4 * 32 + 16);
    let mut q = OffsetSliceRefMut::new(&mut buf, 4);
    h_filter_16(&mut q, 32, 10, 5, 1);
    assert_eq!(q.zero, 4 + 16 * 32);
    assert!(buf.iter().all(|&v| v == 64));
}

#[test]
fn complex_inner_chroma_filter_on_flat_planes() {
    let mut u = vec![90u8; 8 * 16];
    let mut v = vec![91u8; 8 * 16];
    let mut pu = OffsetSliceRefMut::new(&mut u, 0);
    let mut pv = OffsetSliceRefMut::new(&mut v, 0);
    v_filter_8i(&mut pu, &mut pv, 8, 20, 10, 2);
    assert_eq!(pu.zero, 0);
    assert_eq!(pv.zero, 0);
    assert!(u.iter().all(|&x| x == 90));
    assert!(v.iter().all(|&x| x == 91));
}
