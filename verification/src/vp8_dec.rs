//! Macroblock reconstruction and in-loop filtering of a VP8 frame, working
//! on the decoder's work buffer, top-sample row and cache rows.
use vstd::prelude::*;
use crate::array::{to_array_ref, to_array_ref_mut};
use crate::dec::{
    dc16, dc16_no_left, dc16_no_left_pred, dc16_no_top, dc16_no_top_left, dc16_no_top_left_pred,
    dc16_no_top_pred, dc16_pred, dc4, dc4_pred, dc8_uv, dc8_uv_no_left, dc8_uv_no_left_pred,
    dc8_uv_no_top, dc8_uv_no_top_left, dc8_uv_no_top_left_pred, dc8_uv_no_top_pred, dc8_uv_pred,
    hd4, hd4_pred, he16, he16_pred, he4, he4_pred, he8_uv, he8_uv_pred, hu4, hu4_pred, ld4,
    ld4_pred, rd4, rd4_pred, tm16, tm4, tm8uv, tm_pred, ve16, ve16_pred, ve4, ve4_pred, ve8_uv,
    ve8_uv_pred, vl4, vl4_pred, vr4, vr4_pred,
};
use crate::frame_dec::{do_transform, do_transform_spec, do_uv_transform, do_uv_transform_spec, k_scan, k_scan_spec};
use crate::dec::{coeffs_in_range, residual_block, dc_uv_step};
use crate::dec::{
    complex24_inner_runs, complex24_run, complex26_run, h_filter_16, h_filter_16i, h_filter_8,
    h_filter_8i, inner_windows_ok, run_windows_ok, simple_h_filter_16, simple_h_filter_16i,
    simple_inner_runs, simple_run, simple_v_filter_16, simple_v_filter_16i, v_filter_16,
    v_filter_16i, v_filter_8, v_filter_8i,
};
use crate::offsetref::{OffsetArray, OffsetSliceRefMut};

verus! {

/// Size of the work buffer: 17 rows of 32 bytes for luma (with the row of
/// top samples) and 9 rows for the two chroma planes side by side.
pub const YUV_SIZE: usize = 832;

/// Position of the first luma sample in the work buffer.
pub const Y_OFF: usize = 40;

/// Position of the first U sample in the work buffer.
pub const U_OFF: usize = 584;

/// Position of the first V sample in the work buffer.
pub const V_OFF: usize = 600;

/// Saved top samples, per macroblock.
#[derive(Clone, Copy)]
pub struct VP8TopSamples {
    pub y: [u8; 16],
    pub u: [u8; 8],
    pub v: [u8; 8],
}

/// Filter strengths of one macroblock.
#[derive(Clone, Copy)]
pub struct VP8FInfo {
    /// filter limit in [3..189], or 0 if no filtering
    pub f_limit: u8,
    /// inner limit in [1..63]
    pub f_ilevel: u8,
    /// do inner filtering?
    pub f_inner: u8,
    /// high edge variance threshold in [0..2]
    pub hev_thresh: u8,
}

/// Data needed to reconstruct a macroblock.
pub struct VP8MBData {
    /// 384 coeffs = (16+4+4) * 4*4
    pub coeffs: [i16; 384],
    /// true if intra4x4
    pub is_i4x4: u8,
    /// one 16x16 mode (#0) or sixteen 4x4 modes
    pub imodes: [u8; 16],
    /// chroma prediction mode
    pub uvmode: u8,
    /// two bits per luma 4x4 block, first block in the top bits: 0 = no
    /// coefficient, 1 = only DC, 2 = first three coefficients, 3 = more
    pub non_zero_y: u32,
    /// the same for the chroma blocks: U in the low byte, V in the next
    pub non_zero_uv: u32,
    /// local dithering strength (deduced from non_zero_*)
    pub dither: u8,
    pub skip: u8,
    pub segment: u8,
}

/// Prediction modes of 16x16 luma and 8x8 chroma blocks.
#[derive(Clone, Copy, Debug, PartialEq, Eq, Structural)]
pub enum PredMode {
    Dc,
    Tm,
    Ve,
    He,
    DcNoTop,
    DcNoLeft,
    DcNoTopLeft,
}

/// How many extra lines are needed on the macroblock boundary for caching,
/// given a filter type (0 = off, 1 = simple, 2 = complex). The simple filter
/// reads up to 2 luma samples and writes 1; the complex one reads up to 4
/// and writes 3, for U/V too, so 8 in all because of the 2x upsampling.
pub fn k_filter_extra_rows(filter_type: usize) -> (r: usize)
    requires
        filter_type < 3,
    ensures
        r == (if filter_type == 0 { 0usize } else if filter_type == 1 { 2usize } else { 8usize }),
{
    if filter_type == 0 {
        0
    } else if filter_type == 1 {
        2
    } else {
        8
    }
}

/// How the cache rows of a decoder with filter type `filter_type` extend
/// above their zero position, in luma and in chroma samples, and how many
/// filter-info entries a row of `mb_w` macroblocks has.
pub fn cache_extents(filter_type: usize, cache_y_stride: usize, cache_uv_stride: usize, mb_w: usize) -> (r: (usize, usize, usize))
    requires
        filter_type < 3,
        8 * cache_y_stride <= usize::MAX,
        4 * cache_uv_stride <= usize::MAX,
    ensures
        ({
            let extra = if filter_type == 0 { 0int } else if filter_type == 1 { 2int } else { 8int };
            &&& r.0 == extra * cache_y_stride
            &&& r.1 == (extra / 2) * cache_uv_stride
            &&& r.2 == (if filter_type > 0 { mb_w } else { 0 })
        }),
{
    let extra_rows = k_filter_extra_rows(filter_type);
    let extra_y = extra_rows * cache_y_stride;
    let half = extra_rows / 2;
    assert(half * cache_uv_stride <= 4 * cache_uv_stride) by (nonlinear_arith)
        requires
            half <= 4,
    ;
    let extra_uv = half * cache_uv_stride;
    let f_info_size = if filter_type > 0 {
        mb_w
    } else {
        0
    };
    (extra_y, extra_uv, f_info_size)
}

/// `s` with the four bytes at `dst_idx` replaced by the four at `src_idx`.
pub open spec fn copy4_spec(s: Seq<u8>, dst_idx: int, src_idx: int) -> Seq<u8> {
    Seq::new(
        s.len(),
        |p: int| if dst_idx <= p < dst_idx + 4 { s[p - dst_idx + src_idx] } else { s[p] },
    )
}

/// Copies the four bytes at `src_idx` to `dst_idx`, which lies before them.
pub fn copy_32b_left(arr: &mut [u8], dst_idx: usize, src_idx: usize)
    requires
        dst_idx + 4 <= src_idx,
        src_idx + 4 <= old(arr)@.len(),
    ensures
        final(arr)@ == copy4_spec(old(arr)@, dst_idx as int, src_idx as int),
{
    let ghost s = arr@;
    let n = arr.len();
    for i in 0..4usize
        invariant
            n == s.len(),
            dst_idx + 4 <= src_idx,
            src_idx + 4 <= s.len(),
            arr@.len() == s.len(),
            forall|p: int|
                0 <= p < s.len() ==> #[trigger] arr@[p] == if dst_idx <= p < dst_idx + i {
                    s[p - dst_idx + src_idx]
                } else {
                    s[p]
                },
    {
        arr[dst_idx + i] = arr[src_idx + i];
    }
    assert(arr@ =~= copy4_spec(s, dst_idx as int, src_idx as int));
}

/// The prediction mode that mode number `mode` selects for the macroblock
/// at (`mb_x`, `mb_y`): DC prediction falls back to its variants on the
/// top row and left column of the frame.
pub open spec fn get_mode_spec(mb_x: usize, mb_y: usize, mode: u8) -> PredMode {
    if mode == 0 {
        if mb_x == 0 && mb_y == 0 {
            PredMode::DcNoTopLeft
        } else if mb_x == 0 {
            PredMode::DcNoLeft
        } else if mb_y == 0 {
            PredMode::DcNoTop
        } else {
            PredMode::Dc
        }
    } else if mode == 1 {
        PredMode::Tm
    } else if mode == 2 {
        PredMode::Ve
    } else if mode == 3 {
        PredMode::He
    } else if mode == 4 {
        PredMode::DcNoTop
    } else if mode == 5 {
        PredMode::DcNoLeft
    } else {
        PredMode::DcNoTopLeft
    }
}

/// The window of `len` bytes of `s` whose index `zero` is position `off`.
pub open spec fn window(s: Seq<u8>, off: int, zero: int, len: int) -> Seq<u8> {
    s.subrange(off - zero, off - zero + len)
}

/// `s` with the window whose index `zero` is position `off` replaced by `w`.
pub open spec fn put_window(s: Seq<u8>, off: int, zero: int, w: Seq<u8>) -> Seq<u8> {
    s.subrange(0, off - zero) + w + s.subrange(off - zero + w.len(), s.len() as int)
}

/// Runs the predictor `pred` on the window of `s` around position `off`.
pub open spec fn pred_at(s: Seq<u8>, off: int, zero: int, len: int, pred: spec_fn(Seq<u8>) -> Seq<u8>) -> Seq<u8> {
    put_window(s, off, zero, pred(window(s, off, zero, len)))
}


/// The prediction mode that mode number `mode` selects for the macroblock
/// at (`mb_x`, `mb_y`).
pub fn get_mode(mb_x: usize, mb_y: usize, mode: u8) -> (r: PredMode)
    requires
        mode <= 6,
    ensures
        r == get_mode_spec(mb_x, mb_y, mode),
{
    match (mode, mb_x, mb_y) {
        (0, 0, 0) => PredMode::DcNoTopLeft,
        (0, 0, _) => PredMode::DcNoLeft,
        (0, _, 0) => PredMode::DcNoTop,
        (0, _, _) => PredMode::Dc,
        (1, _, _) => PredMode::Tm,
        (2, _, _) => PredMode::Ve,
        (3, _, _) => PredMode::He,
        (4, _, _) => PredMode::DcNoTop,
        (5, _, _) => PredMode::DcNoLeft,
        _ => PredMode::DcNoTopLeft,
    }
}

/// A copy of the window of `SIZE` bytes of `buf` whose index `ZERO` is
/// position `off`, as an offset array.
fn load_window<const SIZE: usize, const ZERO: usize>(buf: &[u8; YUV_SIZE], off: usize) -> (r: OffsetArray<u8, SIZE, ZERO>)
    requires
        ZERO <= off,
        off - ZERO + SIZE <= YUV_SIZE,
    ensures
        r.arr@ == window(buf@, off as int, ZERO as int, SIZE as int),
{
    let s: &[u8] = buf;
    let sub = vstd::slice::slice_subrange(s, off - ZERO, off - ZERO + SIZE);
    let a = to_array_ref::<u8, SIZE>(sub);
    OffsetArray { arr: *a }
}

/// Writes the offset array `w` back into the window it was taken from.
fn store_window<const SIZE: usize, const ZERO: usize>(buf: &mut [u8; YUV_SIZE], off: usize, w: &OffsetArray<u8, SIZE, ZERO>)
    requires
        ZERO <= off,
        off - ZERO + SIZE <= YUV_SIZE,
    ensures
        final(buf)@ == put_window(old(buf)@, off as int, ZERO as int, w.arr@),
{
    let ghost s = buf@;
    let start = off - ZERO;
    for i in 0..SIZE
        invariant
            start == off - ZERO,
            start + SIZE <= YUV_SIZE,
            buf@.len() == YUV_SIZE,
            forall|p: int|
                0 <= p < YUV_SIZE ==> #[trigger] buf@[p] == if start <= p < start + i {
                    w.arr@[p - start]
                } else {
                    s[p]
                },
    {
        buf[start + i] = w.arr[i];
    }
    assert(buf@ =~= put_window(s, off as int, ZERO as int, w.arr@));
}

/// What 4x4 luma prediction with mode `imode` does to the work buffer `s`
/// for the block at position `off`.
pub open spec fn pred_luma4_spec(s: Seq<u8>, off: int, imode: u8) -> Seq<u8> {
    if imode == 0 {
        pred_at(s, off, 32, 160, |a: Seq<u8>| dc4_pred(a))
    } else if imode == 1 {
        pred_at(s, off, 33, 133, |a: Seq<u8>| tm_pred(a, 4))
    } else if imode == 2 {
        pred_at(s, off, 33, 161, |a: Seq<u8>| ve4_pred(a))
    } else if imode == 3 {
        pred_at(s, off, 33, 161, |a: Seq<u8>| he4_pred(a))
    } else if imode == 4 {
        pred_at(s, off, 33, 133, |a: Seq<u8>| rd4_pred(a))
    } else if imode == 5 {
        pred_at(s, off, 33, 133, |a: Seq<u8>| vr4_pred(a))
    } else if imode == 6 {
        pred_at(s, off, 32, 132, |a: Seq<u8>| ld4_pred(a))
    } else if imode == 7 {
        pred_at(s, off, 32, 132, |a: Seq<u8>| vl4_pred(a))
    } else if imode == 8 {
        pred_at(s, off, 33, 133, |a: Seq<u8>| hd4_pred(a))
    } else {
        pred_at(s, off, 33, 133, |a: Seq<u8>| hu4_pred(a))
    }
}

/// Predicts the 4x4 luma block at position `dst_offset` of the work buffer
/// with mode `imode`.
pub fn vp8_pred_luma4(dst: &mut [u8; YUV_SIZE], dst_offset: usize, imode: u8)
    requires
        imode <= 9,
        33 <= dst_offset,
        dst_offset + 128 <= YUV_SIZE,
    ensures
        final(dst)@ == pred_luma4_spec(old(dst)@, dst_offset as int, imode),
{
    match imode {
        0 => {
            let mut w = load_window::<160, 32>(dst, dst_offset);
            dc4(&mut w);
            store_window(dst, dst_offset, &w);
        },
        1 => {
            let mut w = load_window::<133, 33>(dst, dst_offset);
            tm4(&mut w);
            store_window(dst, dst_offset, &w);
        },
        2 => {
            let mut w = load_window::<161, 33>(dst, dst_offset);
            ve4(&mut w);
            store_window(dst, dst_offset, &w);
        },
        3 => {
            let mut w = load_window::<161, 33>(dst, dst_offset);
            he4(&mut w);
            store_window(dst, dst_offset, &w);
        },
        4 => {
            let mut w = load_window::<133, 33>(dst, dst_offset);
            rd4(&mut w);
            store_window(dst, dst_offset, &w);
        },
        5 => {
            let mut w = load_window::<133, 33>(dst, dst_offset);
            vr4(&mut w);
            store_window(dst, dst_offset, &w);
        },
        6 => {
            let mut w = load_window::<132, 32>(dst, dst_offset);
            ld4(&mut w);
            store_window(dst, dst_offset, &w);
        },
        7 => {
            let mut w = load_window::<132, 32>(dst, dst_offset);
            vl4(&mut w);
            store_window(dst, dst_offset, &w);
        },
        8 => {
            let mut w = load_window::<133, 33>(dst, dst_offset);
            hd4(&mut w);
            store_window(dst, dst_offset, &w);
        },
        _ => {
            let mut w = load_window::<133, 33>(dst, dst_offset);
            hu4(&mut w);
            store_window(dst, dst_offset, &w);
        },
    }
}

/// What 16x16 luma prediction with mode `mode` does to the work buffer `s`
/// for the block at position `off`.
pub open spec fn pred_luma16_spec(s: Seq<u8>, off: int, mode: PredMode) -> Seq<u8> {
    match mode {
        PredMode::Dc => pred_at(s, off, 32, 528, |a: Seq<u8>| dc16_pred(a)),
        PredMode::Tm => pred_at(s, off, 33, 529, |a: Seq<u8>| tm_pred(a, 16)),
        PredMode::Ve => pred_at(s, off, 32, 528, |a: Seq<u8>| ve16_pred(a)),
        PredMode::He => pred_at(s, off, 1, 497, |a: Seq<u8>| he16_pred(a)),
        PredMode::DcNoTop => pred_at(s, off, 1, 497, |a: Seq<u8>| dc16_no_top_pred(a)),
        PredMode::DcNoLeft => pred_at(s, off, 32, 528, |a: Seq<u8>| dc16_no_left_pred(a)),
        PredMode::DcNoTopLeft => pred_at(s, off, 0, 496, |a: Seq<u8>| dc16_no_top_left_pred(a)),
    }
}

/// Predicts the 16x16 luma block at position `dst_offset` of the work
/// buffer with mode `imode`.
pub fn vp8_pred_luma16(dst: &mut [u8; YUV_SIZE], dst_offset: usize, imode: PredMode)
    requires
        33 <= dst_offset,
        dst_offset + 496 <= YUV_SIZE,
    ensures
        final(dst)@ == pred_luma16_spec(old(dst)@, dst_offset as int, imode),
{
    match imode {
        PredMode::Dc => {
            let mut w = load_window::<528, 32>(dst, dst_offset);
            dc16(&mut w);
            store_window(dst, dst_offset, &w);
        },
        PredMode::Tm => {
            let mut w = load_window::<529, 33>(dst, dst_offset);
            tm16(&mut w);
            store_window(dst, dst_offset, &w);
        },
        PredMode::Ve => {
            let mut w = load_window::<528, 32>(dst, dst_offset);
            ve16(&mut w);
            store_window(dst, dst_offset, &w);
        },
        PredMode::He => {
            let mut w = load_window::<497, 1>(dst, dst_offset);
            he16(&mut w);
            store_window(dst, dst_offset, &w);
        },
        PredMode::DcNoTop => {
            let mut w = load_window::<497, 1>(dst, dst_offset);
            dc16_no_top(&mut w);
            store_window(dst, dst_offset, &w);
        },
        PredMode::DcNoLeft => {
            let mut w = load_window::<528, 32>(dst, dst_offset);
            dc16_no_left(&mut w);
            store_window(dst, dst_offset, &w);
        },
        PredMode::DcNoTopLeft => {
            let mut w = load_window::<496, 0>(dst, dst_offset);
            dc16_no_top_left(&mut w.arr);
            store_window(dst, dst_offset, &w);
        },
    }
}

/// What 8x8 chroma prediction with mode `mode` does to the work buffer `s`
/// for the block at position `off`.
pub open spec fn pred_chroma8_spec(s: Seq<u8>, off: int, mode: PredMode) -> Seq<u8> {
    match mode {
        PredMode::Dc => pred_at(s, off, 32, 264, |a: Seq<u8>| dc8_uv_pred(a)),
        PredMode::Tm => pred_at(s, off, 33, 265, |a: Seq<u8>| tm_pred(a, 8)),
        PredMode::Ve => pred_at(s, off, 32, 264, |a: Seq<u8>| ve8_uv_pred(a)),
        PredMode::He => pred_at(s, off, 1, 233, |a: Seq<u8>| he8_uv_pred(a)),
        PredMode::DcNoTop => pred_at(s, off, 1, 233, |a: Seq<u8>| dc8_uv_no_top_pred(a)),
        PredMode::DcNoLeft => pred_at(s, off, 32, 264, |a: Seq<u8>| dc8_uv_no_left_pred(a)),
        PredMode::DcNoTopLeft => pred_at(s, off, 0, 232, |a: Seq<u8>| dc8_uv_no_top_left_pred(a)),
    }
}

/// Predicts the 8x8 chroma block at position `dst_offset` of the work
/// buffer with mode `uvmode`.
pub fn vp8_pred_chroma8(dst: &mut [u8; YUV_SIZE], dst_offset: usize, uvmode: PredMode)
    requires
        33 <= dst_offset,
        dst_offset + 232 <= YUV_SIZE,
    ensures
        final(dst)@ == pred_chroma8_spec(old(dst)@, dst_offset as int, uvmode),
{
    match uvmode {
        PredMode::Dc => {
            let mut w = load_window::<264, 32>(dst, dst_offset);
            dc8_uv(&mut w);
            store_window(dst, dst_offset, &w);
        },
        PredMode::Tm => {
            let mut w = load_window::<265, 33>(dst, dst_offset);
            tm8uv(&mut w);
            store_window(dst, dst_offset, &w);
        },
        PredMode::Ve => {
            let mut w = load_window::<264, 32>(dst, dst_offset);
            ve8_uv(&mut w);
            store_window(dst, dst_offset, &w);
        },
        PredMode::He => {
            let mut w = load_window::<233, 1>(dst, dst_offset);
            he8_uv(&mut w);
            store_window(dst, dst_offset, &w);
        },
        PredMode::DcNoTop => {
            let mut w = load_window::<233, 1>(dst, dst_offset);
            dc8_uv_no_top(&mut w);
            store_window(dst, dst_offset, &w);
        },
        PredMode::DcNoLeft => {
            let mut w = load_window::<264, 32>(dst, dst_offset);
            dc8_uv_no_left(&mut w);
            store_window(dst, dst_offset, &w);
        },
        PredMode::DcNoTopLeft => {
            let mut w = load_window::<232, 0>(dst, dst_offset);
            dc8_uv_no_top_left(&mut w.arr);
            store_window(dst, dst_offset, &w);
        },
    }
}


/// The work buffer after the left samples of the luma rows `0..n` (the
/// top-sample row counting as row 0) were taken from the right edge of the
/// previous macroblock.
pub open spec fn y_rotated(s: Seq<u8>, n: int) -> Seq<u8>
    decreases n,
{
    if n <= 0 {
        s
    } else {
        copy4_spec(y_rotated(s, n - 1), 4 + 32 * (n - 1), 20 + 32 * (n - 1))
    }
}

/// The same for the first `n` rows of both chroma planes.
pub open spec fn uv_rotated(s: Seq<u8>, n: int) -> Seq<u8>
    decreases n,
{
    if n <= 0 {
        s
    } else {
        let r = n - 1;
        copy4_spec(copy4_spec(uv_rotated(s, r), 548 + 32 * r, 556 + 32 * r), 564 + 32 * r, 572 + 32 * r)
    }
}

/// The work buffer with the left samples of the next macroblock rotated in.
pub open spec fn rotate_left_spec(s: Seq<u8>) -> Seq<u8> {
    uv_rotated(y_rotated(s, 17), 9)
}

/// The work buffer with the saved top samples `t` above the luma and both
/// chroma blocks.
pub open spec fn load_top_spec(s: Seq<u8>, t: VP8TopSamples) -> Seq<u8> {
    Seq::new(
        s.len(),
        |p: int|
            if 8 <= p < 24 {
                t.y@[p - 8]
            } else if 552 <= p < 560 {
                t.u@[p - 552]
            } else if 568 <= p < 576 {
                t.v@[p - 568]
            } else {
                s[p]
            },
    )
}

/// `s` with the four bytes at `pos` set to `v`.
pub open spec fn put4(s: Seq<u8>, pos: int, v: Seq<u8>) -> Seq<u8> {
    Seq::new(s.len(), |p: int| if pos <= p < pos + 4 { v[p - pos] } else { s[p] })
}

/// The four samples right of the top row of a 4x4-predicted macroblock.
pub open spec fn top_right_values(s: Seq<u8>, tops: Seq<VP8TopSamples>, mb_x: int, mb_y: int, mb_w: int) -> Seq<u8> {
    if mb_y > 0 {
        if mb_x >= mb_w - 1 {
            seq![tops[mb_x].y@[15], tops[mb_x].y@[15], tops[mb_x].y@[15], tops[mb_x].y@[15]]
        } else {
            tops[mb_x + 1].y@.subrange(0, 4)
        }
    } else {
        s.subrange(24, 28)
    }
}

/// The work buffer with the top-right samples in place and replicated to
/// the right of rows 3, 7 and 11, where the 4x4 predictors of the right
/// column read them.
pub open spec fn top_right_spec(s: Seq<u8>, tops: Seq<VP8TopSamples>, mb_x: int, mb_y: int, mb_w: int) -> Seq<u8> {
    let v = top_right_values(s, tops, mb_x, mb_y, mb_w);
    put4(put4(put4(put4(s, 24, v), 408, v), 280, v), 152, v)
}

/// `s` with the residual that `bits` selects added at position `off`.
pub open spec fn transform_at(s: Seq<u8>, off: int, bits: u32, src: Seq<i16>) -> Seq<u8> {
    s.subrange(0, off) + do_transform_spec(bits, src, s.subrange(off, s.len() as int))
}

/// Prediction and residual of 4x4 luma block `n`, whose coefficient kind
/// is in the top two bits of `bits`.
pub open spec fn luma4_step(s: Seq<u8>, coeffs: Seq<i16>, imodes: Seq<u8>, bits: u32, n: int) -> Seq<u8> {
    let off = Y_OFF + k_scan_spec(n);
    transform_at(pred_luma4_spec(s, off, imodes[n]), off, bits, coeffs.subrange(16 * n, 384))
}

/// The 4x4 luma blocks `n..16` predicted and reconstructed in turn.
pub open spec fn luma4_from(s: Seq<u8>, coeffs: Seq<i16>, imodes: Seq<u8>, bits: u32, n: int) -> Seq<u8>
    decreases 16 - n,
{
    if n >= 16 {
        s
    } else {
        luma4_from(luma4_step(s, coeffs, imodes, bits, n), coeffs, imodes, bits << 2u32, n + 1)
    }
}

/// The residuals of the 4x4 luma blocks `n..16` after 16x16 prediction.
pub open spec fn luma16_from(s: Seq<u8>, coeffs: Seq<i16>, bits: u32, n: int) -> Seq<u8>
    decreases 16 - n,
{
    if n >= 16 {
        s
    } else {
        luma16_from(
            transform_at(s, Y_OFF + k_scan_spec(n), bits, coeffs.subrange(16 * n, 384)),
            coeffs,
            bits << 2u32,
            n + 1,
        )
    }
}

/// `s` with the residual of one chroma plane added at position `off`.
pub open spec fn uv_transform_at(s: Seq<u8>, off: int, bits: u32, src: Seq<i16>) -> Seq<u8> {
    put_window(s, off, 0, do_uv_transform_spec(bits, src, window(s, off, 0, 232)))
}

/// The luma block of macroblock `blk` after prediction and residuals.
pub open spec fn luma_spec(s: Seq<u8>, blk: VP8MBData, tops: Seq<VP8TopSamples>, mb_x: int, mb_y: int, mb_w: int) -> Seq<u8> {
    if blk.is_i4x4 != 0 {
        luma4_from(top_right_spec(s, tops, mb_x, mb_y, mb_w), blk.coeffs@, blk.imodes@, blk.non_zero_y, 0)
    } else {
        let p = pred_luma16_spec(s, Y_OFF as int, get_mode_spec(mb_x as usize, mb_y as usize, blk.imodes@[0]));
        if blk.non_zero_y != 0 {
            luma16_from(p, blk.coeffs@, blk.non_zero_y, 0)
        } else {
            p
        }
    }
}

/// Both chroma blocks of macroblock `blk` after prediction and residuals.
pub open spec fn chroma_spec(s: Seq<u8>, blk: VP8MBData, mb_x: int, mb_y: int) -> Seq<u8> {
    let mode = get_mode_spec(mb_x as usize, mb_y as usize, blk.uvmode);
    let p = pred_chroma8_spec(pred_chroma8_spec(s, U_OFF as int, mode), V_OFF as int, mode);
    uv_transform_at(
        uv_transform_at(p, U_OFF as int, blk.non_zero_uv, blk.coeffs@.subrange(256, 320)),
        V_OFF as int,
        blk.non_zero_uv >> 8u32,
        blk.coeffs@.subrange(320, 384),
    )
}

/// The work buffer after macroblock `blk` at (`mb_x`, `mb_y`) has been
/// reconstructed in it.
pub open spec fn mb_work_spec(s: Seq<u8>, blk: VP8MBData, tops: Seq<VP8TopSamples>, mb_x: int, mb_y: int, mb_w: int) -> Seq<u8> {
    let s1 = if mb_x > 0 { rotate_left_spec(s) } else { s };
    let s2 = if mb_y > 0 { load_top_spec(s1, tops[mb_x]) } else { s1 };
    chroma_spec(luma_spec(s2, blk, tops, mb_x, mb_y, mb_w), blk, mb_x, mb_y)
}

/// `dst` with the first `k` bytes of row `src_base` of `src` copied to `base`.
pub open spec fn row_copy(dst: Seq<u8>, base: int, src: Seq<u8>, src_base: int, k: int) -> Seq<u8> {
    Seq::new(dst.len(), |p: int| if base <= p < base + k { src[src_base + p - base] } else { dst[p] })
}

/// `dst` with `n` rows of `w` bytes of `src` (stride 32, from `src_off`)
/// copied to rows `stride` apart from `base`.
pub open spec fn rows_copy(dst: Seq<u8>, base: int, stride: int, src: Seq<u8>, src_off: int, w: int, n: int) -> Seq<u8>
    decreases n,
{
    if n <= 0 {
        dst
    } else {
        row_copy(rows_copy(dst, base, stride, src, src_off, w, n - 1), base + (n - 1) * stride, src, src_off + (n - 1) * 32, w)
    }
}

proof fn lemma_rows_copy_len(dst: Seq<u8>, base: int, stride: int, src: Seq<u8>, src_off: int, w: int, n: int)
    ensures
        rows_copy(dst, base, stride, src, src_off, w, n).len() == dst.len(),
    decreases n,
{
    if n > 0 {
        lemma_rows_copy_len(dst, base, stride, src, src_off, w, n - 1);
    }
}

/// The coefficient bits of luma block `n`: `nz` shifted left by two bits
/// per block before it.
pub open spec fn luma_bits(nz: u32, n: nat) -> u32
    decreases n,
{
    if n == 0 {
        nz
    } else {
        luma_bits(nz, (n - 1) as nat) << 2u32
    }
}

/// The coefficients of one 4x4 block, at `start` of `c`, suit the transform
/// that `bits` selects: the full one needs them in the decoder's range, the
/// DC-only one a DC that can take its rounding.
pub open spec fn luma_block_ok(c: Seq<i16>, start: int, bits: u32) -> bool {
    &&& bits >> 30u32 == 3 ==> coeffs_in_range(c, start, start + 16)
    &&& bits >> 30u32 == 1 ==> c[start] + 4 <= i16::MAX
}

/// The coefficients of one chroma plane, at `start` of `c`, suit the
/// transform that the low byte of `bits` selects.
pub open spec fn uv_plane_ok(c: Seq<i16>, start: int, bits: u32) -> bool {
    &&& bits & 0xff != 0 && bits & 0xaa != 0 ==> coeffs_in_range(c, start, start + 64)
    &&& bits & 0xff != 0 && bits & 0xaa == 0 ==> {
        &&& c[start] + 4 <= i16::MAX
        &&& c[start + 16] + 4 <= i16::MAX
        &&& c[start + 32] + 4 <= i16::MAX
        &&& c[start + 48] + 4 <= i16::MAX
    }
}

/// Every mode of the macroblock names a predictor, and the coefficients of
/// each block whose residual is added suit its transform.
pub open spec fn mb_data_ok(blk: VP8MBData) -> bool {
    &&& blk.is_i4x4 != 0 ==> forall|n: int| 0 <= n < 16 ==> #[trigger] blk.imodes@[n] <= 9
    &&& blk.is_i4x4 == 0 ==> blk.imodes@[0] <= 6
    &&& blk.uvmode <= 6
    &&& forall|n: nat| n < 16 ==> luma_block_ok(blk.coeffs@, 16 * n as int, #[trigger] luma_bits(blk.non_zero_y, n))
    &&& uv_plane_ok(blk.coeffs@, 256, blk.non_zero_uv)
    &&& uv_plane_ok(blk.coeffs@, 320, blk.non_zero_uv >> 8u32)
}

/// What `mb_data_ok` asks of luma block `n` holds of the coefficients that
/// start at that block.
proof fn lemma_block_coeffs(coeffs: Seq<i16>, src: Seq<i16>, n: nat, bits: u32, nz: u32)
    requires
        coeffs.len() == 384,
        n < 16,
        src == coeffs.subrange(16 * n as int, 384),
        bits == luma_bits(nz, n),
        forall|m: nat| m < 16 ==> luma_block_ok(coeffs, 16 * m as int, #[trigger] luma_bits(nz, m)),
    ensures
        luma_block_ok(src, 0, bits),
{
    assert(luma_block_ok(coeffs, 16 * n as int, luma_bits(nz, n)));
    let start = 16 * n as int;
    if bits >> 30u32 == 3 {
        assert forall|k: int| 0 <= k < 16 implies -2048 <= #[trigger] src[k] <= 2047 by {
            assert(src[k] == coeffs[start + k]);
        }
    }
    assert(src[0] == coeffs[start]);
}

/// What `mb_data_ok` asks of a chroma plane holds of the 64 coefficients of
/// that plane.
proof fn lemma_plane_coeffs(coeffs: Seq<i16>, plane: Seq<i16>, start: int, bits: u32)
    requires
        0 <= start,
        start + 64 <= coeffs.len(),
        plane == coeffs.subrange(start, start + 64),
        uv_plane_ok(coeffs, start, bits),
    ensures
        uv_plane_ok(plane, 0, bits),
{
    assert forall|k: int| 0 <= k < 64 implies #[trigger] plane[k] == coeffs[start + k] by {}
    assert(plane[0] == coeffs[start]);
    assert(plane[16] == coeffs[start + 16]);
    assert(plane[32] == coeffs[start + 32]);
    assert(plane[48] == coeffs[start + 48]);
}

/// A residual edit of a buffer, cut short after `n` bytes, is the same edit
/// of the buffer's first `n` bytes.
proof fn lemma_residual_block_prefix(t: Seq<u8>, n: int, off: int, f: spec_fn(int, int) -> int)
    requires
        0 <= n <= t.len(),
    ensures
        residual_block(t, off, f).subrange(0, n) == residual_block(t.subrange(0, n), off, f),
{
    assert(residual_block(t, off, f).subrange(0, n) =~= residual_block(t.subrange(0, n), off, f));
}

proof fn lemma_dc_uv_step_prefix(t: Seq<u8>, n: int, off: int, v: i16)
    requires
        0 <= n <= t.len(),
    ensures
        dc_uv_step(t, off, v).subrange(0, n) == dc_uv_step(t.subrange(0, n), off, v),
{
    if v != 0 {
        lemma_residual_block_prefix(t, n, off, |r: int, c: int| v + 4);
    }
}

/// The chroma residual only touches the first 232 bytes of its 260-byte
/// area, so it can be computed on those bytes alone.
proof fn lemma_uv_transform_prefix(bits: u32, src: Seq<i16>, t: Seq<u8>)
    requires
        t.len() == 260,
    ensures
        do_uv_transform_spec(bits, src, t).subrange(0, 232) == do_uv_transform_spec(bits, src, t.subrange(0, 232)),
{
    let n = 232;
    if bits & 0xff == 0 {
    } else if bits & 0xaa != 0 {
        let f0 = |r: int, c: int| crate::dec::idct_horizontal(src.subrange(0, 16), r, c);
        let f1 = |r: int, c: int| crate::dec::idct_horizontal(src.subrange(16, 32), r, c);
        let f2 = |r: int, c: int| crate::dec::idct_horizontal(src.subrange(32, 48), r, c);
        let f3 = |r: int, c: int| crate::dec::idct_horizontal(src.subrange(48, 64), r, c);
        let t1 = residual_block(t, 0, f0);
        let t2 = residual_block(t1, 4, f1);
        let t3 = residual_block(t2, 128, f2);
        lemma_residual_block_prefix(t, n, 0, f0);
        lemma_residual_block_prefix(t1, n, 4, f1);
        lemma_residual_block_prefix(t2, n, 128, f2);
        lemma_residual_block_prefix(t3, n, 132, f3);
    } else {
        let t1 = dc_uv_step(t, 0, src[0]);
        let t2 = dc_uv_step(t1, 4, src[16]);
        let t3 = dc_uv_step(t2, 128, src[32]);
        lemma_dc_uv_step_prefix(t, n, 0, src[0]);
        lemma_dc_uv_step_prefix(t1, n, 4, src[16]);
        lemma_dc_uv_step_prefix(t2, n, 128, src[32]);
        lemma_dc_uv_step_prefix(t3, n, 132, src[48]);
    }
}

/// Adds the residual of one chroma plane to the 8x8 block at `off`.  The
/// transform works on a 260-byte area of which it only changes the first
/// 232 bytes; those are what is copied in and out, so that the area may end
/// where the work buffer ends.
fn uv_transform_in_place(buf: &mut [u8; YUV_SIZE], off: usize, bits: u32, src: &[i16; 64])
    requires
        off + 232 <= YUV_SIZE,
        uv_plane_ok(src@, 0, bits),
    ensures
        final(buf)@ == uv_transform_at(old(buf)@, off as int, bits, src@),
{
    let ghost s0 = buf@;
    let mut tmp = [0u8; 260];
    for i in 0..232usize
        invariant
            off + 232 <= YUV_SIZE,
            buf@ == s0,
            forall|k: int| 0 <= k < i ==> #[trigger] tmp@[k] == s0[off + k],
    {
        tmp[i] = buf[off + i];
    }
    let ghost t0 = tmp@;
    assert(t0.subrange(0, 232) =~= window(s0, off as int, 0, 232));
    do_uv_transform(bits, src, &mut tmp);
    proof {
        lemma_uv_transform_prefix(bits, src@, t0);
    }
    for i in 0..232usize
        invariant
            off + 232 <= YUV_SIZE,
            buf@.len() == YUV_SIZE,
            forall|p: int|
                0 <= p < YUV_SIZE ==> #[trigger] buf@[p] == if off <= p < off + i {
                    tmp@[p - off]
                } else {
                    s0[p]
                },
    {
        buf[off + i] = tmp[i];
    }
    assert(buf@ =~= put_window(s0, off as int, 0, tmp@.subrange(0, 232)));
}

/// Adds the residual of one 4x4 luma block to the block at `off`.
fn transform_in_place(buf: &mut [u8; YUV_SIZE], off: usize, bits: u32, src: &[i16])
    requires
        off + 132 <= YUV_SIZE,
        32 <= src@.len(),
        luma_block_ok(src@, 0, bits),
    ensures
        final(buf)@ == transform_at(old(buf)@, off as int, bits, src@),
{
    let ghost s0 = buf@;
    let s: &mut [u8] = buf;
    let (_head, tail) = s.split_at_mut(off);
    do_transform(bits, src, tail);
    proof {
        assert(buf@ =~= transform_at(s0, off as int, bits, src@));
    }
}

/// Takes the left samples of the macroblock from the right edge of the
/// previous one, four bytes per row.
fn rotate_left(buf: &mut [u8; YUV_SIZE])
    ensures
        final(buf)@ == rotate_left_spec(old(buf)@),
{
    let ghost s0 = buf@;
    for j in 0..17usize
        invariant
            buf@ == y_rotated(s0, j as int),
            buf@.len() == YUV_SIZE,
    {
        let b: &mut [u8] = buf;
        copy_32b_left(b, Y_OFF - 32 + j * 32 - 4, Y_OFF - 32 + j * 32 + 12);
    }
    let ghost s1 = buf@;
    for j in 0..9usize
        invariant
            buf@ == uv_rotated(s1, j as int),
            buf@.len() == YUV_SIZE,
    {
        let b: &mut [u8] = buf;
        copy_32b_left(b, U_OFF - 32 + j * 32 - 4, U_OFF - 32 + j * 32 + 4);
        let b: &mut [u8] = buf;
        copy_32b_left(b, V_OFF - 32 + j * 32 - 4, V_OFF - 32 + j * 32 + 4);
    }
}

/// Brings the saved top samples `t` above the blocks of the work buffer.
fn load_top(buf: &mut [u8; YUV_SIZE], t: &VP8TopSamples)
    ensures
        final(buf)@ == load_top_spec(old(buf)@, *t),
{
    let ghost s0 = buf@;
    for i in 0..16usize
        invariant
            buf@.len() == YUV_SIZE,
            forall|p: int|
                0 <= p < YUV_SIZE ==> #[trigger] buf@[p] == if 8 <= p < 8 + i { t.y@[p - 8] } else { s0[p] },
    {
        buf[Y_OFF - 32 + i] = t.y[i];
    }
    for i in 0..8usize
        invariant
            buf@.len() == YUV_SIZE,
            forall|p: int|
                0 <= p < YUV_SIZE ==> #[trigger] buf@[p] == if 8 <= p < 24 {
                    t.y@[p - 8]
                } else if 552 <= p < 552 + i {
                    t.u@[p - 552]
                } else if 568 <= p < 568 + i {
                    t.v@[p - 568]
                } else {
                    s0[p]
                },
    {
        buf[U_OFF - 32 + i] = t.u[i];
        buf[V_OFF - 32 + i] = t.v[i];
    }
    assert(buf@ =~= load_top_spec(s0, *t));
}

/// Sets the four bytes at `pos` to `v`.
fn put4_exec(buf: &mut [u8; YUV_SIZE], pos: usize, v: [u8; 4])
    requires
        pos + 4 <= YUV_SIZE,
    ensures
        final(buf)@ == put4(old(buf)@, pos as int, v@),
{
    let ghost s0 = buf@;
    buf[pos] = v[0];
    buf[pos + 1] = v[1];
    buf[pos + 2] = v[2];
    buf[pos + 3] = v[3];
    assert(buf@ =~= put4(s0, pos as int, v@));
}

/// Copies `n` rows of `w` samples of the work buffer, from `src_off` on, to
/// rows `stride` apart from position `base` of `dst`.
fn copy_rows_out(dst: &mut [u8], base: usize, stride: usize, src: &[u8; YUV_SIZE], src_off: usize, w: usize, n: usize)
    requires
        src_off + 32 * n <= YUV_SIZE + 32 - w,
        w <= 32,
        1 <= n,
        base + (n - 1) * stride + w <= old(dst)@.len(),
    ensures
        final(dst)@ == rows_copy(old(dst)@, base as int, stride as int, src@, src_off as int, w as int, n as int),
{
    let ghost d0 = dst@;
    let len = dst.len();
    let mut row: usize = 0;
    while row < n
        invariant
            dst@.len() == d0.len(),
            len == d0.len(),
            src_off + 32 * n <= YUV_SIZE + 32 - w,
            w <= 32,
            1 <= n,
            base + (n - 1) * stride + w <= d0.len(),
            row <= n,
            dst@ == rows_copy(d0, base as int, stride as int, src@, src_off as int, w as int, row as int),
        decreases n - row,
    {
        proof {
            assert(row * stride <= (n - 1) * stride) by (nonlinear_arith)
                requires
                    row <= n - 1,
            ;
        }
        let at = base + row * stride;
        let ghost start = dst@;
        let src_at = src_off + row * 32;
        for i in 0..w
            invariant
                dst@.len() == d0.len(),
                len == d0.len(),
                at + w <= d0.len(),
                src_at + w <= YUV_SIZE,
                dst@ == row_copy(start, at as int, src@, src_at as int, i as int),
        {
            dst[at + i] = src[src_at + i];
            assert(dst@ =~= row_copy(start, at as int, src@, src_at as int, i + 1));
        }
        row = row + 1;
    }
}

/// The state of one row of macroblocks being decoded: the work buffer
/// (rotated from block to block), the decoder's row of saved top samples,
/// and the cached luma and chroma rows.
pub struct VP8Decoder<'dec> {
    /// width in macroblocks
    pub mb_w: usize,
    /// height in macroblocks
    pub mb_h: usize,
    /// top y/u/v samples, one entry per macroblock column
    pub yuv_t: &'dec mut [VP8TopSamples],
    /// filter strengths of the current row
    pub f_info: &'dec mut [VP8FInfo],
    /// main block for Y/U/V
    pub yuv_b: &'dec mut [u8; YUV_SIZE],
    /// macroblock row of unfiltered luma samples; zero at its first sample
    pub cache_y: OffsetSliceRefMut<'dec, u8>,
    pub cache_u: OffsetSliceRefMut<'dec, u8>,
    pub cache_v: OffsetSliceRefMut<'dec, u8>,
    pub cache_y_stride: usize,
    pub cache_uv_stride: usize,
    /// current position, in macroblock units
    pub mb_x: usize,
    pub mb_y: usize,
    /// parsed reconstruction data of the current row
    pub mb_data: &'dec mut [VP8MBData],
    /// 0 = off, 1 = simple, 2 = complex
    pub filter_type: usize,
}


/// `t` holds the bottom row of the luma block and of both chroma blocks of
/// the work buffer `w`.
pub open spec fn top_saved(t: VP8TopSamples, w: Seq<u8>) -> bool {
    &&& t.y@ == w.subrange(520, 536)
    &&& t.u@ == w.subrange(808, 816)
    &&& t.v@ == w.subrange(824, 832)
}

/// The row of saved top samples after macroblock `mb_x` was reconstructed
/// into the work buffer `w`: its entry is refreshed when `save` holds.
pub open spec fn tops_after(new: Seq<VP8TopSamples>, old: Seq<VP8TopSamples>, mb_x: int, w: Seq<u8>, save: bool) -> bool {
    &&& new.len() == old.len()
    &&& forall|i: int| 0 <= i < old.len() && i != mb_x ==> #[trigger] new[i] == old[i]
    &&& save ==> top_saved(new[mb_x], w)
    &&& !save ==> new[mb_x] == old[mb_x]
}

/// Predicts the luma block of macroblock `block` at (`mb_x`, `mb_y`) and
/// adds its residuals, in the work buffer `buf`.
fn reconstruct_luma(buf: &mut [u8; YUV_SIZE], block: &VP8MBData, tops: &[VP8TopSamples], mb_x: usize, mb_y: usize, mb_w: usize)
    requires
        mb_data_ok(*block),
        tops@.len() == mb_w,
        mb_x < mb_w,
    ensures
        final(buf)@ == luma_spec(old(buf)@, *block, tops@, mb_x as int, mb_y as int, mb_w as int),
{
    let ghost s2 = buf@;
    let ghost blk = *block;
    let coeffs: &[i16] = &block.coeffs;
    let mut bits = block.non_zero_y;

    // predict and add residuals
    if block.is_i4x4 != 0 {
        let mut tr: [u8; 4] = [buf[24], buf[25], buf[26], buf[27]];
        if mb_y > 0 {
            if mb_x >= mb_w - 1 {  // on rightmost border
                let v = tops[mb_x].y[15];
                tr = [v, v, v, v];
            } else {
                let t1 = &tops[mb_x + 1];
                tr = [t1.y[0], t1.y[1], t1.y[2], t1.y[3]];
            }
        }
        assert(tr@ =~= top_right_values(s2, tops@, mb_x as int, mb_y as int, mb_w as int));
        put4_exec(buf, 24, tr);
        // replicate the top-right pixels below
        put4_exec(buf, 24 + 3 * 128, tr);
        put4_exec(buf, 24 + 2 * 128, tr);
        put4_exec(buf, 24 + 128, tr);
        let ghost start = buf@;
        let mut n: usize = 0;
        while n < 16
            invariant
                n <= 16,
                coeffs@ == blk.coeffs@,
                block.imodes@ == blk.imodes@,
                mb_data_ok(blk),
                blk.is_i4x4 != 0,
                bits == luma_bits(blk.non_zero_y, n as nat),
                luma4_from(buf@, coeffs@, blk.imodes@, bits, n as int) == luma4_from(start, coeffs@, blk.imodes@, blk.non_zero_y, 0),
            decreases 16 - n,
        {
            let dst_offset = Y_OFF + k_scan(n);
            assert(blk.imodes@[n as int] <= 9);
            vp8_pred_luma4(buf, dst_offset, block.imodes[n]);
            let src = vstd::slice::slice_subrange(coeffs, n * 16, 384);
            proof {
                lemma_block_coeffs(coeffs@, src@, n as nat, bits, blk.non_zero_y);
            }
            transform_in_place(buf, dst_offset, bits, src);
            bits = bits << 2;
            n = n + 1;
        }
        assert(luma4_from(buf@, coeffs@, blk.imodes@, bits, 16) == buf@);
        assert(start == top_right_spec(s2, tops@, mb_x as int, mb_y as int, mb_w as int));
    } else {
        let mode = get_mode(mb_x, mb_y, block.imodes[0]);
        vp8_pred_luma16(buf, Y_OFF, mode);
        if bits != 0 {
            let ghost start = buf@;
            let mut n: usize = 0;
            while n < 16
                invariant
                    n <= 16,
                    coeffs@ == blk.coeffs@,
                    mb_data_ok(blk),
                    bits == luma_bits(blk.non_zero_y, n as nat),
                    luma16_from(buf@, coeffs@, bits, n as int) == luma16_from(start, coeffs@, blk.non_zero_y, 0),
                decreases 16 - n,
            {
                let src = vstd::slice::slice_subrange(coeffs, n * 16, 384);
                proof {
                    lemma_block_coeffs(coeffs@, src@, n as nat, bits, blk.non_zero_y);
                }
                transform_in_place(buf, Y_OFF + k_scan(n), bits, src);
                bits = bits << 2;
                n = n + 1;
            }
            assert(luma16_from(buf@, coeffs@, bits, 16) == buf@);
        }
    }
}

/// Predicts both chroma blocks of macroblock `block` at (`mb_x`, `mb_y`)
/// and adds their residuals, in the work buffer `buf`.
fn reconstruct_chroma(buf: &mut [u8; YUV_SIZE], block: &VP8MBData, mb_x: usize, mb_y: usize)
    requires
        mb_data_ok(*block),
    ensures
        final(buf)@ == chroma_spec(old(buf)@, *block, mb_x as int, mb_y as int),
{
    let ghost blk = *block;
    let coeffs: &[i16] = &block.coeffs;
    // Chroma
    let bits_uv = block.non_zero_uv;
    let mode = get_mode(mb_x, mb_y, block.uvmode);
    vp8_pred_chroma8(buf, U_OFF, mode);
    vp8_pred_chroma8(buf, V_OFF, mode);
    let cu = to_array_ref::<i16, 64>(vstd::slice::slice_subrange(coeffs, 256, 384));
    let cv = to_array_ref::<i16, 64>(vstd::slice::slice_subrange(coeffs, 320, 384));
    assert(cu@ =~= blk.coeffs@.subrange(256, 320));
    assert(cv@ =~= blk.coeffs@.subrange(320, 384));
    proof {
        lemma_plane_coeffs(coeffs@, cu@, 256, bits_uv);
        lemma_plane_coeffs(coeffs@, cv@, 320, bits_uv >> 8u32);
    }
    uv_transform_in_place(buf, U_OFF, bits_uv, cu);
    uv_transform_in_place(buf, V_OFF, bits_uv >> 8, cv);
}

/// Position `p` is one of the left samples of the luma block or of a chroma
/// block of the work buffer.
pub open spec fn is_left_sample(p: int) -> bool {
    ||| 39 <= p < 551 && (p - 39) % 32 == 0
    ||| 583 <= p < 839 && (p - 583) % 32 == 0
    ||| 599 <= p < 855 && (p - 599) % 32 == 0
}

/// The work buffer at the start of macroblock row `mb_y`: the left samples
/// of the first macroblock are 129; its top-left samples are 129 too, or on
/// the first row the whole top row is 127.
pub open spec fn init_row_spec(s: Seq<u8>, mb_y: int) -> Seq<u8> {
    Seq::new(
        s.len(),
        |p: int|
            if is_left_sample(p) {
                129u8
            } else if mb_y > 0 && (p == 7 || p == 551 || p == 567) {
                129u8
            } else if mb_y <= 0 && (7 <= p < 28 || 551 <= p < 560 || 567 <= p < 576) {
                127u8
            } else {
                s[p]
            },
    )
}

/// The work buffer after the first `k` macroblocks of row `mb_y` were
/// reconstructed, starting from `s0`.
pub open spec fn row_work(s0: Seq<u8>, data: Seq<VP8MBData>, tops: Seq<VP8TopSamples>, mb_y: int, mb_w: int, k: int) -> Seq<u8>
    decreases k,
{
    if k <= 0 {
        s0
    } else {
        mb_work_spec(row_work(s0, data, tops, mb_y, mb_w, k - 1), data[k - 1], tops, k - 1, mb_y, mb_w)
    }
}

/// A cache row after the first `k` macroblocks of the row were copied to
/// it: macroblock `i` (`w` x `w` samples at `src_off` of the work buffer)
/// lands at `base + w * i`.
pub open spec fn row_cache(
    c0: Seq<u8>,
    base: int,
    stride: int,
    src_off: int,
    w: int,
    s0: Seq<u8>,
    data: Seq<VP8MBData>,
    tops: Seq<VP8TopSamples>,
    mb_y: int,
    mb_w: int,
    k: int,
) -> Seq<u8>
    decreases k,
{
    if k <= 0 {
        c0
    } else {
        rows_copy(
            row_cache(c0, base, stride, src_off, w, s0, data, tops, mb_y, mb_w, k - 1),
            base + w * (k - 1),
            stride,
            row_work(s0, data, tops, mb_y, mb_w, k),
            src_off,
            w,
            w,
        )
    }
}

/// Macroblock `mb_x` reads the saved tops of its own column and of the
/// next one only.
proof fn lemma_mb_work_tops(s: Seq<u8>, blk: VP8MBData, a: Seq<VP8TopSamples>, b: Seq<VP8TopSamples>, mb_x: int, mb_y: int, mb_w: int)
    requires
        a.len() == b.len(),
        0 <= mb_x < a.len(),
        a[mb_x] == b[mb_x],
        mb_x + 1 < a.len() ==> a[mb_x + 1] == b[mb_x + 1],
        mb_w == a.len(),
    ensures
        mb_work_spec(s, blk, a, mb_x, mb_y, mb_w) == mb_work_spec(s, blk, b, mb_x, mb_y, mb_w),
{
    let s1 = if mb_x > 0 { rotate_left_spec(s) } else { s };
    let s2 = if mb_y > 0 { load_top_spec(s1, a[mb_x]) } else { s1 };
    assert(top_right_values(s2, a, mb_x, mb_y, mb_w) == top_right_values(s2, b, mb_x, mb_y, mb_w));
}

proof fn lemma_row_cache_len(
    c0: Seq<u8>,
    base: int,
    stride: int,
    src_off: int,
    w: int,
    s0: Seq<u8>,
    data: Seq<VP8MBData>,
    tops: Seq<VP8TopSamples>,
    mb_y: int,
    mb_w: int,
    k: int,
)
    ensures
        row_cache(c0, base, stride, src_off, w, s0, data, tops, mb_y, mb_w, k).len() == c0.len(),
    decreases k,
{
    if k > 0 {
        lemma_row_cache_len(c0, base, stride, src_off, w, s0, data, tops, mb_y, mb_w, k - 1);
        lemma_rows_copy_len(
            row_cache(c0, base, stride, src_off, w, s0, data, tops, mb_y, mb_w, k - 1),
            base + w * (k - 1),
            stride,
            row_work(s0, data, tops, mb_y, mb_w, k),
            src_off,
            w,
            w,
        );
    }
}

/// Sets the left samples (and the top-left or top ones) of the work buffer
/// for the first macroblock of row `mb_y`.
fn init_row(buf: &mut [u8; YUV_SIZE], mb_y: usize)
    ensures
        final(buf)@ == init_row_spec(old(buf)@, mb_y as int),
{
    let ghost s0 = buf@;
    // Initialize left-most block.
    for j in 0..16usize
        invariant
            buf@.len() == YUV_SIZE,
            forall|p: int|
                0 <= p < YUV_SIZE ==> #[trigger] buf@[p] == if 39 <= p < 39 + 32 * j && (p - 39) % 32 == 0 {
                    129u8
                } else {
                    s0[p]
                },
    {
        buf[Y_OFF + j * 32 - 1] = 129;
    }
    for j in 0..8usize
        invariant
            buf@.len() == YUV_SIZE,
            forall|p: int|
                0 <= p < YUV_SIZE ==> #[trigger] buf@[p] == if 39 <= p < 551 && (p - 39) % 32 == 0 {
                    129u8
                } else if 583 <= p < 583 + 32 * j && (p - 583) % 32 == 0 {
                    129u8
                } else if 599 <= p < 599 + 32 * j && (p - 599) % 32 == 0 {
                    129u8
                } else {
                    s0[p]
                },
    {
        buf[U_OFF + j * 32 - 1] = 129;
        buf[V_OFF + j * 32 - 1] = 129;
    }
    let ghost s1 = buf@;
    // Init top-left sample on left column too.
    if mb_y > 0 {
        buf[Y_OFF - 1 - 32] = 129;
        buf[U_OFF - 1 - 32] = 129;
        buf[V_OFF - 1 - 32] = 129;
    } else {
        // we only need to do this init once at block (0,0).
        // Afterward, it remains valid for the whole topmost row.
        for i in 0..21usize
            invariant
                buf@.len() == YUV_SIZE,
                forall|p: int| 0 <= p < YUV_SIZE ==> #[trigger] buf@[p] == if 7 <= p < 7 + i { 127u8 } else { s1[p] },
        {
            buf[Y_OFF - 32 - 1 + i] = 127;
        }
        for i in 0..9usize
            invariant
                buf@.len() == YUV_SIZE,
                forall|p: int|
                    0 <= p < YUV_SIZE ==> #[trigger] buf@[p] == if 7 <= p < 28 || 551 <= p < 551 + i || 567 <= p < 567 + i {
                        127u8
                    } else {
                        s1[p]
                    },
        {
            buf[U_OFF - 32 - 1 + i] = 127;
            buf[V_OFF - 32 - 1 + i] = 127;
        }
    }
    assert(buf@ =~= init_row_spec(s0, mb_y as int));
}

/// The luma cache row after the simple loop filter of one macroblock whose
/// top-left sample is at `z`: its left edge (when `mb_x > 0`), its inner
/// vertical edges, its top edge (when `mb_y > 0`) and its inner horizontal
/// edges, in that order.
pub open spec fn simple_filter_spec(s: Seq<u8>, z: int, st: int, limit: int, inner: bool, mb_x: int, mb_y: int) -> Seq<u8> {
    let s1 = if mb_x > 0 { simple_run(s, z, 1, 2 * (limit + 4) + 1, st, 16) } else { s };
    let s2 = if inner { simple_inner_runs(s1, z, 1, 2 * limit + 1, 4, st, 3) } else { s1 };
    let s3 = if mb_y > 0 { simple_run(s2, z, st, 2 * (limit + 4) + 1, 1, 16) } else { s2 };
    if inner { simple_inner_runs(s3, z, st, 2 * limit + 1, 4 * st, 1, 3) } else { s3 }
}

/// Every sample that the simple filter of a macroblock at `z` reads lies in
/// a row of `len` samples.
pub open spec fn simple_filter_ok(len: int, z: int, st: int, inner: bool, mb_x: int, mb_y: int) -> bool {
    &&& len <= isize::MAX
    &&& mb_x > 0 ==> run_windows_ok(len, z, 1, st, -2, 1, 16)
    &&& inner ==> 0 <= z < len && inner_windows_ok(len, z, 1, 4, st, -2, 1, 3)
    &&& mb_y > 0 ==> run_windows_ok(len, z, st, 1, -2, 1, 16)
    &&& inner ==> inner_windows_ok(len, z, st, 4 * st, 1, -2, 1, 3)
}

/// Where the luma filters of a macroblock at `z` start: the filter of the
/// left edge moves the position down by 16 rows, the one of the top edge
/// right by 16 samples, and each later filter starts where the previous
/// one stopped.
pub open spec fn complex_y_zeros(z: int, st: int, mb_x: int, mb_y: int) -> (int, int) {
    let z1 = if mb_x > 0 { z + 16 * st } else { z };
    let z2 = if mb_y > 0 { z1 + 16 } else { z1 };
    (z1, z2)
}

/// The same for one chroma plane (8 rows, 8 samples).
pub open spec fn complex_uv_zeros(z: int, st: int, mb_x: int, mb_y: int) -> (int, int) {
    let z1 = if mb_x > 0 { z + 8 * st } else { z };
    let z2 = if mb_y > 0 { z1 + 8 } else { z1 };
    (z1, z2)
}

/// The luma cache row after the complex loop filter of one macroblock at `z`.
pub open spec fn complex_y_spec(s: Seq<u8>, z: int, st: int, limit: int, ilevel: int, hev: int, inner: bool, mb_x: int, mb_y: int) -> Seq<u8> {
    let (z1, z2) = complex_y_zeros(z, st, mb_x, mb_y);
    let s1 = if mb_x > 0 { complex26_run(s, z, 1, st, 2 * (limit + 4) + 1, ilevel, hev, 16) } else { s };
    let s2 = if inner { complex24_inner_runs(s1, z1, 1, st, 2 * limit + 1, ilevel, hev, 4, 3) } else { s1 };
    let s3 = if mb_y > 0 { complex26_run(s2, z1, st, 1, 2 * (limit + 4) + 1, ilevel, hev, 16) } else { s2 };
    if inner { complex24_inner_runs(s3, z2, st, 1, 2 * limit + 1, ilevel, hev, 4 * st, 3) } else { s3 }
}

/// A chroma cache row after the complex loop filter of one macroblock at `z`.
pub open spec fn complex_uv_spec(s: Seq<u8>, z: int, st: int, limit: int, ilevel: int, hev: int, inner: bool, mb_x: int, mb_y: int) -> Seq<u8> {
    let (z1, z2) = complex_uv_zeros(z, st, mb_x, mb_y);
    let s1 = if mb_x > 0 { complex26_run(s, z, 1, st, 2 * (limit + 4) + 1, ilevel, hev, 8) } else { s };
    let s2 = if inner { complex24_run(s1, z1 + 4, 1, st, 2 * limit + 1, ilevel, hev, 8) } else { s1 };
    let s3 = if mb_y > 0 { complex26_run(s2, z1, st, 1, 2 * (limit + 4) + 1, ilevel, hev, 8) } else { s2 };
    if inner { complex24_run(s3, z2 + 4 * st, st, 1, 2 * limit + 1, ilevel, hev, 8) } else { s3 }
}

/// Every sample that the complex luma filter of a macroblock at `z` reads
/// lies in a row of `len` samples, and its positions fit in an `isize`.
pub open spec fn complex_y_ok(len: int, z: int, st: int, inner: bool, mb_x: int, mb_y: int) -> bool {
    let (z1, z2) = complex_y_zeros(z, st, mb_x, mb_y);
    &&& len <= isize::MAX
    &&& mb_x > 0 ==> {
        &&& 0 <= z < len
        &&& run_windows_ok(len, z, 1, st, -4, 3, 16)
        &&& isize::MIN <= z + 16 * st <= isize::MAX
    }
    &&& inner ==> {
        &&& 0 <= z1 < len
        &&& inner_windows_ok(len, z1, 1, 4, st, -4, 3, 3)
        &&& isize::MIN <= z1 + 4 + 16 * st <= isize::MAX
        &&& isize::MIN <= z1 + 8 + 16 * st <= isize::MAX
        &&& isize::MIN <= z1 + 12 + 16 * st <= isize::MAX
    }
    &&& mb_y > 0 ==> {
        &&& 0 <= z1 < len
        &&& run_windows_ok(len, z1, st, 1, -4, 3, 16)
        &&& z1 + 16 <= isize::MAX
    }
    &&& inner ==> {
        &&& 0 <= z2 < len
        &&& inner_windows_ok(len, z2, st, 4 * st, 1, -4, 3, 3)
        &&& z2 + 4 * st + 16 <= isize::MAX
        &&& z2 + 8 * st + 16 <= isize::MAX
        &&& z2 + 12 * st + 16 <= isize::MAX
    }
}

/// The same for a chroma plane.
pub open spec fn complex_uv_ok(len: int, z: int, st: int, inner: bool, mb_x: int, mb_y: int) -> bool {
    let (z1, z2) = complex_uv_zeros(z, st, mb_x, mb_y);
    &&& len <= isize::MAX
    &&& mb_x > 0 ==> {
        &&& 0 <= z < len
        &&& run_windows_ok(len, z, 1, st, -4, 3, 8)
        &&& isize::MIN <= z + 8 * st <= isize::MAX
    }
    &&& inner ==> {
        &&& 0 <= z1 + 4 < len
        &&& run_windows_ok(len, z1 + 4, 1, st, -4, 3, 8)
        &&& isize::MIN <= z1 + 4 + 8 * st <= isize::MAX
    }
    &&& mb_y > 0 ==> {
        &&& 0 <= z1 < len
        &&& run_windows_ok(len, z1, st, 1, -4, 3, 8)
        &&& isize::MIN <= z1 + 8 <= isize::MAX
    }
    &&& inner ==> {
        &&& 0 <= z2 + 4 * st < len
        &&& run_windows_ok(len, z2 + 4 * st, st, 1, -4, 3, 8)
        &&& isize::MIN <= z2 + 4 * st + 8 <= isize::MAX
    }
}


/// Position `p` holds one of the samples above the blocks of the work
/// buffer: the top-left, top and top-right samples of the luma block, and
/// the top-left and top samples of both chroma blocks.
pub open spec fn top_sample(p: int) -> bool {
    7 <= p < 28 || 551 <= p < 560 || 567 <= p < 576
}

/// All samples above the blocks of the work buffer are 127.
pub open spec fn top_row_grey(s: Seq<u8>) -> bool {
    forall|p: int| #[trigger] top_sample(p) ==> s[p] == 127
}

proof fn lemma_y_rotated_top(s: Seq<u8>, n: int, p: int)
    requires
        s.len() == YUV_SIZE,
        0 <= n <= 17,
        top_sample(p),
    ensures
        y_rotated(s, n).len() == s.len(),
        y_rotated(s, n)[p] == if p == 7 && n >= 1 { s[23] } else { s[p] },
    decreases n,
{
    if n > 0 {
        lemma_y_rotated_top(s, n - 1, p);
        lemma_y_rotated_top(s, n - 1, 23);
    }
}

proof fn lemma_uv_rotated_top(s: Seq<u8>, n: int, p: int)
    requires
        s.len() == YUV_SIZE,
        0 <= n <= 9,
        top_sample(p),
    ensures
        uv_rotated(s, n).len() == s.len(),
        uv_rotated(s, n)[p] == if p == 551 && n >= 1 {
            s[559]
        } else if p == 567 && n >= 1 {
            s[575]
        } else {
            s[p]
        },
    decreases n,
{
    if n > 0 {
        lemma_uv_rotated_top(s, n - 1, p);
        lemma_uv_rotated_top(s, n - 1, 559);
        lemma_uv_rotated_top(s, n - 1, 575);
    }
}

proof fn lemma_rotate_keeps_grey(s: Seq<u8>)
    requires
        s.len() == YUV_SIZE,
        top_row_grey(s),
    ensures
        rotate_left_spec(s).len() == YUV_SIZE,
        top_row_grey(rotate_left_spec(s)),
{
    let y = y_rotated(s, 17);
    lemma_y_rotated_top(s, 17, 7);
    lemma_uv_rotated_top(y, 9, 7);
    assert forall|p: int| #[trigger] top_sample(p) implies rotate_left_spec(s)[p] == 127 by {
        lemma_y_rotated_top(s, 17, p);
        lemma_y_rotated_top(s, 17, 559);
        lemma_y_rotated_top(s, 17, 575);
        lemma_uv_rotated_top(y, 9, p);
        assert(top_sample(23) && top_sample(559) && top_sample(575));
    }
}

proof fn lemma_pred_luma4_keeps(s: Seq<u8>, off: int, imode: u8, p: int)
    requires
        s.len() == YUV_SIZE,
        40 <= off <= 436,
        imode <= 9,
        0 <= p < off || off + 100 <= p < YUV_SIZE,
    ensures
        pred_luma4_spec(s, off, imode).len() == YUV_SIZE,
        pred_luma4_spec(s, off, imode)[p] == s[p],
{
}

proof fn lemma_transform_at_keeps(s: Seq<u8>, off: int, bits: u32, src: Seq<i16>, p: int)
    requires
        s.len() == YUV_SIZE,
        0 <= off,
        off + 132 <= YUV_SIZE,
        0 <= p < off || off + 100 <= p < YUV_SIZE,
    ensures
        transform_at(s, off, bits, src).len() == YUV_SIZE,
        transform_at(s, off, bits, src)[p] == s[p],
{
}

proof fn lemma_luma4_from_keeps(s: Seq<u8>, coeffs: Seq<i16>, imodes: Seq<u8>, bits: u32, n: int, p: int)
    requires
        s.len() == YUV_SIZE,
        0 <= n <= 16,
        forall|k: int| 0 <= k < 16 ==> #[trigger] imodes[k] <= 9,
        0 <= p < 40 || 536 <= p < YUV_SIZE,
    ensures
        luma4_from(s, coeffs, imodes, bits, n).len() == YUV_SIZE,
        luma4_from(s, coeffs, imodes, bits, n)[p] == s[p],
    decreases 16 - n,
{
    if n < 16 {
        let off = Y_OFF + k_scan_spec(n);
        assert(40 <= off <= 436);
        let q = pred_luma4_spec(s, off, imodes[n]);
        lemma_pred_luma4_keeps(s, off, imodes[n], p);
        lemma_transform_at_keeps(q, off, bits, coeffs.subrange(16 * n, 384), p);
        lemma_luma4_from_keeps(luma4_step(s, coeffs, imodes, bits, n), coeffs, imodes, bits << 2u32, n + 1, p);
    }
}

proof fn lemma_luma16_from_keeps(s: Seq<u8>, coeffs: Seq<i16>, bits: u32, n: int, p: int)
    requires
        s.len() == YUV_SIZE,
        0 <= n <= 16,
        0 <= p < 40 || 536 <= p < YUV_SIZE,
    ensures
        luma16_from(s, coeffs, bits, n).len() == YUV_SIZE,
        luma16_from(s, coeffs, bits, n)[p] == s[p],
    decreases 16 - n,
{
    if n < 16 {
        let off = Y_OFF + k_scan_spec(n);
        assert(40 <= off <= 436);
        lemma_transform_at_keeps(s, off, bits, coeffs.subrange(16 * n, 384), p);
        lemma_luma16_from_keeps(transform_at(s, off, bits, coeffs.subrange(16 * n, 384)), coeffs, bits << 2u32, n + 1, p);
    }
}

proof fn lemma_pred_luma16_keeps(s: Seq<u8>, mode: PredMode, p: int)
    requires
        s.len() == YUV_SIZE,
        0 <= p < 40 || 536 <= p < YUV_SIZE,
    ensures
        pred_luma16_spec(s, Y_OFF as int, mode).len() == YUV_SIZE,
        pred_luma16_spec(s, Y_OFF as int, mode)[p] == s[p],
{
}

proof fn lemma_pred_chroma8_keeps(s: Seq<u8>, off: int, mode: PredMode, p: int)
    requires
        s.len() == YUV_SIZE,
        off == U_OFF || off == V_OFF,
        0 <= p < off,
    ensures
        pred_chroma8_spec(s, off, mode).len() == YUV_SIZE,
        pred_chroma8_spec(s, off, mode)[p] == s[p],
{
}

proof fn lemma_uv_transform_keeps(s: Seq<u8>, off: int, bits: u32, src: Seq<i16>, p: int)
    requires
        s.len() == YUV_SIZE,
        off == U_OFF || off == V_OFF,
        0 <= p < off,
    ensures
        uv_transform_at(s, off, bits, src).len() == YUV_SIZE,
        uv_transform_at(s, off, bits, src)[p] == s[p],
{
    let t = window(s, off, 0, 232);
    lemma_uv_transform_prefix_len(bits, src, t);
}

proof fn lemma_uv_transform_prefix_len(bits: u32, src: Seq<i16>, t: Seq<u8>)
    ensures
        do_uv_transform_spec(bits, src, t).len() == t.len(),
{
}

/// On the first macroblock row, reconstructing a macroblock leaves the grey
/// samples above the blocks of the work buffer as they are.
pub proof fn law_first_row_keeps_grey_top(s: Seq<u8>, blk: VP8MBData, tops: Seq<VP8TopSamples>, mb_x: int, mb_w: int)
    requires
        s.len() == YUV_SIZE,
        top_row_grey(s),
        mb_data_ok(blk),
        0 <= mb_x < mb_w,
        tops.len() == mb_w,
    ensures
        mb_work_spec(s, blk, tops, mb_x, 0, mb_w).len() == YUV_SIZE,
        top_row_grey(mb_work_spec(s, blk, tops, mb_x, 0, mb_w)),
{
    let s1 = if mb_x > 0 { rotate_left_spec(s) } else { s };
    if mb_x > 0 {
        lemma_rotate_keeps_grey(s);
    }
    let l = luma_spec(s1, blk, tops, mb_x, 0, mb_w);
    let mode = get_mode_spec(mb_x as usize, 0, blk.uvmode);
    let c1 = pred_chroma8_spec(l, U_OFF as int, mode);
    let c2 = pred_chroma8_spec(c1, V_OFF as int, mode);
    let c3 = uv_transform_at(c2, U_OFF as int, blk.non_zero_uv, blk.coeffs@.subrange(256, 320));
    assert forall|p: int| 0 <= p < 40 || 536 <= p < YUV_SIZE implies l.len() == YUV_SIZE && #[trigger] l[p] == s1[p] by {
        if blk.is_i4x4 != 0 {
            let tr = top_right_spec(s1, tops, mb_x, 0, mb_w);
            assert(forall|k: int| 0 <= k < 16 ==> #[trigger] blk.imodes@[k] <= 9);
            lemma_luma4_from_keeps(tr, blk.coeffs@, blk.imodes@, blk.non_zero_y, 0, p);
            if 24 <= p < 28 {
                assert(tr[p] == s1[p]);
            }
        } else {
            let mode16 = get_mode_spec(mb_x as usize, 0, blk.imodes@[0]);
            let q = pred_luma16_spec(s1, Y_OFF as int, mode16);
            lemma_pred_luma16_keeps(s1, mode16, p);
            lemma_luma16_from_keeps(q, blk.coeffs@, blk.non_zero_y, 0, p);
        }
    }
    assert(l[0] == s1[0]);
    assert forall|p: int| #[trigger] top_sample(p) implies mb_work_spec(s, blk, tops, mb_x, 0, mb_w)[p] == 127 by {
        assert(l[p] == s1[p]);
        lemma_pred_chroma8_keeps(l, U_OFF as int, mode, p);
        lemma_pred_chroma8_keeps(c1, V_OFF as int, mode, p);
        lemma_uv_transform_keeps(c2, U_OFF as int, blk.non_zero_uv, blk.coeffs@.subrange(256, 320), p);
        lemma_uv_transform_keeps(c3, V_OFF as int, blk.non_zero_uv >> 8u32, blk.coeffs@.subrange(320, 384), p);
    }
    lemma_pred_chroma8_keeps(l, U_OFF as int, mode, 0);
    lemma_pred_chroma8_keeps(c1, V_OFF as int, mode, 0);
    lemma_uv_transform_keeps(c2, U_OFF as int, blk.non_zero_uv, blk.coeffs@.subrange(256, 320), 0);
    lemma_uv_transform_keeps(c3, V_OFF as int, blk.non_zero_uv >> 8u32, blk.coeffs@.subrange(320, 384), 0);
}

/// Below the first row, a macroblock predicted in 4x4 mode takes the four
/// samples right of its top row (read by the predictors of its right-hand
/// blocks) from the saved bottom row of the macroblock above and to the
/// right: its first four samples.  In the last column, which has no such
/// neighbour, all four repeat the last bottom sample of the macroblock
/// above.  Reconstruction leaves them so in the work buffer.
pub proof fn law_top_right_from_next_macroblock(
    s: Seq<u8>,
    blk: VP8MBData,
    tops: Seq<VP8TopSamples>,
    mb_x: int,
    mb_y: int,
    mb_w: int,
    i: int,
)
    requires
        s.len() == YUV_SIZE,
        mb_data_ok(blk),
        blk.is_i4x4 != 0,
        0 <= mb_x < mb_w,
        0 < mb_y,
        tops.len() == mb_w,
        0 <= i < 4,
    ensures
        mb_work_spec(s, blk, tops, mb_x, mb_y, mb_w)[24 + i] == if mb_x < mb_w - 1 {
            tops[mb_x + 1].y@[i]
        } else {
            tops[mb_x].y@[15]
        },
{
    let s1 = if mb_x > 0 { rotate_left_spec(s) } else { s };
    if mb_x > 0 {
        assert(top_sample(7));
        lemma_y_rotated_top(s, 17, 7);
        lemma_uv_rotated_top(y_rotated(s, 17), 9, 7);
    }
    let s2 = load_top_spec(s1, tops[mb_x]);
    let p = 24 + i;
    let tr = top_right_spec(s2, tops, mb_x, mb_y, mb_w);
    let v = top_right_values(s2, tops, mb_x, mb_y, mb_w);
    assert(tr.len() == YUV_SIZE);
    assert(tr[p] == v[i]);
    assert(forall|k: int| 0 <= k < 16 ==> #[trigger] blk.imodes@[k] <= 9);
    lemma_luma4_from_keeps(tr, blk.coeffs@, blk.imodes@, blk.non_zero_y, 0, p);
    let l = luma_spec(s2, blk, tops, mb_x, mb_y, mb_w);
    let mode = get_mode_spec(mb_x as usize, mb_y as usize, blk.uvmode);
    let c1 = pred_chroma8_spec(l, U_OFF as int, mode);
    let c2 = pred_chroma8_spec(c1, V_OFF as int, mode);
    let c3 = uv_transform_at(c2, U_OFF as int, blk.non_zero_uv, blk.coeffs@.subrange(256, 320));
    lemma_pred_chroma8_keeps(l, U_OFF as int, mode, p);
    lemma_pred_chroma8_keeps(c1, V_OFF as int, mode, p);
    lemma_uv_transform_keeps(c2, U_OFF as int, blk.non_zero_uv, blk.coeffs@.subrange(256, 320), p);
    lemma_uv_transform_keeps(c3, V_OFF as int, blk.non_zero_uv >> 8u32, blk.coeffs@.subrange(320, 384), p);
}

/// Below the first row, a macroblock is predicted from the saved bottom row
/// of the macroblock above it: after reconstruction, the 16 luma samples
/// above its luma block and the 8 above its u block are those saved
/// samples.
pub proof fn law_top_from_macroblock_above(
    s: Seq<u8>,
    blk: VP8MBData,
    tops: Seq<VP8TopSamples>,
    mb_x: int,
    mb_y: int,
    mb_w: int,
)
    requires
        s.len() == YUV_SIZE,
        mb_data_ok(blk),
        0 <= mb_x < mb_w,
        0 < mb_y,
        tops.len() == mb_w,
    ensures
        forall|i: int| 0 <= i < 16 ==> #[trigger] mb_work_spec(s, blk, tops, mb_x, mb_y, mb_w)[8 + i] == tops[mb_x].y@[i],
        forall|i: int| 0 <= i < 8 ==> #[trigger] mb_work_spec(s, blk, tops, mb_x, mb_y, mb_w)[552 + i] == tops[mb_x].u@[i],
{
    let s1 = if mb_x > 0 { rotate_left_spec(s) } else { s };
    if mb_x > 0 {
        assert(top_sample(7));
        lemma_y_rotated_top(s, 17, 7);
        lemma_uv_rotated_top(y_rotated(s, 17), 9, 7);
    }
    let s2 = load_top_spec(s1, tops[mb_x]);
    let l = luma_spec(s2, blk, tops, mb_x, mb_y, mb_w);
    let mode = get_mode_spec(mb_x as usize, mb_y as usize, blk.uvmode);
    let c1 = pred_chroma8_spec(l, U_OFF as int, mode);
    let c2 = pred_chroma8_spec(c1, V_OFF as int, mode);
    let c3 = uv_transform_at(c2, U_OFF as int, blk.non_zero_uv, blk.coeffs@.subrange(256, 320));
    assert forall|p: int| (8 <= p < 24 || 552 <= p < 560) implies #[trigger] mb_work_spec(s, blk, tops, mb_x, mb_y, mb_w)[p] == s2[p] by {
        if blk.is_i4x4 != 0 {
            let tr = top_right_spec(s2, tops, mb_x, mb_y, mb_w);
            assert(forall|k: int| 0 <= k < 16 ==> #[trigger] blk.imodes@[k] <= 9);
            lemma_luma4_from_keeps(tr, blk.coeffs@, blk.imodes@, blk.non_zero_y, 0, p);
        } else {
            let mode16 = get_mode_spec(mb_x as usize, mb_y as usize, blk.imodes@[0]);
            let q = pred_luma16_spec(s2, Y_OFF as int, mode16);
            lemma_pred_luma16_keeps(s2, mode16, p);
            lemma_luma16_from_keeps(q, blk.coeffs@, blk.non_zero_y, 0, p);
        }
        lemma_pred_chroma8_keeps(l, U_OFF as int, mode, p);
        lemma_pred_chroma8_keeps(c1, V_OFF as int, mode, p);
        lemma_uv_transform_keeps(c2, U_OFF as int, blk.non_zero_uv, blk.coeffs@.subrange(256, 320), p);
        lemma_uv_transform_keeps(c3, V_OFF as int, blk.non_zero_uv >> 8u32, blk.coeffs@.subrange(320, 384), p);
    }
    assert forall|i: int| 0 <= i < 16 implies #[trigger] mb_work_spec(s, blk, tops, mb_x, mb_y, mb_w)[8 + i] == tops[mb_x].y@[i] by {
        assert(mb_work_spec(s, blk, tops, mb_x, mb_y, mb_w)[8 + i] == s2[8 + i]);
    }
    assert forall|i: int| 0 <= i < 8 implies #[trigger] mb_work_spec(s, blk, tops, mb_x, mb_y, mb_w)[552 + i] == tops[mb_x].u@[i] by {
        assert(mb_work_spec(s, blk, tops, mb_x, mb_y, mb_w)[552 + i] == s2[552 + i]);
    }
}

/// The top samples that the first macroblock of the first row sets to grey
/// stay valid for the whole row: after any number of its macroblocks they
/// are still 127.
pub proof fn law_first_row_top_stays_grey(s: Seq<u8>, data: Seq<VP8MBData>, tops: Seq<VP8TopSamples>, mb_w: int, k: int)
    requires
        s.len() == YUV_SIZE,
        data.len() == mb_w,
        tops.len() == mb_w,
        forall|i: int| 0 <= i < mb_w ==> mb_data_ok(#[trigger] data[i]),
        0 <= k <= mb_w,
    ensures
        row_work(init_row_spec(s, 0), data, tops, 0, mb_w, k).len() == YUV_SIZE,
        top_row_grey(row_work(init_row_spec(s, 0), data, tops, 0, mb_w, k)),
    decreases k,
{
    if k > 0 {
        law_first_row_top_stays_grey(s, data, tops, mb_w, k - 1);
        law_first_row_keeps_grey_top(row_work(init_row_spec(s, 0), data, tops, 0, mb_w, k - 1), data[k - 1], tops, k - 1, mb_w);
    } else {
        assert forall|p: int| #[trigger] top_sample(p) implies init_row_spec(s, 0)[p] == 127 by {
            assert(!is_left_sample(p));
        }
    }
}

impl<'dec> VP8Decoder<'dec> {
    /// The buffers hold what a row of `mb_w` macroblocks needs: one saved
    /// top and one set of data per macroblock, and cache rows that reach
    /// 16 luma and 8 chroma rows below their zero position.
    pub open spec fn wf(&self) -> bool {
        &&& 1 <= self.mb_h
        &&& self.yuv_t@.len() == self.mb_w
        &&& self.mb_data@.len() == self.mb_w
        &&& 0 <= self.cache_y.zero
        &&& 0 <= self.cache_u.zero
        &&& 0 <= self.cache_v.zero
        &&& self.cache_y.zero + 16 * self.mb_w + 15 * self.cache_y_stride <= self.cache_y.slice@.len()
        &&& self.cache_u.zero + 8 * self.mb_w + 7 * self.cache_uv_stride <= self.cache_u.slice@.len()
        &&& self.cache_v.zero + 8 * self.mb_w + 7 * self.cache_uv_stride <= self.cache_v.slice@.len()
    }

    /// Everything but the work buffer, the saved tops and the cache rows'
    /// contents is the same in `self` and `other`.
    pub open spec fn same_layout(&self, other: &Self) -> bool {
        &&& self.mb_w == other.mb_w
        &&& self.mb_h == other.mb_h
        &&& self.cache_y.zero == other.cache_y.zero
        &&& self.cache_u.zero == other.cache_u.zero
        &&& self.cache_v.zero == other.cache_v.zero
        &&& self.cache_y_stride == other.cache_y_stride
        &&& self.cache_uv_stride == other.cache_uv_stride
        &&& self.mb_x == other.mb_x
        &&& self.mb_y == other.mb_y
        &&& self.filter_type == other.filter_type
        &&& self.f_info@ == other.f_info@
        &&& self.mb_data@ == other.mb_data@
    }

    /// Reconstructs macroblock (`mb_x`, `mb_y`) in the work buffer, saves
    /// its bottom samples for the next row and copies it to the cache rows.
    pub fn reconstruct_macroblock(&mut self, mb_x: usize, mb_y: usize)
        requires
            old(self).wf(),
            mb_x < old(self).mb_w,
            mb_data_ok(old(self).mb_data@[mb_x as int]),
        ensures
            ({
                let w = mb_work_spec(
                    old(self).yuv_b@,
                    old(self).mb_data@[mb_x as int],
                    old(self).yuv_t@,
                    mb_x as int,
                    mb_y as int,
                    old(self).mb_w as int,
                );
                &&& final(self).yuv_b@ == w
                &&& tops_after(final(self).yuv_t@, old(self).yuv_t@, mb_x as int, w, mb_y < old(self).mb_h - 1)
                &&& final(self).cache_y.slice@ == rows_copy(old(self).cache_y.slice@, old(self).cache_y.zero + 16 * mb_x, old(self).cache_y_stride as int, w, Y_OFF as int, 16, 16)
                &&& final(self).cache_u.slice@ == rows_copy(old(self).cache_u.slice@, old(self).cache_u.zero + 8 * mb_x, old(self).cache_uv_stride as int, w, U_OFF as int, 8, 8)
                &&& final(self).cache_v.slice@ == rows_copy(old(self).cache_v.slice@, old(self).cache_v.zero + 8 * mb_x, old(self).cache_uv_stride as int, w, V_OFF as int, 8, 8)
            }),
            final(self).same_layout(old(self)),
            final(self).wf(),
    {
        let ghost s0 = self.yuv_b@;
        let ghost tops = self.yuv_t@;
        let ghost blk = self.mb_data@[mb_x as int];
        let mb_w = self.mb_w;
        let mb_h = self.mb_h;
        let block = &self.mb_data[mb_x];

        // Rotate in the left samples from the previously decoded block.
        if mb_x > 0 {
            rotate_left(self.yuv_b);
        }
        let ghost s1 = self.yuv_b@;

        // bring top samples into the cache
        if mb_y > 0 {
            load_top(self.yuv_b, &self.yuv_t[mb_x]);
        }
        let ghost s2 = self.yuv_b@;
        reconstruct_luma(self.yuv_b, block, self.yuv_t, mb_x, mb_y, mb_w);
        reconstruct_chroma(self.yuv_b, block, mb_x, mb_y);
        let ghost w = self.yuv_b@;
        assert(w == mb_work_spec(s0, blk, tops, mb_x as int, mb_y as int, mb_w as int));

        // stash away top samples for next block
        if mb_y < mb_h - 1 {
            let b: &[u8] = self.yuv_b;
            let ty = *to_array_ref::<u8, 16>(vstd::slice::slice_subrange(b, Y_OFF + 15 * 32, YUV_SIZE));
            let tu = *to_array_ref::<u8, 8>(vstd::slice::slice_subrange(b, U_OFF + 7 * 32, YUV_SIZE));
            let tv = *to_array_ref::<u8, 8>(vstd::slice::slice_subrange(b, V_OFF + 7 * 32, YUV_SIZE));
            assert(ty@ =~= w.subrange(520, 536));
            assert(tu@ =~= w.subrange(808, 816));
            assert(tv@ =~= w.subrange(824, 832));
            let t = VP8TopSamples { y: ty, u: tu, v: tv };
            assert(top_saved(t, w));
            self.yuv_t[mb_x] = t;
            assert(self.yuv_t@[mb_x as int] == t);
        }

        // Transfer reconstructed samples from the work buffer to the cache rows.
        let ylen = self.cache_y.slice.len();
        let ulen = self.cache_u.slice.len();
        let vlen = self.cache_v.slice.len();
        let yz = self.cache_y.zero as usize;
        let uz = self.cache_u.zero as usize;
        let vz = self.cache_v.zero as usize;
        proof {
            lemma_rows_copy_len(self.cache_y.slice@, yz + mb_x * 16, self.cache_y_stride as int, self.yuv_b@, Y_OFF as int, 16, 16);
            lemma_rows_copy_len(self.cache_u.slice@, uz + mb_x * 8, self.cache_uv_stride as int, self.yuv_b@, U_OFF as int, 8, 8);
            lemma_rows_copy_len(self.cache_v.slice@, vz + mb_x * 8, self.cache_uv_stride as int, self.yuv_b@, V_OFF as int, 8, 8);
        }
        copy_rows_out(self.cache_y.slice, yz + mb_x * 16, self.cache_y_stride, self.yuv_b, Y_OFF, 16, 16);
        copy_rows_out(self.cache_u.slice, uz + mb_x * 8, self.cache_uv_stride, self.yuv_b, U_OFF, 8, 8);
        copy_rows_out(self.cache_v.slice, vz + mb_x * 8, self.cache_uv_stride, self.yuv_b, V_OFF, 8, 8);
    }

    /// Reconstructs macroblock row `mb_y`: every macroblock of the row in
    /// turn, from left to right.
    pub fn reconstruct_row(&mut self, mb_y: usize)
        requires
            old(self).wf(),
            forall|k: int| 0 <= k < old(self).mb_w ==> mb_data_ok(#[trigger] old(self).mb_data@[k]),
        ensures
            ({
                let s0 = init_row_spec(old(self).yuv_b@, mb_y as int);
                let data = old(self).mb_data@;
                let tops = old(self).yuv_t@;
                let mb_w = old(self).mb_w as int;
                &&& final(self).yuv_b@ == row_work(s0, data, tops, mb_y as int, mb_w, mb_w)
                &&& final(self).yuv_t@.len() == tops.len()
                &&& forall|k: int|
                    0 <= k < mb_w ==> if mb_y < old(self).mb_h - 1 {
                        top_saved(#[trigger] final(self).yuv_t@[k], row_work(s0, data, tops, mb_y as int, mb_w, k + 1))
                    } else {
                        final(self).yuv_t@[k] == tops[k]
                    }
                &&& final(self).cache_y.slice@ == row_cache(old(self).cache_y.slice@, old(self).cache_y.zero as int, old(self).cache_y_stride as int, Y_OFF as int, 16, s0, data, tops, mb_y as int, mb_w, mb_w)
                &&& final(self).cache_u.slice@ == row_cache(old(self).cache_u.slice@, old(self).cache_u.zero as int, old(self).cache_uv_stride as int, U_OFF as int, 8, s0, data, tops, mb_y as int, mb_w, mb_w)
                &&& final(self).cache_v.slice@ == row_cache(old(self).cache_v.slice@, old(self).cache_v.zero as int, old(self).cache_uv_stride as int, V_OFF as int, 8, s0, data, tops, mb_y as int, mb_w, mb_w)
            }),
            final(self).same_layout(old(self)),
            final(self).wf(),
    {
        init_row(self.yuv_b, mb_y);
        let ghost s0 = self.yuv_b@;
        let ghost data = self.mb_data@;
        let ghost tops = self.yuv_t@;
        let ghost c_y = self.cache_y.slice@;
        let ghost c_u = self.cache_u.slice@;
        let ghost c_v = self.cache_v.slice@;
        let ghost save = mb_y < self.mb_h - 1;
        let mb_w = self.mb_w;

        // Reconstruct one row.
        for mb_x in 0..mb_w
            invariant
                mb_w == old(self).mb_w,
                self.wf(),
                self.same_layout(old(self)),
                data == old(self).mb_data@,
                tops == old(self).yuv_t@,
                save == (mb_y < old(self).mb_h - 1),
                forall|k: int| 0 <= k < mb_w ==> mb_data_ok(#[trigger] data[k]),
                self.yuv_b@ == row_work(s0, data, tops, mb_y as int, mb_w as int, mb_x as int),
                self.yuv_t@.len() == tops.len(),
                forall|k: int| mb_x <= k < mb_w ==> #[trigger] self.yuv_t@[k] == tops[k],
                forall|k: int|
                    0 <= k < mb_x ==> if save {
                        top_saved(#[trigger] self.yuv_t@[k], row_work(s0, data, tops, mb_y as int, mb_w as int, k + 1))
                    } else {
                        self.yuv_t@[k] == tops[k]
                    },
                self.cache_y.slice@ == row_cache(c_y, old(self).cache_y.zero as int, old(self).cache_y_stride as int, Y_OFF as int, 16, s0, data, tops, mb_y as int, mb_w as int, mb_x as int),
                self.cache_u.slice@ == row_cache(c_u, old(self).cache_u.zero as int, old(self).cache_uv_stride as int, U_OFF as int, 8, s0, data, tops, mb_y as int, mb_w as int, mb_x as int),
                self.cache_v.slice@ == row_cache(c_v, old(self).cache_v.zero as int, old(self).cache_uv_stride as int, V_OFF as int, 8, s0, data, tops, mb_y as int, mb_w as int, mb_x as int),
        {
            proof {
                lemma_mb_work_tops(self.yuv_b@, data[mb_x as int], self.yuv_t@, tops, mb_x as int, mb_y as int, mb_w as int);
            }
            self.reconstruct_macroblock(mb_x, mb_y);
        }
    }

    /// In-loop filtering of macroblock (`mb_x`, `mb_y`) in the cache rows,
    /// with the strengths of its filter info: the simple filter on luma
    /// when the filter type is 1, else the complex one on all planes.
    pub fn do_filter(&mut self, mb_x: usize, mb_y: usize)
        requires
            mb_x < old(self).f_info@.len(),
            mb_x * 16 <= isize::MAX,
            old(self).cache_y_stride <= isize::MAX,
            old(self).cache_uv_stride <= isize::MAX,
            isize::MIN <= old(self).cache_y.zero + 16 * mb_x <= isize::MAX,
            isize::MIN <= old(self).cache_u.zero + 8 * mb_x <= isize::MAX,
            isize::MIN <= old(self).cache_v.zero + 8 * mb_x <= isize::MAX,
            ({
                let fi = old(self).f_info@[mb_x as int];
                let inner = fi.f_inner != 0;
                fi.f_limit != 0 ==> {
                    &&& fi.f_limit >= 3
                    &&& old(self).filter_type == 1 ==> simple_filter_ok(
                        old(self).cache_y.slice@.len() as int,
                        old(self).cache_y.zero + 16 * mb_x,
                        old(self).cache_y_stride as int,
                        inner,
                        mb_x as int,
                        mb_y as int,
                    )
                    &&& old(self).filter_type != 1 ==> {
                        &&& complex_y_ok(old(self).cache_y.slice@.len() as int, old(self).cache_y.zero + 16 * mb_x, old(self).cache_y_stride as int, inner, mb_x as int, mb_y as int)
                        &&& complex_uv_ok(old(self).cache_u.slice@.len() as int, old(self).cache_u.zero + 8 * mb_x, old(self).cache_uv_stride as int, inner, mb_x as int, mb_y as int)
                        &&& complex_uv_ok(old(self).cache_v.slice@.len() as int, old(self).cache_v.zero + 8 * mb_x, old(self).cache_uv_stride as int, inner, mb_x as int, mb_y as int)
                    }
                }
            }),
        ensures
            ({
                let fi = old(self).f_info@[mb_x as int];
                let inner = fi.f_inner != 0;
                let limit = fi.f_limit as int;
                let il = fi.f_ilevel as int;
                let hev = fi.hev_thresh as int;
                let zy = old(self).cache_y.zero + 16 * mb_x;
                let zu = old(self).cache_u.zero + 8 * mb_x;
                let zv = old(self).cache_v.zero + 8 * mb_x;
                let sy = old(self).cache_y_stride as int;
                let suv = old(self).cache_uv_stride as int;
                if limit == 0 {
                    &&& final(self).cache_y.slice@ == old(self).cache_y.slice@
                    &&& final(self).cache_u.slice@ == old(self).cache_u.slice@
                    &&& final(self).cache_v.slice@ == old(self).cache_v.slice@
                } else if old(self).filter_type == 1 {
                    &&& final(self).cache_y.slice@ == simple_filter_spec(old(self).cache_y.slice@, zy, sy, limit, inner, mb_x as int, mb_y as int)
                    &&& final(self).cache_u.slice@ == old(self).cache_u.slice@
                    &&& final(self).cache_v.slice@ == old(self).cache_v.slice@
                } else {
                    &&& final(self).cache_y.slice@ == complex_y_spec(old(self).cache_y.slice@, zy, sy, limit, il, hev, inner, mb_x as int, mb_y as int)
                    &&& final(self).cache_u.slice@ == complex_uv_spec(old(self).cache_u.slice@, zu, suv, limit, il, hev, inner, mb_x as int, mb_y as int)
                    &&& final(self).cache_v.slice@ == complex_uv_spec(old(self).cache_v.slice@, zv, suv, limit, il, hev, inner, mb_x as int, mb_y as int)
                }
            }),
            final(self).same_layout(old(self)),
            final(self).yuv_b@ == old(self).yuv_b@,
            final(self).yuv_t@ == old(self).yuv_t@,
    {
        let y_bps = self.cache_y_stride as isize;
        let mut y_dst = self.cache_y.with_offset(mb_x as isize * 16);
        let f_info = &self.f_info[mb_x];
        let ilevel = f_info.f_ilevel;
        let limit = f_info.f_limit as u32;
        if limit == 0 {
            return;
        }
        if self.filter_type == 1 {  // simple
            if mb_x > 0 {
                simple_h_filter_16(&mut y_dst, y_bps, limit + 4);
            }
            if f_info.f_inner != 0 {
                simple_h_filter_16i(&mut y_dst, y_bps, limit);
            }
            if mb_y > 0 {
                simple_v_filter_16(&mut y_dst, y_bps, limit + 4);
            }
            if f_info.f_inner != 0 {
                simple_v_filter_16i(&mut y_dst, y_bps, limit);
            }
        } else {  // complex
            let uv_bps = self.cache_uv_stride as isize;
            let mut u_dst = self.cache_u.with_offset(mb_x as isize * 8);
            let mut v_dst = self.cache_v.with_offset(mb_x as isize * 8);
            let hev_thresh = f_info.hev_thresh;
            if mb_x > 0 {
                h_filter_16(&mut y_dst, y_bps, limit + 4, ilevel, hev_thresh);
                h_filter_8(&mut u_dst, &mut v_dst, uv_bps, limit + 4, ilevel, hev_thresh);
            }
            if f_info.f_inner != 0 {
                h_filter_16i(&mut y_dst, y_bps, limit, ilevel, hev_thresh);
                h_filter_8i(&mut u_dst, &mut v_dst, uv_bps, limit, ilevel, hev_thresh);
            }
            if mb_y > 0 {
                v_filter_16(&mut y_dst, y_bps, limit + 4, ilevel, hev_thresh);
                v_filter_8(&mut u_dst, &mut v_dst, uv_bps, limit + 4, ilevel, hev_thresh);
            }
            if f_info.f_inner != 0 {
                v_filter_16i(&mut y_dst, y_bps, limit, ilevel, hev_thresh);
                v_filter_8i(&mut u_dst, &mut v_dst, uv_bps, limit, ilevel, hev_thresh);
            }
        }
    }
}

} // verus!
