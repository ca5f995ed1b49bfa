//! Dispatch of the residual transforms of one macroblock.
use vstd::prelude::*;
use crate::array::{to_array_ref, to_array_ref_mut};
use crate::dec::{
    ac3_residual, coeffs_in_range, dc_uv_step, idct_horizontal, residual_block, transform_ac3,
    transform_dc, transform_dc_uv, transform_two, transform_uv,
};

verus! {

/// Offset in the work buffer (stride 32) of luma sub-block `n` (raster order
/// of the 4x4 grid of 4x4 blocks).
pub open spec fn k_scan_spec(n: int) -> int {
    (n % 4) * 4 + (n / 4) * 4 * 32
}

/// Offset in the work buffer of luma sub-block `n`.
pub fn k_scan(n: usize) -> (r: usize)
    requires
        n < 16,
    ensures
        r == k_scan_spec(n as int),
{
    (n % 4) * 4 + (n / 4) * 4 * 32
}

/// The residual of one luma block as selected by the top two bits of
/// `bits` (3: full transform, 2: the three-coefficient transform, 1: DC
/// only, 0: nothing).
pub open spec fn do_transform_spec(bits: u32, src: Seq<i16>, pred: Seq<u8>) -> Seq<u8> {
    let kind = bits >> 30u32;
    if kind == 3 {
        residual_block(pred, 0, |r: int, c: int| idct_horizontal(src.subrange(0, 16), r, c))
    } else if kind == 2 {
        residual_block(pred, 0, |r: int, c: int| ac3_residual(src.subrange(0, 5), r, c))
    } else if kind == 1 {
        residual_block(pred, 0, |r: int, c: int| src[0] + 4)
    } else {
        pred
    }
}

/// Adds the residual of one luma block to the prediction in `dst`.
pub fn do_transform(bits: u32, src: &[i16], dst: &mut [u8])
    requires
        bits >> 30u32 == 3 ==> 32 <= src@.len() && 132 <= old(dst)@.len() && coeffs_in_range(src@, 0, 16),
        bits >> 30u32 == 2 ==> 5 <= src@.len() && 128 <= old(dst)@.len(),
        bits >> 30u32 == 1 ==> 1 <= src@.len() && 128 <= old(dst)@.len() && src@[0] + 4 <= i16::MAX,
    ensures
        final(dst)@ == do_transform_spec(bits, src@, old(dst)@),
{
    let ghost old_dst = dst@;
    let kind = bits >> 30;
    if kind == 3 {
        let a = to_array_ref::<i16, 32>(src);
        let ghost old_tail = dst@.skip(132);
        let d = to_array_ref_mut::<u8, 132>(dst);
        transform_two(a, d, false);
        proof {
            assert(a@.subrange(0, 16) =~= src@.subrange(0, 16));
        }
        assert(dst@ =~= residual_block(
            old_dst,
            0,
            |r: int, c: int| idct_horizontal(src@.subrange(0, 16), r, c),
        ));
    } else if kind == 2 {
        let a = to_array_ref::<i16, 5>(src);
        let d = to_array_ref_mut::<u8, 128>(dst);
        transform_ac3(a, d);
        assert(dst@ =~= residual_block(
            old_dst,
            0,
            |r: int, c: int| ac3_residual(src@.subrange(0, 5), r, c),
        ));
    } else if kind == 1 {
        let d = to_array_ref_mut::<u8, 128>(dst);
        transform_dc(src[0], d);
        assert(dst@ =~= residual_block(old_dst, 0, |r: int, c: int| src@[0] + 4));
    }
}

/// The residual of one 8x8 chroma plane as selected by the low byte of
/// `bits`: nothing when it is zero, the DC-only transform when no AC
/// coefficient is flagged, the full transform otherwise.
pub open spec fn do_uv_transform_spec(bits: u32, src: Seq<i16>, pred: Seq<u8>) -> Seq<u8> {
    if bits & 0xff == 0 {
        pred
    } else if bits & 0xaa != 0 {
        residual_block(
            residual_block(
                residual_block(
                    residual_block(pred, 0, |r: int, c: int| idct_horizontal(src.subrange(0, 16), r, c)),
                    4,
                    |r: int, c: int| idct_horizontal(src.subrange(16, 32), r, c),
                ),
                128,
                |r: int, c: int| idct_horizontal(src.subrange(32, 48), r, c),
            ),
            132,
            |r: int, c: int| idct_horizontal(src.subrange(48, 64), r, c),
        )
    } else {
        dc_uv_step(dc_uv_step(dc_uv_step(dc_uv_step(pred, 0, src[0]), 4, src[16]), 128, src[32]), 132, src[48])
    }
}

/// Adds the residual of one chroma plane to the prediction in `dst`.
pub fn do_uv_transform(bits: u32, src: &[i16; 64], dst: &mut [u8; 260])
    requires
        bits & 0xff != 0 && bits & 0xaa != 0 ==> coeffs_in_range(src@, 0, 64),
        bits & 0xff != 0 && bits & 0xaa == 0 ==> {
            &&& src@[0] + 4 <= i16::MAX
            &&& src@[16] + 4 <= i16::MAX
            &&& src@[32] + 4 <= i16::MAX
            &&& src@[48] + 4 <= i16::MAX
        },
    ensures
        final(dst)@ == do_uv_transform_spec(bits, src@, old(dst)@),
{
    if bits & 0xff != 0 {
        if bits & 0xaa != 0 {
            transform_uv(src, dst);
        } else {
            transform_dc_uv(src, dst);
        }
    }
}

} // verus!
