use vstd::prelude::*;
use crate::dec_clip_tables::{abs_int, clamp, vp8_kabs0, vp8_kclip1, vp8_ksclip1, vp8_ksclip2};
use crate::array::{to_array_ref, to_array_ref_mut};
use crate::dsp::{BPS, UBPS};
use crate::offsetref::{OffsetArray, OffsetSliceRefMut};

verus! {

/// Arithmetic right shift of an `i32` by 16 is floor division by 65536.
proof fn lemma_shr16(x: i32)
    ensures
        (x >> 16u32) as int == (x as int) / 65536,
{
    let q = x >> 16u32;
    assert(q * 65536 <= x && x < q * 65536 + 65536) by (bit_vector)
        requires
            q == x >> 16u32;
}

/// Arithmetic right shift of an `i32` by 3 is floor division by 8.
proof fn lemma_shr3(x: i32)
    ensures
        (x >> 3u32) as int == (x as int) / 8,
{
    let q = x >> 3u32;
    assert(q * 8 <= x && x < q * 8 + 8) by (bit_vector)
        requires
            q == x >> 3u32;
}

pub open spec fn mul1_spec(a: int) -> int {
    a * 20091 / 65536 + a
}

pub open spec fn mul2_spec(a: int) -> int {
    a * 35468 / 65536
}

fn mul1(a: i32) -> (r: i32)
    requires
        i32::MIN <= a * 20091 <= i32::MAX,
    ensures
        r == mul1_spec(a as int),
{
    let p = a * 20091;
    proof { lemma_shr16(p); }
    (p >> 16) + a
}

fn mul2(a: i32) -> (r: i32)
    requires
        i32::MIN <= a * 35468 <= i32::MAX,
    ensures
        r == mul2_spec(a as int),
{
    let p = a * 35468;
    proof { lemma_shr16(p); }
    p >> 16
}


/// Saturates `v` to a byte.
pub fn clip_8b(v: i32) -> (r: u8)
    ensures
        r == clamp(v as int, 0, 255),
{
    if v & !0xff == 0 {
        assert(0 <= v <= 255) by (bit_vector)
            requires
                v & !0xffi32 == 0;
        v as u8
    } else if v < 0 {
        0
    } else {
        assert(v > 255) by (bit_vector)
            requires
                v & !0xffi32 != 0,
                v >= 0;
        255
    }
}

/// A reconstructed sample: the prediction `p` plus the residual `v / 8`
/// (rounded toward minus infinity), saturated to a byte.
pub open spec fn add_residual(p: u8, v: int) -> u8 {
    clamp(p + v / 8, 0, 255) as u8
}

/// Adds residual `v` at column `x`, row `y` of a buffer of stride 32.
fn store(dst: &mut [u8], x: usize, y: usize, v: i32)
    requires
        x + y * 32 < old(dst).len(),
    ensures
        final(dst)@ == old(dst)@.update(x + y * 32, add_residual(old(dst)@[x + y * 32], v as int)),
{
    let i = x + y * 32;
    proof { lemma_shr3(v); }
    let val = clip_8b(dst[i] as i32 + (v >> 3));
    dst[i] = val;
}

/// The four residuals `dc + d`, `dc + c`, `dc - c`, `dc - d` of row `y`.
pub open spec fn store2_value(x: int, dc: int, d: int, c: int) -> int {
    if x == 0 {
        dc + d
    } else if x == 1 {
        dc + c
    } else if x == 2 {
        dc - c
    } else {
        dc - d
    }
}

fn store2(dst: &mut [u8], y: usize, dc: i32, d: i32, c: i32)
    requires
        3 + y * 32 < old(dst).len(),
        i32::MIN <= dc - d && dc + d <= i32::MAX,
        i32::MIN <= dc + d && dc - d <= i32::MAX,
        i32::MIN <= dc - c && dc + c <= i32::MAX,
        i32::MIN <= dc + c && dc - c <= i32::MAX,
    ensures
        final(dst)@.len() == old(dst)@.len(),
        forall|p: int|
            0 <= p < old(dst)@.len() ==> #[trigger] final(dst)@[p] == if y * 32 <= p < y * 32 + 4 {
                add_residual(old(dst)@[p], store2_value(p - y * 32, dc as int, d as int, c as int))
            } else {
                old(dst)@[p]
            },
{
    store(dst, 0, y, dc + d);
    store(dst, 1, y, dc + c);
    store(dst, 2, y, dc - c);
    store(dst, 3, y, dc - d);
}


/// Position `p` lies in the 4x4 block (stride 32) whose top-left is `off`.
pub open spec fn in_block(off: int, p: int) -> bool {
    off <= p && (p - off) % 32 < 4 && (p - off) / 32 < 4
}

/// `old` with the residual `res(row, col)` added to every sample of the 4x4
/// block at `off`; every other sample is unchanged.
pub open spec fn residual_block(old: Seq<u8>, off: int, res: spec_fn(int, int) -> int) -> Seq<u8> {
    Seq::new(
        old.len(),
        |p: int|
            if in_block(off, p) {
                add_residual(old[p], res((p - off) / 32, (p - off) % 32))
            } else {
                old[p]
            },
    )
}

/// Inverse transform of a block whose only non-zero coefficient is the DC
/// one: every sample of the 4x4 block receives the same residual.
pub fn transform_dc(input: i16, dst: &mut [u8; 128])
    requires
        input + 4 <= i16::MAX,
    ensures
        final(dst)@ == residual_block(old(dst)@, 0, |r: int, c: int| input + 4),
{
    let dc: i32 = (input + 4).into();
    let ghost old_dst = dst@;
    for i in 0..4usize
        invariant
            dc == input + 4,
            dst@.len() == 128,
            forall|p: int|
                0 <= p < 128 ==> #[trigger] dst@[p] == if in_block(0, p) && p % 32 < i {
                    add_residual(old_dst[p], dc as int)
                } else {
                    old_dst[p]
                },
    {
        for j in 0..4usize
            invariant
                dc == input + 4,
                i < 4,
                dst@.len() == 128,
                forall|p: int|
                    0 <= p < 128 ==> #[trigger] dst@[p] == if in_block(0, p) && (p % 32 < i || (p
                        % 32 == i && p / 32 < j)) {
                        add_residual(old_dst[p], dc as int)
                    } else {
                        old_dst[p]
                    },
        {
            store(dst, i, j, dc);
        }
    }
    assert(dst@ =~= residual_block(old_dst, 0, |r: int, c: int| input + 4));
}


/// Coefficients of a block lie in the range the decoder produces.
pub open spec fn coeffs_in_range(d: Seq<i16>, lo: int, hi: int) -> bool {
    forall|k: int| lo <= k < hi ==> -2048 <= #[trigger] d[k] <= 2047
}

/// Vertical pass of the inverse DCT: entry `k` of the intermediate 4x4
/// buffer (column `k / 4`, output position `k % 4`).
pub open spec fn idct_vertical(d: Seq<i16>, k: int) -> int {
    let i = k / 4;
    let a = d[i] + d[8 + i];
    let b = d[i] - d[8 + i];
    let c = mul2_spec(d[4 + i] as int) - mul1_spec(d[12 + i] as int);
    let dd = mul1_spec(d[4 + i] as int) + mul2_spec(d[12 + i] as int);
    if k % 4 == 0 {
        a + dd
    } else if k % 4 == 1 {
        b + c
    } else if k % 4 == 2 {
        b - c
    } else {
        a - dd
    }
}

/// Horizontal pass of the inverse DCT: the residual (times 8) of row `j`,
/// column `x` of the block.
pub open spec fn idct_horizontal(d: Seq<i16>, j: int, x: int) -> int {
    let dc = idct_vertical(d, j) + 4;
    let a = dc + idct_vertical(d, 8 + j);
    let b = dc - idct_vertical(d, 8 + j);
    let c = mul2_spec(idct_vertical(d, 4 + j)) - mul1_spec(idct_vertical(d, 12 + j));
    let dd = mul1_spec(idct_vertical(d, 4 + j)) + mul2_spec(idct_vertical(d, 12 + j));
    if x == 0 {
        a + dd
    } else if x == 1 {
        b + c
    } else if x == 2 {
        b - c
    } else {
        a - dd
    }
}

/// Adds the residuals `v0..v3` to columns 0..3 of row `y`.
fn store_row(dst: &mut [u8], y: usize, v0: i32, v1: i32, v2: i32, v3: i32)
    requires
        3 + y * 32 < old(dst).len(),
    ensures
        final(dst)@.len() == old(dst)@.len(),
        forall|p: int|
            0 <= p < old(dst)@.len() ==> #[trigger] final(dst)@[p] == if y * 32 <= p < y * 32 + 4 {
                add_residual(
                    old(dst)@[p],
                    if p == y * 32 {
                        v0 as int
                    } else if p == y * 32 + 1 {
                        v1 as int
                    } else if p == y * 32 + 2 {
                        v2 as int
                    } else {
                        v3 as int
                    },
                )
            } else {
                old(dst)@[p]
            },
{
    store(dst, 0, y, v0);
    store(dst, 1, y, v1);
    store(dst, 2, y, v2);
    store(dst, 3, y, v3);
}

proof fn lemma_mul_bounds(a: int)
    requires
        -8000 <= a <= 8000,
    ensures
        -2 * 8000 / 3 <= mul1_spec(a) - a <= 2 * 8000 / 3,
        -8000 * 35468 / 65536 - 1 <= mul2_spec(a) <= 8000 * 35468 / 65536,
        a <= 2048 && a >= -2048 ==> -628 <= mul1_spec(a) - a <= 627,
        a <= 2048 && a >= -2048 ==> -1109 <= mul2_spec(a) <= 1108,
{
}

proof fn lemma_idct_vertical_bounds(d: Seq<i16>, k: int)
    requires
        d.len() >= 16,
        coeffs_in_range(d, 0, 16),
        0 <= k < 16,
    ensures
        -7900 <= idct_vertical(d, k) <= 7900,
{
    let i = k / 4;
    assert(-2048 <= d[i] <= 2047);
    assert(-2048 <= d[4 + i] <= 2047);
    assert(-2048 <= d[8 + i] <= 2047);
    assert(-2048 <= d[12 + i] <= 2047);
    lemma_mul_bounds(d[4 + i] as int);
    lemma_mul_bounds(d[12 + i] as int);
}

/// Inverse DCT of one 4x4 block of coefficients, added to the prediction
/// held in `dst` (stride 32).
pub fn transform_one(data: &[i16; 16], dst: &mut [u8; 128])
    requires
        coeffs_in_range(data@, 0, 16),
    ensures
        final(dst)@ == residual_block(old(dst)@, 0, |r: int, c: int| idct_horizontal(data@, r, c)),
{
    let ghost d = data@;
    let mut tmp = [0i32; 16];
    for i in 0..4usize
        invariant
            d == data@,
            d.len() == 16,
            coeffs_in_range(d, 0, 16),
            forall|k: int| 0 <= k < 4 * i ==> #[trigger] tmp@[k] == idct_vertical(d, k),
    {
        // vertical pass
        let a = data[i] as i32 + data[8 + i] as i32;
        let b = data[i] as i32 - data[8 + i] as i32;
        proof {
            lemma_mul_bounds(data[4 + i] as int);
            lemma_mul_bounds(data[12 + i] as int);
        }
        let c = mul2(data[4 + i] as i32) - mul1(data[12 + i] as i32);
        let dd = mul1(data[4 + i] as i32) + mul2(data[12 + i] as i32);
        tmp[4 * i] = a + dd;
        tmp[4 * i + 1] = b + c;
        tmp[4 * i + 2] = b - c;
        tmp[4 * i + 3] = a - dd;
    }
    proof {
        assert forall|k: int| 0 <= k < 16 implies -7900 <= #[trigger] tmp@[k] <= 7900 by {
            lemma_idct_vertical_bounds(d, k);
        }
    }
    let ghost old_dst = dst@;
    for j in 0..4usize
        invariant
            d == data@,
            d.len() == 16,
            dst@.len() == 128,
            forall|k: int| 0 <= k < 16 ==> #[trigger] tmp@[k] == idct_vertical(d, k),
            forall|k: int| 0 <= k < 16 ==> -7900 <= #[trigger] tmp@[k] <= 7900,
            forall|p: int|
                0 <= p < 128 ==> #[trigger] dst@[p] == if in_block(0, p) && p / 32 < j {
                    add_residual(old_dst[p], idct_horizontal(d, p / 32, p % 32))
                } else {
                    old_dst[p]
                },
    {
        // horizontal pass
        let dc = tmp[j] + 4;
        let a = dc + tmp[8 + j];
        let b = dc - tmp[8 + j];
        proof {
            lemma_mul_bounds(tmp[4 + j] as int);
            lemma_mul_bounds(tmp[12 + j] as int);
        }
        let c = mul2(tmp[4 + j]) - mul1(tmp[12 + j]);
        let dd = mul1(tmp[4 + j]) + mul2(tmp[12 + j]);
        assert(a + dd == idct_horizontal(d, j as int, 0));
        assert(b + c == idct_horizontal(d, j as int, 1));
        assert(b - c == idct_horizontal(d, j as int, 2));
        assert(a - dd == idct_horizontal(d, j as int, 3));
        store_row(dst, j, a + dd, b + c, b - c, a - dd);
    }
    assert(dst@ =~= residual_block(old_dst, 0, |r: int, c: int| idct_horizontal(d, r, c)));
}


/// Applying a block edit to a suffix of a buffer is applying it to the whole
/// buffer at the suffix's start.
proof fn lemma_residual_block_shift(a: Seq<u8>, k: int, f: spec_fn(int, int) -> int)
    requires
        0 <= k <= a.len(),
    ensures
        a.subrange(0, k) + residual_block(a.skip(k), 0, f) == residual_block(a, k, f),
{
    assert(a.subrange(0, k) + residual_block(a.skip(k), 0, f) =~= residual_block(a, k, f));
}

/// A block at `off` only touches the first `off + 100` samples.
proof fn lemma_residual_block_prefix(a: Seq<u8>, n: int, off: int, f: spec_fn(int, int) -> int)
    requires
        0 <= off,
        off + 100 <= n <= a.len(),
    ensures
        residual_block(a.subrange(0, n), off, f) + a.skip(n) == residual_block(a, off, f),
{
    assert(residual_block(a.subrange(0, n), off, f) + a.skip(n) =~= residual_block(a, off, f));
}

/// `transform_one` applied to the 16 coefficients starting at `data[0]` and
/// the 4x4 block of `dst` starting at `off`.
fn transform_one_at(data: &[i16], dst: &mut [u8], off: usize)
    requires
        16 <= data@.len(),
        coeffs_in_range(data@, 0, 16),
        off + 128 <= old(dst)@.len(),
    ensures
        final(dst)@ == residual_block(
            old(dst)@,
            off as int,
            |r: int, c: int| idct_horizontal(data@.subrange(0, 16), r, c),
        ),
{
    let ghost old_dst = dst@;
    let ghost f = |r: int, c: int| idct_horizontal(data@.subrange(0, 16), r, c);
    let (head, tail) = dst.split_at_mut(off);
    let ghost old_tail = tail@;
    {
        let arr = to_array_ref_mut::<u8, 128>(tail);
        let src = to_array_ref::<i16, 16>(data);
        transform_one(src, arr);
    }
    proof {
        lemma_residual_block_prefix(old_tail, 128, 0, f);
        lemma_residual_block_shift(old_dst, off as int, f);
        assert(old_tail == old_dst.skip(off as int));
    }
}

/// The inverse DCT of one block, or of two horizontally adjacent blocks.
pub fn transform_two(input: &[i16; 32], dst: &mut [u8; 132], do_two: bool)
    requires
        coeffs_in_range(input@, 0, 16),
        do_two ==> coeffs_in_range(input@, 16, 32),
    ensures
        final(dst)@ == {
            let first = residual_block(
                old(dst)@,
                0,
                |r: int, c: int| idct_horizontal(input@.subrange(0, 16), r, c),
            );
            if do_two {
                residual_block(first, 4, |r: int, c: int| idct_horizontal(input@.subrange(16, 32), r, c))
            } else {
                first
            }
        },
{
    let d: &mut [u8] = dst;
    transform_one_at(input, d, 0);
    if do_two {
        let rest = vstd::slice::slice_subrange(input, 16, 32);
        proof {
            assert(rest@.subrange(0, 16) =~= input@.subrange(16, 32));
            assert forall|k: int| 0 <= k < 16 implies -2048 <= #[trigger] rest@[k] <= 2047 by {
                assert(rest@[k] == input@[16 + k]);
            }
        }
        transform_one_at(rest, d, 4);
    }
}


/// The chroma transform: four 4x4 blocks (two rows of two) of one 8x8
/// chroma plane.
pub fn transform_uv(input: &[i16; 64], dst: &mut [u8; 260])
    requires
        coeffs_in_range(input@, 0, 64),
    ensures
        final(dst)@ == residual_block(
            residual_block(
                residual_block(
                    residual_block(
                        old(dst)@,
                        0,
                        |r: int, c: int| idct_horizontal(input@.subrange(0, 16), r, c),
                    ),
                    4,
                    |r: int, c: int| idct_horizontal(input@.subrange(16, 32), r, c),
                ),
                128,
                |r: int, c: int| idct_horizontal(input@.subrange(32, 48), r, c),
            ),
            132,
            |r: int, c: int| idct_horizontal(input@.subrange(48, 64), r, c),
        ),
{
    let d: &mut [u8] = dst;
    transform_one_at(input, d, 0);
    let s1 = vstd::slice::slice_subrange(input, 16, 64);
    proof {
        assert(s1@.subrange(0, 16) =~= input@.subrange(16, 32));
        assert forall|k: int| 0 <= k < 16 implies -2048 <= #[trigger] s1@[k] <= 2047 by {
            assert(s1@[k] == input@[16 + k]);
        }
    }
    transform_one_at(s1, d, 4);
    let s2 = vstd::slice::slice_subrange(input, 32, 64);
    proof {
        assert(s2@.subrange(0, 16) =~= input@.subrange(32, 48));
        assert forall|k: int| 0 <= k < 16 implies -2048 <= #[trigger] s2@[k] <= 2047 by {
            assert(s2@[k] == input@[32 + k]);
        }
    }
    transform_one_at(s2, d, 128);
    let s3 = vstd::slice::slice_subrange(input, 48, 64);
    proof {
        assert(s3@.subrange(0, 16) =~= input@.subrange(48, 64));
        assert forall|k: int| 0 <= k < 16 implies -2048 <= #[trigger] s3@[k] <= 2047 by {
            assert(s3@[k] == input@[48 + k]);
        }
    }
    transform_one_at(s3, d, 132);
}

/// `transform_dc` applied to the 4x4 block of `dst` starting at `off`.
fn transform_dc_at(v: i16, dst: &mut [u8], off: usize)
    requires
        v + 4 <= i16::MAX,
        off + 128 <= old(dst)@.len(),
    ensures
        final(dst)@ == residual_block(old(dst)@, off as int, |r: int, c: int| v + 4),
{
    let ghost old_dst = dst@;
    let ghost f = |r: int, c: int| v + 4;
    let (head, tail) = dst.split_at_mut(off);
    let ghost old_tail = tail@;
    {
        let arr = to_array_ref_mut::<u8, 128>(tail);
        transform_dc(v, arr);
    }
    proof {
        lemma_residual_block_prefix(old_tail, 128, 0, f);
        lemma_residual_block_shift(old_dst, off as int, f);
        assert(old_tail == old_dst.skip(off as int));
    }
}

/// The DC-only residual of block `k` of a chroma plane, applied only when
/// its DC coefficient is non-zero.
pub open spec fn dc_uv_step(s: Seq<u8>, off: int, v: i16) -> Seq<u8> {
    if v != 0 {
        residual_block(s, off, |r: int, c: int| v + 4)
    } else {
        s
    }
}

/// The chroma transform when only the DC coefficients can be non-zero.
pub fn transform_dc_uv(input: &[i16; 64], dst: &mut [u8; 260])
    requires
        input@[0] + 4 <= i16::MAX,
        input@[16] + 4 <= i16::MAX,
        input@[32] + 4 <= i16::MAX,
        input@[48] + 4 <= i16::MAX,
    ensures
        final(dst)@ == dc_uv_step(
            dc_uv_step(dc_uv_step(dc_uv_step(old(dst)@, 0, input@[0]), 4, input@[16]), 128, input@[32]),
            132,
            input@[48],
        ),
{
    let d: &mut [u8] = dst;
    if input[0] != 0 {
        transform_dc_at(input[0], d, 0);
    }
    if input[16] != 0 {
        transform_dc_at(input[16], d, 4);
    }
    if input[32] != 0 {
        transform_dc_at(input[32], d, 128);
    }
    if input[48] != 0 {
        transform_dc_at(input[48], d, 132);
    }
}

/// Residual of the simplified transform used when only coefficients 0, 1
/// and 4 are non-zero: row `r`, column `c`.
pub open spec fn ac3_residual(d: Seq<i16>, r: int, c: int) -> int {
    let a = d[0] + 4;
    let c4 = mul2_spec(d[4] as int);
    let d4 = mul1_spec(d[4] as int);
    let c1 = mul2_spec(d[1] as int);
    let d1 = mul1_spec(d[1] as int);
    let base = if r == 0 {
        a + d4
    } else if r == 1 {
        a + c4
    } else if r == 2 {
        a - c4
    } else {
        a - d4
    };
    store2_value(c, base, d1, c1)
}

proof fn lemma_mul_bounds_i16(a: int)
    requires
        -32768 <= a <= 32767,
    ensures
        -10100 <= mul1_spec(a) - a <= 10100,
        -17800 <= mul2_spec(a) <= 17800,
{
}

/// Simplified inverse transform when only `in[0]`, `in[1]` and `in[4]` are
/// non-zero.
pub fn transform_ac3(input: &[i16; 5], dst: &mut [u8; 128])
    ensures
        final(dst)@ == residual_block(old(dst)@, 0, |r: int, c: int| ac3_residual(input@, r, c)),
{
    let ghost old_dst = dst@;
    proof {
        lemma_mul_bounds_i16(input[4] as int);
        lemma_mul_bounds_i16(input[1] as int);
    }
    let a: i32 = input[0] as i32 + 4;
    let c4 = mul2(input[4] as i32);
    let d4 = mul1(input[4] as i32);
    let c1 = mul2(input[1] as i32);
    let d1 = mul1(input[1] as i32);
    let d: &mut [u8] = dst;
    store2(d, 0, a + d4, d1, c1);
    store2(d, 1, a + c4, d1, c1);
    store2(d, 2, a - c4, d1, c1);
    store2(d, 3, a - d4, d1, c1);
    assert(d@ =~= residual_block(old_dst, 0, |r: int, c: int| ac3_residual(input@, r, c)));
}


/// First (vertical) pass of the inverse Walsh-Hadamard transform.
pub open spec fn wht_vertical(d: Seq<i16>, k: int) -> int {
    let i = k % 4;
    let a0 = d[i] + d[12 + i];
    let a1 = d[4 + i] + d[8 + i];
    let a2 = d[4 + i] - d[8 + i];
    let a3 = d[i] - d[12 + i];
    if k / 4 == 0 {
        a0 + a1
    } else if k / 4 == 1 {
        a3 + a2
    } else if k / 4 == 2 {
        a0 - a1
    } else {
        a3 - a2
    }
}

/// Output `m` (0..16) of the inverse Walsh-Hadamard transform before its
/// final division by 8.
pub open spec fn wht_pre_shift(d: Seq<i16>, m: int) -> int {
    let i = m / 4;
    let dc = wht_vertical(d, 4 * i) + 3;
    let a0 = dc + wht_vertical(d, 4 * i + 3);
    let a1 = wht_vertical(d, 4 * i + 1) + wht_vertical(d, 4 * i + 2);
    let a2 = wht_vertical(d, 4 * i + 1) - wht_vertical(d, 4 * i + 2);
    let a3 = dc - wht_vertical(d, 4 * i + 3);
    if m % 4 == 0 {
        a0 + a1
    } else if m % 4 == 1 {
        a3 + a2
    } else if m % 4 == 2 {
        a0 - a1
    } else {
        a3 - a2
    }
}

/// Output `m` (0..16) of the inverse Walsh-Hadamard transform; it becomes
/// the DC coefficient of luma block `m`.
pub open spec fn wht_output(d: Seq<i16>, m: int) -> int {
    wht_pre_shift(d, m) / 8
}

/// `v` is a value of an `i16`.
pub open spec fn i16_fits(v: int) -> bool {
    i16::MIN <= v <= i16::MAX
}

/// The sums of column `i` in the vertical pass of the inverse WHT fit in an
/// `i16`.
pub open spec fn wht_col_fits(d: Seq<i16>, i: int) -> bool {
    &&& i16_fits(d[i] + d[12 + i])
    &&& i16_fits(d[4 + i] + d[8 + i])
    &&& i16_fits(d[4 + i] - d[8 + i])
    &&& i16_fits(d[i] - d[12 + i])
}

/// The sums of row `i` in the horizontal pass of the inverse WHT fit in an
/// `i16`.
pub open spec fn wht_row_fits(d: Seq<i16>, i: int) -> bool {
    let dc = wht_vertical(d, 4 * i) + 3;
    &&& i16_fits(dc)
    &&& i16_fits(dc + wht_vertical(d, 4 * i + 3))
    &&& i16_fits(wht_vertical(d, 4 * i + 1) + wht_vertical(d, 4 * i + 2))
    &&& i16_fits(wht_vertical(d, 4 * i + 1) - wht_vertical(d, 4 * i + 2))
    &&& i16_fits(dc - wht_vertical(d, 4 * i + 3))
    &&& i16_fits(wht_pre_shift(d, 4 * i))
    &&& i16_fits(wht_pre_shift(d, 4 * i + 1))
    &&& i16_fits(wht_pre_shift(d, 4 * i + 2))
    &&& i16_fits(wht_pre_shift(d, 4 * i + 3))
}

/// Every intermediate value of the inverse WHT, which works in `i16`, fits
/// in an `i16`.
pub open spec fn wht_fits(d: Seq<i16>) -> bool {
    &&& forall|i: int| 0 <= i < 4 ==> #[trigger] wht_col_fits(d, i)
    &&& forall|k: int| 0 <= k < 16 ==> i16_fits(#[trigger] wht_vertical(d, k))
    &&& forall|i: int| 0 <= i < 4 ==> #[trigger] wht_row_fits(d, i)
}

proof fn lemma_shr3_i16(x: i16)
    ensures
        (x >> 3u32) as int == (x as int) / 8,
{
    let q = x >> 3u32;
    assert(q * 8 <= x && x < q * 8 + 8) by (bit_vector)
        requires
            q == x >> 3u32;
}

/// Stores the four outputs of row `i` of the inverse WHT.
fn wht_store(out: &mut [i16; 256], i: usize, v0: i16, v1: i16, v2: i16, v3: i16)
    requires
        i < 4,
    ensures
        forall|p: int|
            0 <= p < 256 ==> #[trigger] final(out)@[p] == if p == 64 * i {
                v0
            } else if p == 64 * i + 16 {
                v1
            } else if p == 64 * i + 32 {
                v2
            } else if p == 64 * i + 48 {
                v3
            } else {
                old(out)@[p]
            },
{
    out[64 * i] = v0;
    out[64 * i + 16] = v1;
    out[64 * i + 32] = v2;
    out[64 * i + 48] = v3;
}

#[verifier::rlimit(40)]
/// Inverse Walsh-Hadamard transform of the 16 luma DC coefficients; output
/// `m` is written at `out[16 * m]` and nothing else of `out` changes.
pub fn transform_wht(input: &[i16; 16], out: &mut [i16; 256])
    requires
        wht_fits(input@),
    ensures
        forall|p: int|
            0 <= p < 256 ==> #[trigger] final(out)@[p] == if p % 16 == 0 {
                wht_output(input@, p / 16) as i16
            } else {
                old(out)@[p]
            },
{
    let ghost d = input@;
    let ghost old_out = out@;
    let mut tmp = [0i16; 16];
    for i in 0..4usize
        invariant
            d == input@,
            wht_fits(d),
            forall|k: int| 0 <= k < 16 && k % 4 < i ==> #[trigger] tmp@[k] == wht_vertical(d, k),
    {
        assert(wht_col_fits(d, i as int));
        let a0 = input[i] + input[12 + i];
        let a1 = input[4 + i] + input[8 + i];
        let a2 = input[4 + i] - input[8 + i];
        let a3 = input[i] - input[12 + i];
        assert(i16_fits(wht_vertical(d, i as int)));
        assert(i16_fits(wht_vertical(d, 4 + i as int)));
        assert(i16_fits(wht_vertical(d, 8 + i as int)));
        assert(i16_fits(wht_vertical(d, 12 + i as int)));
        tmp[i] = a0 + a1;
        tmp[8 + i] = a0 - a1;
        tmp[4 + i] = a3 + a2;
        tmp[12 + i] = a3 - a2;
    }
    for i in 0..4usize
        invariant
            d == input@,
            wht_fits(d),
            out@.len() == 256,
            forall|k: int| 0 <= k < 16 ==> #[trigger] tmp@[k] == wht_vertical(d, k),
            forall|p: int|
                0 <= p < 256 ==> #[trigger] out@[p] == if p % 16 == 0 && p < 64 * i {
                    wht_output(d, p / 16) as i16
                } else {
                    old_out[p]
                },
    {
        let ghost ii = i as int;
        assert(wht_row_fits(d, ii));
        assert(tmp@[4 * ii] == wht_vertical(d, 4 * ii));
        assert(tmp@[4 * ii + 1] == wht_vertical(d, 4 * ii + 1));
        assert(tmp@[4 * ii + 2] == wht_vertical(d, 4 * ii + 2));
        assert(tmp@[4 * ii + 3] == wht_vertical(d, 4 * ii + 3));
        let dc = tmp[i * 4] + 3;
        let a0 = dc + tmp[3 + i * 4];
        let a1 = tmp[1 + i * 4] + tmp[2 + i * 4];
        let a2 = tmp[1 + i * 4] - tmp[2 + i * 4];
        let a3 = dc - tmp[3 + i * 4];
        proof {
            assert((4 * ii) / 4 == ii && (4 * ii) % 4 == 0);
            assert((4 * ii + 1) / 4 == ii && (4 * ii + 1) % 4 == 1);
            assert((4 * ii + 2) / 4 == ii && (4 * ii + 2) % 4 == 2);
            assert((4 * ii + 3) / 4 == ii && (4 * ii + 3) % 4 == 3);
        }
        let v0 = a0 + a1;
        let v1 = a3 + a2;
        let v2 = a0 - a1;
        let v3 = a3 - a2;
        proof {
            lemma_shr3_i16(v0);
            lemma_shr3_i16(v1);
            lemma_shr3_i16(v2);
            lemma_shr3_i16(v3);
            assert(v0 / 8 == wht_output(d, 4 * ii));
            assert(v1 / 8 == wht_output(d, 4 * ii + 1));
            assert(v2 / 8 == wht_output(d, 4 * ii + 2));
            assert(v3 / 8 == wht_output(d, 4 * ii + 3));
        }
        wht_store(out, i, v0 >> 3, v1 >> 3, v2 >> 3, v3 >> 3);
    }
}

/// Whether the inverse WHT of `input` stays within `i16` throughout, which
/// `transform_wht` needs.
pub fn wht_input_fits(input: &[i16; 16]) -> (r: bool)
    ensures
        r == wht_fits(input@),
{
    let ghost d = input@;
    let mut tmp = [0i32; 16];
    let mut ok = true;
    for i in 0..4usize
        invariant
            d == input@,
            ok == forall|j: int| 0 <= j < i ==> #[trigger] wht_col_fits(d, j),
            forall|k: int| 0 <= k < 16 && k % 4 < i ==> #[trigger] tmp@[k] == wht_vertical(d, k),
    {
        let a0 = input[i] as i32 + input[12 + i] as i32;
        let a1 = input[4 + i] as i32 + input[8 + i] as i32;
        let a2 = input[4 + i] as i32 - input[8 + i] as i32;
        let a3 = input[i] as i32 - input[12 + i] as i32;
        let col = -32768 <= a0 && a0 <= 32767 && -32768 <= a1 && a1 <= 32767 && -32768 <= a2 && a2
            <= 32767 && -32768 <= a3 && a3 <= 32767;
        assert(col == wht_col_fits(d, i as int));
        assert((forall|j: int| 0 <= j < i + 1 ==> #[trigger] wht_col_fits(d, j)) == ((forall|j: int|
            0 <= j < i ==> #[trigger] wht_col_fits(d, j)) && wht_col_fits(d, i as int)));
        ok = ok && col;
        tmp[i] = a0 + a1;
        tmp[8 + i] = a0 - a1;
        tmp[4 + i] = a3 + a2;
        tmp[12 + i] = a3 - a2;
    }
    for k in 0..16usize
        invariant
            d == input@,
            forall|j: int| 0 <= j < 16 ==> #[trigger] tmp@[j] == wht_vertical(d, j),
            ok == ((forall|j: int| 0 <= j < 4 ==> #[trigger] wht_col_fits(d, j)) && forall|j: int|
                0 <= j < k ==> i16_fits(#[trigger] wht_vertical(d, j))),
    {
        assert((forall|j: int| 0 <= j < k + 1 ==> i16_fits(#[trigger] wht_vertical(d, j))) == ((forall|j: int|
            0 <= j < k ==> i16_fits(#[trigger] wht_vertical(d, j))) && i16_fits(wht_vertical(d, k as int))));
        ok = ok && -32768 <= tmp[k] && tmp[k] <= 32767;
    }
    for i in 0..4usize
        invariant
            d == input@,
            forall|j: int| 0 <= j < 16 ==> #[trigger] tmp@[j] == wht_vertical(d, j),
            ok == ((forall|j: int| 0 <= j < 4 ==> #[trigger] wht_col_fits(d, j)) && (forall|j: int|
                0 <= j < 16 ==> i16_fits(#[trigger] wht_vertical(d, j))) && forall|j: int|
                0 <= j < i ==> #[trigger] wht_row_fits(d, j)),
    {
        let ghost ii = i as int;
        proof {
            assert((4 * ii) / 4 == ii && (4 * ii) % 4 == 0);
            assert((4 * ii + 1) / 4 == ii && (4 * ii + 1) % 4 == 1);
            assert((4 * ii + 2) / 4 == ii && (4 * ii + 2) % 4 == 2);
            assert((4 * ii + 3) / 4 == ii && (4 * ii + 3) % 4 == 3);
        }
        let t0 = tmp[i * 4];
        let t1 = tmp[1 + i * 4];
        let t2 = tmp[2 + i * 4];
        let t3 = tmp[3 + i * 4];
        assert(-131072 <= t0 <= 131072 && -131072 <= t1 <= 131072 && -131072 <= t2 <= 131072 && -131072 <= t3 <= 131072);
        let dc = t0 + 3;
        let a0 = dc + t3;
        let a1 = t1 + t2;
        let a2 = t1 - t2;
        let a3 = dc - t3;
        let row = -32768 <= dc && dc <= 32767 && -32768 <= a0 && a0 <= 32767 && -32768 <= a1 && a1
            <= 32767 && -32768 <= a2 && a2 <= 32767 && -32768 <= a3 && a3 <= 32767 && -32768 <= a0
            + a1 && a0 + a1 <= 32767 && -32768 <= a3 + a2 && a3 + a2 <= 32767 && -32768 <= a0 - a1
            && a0 - a1 <= 32767 && -32768 <= a3 - a2 && a3 - a2 <= 32767;
        assert(row == wht_row_fits(d, ii));
        assert((forall|j: int| 0 <= j < i + 1 ==> #[trigger] wht_row_fits(d, j)) == ((forall|j: int|
            0 <= j < i ==> #[trigger] wht_row_fits(d, j)) && wht_row_fits(d, ii)));
        ok = ok && row;
    }
    ok
}

/// Coefficients in the decoder's range keep every intermediate value of the
/// inverse WHT within an `i16`.
pub proof fn law_decoder_range_fits_wht(d: Seq<i16>)
    requires
        d.len() >= 16,
        coeffs_in_range(d, 0, 16),
    ensures
        wht_fits(d),
{
    assert forall|i: int| 0 <= i < 4 implies #[trigger] wht_col_fits(d, i) by {
        assert(-2048 <= d[i] <= 2047);
        assert(-2048 <= d[4 + i] <= 2047);
        assert(-2048 <= d[8 + i] <= 2047);
        assert(-2048 <= d[12 + i] <= 2047);
    }
    assert forall|k: int| 0 <= k < 16 implies -8192 <= #[trigger] wht_vertical(d, k) <= 8190 by {
        let i = k % 4;
        assert(-2048 <= d[i] <= 2047);
        assert(-2048 <= d[4 + i] <= 2047);
        assert(-2048 <= d[8 + i] <= 2047);
        assert(-2048 <= d[12 + i] <= 2047);
    }
    assert forall|i: int| 0 <= i < 4 implies #[trigger] wht_row_fits(d, i) by {
        assert(-8192 <= wht_vertical(d, 4 * i) <= 8190);
        assert(-8192 <= wht_vertical(d, 4 * i + 1) <= 8190);
        assert(-8192 <= wht_vertical(d, 4 * i + 2) <= 8190);
        assert(-8192 <= wht_vertical(d, 4 * i + 3) <= 8190);
        assert((4 * i) / 4 == i && (4 * i) % 4 == 0);
        assert((4 * i + 1) / 4 == i && (4 * i + 1) % 4 == 1);
        assert((4 * i + 2) / 4 == i && (4 * i + 2) % 4 == 2);
        assert((4 * i + 3) / 4 == i && (4 * i + 3) % 4 == 3);
    }
}

/// The coefficients of a block whose only non-zero entry is the DC one.
pub open spec fn dc_only(v: i16) -> Seq<i16> {
    Seq::new(16, |k: int| if k == 0 { v } else { 0i16 })
}

/// For a block whose only non-zero coefficient is the DC one, the DC-only
/// transform adds exactly what the full inverse DCT adds.
pub proof fn law_transform_dc_matches_full(v: i16, pred: Seq<u8>)
    requires
        -2048 <= v <= 2047,
    ensures
        residual_block(pred, 0, |r: int, c: int| v + 4) == residual_block(
            pred,
            0,
            |r: int, c: int| idct_horizontal(dc_only(v), r, c),
        ),
{
    let d = dc_only(v);
    assert forall|r: int, c: int| 0 <= r < 4 && 0 <= c < 4 implies idct_horizontal(d, r, c) == v + 4 by {
        assert(idct_vertical(d, r) == v);
        assert(idct_vertical(d, 8 + r) == 0);
        assert(idct_vertical(d, 4 + r) == 0);
        assert(idct_vertical(d, 12 + r) == 0);
    }
    assert(residual_block(pred, 0, |r: int, c: int| v + 4) =~= residual_block(
        pred,
        0,
        |r: int, c: int| idct_horizontal(d, r, c),
    ));
}

/// The coefficients of a block where only entries 0, 1 and 4 can be non-zero.
pub open spec fn ac3_support(d: Seq<i16>) -> bool {
    &&& d.len() == 16
    &&& forall|k: int| 0 <= k < 16 && k != 0 && k != 1 && k != 4 ==> #[trigger] d[k] == 0
}

/// For a block whose non-zero coefficients are among 0, 1 and 4, the
/// simplified transform adds exactly what the full inverse DCT adds.
pub proof fn law_transform_ac3_matches_full(d: Seq<i16>, pred: Seq<u8>)
    requires
        ac3_support(d),
        coeffs_in_range(d, 0, 16),
    ensures
        residual_block(pred, 0, |r: int, c: int| ac3_residual(d.subrange(0, 5), r, c))
            == residual_block(pred, 0, |r: int, c: int| idct_horizontal(d, r, c)),
{
    let s5 = d.subrange(0, 5);
    assert forall|r: int, c: int|
        0 <= r < 4 && 0 <= c < 4 implies idct_horizontal(d, r, c) == ac3_residual(s5, r, c) by {
        assert(d[2] == 0 && d[3] == 0 && d[5] == 0 && d[6] == 0 && d[7] == 0);
        assert(d[8] == 0 && d[9] == 0 && d[10] == 0 && d[11] == 0);
        assert(d[12] == 0 && d[13] == 0 && d[14] == 0 && d[15] == 0);
        assert(mul1_spec(0) == 0 && mul2_spec(0) == 0);
        assert(idct_vertical(d, 8 + r) == 0);
        assert(idct_vertical(d, 12 + r) == 0);
        assert(idct_vertical(d, 4 + r) == d[1]);
    }
    assert(residual_block(pred, 0, |r: int, c: int| ac3_residual(s5, r, c)) =~= residual_block(
        pred,
        0,
        |r: int, c: int| idct_horizontal(d, r, c),
    ));
}


//------------------------------------------------------------------------------
// Intra predictions

/// `old` with every sample of the `w` x `h` block (stride 32) whose top-left
/// sample is at `base` replaced by `f(column, row)`.
pub open spec fn block_fill(old: Seq<u8>, base: int, w: int, h: int, f: spec_fn(int, int) -> u8) -> Seq<u8> {
    Seq::new(
        old.len(),
        |p: int|
            if base <= p && (p - base) % 32 < w && (p - base) / 32 < h {
                f((p - base) % 32, (p - base) / 32)
            } else {
                old[p]
            },
    )
}

/// `block_fill` restricted to the samples before column `x` of row `y` in
/// raster order.
pub open spec fn block_fill_upto(
    old: Seq<u8>,
    base: int,
    w: int,
    h: int,
    f: spec_fn(int, int) -> u8,
    y: int,
    x: int,
) -> Seq<u8> {
    Seq::new(
        old.len(),
        |p: int|
            if base <= p && (p - base) % 32 < w && (p - base) / 32 < h && ((p - base) / 32 < y || ((p
                - base) / 32 == y && (p - base) % 32 < x)) {
                f((p - base) % 32, (p - base) / 32)
            } else {
                old[p]
            },
    )
}

proof fn lemma_fill_start(old: Seq<u8>, base: int, w: int, h: int, f: spec_fn(int, int) -> u8)
    ensures
        block_fill_upto(old, base, w, h, f, 0, 0) == old,
{
    assert(block_fill_upto(old, base, w, h, f, 0, 0) =~= old);
}

proof fn lemma_fill_end(old: Seq<u8>, base: int, w: int, h: int, f: spec_fn(int, int) -> u8)
    ensures
        block_fill_upto(old, base, w, h, f, h, 0) == block_fill(old, base, w, h, f),
{
    assert(block_fill_upto(old, base, w, h, f, h, 0) =~= block_fill(old, base, w, h, f));
}

proof fn lemma_fill_row(old: Seq<u8>, base: int, w: int, h: int, f: spec_fn(int, int) -> u8, y: int)
    requires
        0 <= w <= 32,
    ensures
        block_fill_upto(old, base, w, h, f, y, w) == block_fill_upto(old, base, w, h, f, y + 1, 0),
{
    assert(block_fill_upto(old, base, w, h, f, y, w) =~= block_fill_upto(old, base, w, h, f, y + 1, 0));
}

proof fn lemma_fill_step(
    old: Seq<u8>,
    base: int,
    w: int,
    h: int,
    f: spec_fn(int, int) -> u8,
    y: int,
    x: int,
)
    requires
        0 <= base,
        0 <= x < w <= 32,
        0 <= y < h,
        base + y * 32 + x < old.len(),
    ensures
        block_fill_upto(old, base, w, h, f, y, x).update(base + y * 32 + x, f(x, y))
            == block_fill_upto(old, base, w, h, f, y, x + 1),
{
    let q = y * 32 + x;
    assert(q % 32 == x && q / 32 == y);
    assert(block_fill_upto(old, base, w, h, f, y, x).update(base + y * 32 + x, f(x, y)) =~= block_fill_upto(
        old,
        base,
        w,
        h,
        f,
        y,
        x + 1,
    ));
}

/// Samples outside of the block are untouched by a partial fill.
proof fn lemma_fill_outside(
    old: Seq<u8>,
    base: int,
    w: int,
    h: int,
    f: spec_fn(int, int) -> u8,
    y: int,
    x: int,
    p: int,
)
    requires
        0 <= p < old.len(),
        !(base <= p && (p - base) % 32 < w && (p - base) / 32 < h),
    ensures
        block_fill_upto(old, base, w, h, f, y, x)[p] == old[p],
{
}

/// Sum of `n` consecutive samples starting at `start`.
pub open spec fn sum_row(s: Seq<u8>, start: int, n: int) -> int
    decreases n,
{
    if n <= 0 {
        0
    } else {
        sum_row(s, start, n - 1) + s[start + n - 1]
    }
}

/// Sum of `n` samples of a column (stride 32) starting at `start`.
pub open spec fn sum_col(s: Seq<u8>, start: int, n: int) -> int
    decreases n,
{
    if n <= 0 {
        0
    } else {
        sum_col(s, start, n - 1) + s[start + 32 * (n - 1)]
    }
}

pub proof fn lemma_sum_row_bound(s: Seq<u8>, start: int, n: int)
    requires
        0 <= n,
    ensures
        0 <= sum_row(s, start, n) <= 255 * n,
    decreases n,
{
    if n > 0 {
        lemma_sum_row_bound(s, start, n - 1);
    }
}

pub proof fn lemma_sum_col_bound(s: Seq<u8>, start: int, n: int)
    requires
        0 <= n,
    ensures
        0 <= sum_col(s, start, n) <= 255 * n,
    decreases n,
{
    if n > 0 {
        lemma_sum_col_bound(s, start, n - 1);
    }
}

/// Fills rows 0..16, columns 0..16 (stride 32) with `v`.
pub fn put16(v: u8, dst: &mut [u8; 496])
    ensures
        final(dst)@ == block_fill(old(dst)@, 0, 16, 16, |x: int, y: int| v),
{
    let ghost old_dst = dst@;
    for y in 0..16usize
        invariant
            dst@.len() == 496,
            forall|p: int|
                0 <= p < 496 ==> #[trigger] dst@[p] == if p % 32 < 16 && p / 32 < y {
                    v
                } else {
                    old_dst[p]
                },
    {
        for x in 0..16usize
            invariant
                y < 16,
                dst@.len() == 496,
                forall|p: int|
                    0 <= p < 496 ==> #[trigger] dst@[p] == if p % 32 < 16 && (p / 32 < y || (p
                        / 32 == y && p % 32 < x)) {
                        v
                    } else {
                        old_dst[p]
                    },
        {
            dst[y * UBPS + x] = v;
        }
    }
    assert(dst@ =~= block_fill(old_dst, 0, 16, 16, |x: int, y: int| v));
}

/// Shifts the result of `put16` on the tail of the array into the whole array.
proof fn lemma_block_fill_tail(a: Seq<u8>, k: int, n: int, w: int, h: int, f: spec_fn(int, int) -> u8)
    requires
        0 <= k,
        0 <= n,
        k + n <= a.len(),
        0 <= w <= 32,
        0 <= h,
        (h - 1) * 32 + w <= n,
    ensures
        (a.subrange(0, k) + block_fill(a.subrange(k, k + n), 0, w, h, f)) + a.skip(k + n)
            == block_fill(a, k, w, h, f),
{
    let mid = block_fill(a.subrange(k, k + n), 0, w, h, f);
    let left = a.subrange(0, k) + mid;
    let lhs = left + a.skip(k + n);
    let rhs = block_fill(a, k, w, h, f);
    assert(a.subrange(k, k + n).len() == n);
    assert(mid.len() == n);
    assert(left.len() == k + n);
    assert(a.skip(k + n).len() == a.len() - (k + n));
    assert(lhs.len() == a.len());
    assert forall|p: int| 0 <= p < a.len() implies lhs[p] == rhs[p] by {
        let q = p - k;
        if k <= p && q % 32 < w && q / 32 < h {
            assert(q == 32 * (q / 32) + q % 32);
            assert(32 * (q / 32) <= 32 * (h - 1)) by (nonlinear_arith)
                requires
                    q / 32 <= h - 1,
            ;
            assert(q < n);
            assert(lhs[p] == left[p]);
            assert(left[p] == mid[q]);
        } else if p < k {
            assert(lhs[p] == left[p]);
        } else if p < k + n {
            assert(lhs[p] == left[p]);
            assert(left[p] == mid[q]);
        } else {
            assert(lhs[p] == a.skip(k + n)[p - (k + n)]);
        }
    }
    assert(lhs =~= rhs);
}

/// `put16` on the 16x16 block of `arr` starting at `start`.
fn put16_at(v: u8, arr: &mut [u8], start: usize)
    requires
        start + 496 <= old(arr)@.len(),
    ensures
        final(arr)@ == block_fill(old(arr)@, start as int, 16, 16, |x: int, y: int| v),
{
    let ghost old_arr = arr@;
    let (_head, tail) = arr.split_at_mut(start);
    let d = to_array_ref_mut::<u8, 496>(tail);
    put16(v, d);
    proof {
        lemma_block_fill_tail(old_arr, start as int, 496, 16, 16, |x: int, y: int| v);
    }
}

proof fn lemma_shr_u32(x: u32)
    ensures
        x >> 5u32 == x / 32,
        x >> 4u32 == x / 16,
        x >> 3u32 == x / 8,
        x >> 2u32 == x / 4,
        x >> 1u32 == x / 2,
{
    assert(x >> 5u32 == x / 32) by (bit_vector);
    assert(x >> 4u32 == x / 16) by (bit_vector);
    assert(x >> 3u32 == x / 8) by (bit_vector);
    assert(x >> 2u32 == x / 4) by (bit_vector);
    assert(x >> 1u32 == x / 2) by (bit_vector);
}

/// What `dc16` leaves in its work area `a`.
pub open spec fn dc16_pred(a: Seq<u8>) -> Seq<u8> {
    block_fill(
        a,
        32,
        16,
        16,
        |x: int, y: int| ((16 + sum_row(a, 0, 16) + sum_col(a, 31, 16)) / 32) as u8,
    )
}

/// 16x16 DC prediction: the rounded mean of the 16 top and 16 left samples.
pub fn dc16(dst: &mut OffsetArray<u8, 528, 32>)
    ensures
        final(dst).arr@ == dc16_pred(old(dst).arr@),
{
    let ghost a = dst.arr@;
    let mut dc: u32 = 16;
    for j in 0..16isize
        invariant
            dst.arr@ == a,
            dc == 16 + sum_row(a, 0, j as int) + sum_col(a, 31, j as int),
    {
        proof {
            lemma_sum_row_bound(a, 0, j as int);
            lemma_sum_col_bound(a, 31, j as int);
        }
        let first = *dst.index(-1 + j * BPS) as u32;
        let second = *dst.index(j - BPS) as u32;
        let sum = first + second;
        dc = dc.wrapping_add(sum);
    }
    proof {
        lemma_sum_row_bound(a, 0, 16);
        lemma_sum_col_bound(a, 31, 16);
        lemma_shr_u32(dc);
    }
    let v = ((dc >> 5) & 0xff) as u8;
    assert(dc >> 5 <= 255);
    assert((dc >> 5) & 0xff == dc >> 5) by (bit_vector)
        requires
            dc >> 5 <= 255;
    put16_at(v, &mut dst.arr, 32);
}




/// What `ve16` leaves in its work area `a`.
pub open spec fn ve16_pred(a: Seq<u8>) -> Seq<u8> {
    block_fill(a, 32, 16, 16, |x: int, y: int| a[x])
}

/// 16x16 vertical prediction: every row repeats the 16 samples above.
pub fn ve16(dst: &mut OffsetArray<u8, 528, 32>)
    ensures
        final(dst).arr@ == ve16_pred(old(dst).arr@),
{
    let ghost a = dst.arr@;
    let ghost f = |x: int, y: int| a[x];
    proof { lemma_fill_start(a, 32, 16, 16, f); }
    for y in 0..16isize
        invariant
            dst.arr@ == block_fill_upto(a, 32, 16, 16, f, y as int, 0),
            f == (|x: int, y: int| a[x]),
            a.len() == dst.arr@.len(),
    {
        for x in 0..16isize
            invariant
                0 <= y < 16,
                dst.arr@ == block_fill_upto(a, 32, 16, 16, f, y as int, x as int),
                f == (|x: int, y: int| a[x]),
                a.len() == dst.arr@.len(),
        {
            proof {
            lemma_fill_outside(a, 32, 16, 16, f, y as int, x as int, x as int);
            }
            let v = *dst.index(x - BPS);
            proof { lemma_fill_step(a, 32, 16, 16, f, y as int, x as int); }
            dst.set(x + y * BPS, v);
        }
        proof { lemma_fill_row(a, 32, 16, 16, f, y as int); }
    }
    proof { lemma_fill_end(a, 32, 16, 16, f); }
}

/// What `he16` leaves in its work area `a`.
pub open spec fn he16_pred(a: Seq<u8>) -> Seq<u8> {
    block_fill(a, 1, 16, 16, |x: int, y: int| a[32 * y])
}

/// 16x16 horizontal prediction: every row repeats the sample to its left.
pub fn he16(dst: &mut OffsetArray<u8, 497, 1>)
    ensures
        final(dst).arr@ == he16_pred(old(dst).arr@),
{
    let ghost a = dst.arr@;
    let ghost f = |x: int, y: int| a[32 * y];
    proof { lemma_fill_start(a, 1, 16, 16, f); }
    for y in 0..16isize
        invariant
            dst.arr@ == block_fill_upto(a, 1, 16, 16, f, y as int, 0),
            f == (|x: int, y: int| a[32 * y]),
            a.len() == dst.arr@.len(),
    {
        for x in 0..16isize
            invariant
                0 <= y < 16,
                dst.arr@ == block_fill_upto(a, 1, 16, 16, f, y as int, x as int),
                f == (|x: int, y: int| a[32 * y]),
                a.len() == dst.arr@.len(),
        {
            proof {
            lemma_fill_outside(a, 1, 16, 16, f, y as int, x as int, 32 * y as int);
            }
            let v = *dst.index(-1 + y * BPS);
            proof { lemma_fill_step(a, 1, 16, 16, f, y as int, x as int); }
            dst.set(x + y * BPS, v);
        }
        proof { lemma_fill_row(a, 1, 16, 16, f, y as int); }
    }
    proof { lemma_fill_end(a, 1, 16, 16, f); }
}

/// What "true motion" prediction of an `n` x `n` block leaves in its work
/// area `a`: top + left - top-left, saturated to a byte.
pub open spec fn tm_pred(a: Seq<u8>, n: int) -> Seq<u8> {
    block_fill(a, 33, n, n, |x: int, y: int| clamp(a[1 + x] + a[32 * (y + 1)] - a[0], 0, 255) as u8)
}

/// "True motion" prediction of an N x N block: top + left - top-left,
/// saturated to a byte.
pub fn true_motion<const DST_SIZE: usize, const N: usize>(dst: &mut OffsetArray<u8, DST_SIZE, 33>)
    requires
        DST_SIZE == 33 * N + 1,
        N <= 16,
    ensures
        final(dst).arr@ == tm_pred(old(dst).arr@, N as int),
{
    let ghost a = dst.arr@;
    let ghost f = |x: int, y: int| clamp(a[1 + x] + a[32 * (y + 1)] - a[0], 0, 255) as u8;
    proof { lemma_fill_start(a, 33, N as int, N as int, f); }
    for y in 0..N as isize
        invariant
            dst.arr@ == block_fill_upto(a, 33, N as int, N as int, f, y as int, 0),
            f == (|x: int, y: int| clamp(a[1 + x] + a[32 * (y + 1)] - a[0], 0, 255) as u8),
            a.len() == dst.arr@.len(),
                DST_SIZE == 33 * N + 1,
                N <= 16,
    {
        for x in 0..N as isize
            invariant
                0 <= y < N,
                dst.arr@ == block_fill_upto(a, 33, N as int, N as int, f, y as int, x as int),
                f == (|x: int, y: int| clamp(a[1 + x] + a[32 * (y + 1)] - a[0], 0, 255) as u8),
                a.len() == dst.arr@.len(),
                DST_SIZE == 33 * N + 1,
                N <= 16,
        {
            proof {
            lemma_fill_outside(a, 33, N as int, N as int, f, y as int, x as int, 1 + x as int);
            lemma_fill_outside(a, 33, N as int, N as int, f, y as int, x as int, 32 * (y as int + 1));
            lemma_fill_outside(a, 33, N as int, N as int, f, y as int, x as int, 0);
            }
            let v = vp8_kclip1(*dst.index(x - BPS) as isize + *dst.index(-1 + y * BPS) as isize - *dst.index(-1 - BPS) as isize);
            proof { lemma_fill_step(a, 33, N as int, N as int, f, y as int, x as int); }
            dst.set(x + y * BPS, v);
        }
        proof { lemma_fill_row(a, 33, N as int, N as int, f, y as int); }
    }
    proof { lemma_fill_end(a, 33, N as int, N as int, f); }
}

/// True-motion prediction of a 4x4 block.
pub fn tm4(dst: &mut OffsetArray<u8, 133, 33>)
    ensures
        final(dst).arr@ == tm_pred(old(dst).arr@, 4),
{
    true_motion::<133, 4>(dst);
}

/// True-motion prediction of a 8x8 block.
pub fn tm8uv(dst: &mut OffsetArray<u8, 265, 33>)
    ensures
        final(dst).arr@ == tm_pred(old(dst).arr@, 8),
{
    true_motion::<265, 8>(dst);
}

/// True-motion prediction of a 16x16 block.
pub fn tm16(dst: &mut OffsetArray<u8, 529, 33>)
    ensures
        final(dst).arr@ == tm_pred(old(dst).arr@, 16),
{
    true_motion::<529, 16>(dst);
}


/// Fills rows 0..8, columns 0..8 (stride 32) with `v`.
fn put_8x8_uv(v: u8, dst: &mut [u8; 232])
    ensures
        final(dst)@ == block_fill(old(dst)@, 0, 8, 8, |x: int, y: int| v),
{
    let ghost a = dst@;
    let ghost f = |x: int, y: int| v;
    proof { lemma_fill_start(a, 0, 8, 8, f); }
    for y in 0..8usize
        invariant
            dst@ == block_fill_upto(a, 0, 8, 8, f, y as int, 0),
            f == (|x: int, y: int| v),
            a.len() == 232,
    {
        for x in 0..8usize
            invariant
                0 <= y < 8,
                dst@ == block_fill_upto(a, 0, 8, 8, f, y as int, x as int),
                f == (|x: int, y: int| v),
                a.len() == 232,
        {
            proof { lemma_fill_step(a, 0, 8, 8, f, y as int, x as int); }
            dst[y * UBPS + x] = v;
        }
        proof { lemma_fill_row(a, 0, 8, 8, f, y as int); }
    }
    proof { lemma_fill_end(a, 0, 8, 8, f); }
}

/// `put_8x8_uv` on the 8x8 block of `arr` starting at `start`.
fn put_8x8_uv_at(v: u8, arr: &mut [u8], start: usize)
    requires
        start + 232 <= old(arr)@.len(),
    ensures
        final(arr)@ == block_fill(old(arr)@, start as int, 8, 8, |x: int, y: int| v),
{
    let ghost old_arr = arr@;
    let (_head, tail) = arr.split_at_mut(start);
    let d = to_array_ref_mut::<u8, 232>(tail);
    put_8x8_uv(v, d);
    proof {
        lemma_block_fill_tail(old_arr, start as int, 232, 8, 8, |x: int, y: int| v);
    }
}

/// What `dc16_no_top` leaves in its work area `a`.
pub open spec fn dc16_no_top_pred(a: Seq<u8>) -> Seq<u8> {
    block_fill(
        a,
        1,
        16,
        16,
        |x: int, y: int| ((8 + sum_col(a, 0, 16)) / 16) as u8,
    )
}

/// 16x16 DC prediction without top samples: the rounded mean of the 16
/// left samples.
pub fn dc16_no_top(dst: &mut OffsetArray<u8, 497, 1>)
    ensures
        final(dst).arr@ == dc16_no_top_pred(old(dst).arr@),
{
    let ghost a = dst.arr@;
    let mut dc: u32 = 8;
    for j in 0..16isize
        invariant
            dst.arr@ == a,
            dc == 8 + sum_col(a, 0, j as int),
    {
        proof { lemma_sum_col_bound(a, 0, j as int); }
        dc = dc.wrapping_add(*dst.index(-1 + j * BPS) as u32);
    }
    proof {
        lemma_sum_col_bound(a, 0, 16);
        lemma_shr_u32(dc);
    }
    assert((dc >> 4) & 0xff == dc >> 4) by (bit_vector)
        requires
            dc >> 4 <= 255;
    put16_at(((dc >> 4) & 0xff) as u8, &mut dst.arr, 1);
}

/// What `dc16_no_left` leaves in its work area `a`.
pub open spec fn dc16_no_left_pred(a: Seq<u8>) -> Seq<u8> {
    block_fill(
        a,
        32,
        16,
        16,
        |x: int, y: int| ((8 + sum_row(a, 0, 16)) / 16) as u8,
    )
}

/// 16x16 DC prediction without left samples: the rounded mean of the 16
/// top samples.
pub fn dc16_no_left(dst: &mut OffsetArray<u8, 528, 32>)
    ensures
        final(dst).arr@ == dc16_no_left_pred(old(dst).arr@),
{
    let ghost a = dst.arr@;
    let mut dc: u32 = 8;
    for i in 0..16isize
        invariant
            dst.arr@ == a,
            dc == 8 + sum_row(a, 0, i as int),
    {
        proof { lemma_sum_row_bound(a, 0, i as int); }
        dc = dc.wrapping_add(*dst.index(i - BPS) as u32);
    }
    proof {
        lemma_sum_row_bound(a, 0, 16);
        lemma_shr_u32(dc);
    }
    assert((dc >> 4) & 0xff == dc >> 4) by (bit_vector)
        requires
            dc >> 4 <= 255;
    put16_at(((dc >> 4) & 0xff) as u8, &mut dst.arr, 32);
}

/// What `dc16_no_top_left` leaves in its work area `a`.
pub open spec fn dc16_no_top_left_pred(a: Seq<u8>) -> Seq<u8> {
    block_fill(a, 0, 16, 16, |x: int, y: int| 0x80u8)
}

/// 16x16 DC prediction with neither top nor left samples: mid-grey.
pub fn dc16_no_top_left(dst: &mut [u8; 496])
    ensures
        final(dst)@ == dc16_no_top_left_pred(old(dst)@),
{
    put16(0x80, dst);
}

/// `dst` with `val` written at every position `x + 32 * y` of the
/// coordinates `xy`.
pub open spec fn assign_spec(old: Seq<u8>, xy: Seq<(usize, usize)>, val: u8) -> Seq<u8> {
    Seq::new(
        old.len(),
        |p: int| if exists|k: int| 0 <= k < xy.len() && xy[k].0 + 32 * xy[k].1 == p { val } else { old[p] },
    )
}

/// Writes `val` at the samples (x, y) of `xy` in a buffer of stride 32.
pub fn assign<const NUM_COORDS: usize>(dst: &mut [u8], xy: [(usize, usize); NUM_COORDS], val: u8)
    requires
        forall|k: int| 0 <= k < NUM_COORDS ==> #[trigger] xy@[k].0 + 32 * xy@[k].1 < old(dst)@.len(),
    ensures
        final(dst)@ == assign_spec(old(dst)@, xy@, val),
{
    let ghost d0 = dst@;
    let len = dst.len();
    for i in 0..NUM_COORDS
        invariant
            len == d0.len(),
            dst@.len() == d0.len(),
            forall|k: int| 0 <= k < NUM_COORDS ==> #[trigger] xy@[k].0 + 32 * xy@[k].1 < d0.len(),
            forall|p: int|
                0 <= p < d0.len() ==> #[trigger] dst@[p] == if exists|k: int|
                    0 <= k < i && xy@[k].0 + 32 * xy@[k].1 == p {
                    val
                } else {
                    d0[p]
                },
    {
        let (x, y) = xy[i];
        assert(x + 32 * y < len);
        dst[x + y * 32] = val;
        assert forall|p: int| 0 <= p < d0.len() implies #[trigger] dst@[p] == if exists|k: int|
            0 <= k < i + 1 && xy@[k].0 + 32 * xy@[k].1 == p {
            val
        } else {
            d0[p]
        } by {
            if p == x + y * 32 {
                assert(xy@[i as int].0 + 32 * xy@[i as int].1 == p);
            }
        }
    }
    assert(dst@ =~= assign_spec(d0, xy@, val));
}

/// Rounded weighted mean `(p1 + 2 * p2 + p3) / 4`.
pub open spec fn avg3_spec(p1: int, p2: int, p3: int) -> u8 {
    ((p1 + 2 * p2 + p3 + 2) / 4) as u8
}

/// Rounded mean `(p1 + p2) / 2`.
pub open spec fn avg2_spec(p1: int, p2: int) -> u8 {
    ((p1 + p2 + 1) / 2) as u8
}

fn avg3(p1: u8, p2: u8, p3: u8) -> (r: u8)
    ensures
        r == avg3_spec(p1 as int, p2 as int, p3 as int),
{
    let s = (p1 as u32) + 2 * (p2 as u32) + (p3 as u32) + 2;
    proof { lemma_shr_u32(s); }
    (s >> 2) as u8
}

fn avg2(p1: u8, p2: u8) -> (r: u8)
    ensures
        r == avg2_spec(p1 as int, p2 as int),
{
    let s = (p1 as u32) + (p2 as u32) + 1;
    proof { lemma_shr_u32(s); }
    (s >> 1) as u8
}

/// What `ve4` leaves in its work area `a`.
pub open spec fn ve4_pred(a: Seq<u8>) -> Seq<u8> {
    block_fill(a, 33, 4, 4, |x: int, y: int| avg3_spec(a[x] as int, a[x + 1] as int, a[x + 2] as int))
}

/// 4x4 vertical prediction: each column is the smoothed sample above it.
pub fn ve4(dst: &mut OffsetArray<u8, 161, 33>)
    ensures
        final(dst).arr@ == ve4_pred(old(dst).arr@),
{
    let ghost a = dst.arr@;
    let ghost f = |x: int, y: int| avg3_spec(a[x] as int, a[x + 1] as int, a[x + 2] as int);
    proof { lemma_fill_start(a, 33, 4, 4, f); }
    for y in 0..4isize
        invariant
            dst.arr@ == block_fill_upto(a, 33, 4, 4, f, y as int, 0),
            f == (|x: int, y: int| avg3_spec(a[x] as int, a[x + 1] as int, a[x + 2] as int)),
            a.len() == dst.arr@.len(),
    {
        for x in 0..4isize
            invariant
                0 <= y < 4,
                dst.arr@ == block_fill_upto(a, 33, 4, 4, f, y as int, x as int),
                f == (|x: int, y: int| avg3_spec(a[x] as int, a[x + 1] as int, a[x + 2] as int)),
                a.len() == dst.arr@.len(),
        {
            proof {
            lemma_fill_outside(a, 33, 4, 4, f, y as int, x as int, x as int);
            lemma_fill_outside(a, 33, 4, 4, f, y as int, x as int, x + 1);
            lemma_fill_outside(a, 33, 4, 4, f, y as int, x as int, x + 2);
            }
            let v = avg3(*dst.index(x - 1 - BPS), *dst.index(x - BPS), *dst.index(x + 1 - BPS));
            proof { lemma_fill_step(a, 33, 4, 4, f, y as int, x as int); }
            dst.set(x + y * BPS, v);
        }
        proof { lemma_fill_row(a, 33, 4, 4, f, y as int); }
    }
    proof { lemma_fill_end(a, 33, 4, 4, f); }
}




/// `s` agrees with `old` outside of the 4x4 block at `base`.
pub open spec fn frame4(s: Seq<u8>, old: Seq<u8>, base: int) -> bool {
    &&& s.len() == old.len()
    &&& forall|p: int|
        0 <= p < old.len() && !(base <= p && (p - base) % 32 < 4 && (p - base) / 32 < 4) ==> #[trigger] s[p]
            == old[p]
}

/// Storing into the 4x4 block keeps `frame4`.
proof fn lemma_frame4_step(s: Seq<u8>, old: Seq<u8>, base: int, x: int, y: int, v: u8)
    requires
        frame4(s, old, base),
        0 <= x < 4,
        0 <= y < 4,
        0 <= base + x + 32 * y < s.len(),
    ensures
        frame4(s.update(base + x + 32 * y, v), old, base),
{
    let q = x + 32 * y;
    assert(q % 32 == x && q / 32 == y);
}

/// A buffer that holds `f(x, y)` at the 16 samples of the 4x4 block at
/// `base` and agrees with `old` elsewhere is `block_fill(old, base, 4, 4, f)`.
proof fn lemma_block4_from_values(old: Seq<u8>, s: Seq<u8>, base: int, f: spec_fn(int, int) -> u8)
    requires
        s.len() == old.len(),
        0 <= base,
        base + 100 <= old.len(),
        s[base] == f(0, 0) && s[base + 1] == f(1, 0) && s[base + 2] == f(2, 0) && s[base + 3] == f(3, 0),
        s[base + 32] == f(0, 1) && s[base + 33] == f(1, 1) && s[base + 34] == f(2, 1) && s[base + 35] == f(3, 1),
        s[base + 64] == f(0, 2) && s[base + 65] == f(1, 2) && s[base + 66] == f(2, 2) && s[base + 67] == f(3, 2),
        s[base + 96] == f(0, 3) && s[base + 97] == f(1, 3) && s[base + 98] == f(2, 3) && s[base + 99] == f(3, 3),
        frame4(s, old, base),
    ensures
        s == block_fill(old, base, 4, 4, f),
{
    assert forall|p: int| 0 <= p < old.len() implies #[trigger] s[p] == block_fill(old, base, 4, 4, f)[p] by {
        if base <= p && (p - base) % 32 < 4 && (p - base) / 32 < 4 {
            let q = p - base;
            let x = q % 32;
            let y = q / 32;
            assert(q == 32 * y + x);
            assert(x == 0 || x == 1 || x == 2 || x == 3);
            assert(y == 0 || y == 1 || y == 2 || y == 3);
        }
    }
    assert(s =~= block_fill(old, base, 4, 4, f));
}



/// Left-and-top edge of a 4x4 block read along the down-right diagonals:
/// the left column bottom-up, the top-left corner, then the top row.
pub open spec fn rd4_edge(s: Seq<u8>, t: int) -> int {
    if t < 4 {
        s[32 * (4 - t)] as int
    } else if t == 4 {
        s[0] as int
    } else {
        s[t - 4] as int
    }
}



/// `byteorder::LittleEndian::write_u32`: the crate's source copies
/// `n.to_le_bytes()` into `buf[..4]` (and panics when `buf` is shorter than
/// four bytes), so afterwards bytes 0..4 of `buf` are the bytes of `n`,
/// least significant first, and the rest of `buf` is unchanged.
#[verifier::external_body]
fn write_u32_le(buf: &mut [u8], n: u32)
    requires
        old(buf)@.len() >= 4,
    ensures
        final(buf)@ == old(buf)@.update(0, (n % 256) as u8).update(1, ((n / 256) % 256) as u8).update(
            2,
            ((n / 65536) % 256) as u8,
        ).update(3, (n / 16777216) as u8),
{
    <byteorder::LittleEndian as byteorder::ByteOrder>::write_u32(buf, n)
}

/// Writes `v` into four consecutive samples, starting `start` samples into
/// the array, as one little-endian 32-bit store.
fn write_4_same(arr: &mut [u8], start: usize, v: u8)
    requires
        start + 4 <= old(arr)@.len(),
    ensures
        final(arr)@ == old(arr)@.update(start as int, v).update(start + 1, v).update(start + 2, v).update(
            start + 3,
            v,
        ),
{
    let ghost a = arr@;
    let (head, tail) = arr.split_at_mut(start);
    let n: u32 = 0x01010101u32 * (v as u32);
    assert(n % 256 == v && (n / 256) % 256 == v && (n / 65536) % 256 == v && n / 16777216 == v)
        by (bit_vector)
        requires
            n == 0x01010101u32 * (v as u32),
            v <= 255,
    ;
    write_u32_le(tail, n);
    assert(head@ + tail@ =~= a.update(start as int, v).update(start + 1, v).update(start + 2, v).update(
        start + 3,
        v,
    ));
}

/// What `he4` leaves in its work area `a`.
pub open spec fn he4_pred(a: Seq<u8>) -> Seq<u8> {
    block_fill(
        a,
        33,
        4,
        4,
        |x: int, y: int|
            avg3_spec(
                a[32 * y] as int,
                a[32 * y + 32] as int,
                a[if y < 3 { 32 * y + 64 } else { 128 }] as int,
            ),
    )
}

/// 4x4 horizontal prediction: each row is the smoothed sample to its left.
pub fn he4(dst: &mut OffsetArray<u8, 161, 33>)
    ensures
        final(dst).arr@ == he4_pred(old(dst).arr@),
{
    let ghost s0 = dst.arr@;
    let a = *dst.index(-1 - BPS);
    let b = *dst.index(-1);
    let c = *dst.index(-1 + BPS);
    let d = *dst.index(-1 + 2 * BPS);
    let e = *dst.index(-1 + 3 * BPS);
    write_4_same(&mut dst.arr, 33, avg3(a, b, c));
    write_4_same(&mut dst.arr, 33 + UBPS, avg3(b, c, d));
    write_4_same(&mut dst.arr, 33 + 2 * UBPS, avg3(c, d, e));
    write_4_same(&mut dst.arr, 33 + 3 * UBPS, avg3(d, e, e));
    let ghost f = |x: int, y: int|
        avg3_spec(s0[32 * y] as int, s0[32 * y + 32] as int, s0[if y < 3 { 32 * y + 64 } else { 128 }] as int);
    assert(dst.arr@[33int] == f(0, 0) && dst.arr@[34int] == f(1, 0) && dst.arr@[35int] == f(2, 0) && dst.arr@[36int] == f(3, 0));
    assert(dst.arr@[65int] == f(0, 1) && dst.arr@[66int] == f(1, 1) && dst.arr@[67int] == f(2, 1) && dst.arr@[68int] == f(3, 1));
    assert(dst.arr@[97int] == f(0, 2) && dst.arr@[98int] == f(1, 2) && dst.arr@[99int] == f(2, 2) && dst.arr@[100int] == f(3, 2));
    assert(dst.arr@[129int] == f(0, 3) && dst.arr@[130int] == f(1, 3) && dst.arr@[131int] == f(2, 3) && dst.arr@[132int] == f(3, 3));
    proof { lemma_block4_from_values(s0, dst.arr@, 33, f); }
}

/// What `dc4` leaves in its work area `a`.
pub open spec fn dc4_pred(a: Seq<u8>) -> Seq<u8> {
    block_fill(
        a,
        32,
        4,
        4,
        |x: int, y: int| ((4 + sum_row(a, 0, 4) + sum_col(a, 31, 4)) / 8) as u8,
    )
}

/// 4x4 DC prediction: the rounded mean of the 4 top and 4 left samples.
pub fn dc4(dst: &mut OffsetArray<u8, 160, 32>)
    ensures
        final(dst).arr@ == dc4_pred(old(dst).arr@),
{
    let ghost a = dst.arr@;
    let mut dc: u32 = 4;
    for i in 0..4isize
        invariant
            dst.arr@ == a,
            dc == 4 + sum_row(a, 0, i as int) + sum_col(a, 31, i as int),
    {
        proof {
            lemma_sum_row_bound(a, 0, i as int);
            lemma_sum_col_bound(a, 31, i as int);
        }
        dc += (*dst.index(i - BPS) as u32) + (*dst.index(-1 + i * BPS) as u32);
    }
    proof {
        lemma_sum_row_bound(a, 0, 4);
        lemma_sum_col_bound(a, 31, 4);
        lemma_shr_u32(dc);
    }
    let dc = (dc >> 3) as u8;
    let ghost f = |x: int, y: int| dc;
    proof { lemma_fill_start(a, 32, 4, 4, f); }
    for y in 0..4isize
        invariant
            dst.arr@ == block_fill_upto(a, 32, 4, 4, f, y as int, 0),
            f == (|x: int, y: int| dc),
            a.len() == 160,
    {
        for x in 0..4isize
            invariant
                0 <= y < 4,
                dst.arr@ == block_fill_upto(a, 32, 4, 4, f, y as int, x as int),
                f == (|x: int, y: int| dc),
                a.len() == 160,
        {
            proof { lemma_fill_step(a, 32, 4, 4, f, y as int, x as int); }
            dst.set(x + y * BPS, dc);
        }
        proof { lemma_fill_row(a, 32, 4, 4, f, y as int); }
    }
    proof { lemma_fill_end(a, 32, 4, 4, f); }
}

/// What `ve8_uv` leaves in its work area `a`.
pub open spec fn ve8_uv_pred(a: Seq<u8>) -> Seq<u8> {
    block_fill(a, 32, 8, 8, |x: int, y: int| a[x])
}

/// 8x8 chroma vertical prediction: every row repeats the 8 samples above.
pub fn ve8_uv(dst: &mut OffsetArray<u8, 264, 32>)
    ensures
        final(dst).arr@ == ve8_uv_pred(old(dst).arr@),
{
    let ghost a = dst.arr@;
    let ghost f = |x: int, y: int| a[x];
    proof { lemma_fill_start(a, 32, 8, 8, f); }
    for y in 0..8isize
        invariant
            dst.arr@ == block_fill_upto(a, 32, 8, 8, f, y as int, 0),
            f == (|x: int, y: int| a[x]),
            a.len() == dst.arr@.len(),
    {
        for x in 0..8isize
            invariant
                0 <= y < 8,
                dst.arr@ == block_fill_upto(a, 32, 8, 8, f, y as int, x as int),
                f == (|x: int, y: int| a[x]),
                a.len() == dst.arr@.len(),
        {
            proof {
            lemma_fill_outside(a, 32, 8, 8, f, y as int, x as int, x as int);
            }
            let v = *dst.index(x - BPS);
            proof { lemma_fill_step(a, 32, 8, 8, f, y as int, x as int); }
            dst.set(x + y * BPS, v);
        }
        proof { lemma_fill_row(a, 32, 8, 8, f, y as int); }
    }
    proof { lemma_fill_end(a, 32, 8, 8, f); }
}

/// What `he8_uv` leaves in its work area `a`.
pub open spec fn he8_uv_pred(a: Seq<u8>) -> Seq<u8> {
    block_fill(a, 1, 8, 8, |x: int, y: int| a[32 * y])
}

/// 8x8 chroma horizontal prediction: every row repeats the sample to its
/// left.
pub fn he8_uv(dst: &mut OffsetArray<u8, 233, 1>)
    ensures
        final(dst).arr@ == he8_uv_pred(old(dst).arr@),
{
    let ghost a = dst.arr@;
    let ghost f = |x: int, y: int| a[32 * y];
    proof { lemma_fill_start(a, 1, 8, 8, f); }
    for y in 0..8isize
        invariant
            dst.arr@ == block_fill_upto(a, 1, 8, 8, f, y as int, 0),
            f == (|x: int, y: int| a[32 * y]),
            a.len() == dst.arr@.len(),
    {
        for x in 0..8isize
            invariant
                0 <= y < 8,
                dst.arr@ == block_fill_upto(a, 1, 8, 8, f, y as int, x as int),
                f == (|x: int, y: int| a[32 * y]),
                a.len() == dst.arr@.len(),
        {
            proof {
            lemma_fill_outside(a, 1, 8, 8, f, y as int, x as int, 32 * y as int);
            }
            let v = *dst.index(-1 + y * BPS);
            proof { lemma_fill_step(a, 1, 8, 8, f, y as int, x as int); }
            dst.set(x + y * BPS, v);
        }
        proof { lemma_fill_row(a, 1, 8, 8, f, y as int); }
    }
    proof { lemma_fill_end(a, 1, 8, 8, f); }
}

/// What `dc8_uv` leaves in its work area `a`.
pub open spec fn dc8_uv_pred(a: Seq<u8>) -> Seq<u8> {
    block_fill(
        a,
        32,
        8,
        8,
        |x: int, y: int| ((8 + sum_row(a, 0, 8) + sum_col(a, 31, 8)) / 16) as u8,
    )
}

/// 8x8 chroma DC prediction: the rounded mean of the 8 top and 8 left
/// samples.
pub fn dc8_uv(dst: &mut OffsetArray<u8, 264, 32>)
    ensures
        final(dst).arr@ == dc8_uv_pred(old(dst).arr@),
{
    let ghost a = dst.arr@;
    let mut dc0: u32 = 8;
    for i in 0..8isize
        invariant
            dst.arr@ == a,
            dc0 == 8 + sum_row(a, 0, i as int) + sum_col(a, 31, i as int),
    {
        proof {
            lemma_sum_row_bound(a, 0, i as int);
            lemma_sum_col_bound(a, 31, i as int);
        }
        dc0 += (*dst.index(i - BPS) as u32) + (*dst.index(-1 + i * BPS) as u32);
    }
    proof {
        lemma_sum_row_bound(a, 0, 8);
        lemma_sum_col_bound(a, 31, 8);
        lemma_shr_u32(dc0);
    }
    put_8x8_uv_at((dc0 >> 4) as u8, &mut dst.arr, 32);
}

/// What `dc8_uv_no_left` leaves in its work area `a`.
pub open spec fn dc8_uv_no_left_pred(a: Seq<u8>) -> Seq<u8> {
    block_fill(
        a,
        32,
        8,
        8,
        |x: int, y: int| ((4 + sum_row(a, 0, 8)) / 8) as u8,
    )
}

/// 8x8 chroma DC prediction without left samples.
pub fn dc8_uv_no_left(dst: &mut OffsetArray<u8, 264, 32>)
    ensures
        final(dst).arr@ == dc8_uv_no_left_pred(old(dst).arr@),
{
    let ghost a = dst.arr@;
    let mut dc0: u32 = 4;
    for i in 0..8isize
        invariant
            dst.arr@ == a,
            dc0 == 4 + sum_row(a, 0, i as int),
    {
        proof { lemma_sum_row_bound(a, 0, i as int); }
        dc0 += *dst.index(i - BPS) as u32;
    }
    proof {
        lemma_sum_row_bound(a, 0, 8);
        lemma_shr_u32(dc0);
    }
    put_8x8_uv_at((dc0 >> 3) as u8, &mut dst.arr, 32);
}

/// What `dc8_uv_no_top` leaves in its work area `a`.
pub open spec fn dc8_uv_no_top_pred(a: Seq<u8>) -> Seq<u8> {
    block_fill(
        a,
        1,
        8,
        8,
        |x: int, y: int| ((4 + sum_col(a, 0, 8)) / 8) as u8,
    )
}

/// 8x8 chroma DC prediction without top samples.
pub fn dc8_uv_no_top(dst: &mut OffsetArray<u8, 233, 1>)
    ensures
        final(dst).arr@ == dc8_uv_no_top_pred(old(dst).arr@),
{
    let ghost a = dst.arr@;
    let mut dc0: u32 = 4;
    for i in 0..8isize
        invariant
            dst.arr@ == a,
            dc0 == 4 + sum_col(a, 0, i as int),
    {
        proof { lemma_sum_col_bound(a, 0, i as int); }
        dc0 += *dst.index(-1 + i * BPS) as u32;
    }
    proof {
        lemma_sum_col_bound(a, 0, 8);
        lemma_shr_u32(dc0);
    }
    put_8x8_uv_at((dc0 >> 3) as u8, &mut dst.arr, 1);
}

/// What `dc8_uv_no_top_left` leaves in its work area `a`.
pub open spec fn dc8_uv_no_top_left_pred(a: Seq<u8>) -> Seq<u8> {
    block_fill(a, 0, 8, 8, |x: int, y: int| 0x80u8)
}

/// 8x8 chroma DC prediction with neither top nor left samples: mid-grey.
pub fn dc8_uv_no_top_left(dst: &mut [u8; 232])
    ensures
        final(dst)@ == dc8_uv_no_top_left_pred(old(dst)@),
{
    put_8x8_uv(0x80, dst);
}


//------------------------------------------------------------------------------
// Edge filtering functions

/// Arithmetic right shift of an `isize` by 3 is floor division by 8.
proof fn lemma_shr3_isize(x: isize)
    ensures
        (x >> 3u32) as int == (x as int) / 8,
{
    let q = x >> 3u32;
    assert(q * 8 <= x && x < q * 8 + 8) by (bit_vector)
        requires
            q == x >> 3u32;
}

/// Arithmetic right shift of an `isize` by 1 is floor division by 2.
proof fn lemma_shr1_isize(x: isize)
    ensures
        (x >> 1u32) as int == (x as int) / 2,
{
    let q = x >> 1u32;
    assert(q * 2 <= x && x < q * 2 + 2) by (bit_vector)
        requires
            q == x >> 1u32;
}

/// Arithmetic right shift of an `isize` by 7 is floor division by 128.
proof fn lemma_shr7_isize(x: isize)
    ensures
        (x >> 7u32) as int == (x as int) / 128,
{
    let q = x >> 7u32;
    assert(q * 128 <= x && x < q * 128 + 128) by (bit_vector)
        requires
            q == x >> 7u32;
}

/// The sample `k` steps of `st` away from position `z`.
pub open spec fn px(s: Seq<u8>, z: int, k: int, st: int) -> int {
    s[z + k * st] as int
}

/// Positions `z + lo * st` through `z + hi * st` all lie inside `s`.
pub open spec fn window_ok(s: Seq<u8>, z: int, st: int, lo: int, hi: int) -> bool {
    &&& 0 <= z + lo * st < s.len()
    &&& 0 <= z + hi * st < s.len()
}

pub proof fn lemma_window_inner(s: Seq<u8>, z: int, st: int, lo: int, hi: int, k: int)
    requires
        window_ok(s, z, st, lo, hi),
        lo <= k <= hi,
    ensures
        0 <= z + k * st < s.len(),
{
    assert((k - lo) * st + lo * st == k * st) by (nonlinear_arith);
    if st >= 0 {
        assert((k - lo) * st >= 0) by (nonlinear_arith)
            requires
                k - lo >= 0,
                st >= 0,
        ;
        assert((hi - k) * st >= 0) by (nonlinear_arith)
            requires
                hi - k >= 0,
                st >= 0,
        ;
        assert((hi - k) * st + k * st == hi * st) by (nonlinear_arith);
    } else {
        assert((k - lo) * st <= 0) by (nonlinear_arith)
            requires
                k - lo >= 0,
                st < 0,
        ;
        assert((hi - k) * st <= 0) by (nonlinear_arith)
            requires
                hi - k >= 0,
                st < 0,
        ;
        assert((hi - k) * st + k * st == hi * st) by (nonlinear_arith);
    }
}

/// The 2-tap filter: adjusts the two samples on either side of the edge.
pub open spec fn filter2_spec(s: Seq<u8>, z: int, st: int) -> Seq<u8> {
    let p1 = px(s, z, -2, st);
    let p0 = px(s, z, -1, st);
    let q0 = px(s, z, 0, st);
    let q1 = px(s, z, 1, st);
    let a = 3 * (q0 - p0) + clamp(p1 - q1, -128, 127);
    let a1 = clamp((a + 4) / 8, -16, 15);
    let a2 = clamp((a + 3) / 8, -16, 15);
    s.update(z - st, clamp(p0 + a2, 0, 255) as u8).update(z, clamp(q0 - a1, 0, 255) as u8)
}

/// The 4-tap filter used on inner edges.
pub open spec fn filter4_spec(s: Seq<u8>, z: int, st: int) -> Seq<u8> {
    let p1 = px(s, z, -2, st);
    let p0 = px(s, z, -1, st);
    let q0 = px(s, z, 0, st);
    let q1 = px(s, z, 1, st);
    let a = 3 * (q0 - p0);
    let a1 = clamp((a + 4) / 8, -16, 15);
    let a2 = clamp((a + 3) / 8, -16, 15);
    let a3 = (a1 + 1) / 2;
    s.update(z - 2 * st, clamp(p1 + a3, 0, 255) as u8).update(z - st, clamp(p0 + a2, 0, 255) as u8).update(
        z,
        clamp(q0 - a1, 0, 255) as u8,
    ).update(z + st, clamp(q1 - a3, 0, 255) as u8)
}

/// The 6-tap filter used on macroblock edges.
pub open spec fn filter6_spec(s: Seq<u8>, z: int, st: int) -> Seq<u8> {
    let p2 = px(s, z, -3, st);
    let p1 = px(s, z, -2, st);
    let p0 = px(s, z, -1, st);
    let q0 = px(s, z, 0, st);
    let q1 = px(s, z, 1, st);
    let q2 = px(s, z, 2, st);
    let a = clamp(3 * (q0 - p0) + clamp(p1 - q1, -128, 127), -128, 127);
    let a1 = (27 * a + 63) / 128;
    let a2 = (18 * a + 63) / 128;
    let a3 = (9 * a + 63) / 128;
    s.update(z - 3 * st, clamp(p2 + a3, 0, 255) as u8).update(z - 2 * st, clamp(p1 + a2, 0, 255) as u8).update(
        z - st,
        clamp(p0 + a1, 0, 255) as u8,
    ).update(z, clamp(q0 - a1, 0, 255) as u8).update(z + st, clamp(q1 - a2, 0, 255) as u8).update(
        z + 2 * st,
        clamp(q2 - a3, 0, 255) as u8,
    )
}

/// High edge variance: one of the two sides steps by more than `thresh`.
pub open spec fn hev_spec(s: Seq<u8>, z: int, st: int, thresh: int) -> bool {
    abs_int(px(s, z, -2, st) - px(s, z, -1, st)) > thresh || abs_int(px(s, z, 1, st) - px(s, z, 0, st))
        > thresh
}

/// The edge is smooth enough (weighted step at most `t`) to be filtered.
pub open spec fn needs_filter_spec(s: Seq<u8>, z: int, st: int, t: int) -> bool {
    4 * abs_int(px(s, z, -1, st) - px(s, z, 0, st)) + abs_int(px(s, z, -2, st) - px(s, z, 1, st)) <= t
}

/// `needs_filter_spec`, and every interior step on either side is at most `it`.
pub open spec fn needs_filter2_spec(s: Seq<u8>, z: int, st: int, t: int, it: int) -> bool {
    &&& needs_filter_spec(s, z, st, t)
    &&& abs_int(px(s, z, -4, st) - px(s, z, -3, st)) <= it
    &&& abs_int(px(s, z, -3, st) - px(s, z, -2, st)) <= it
    &&& abs_int(px(s, z, -2, st) - px(s, z, -1, st)) <= it
    &&& abs_int(px(s, z, 3, st) - px(s, z, 2, st)) <= it
    &&& abs_int(px(s, z, 2, st) - px(s, z, 1, st)) <= it
    &&& abs_int(px(s, z, 1, st) - px(s, z, 0, st)) <= it
}

/// Reads the sample `k` steps of `step` from the zero position.
fn sample(p: &OffsetSliceRefMut<u8>, k: isize, step: isize) -> (r: isize)
    requires
        old(p.slice)@.len() <= isize::MAX,
        -4 <= k <= 3,
        0 <= p.zero < old(p.slice)@.len(),
        0 <= p.zero + k * step < old(p.slice)@.len(),
    ensures
        r == px(old(p.slice)@, p.zero as int, k as int, step as int),
{
    *p.index(k * step) as isize
}


/// 4 pixels in, 2 pixels out.
pub fn do_filter_2(p: &mut OffsetSliceRefMut<u8>, step: isize)
    requires
        old(p).slice@.len() <= isize::MAX,
        window_ok(old(p).slice@, old(p).zero as int, step as int, -2, 1),
    ensures
        final(p).slice@ == filter2_spec(old(p).slice@, old(p).zero as int, step as int),
        final(p).zero == old(p).zero,
        final(final(p).slice)@ == final(old(p).slice)@,
{
    let ghost s = p.slice@;
    let ghost z = p.zero as int;
    proof {
        lemma_window_inner(s, z, step as int, -2, 1, -1);
        lemma_window_inner(s, z, step as int, -2, 1, 0);
    }
    let p1 = sample(p, -2, step);
    let p0 = sample(p, -1, step);
    let q0 = sample(p, 0, step);
    let q1 = sample(p, 1, step);
    let a = 3 * (q0 - p0) + vp8_ksclip1(p1 - q1) as isize;  // in [-893,892]
    let a_4 = a + 4;
    let a_3 = a + 3;
    proof {
        lemma_shr3_isize(a_4);
        lemma_shr3_isize(a_3);
    }
    let a1 = vp8_ksclip2(a_4 >> 3) as isize;  // in [-16,15]
    let a2 = vp8_ksclip2(a_3 >> 3) as isize;
    p.set(-step, vp8_kclip1(p0 + a2));
    p.set(0, vp8_kclip1(q0 - a1));
}

/// 4 pixels in, 4 pixels out.
pub fn do_filter_4(p: &mut OffsetSliceRefMut<u8>, step: isize)
    requires
        old(p).slice@.len() <= isize::MAX,
        window_ok(old(p).slice@, old(p).zero as int, step as int, -2, 1),
    ensures
        final(p).slice@ == filter4_spec(old(p).slice@, old(p).zero as int, step as int),
        final(p).zero == old(p).zero,
        final(final(p).slice)@ == final(old(p).slice)@,
{
    let ghost s = p.slice@;
    let ghost z = p.zero as int;
    proof {
        lemma_window_inner(s, z, step as int, -2, 1, -1);
        lemma_window_inner(s, z, step as int, -2, 1, 0);
    }
    let p1 = sample(p, -2, step);
    let p0 = sample(p, -1, step);
    let q0 = sample(p, 0, step);
    let q1 = sample(p, 1, step);
    let a = 3 * (q0 - p0);
    let a_4 = a + 4;
    let a_3 = a + 3;
    proof {
        lemma_shr3_isize(a_4);
        lemma_shr3_isize(a_3);
    }
    let a1 = vp8_ksclip2(a_4 >> 3) as isize;
    let a2 = vp8_ksclip2(a_3 >> 3) as isize;
    let a1_1 = a1 + 1;
    proof { lemma_shr1_isize(a1_1); }
    let a3 = a1_1 >> 1;
    p.set(-2 * step, vp8_kclip1(p1 + a3));
    p.set(-step, vp8_kclip1(p0 + a2));
    p.set(0, vp8_kclip1(q0 - a1));
    p.set(step, vp8_kclip1(q1 - a3));
}

/// 6 pixels in, 6 pixels out.
#[verifier::rlimit(40)]
pub fn do_filter_6(p: &mut OffsetSliceRefMut<u8>, step: isize)
    requires
        old(p).slice@.len() <= isize::MAX,
        window_ok(old(p).slice@, old(p).zero as int, step as int, -3, 2),
    ensures
        final(p).slice@ == filter6_spec(old(p).slice@, old(p).zero as int, step as int),
        final(p).zero == old(p).zero,
        final(final(p).slice)@ == final(old(p).slice)@,
{
    let ghost s = p.slice@;
    let ghost z = p.zero as int;
    proof {
        lemma_window_inner(s, z, step as int, -3, 2, -2);
        lemma_window_inner(s, z, step as int, -3, 2, -1);
        lemma_window_inner(s, z, step as int, -3, 2, 0);
        lemma_window_inner(s, z, step as int, -3, 2, 1);
    }
    let p2 = sample(p, -3, step);
    let p1 = sample(p, -2, step);
    let p0 = sample(p, -1, step);
    let q0 = sample(p, 0, step);
    let q1 = sample(p, 1, step);
    let q2 = sample(p, 2, step);
    let a = vp8_ksclip1(3 * (q0 - p0) + vp8_ksclip1(p1 - q1) as isize) as isize;
    // a is in [-128,127], a1 in [-27,27], a2 in [-18,18] and a3 in [-9,9]
    let t1 = 27 * a + 63;
    let t2 = 18 * a + 63;
    let t3 = 9 * a + 63;
    proof {
        lemma_shr7_isize(t1);
        lemma_shr7_isize(t2);
        lemma_shr7_isize(t3);
    }
    let a1 = t1 >> 7;
    let a2 = t2 >> 7;
    let a3 = t3 >> 7;
    p.set(-3 * step, vp8_kclip1(p2 + a3));
    p.set(-2 * step, vp8_kclip1(p1 + a2));
    p.set(-step, vp8_kclip1(p0 + a1));
    p.set(0, vp8_kclip1(q0 - a1));
    p.set(step, vp8_kclip1(q1 - a2));
    p.set(2 * step, vp8_kclip1(q2 - a3));
}

/// High edge variance test.
pub fn hev(p: &mut OffsetSliceRefMut<u8>, step: isize, thresh: u8) -> (r: bool)
    requires
        old(p).slice@.len() <= isize::MAX,
        window_ok(old(p).slice@, old(p).zero as int, step as int, -2, 1),
    ensures
        r == hev_spec(old(p).slice@, old(p).zero as int, step as int, thresh as int),
        final(p).slice@ == old(p).slice@,
        final(p).zero == old(p).zero,
        final(final(p).slice)@ == final(old(p).slice)@,
{
    let ghost s = p.slice@;
    let ghost z = p.zero as int;
    proof {
        lemma_window_inner(s, z, step as int, -2, 1, -1);
        lemma_window_inner(s, z, step as int, -2, 1, 0);
    }
    let p1 = sample(p, -2, step);
    let p0 = sample(p, -1, step);
    let q0 = sample(p, 0, step);
    let q1 = sample(p, 1, step);
    vp8_kabs0(p1 - p0) > thresh || vp8_kabs0(q1 - q0) > thresh
}

/// Simple-filter edge test.
pub fn needs_filter(p: &mut OffsetSliceRefMut<u8>, step: isize, t: u32) -> (r: bool)
    requires
        old(p).slice@.len() <= isize::MAX,
        window_ok(old(p).slice@, old(p).zero as int, step as int, -2, 1),
    ensures
        r == needs_filter_spec(old(p).slice@, old(p).zero as int, step as int, t as int),
        final(p).slice@ == old(p).slice@,
        final(p).zero == old(p).zero,
        final(final(p).slice)@ == final(old(p).slice)@,
{
    let ghost s = p.slice@;
    let ghost z = p.zero as int;
    proof {
        lemma_window_inner(s, z, step as int, -2, 1, -1);
        lemma_window_inner(s, z, step as int, -2, 1, 0);
    }
    let p1 = sample(p, -2, step);
    let p0 = sample(p, -1, step);
    let q0 = sample(p, 0, step);
    let q1 = sample(p, 1, step);
    (4 * (vp8_kabs0(p0 - q0) as u32) + (vp8_kabs0(p1 - q1) as u32)) <= t
}

/// Complex-filter edge test.
pub fn needs_filter_2(p: &mut OffsetSliceRefMut<u8>, step: isize, t: u32, it: u8) -> (r: bool)
    requires
        old(p).slice@.len() <= isize::MAX,
        window_ok(old(p).slice@, old(p).zero as int, step as int, -4, 3),
    ensures
        r == needs_filter2_spec(old(p).slice@, old(p).zero as int, step as int, t as int, it as int),
        final(p).slice@ == old(p).slice@,
        final(p).zero == old(p).zero,
        final(final(p).slice)@ == final(old(p).slice)@,
{
    let ghost s = p.slice@;
    let ghost z = p.zero as int;
    proof {
        lemma_window_inner(s, z, step as int, -4, 3, -3);
        lemma_window_inner(s, z, step as int, -4, 3, -2);
        lemma_window_inner(s, z, step as int, -4, 3, -1);
        lemma_window_inner(s, z, step as int, -4, 3, 0);
        lemma_window_inner(s, z, step as int, -4, 3, 1);
        lemma_window_inner(s, z, step as int, -4, 3, 2);
    }
    let p3 = sample(p, -4, step);
    let p2 = sample(p, -3, step);
    let p1 = sample(p, -2, step);
    let p0 = sample(p, -1, step);
    let q0 = sample(p, 0, step);
    let q1 = sample(p, 1, step);
    let q2 = sample(p, 2, step);
    let q3 = sample(p, 3, step);
    if (4 * (vp8_kabs0(p0 - q0) as u32) + (vp8_kabs0(p1 - q1) as u32)) > t {
        return false;
    }
    vp8_kabs0(p3 - p2) <= it && vp8_kabs0(p2 - p1) <= it && vp8_kabs0(p1 - p0) <= it && vp8_kabs0(q3 - q2)
        <= it && vp8_kabs0(q2 - q1) <= it && vp8_kabs0(q1 - q0) <= it
}


//------------------------------------------------------------------------------
// Simple In-loop filtering (Paragraph 15.2)

/// One position of the simple filter: 2-tap filtering where the edge is
/// smooth enough.
pub open spec fn simple_step(s: Seq<u8>, z: int, st: int, t: int) -> Seq<u8> {
    if needs_filter_spec(s, z, st, t) {
        filter2_spec(s, z, st)
    } else {
        s
    }
}

/// The simple filter at `n` positions `z, z + adv, z + 2 * adv, ...`, in turn.
pub open spec fn simple_run(s: Seq<u8>, z: int, st: int, t: int, adv: int, n: int) -> Seq<u8>
    decreases n,
{
    if n <= 0 {
        s
    } else {
        simple_run(simple_step(s, z, st, t), z + adv, st, t, adv, n - 1)
    }
}

/// Every one of the `n` positions `z, z + adv, ...` has its window
/// `lo * st ..= hi * st` inside a buffer of length `len`.
pub open spec fn run_windows_ok(len: int, z: int, st: int, adv: int, lo: int, hi: int, n: int) -> bool
    decreases n,
{
    if n <= 0 {
        true
    } else {
        &&& 0 <= z + lo * st < len
        &&& 0 <= z + hi * st < len
        &&& run_windows_ok(len, z + adv, st, adv, lo, hi, n - 1)
    }
}

/// The simple filter across a horizontal edge of 16 samples (filtering
/// vertically, `stride` apart).
pub fn simple_v_filter_16(p: &mut OffsetSliceRefMut<u8>, stride: isize, thresh: u32)
    requires
        old(p).slice@.len() <= isize::MAX,
        thresh < 0x7fff_ffff,
        run_windows_ok(old(p).slice@.len() as int, old(p).zero as int, stride as int, 1, -2, 1, 16),
    ensures
        final(p).slice@.len() == old(p).slice@.len(),
        final(p).slice@ == simple_run(old(p).slice@, old(p).zero as int, stride as int, 2 * thresh + 1, 1, 16),
        final(p).zero == old(p).zero,
        final(final(p).slice)@ == final(old(p).slice)@,
{
    let ghost s0 = p.slice@;
    let ghost z0 = p.zero as int;
    let thresh2 = 2 * thresh + 1;
    for i in 0..16isize
        invariant
            p.slice@.len() == s0.len(),
            s0.len() <= isize::MAX,
            p.zero == z0,
            thresh2 == 2 * thresh + 1,
            run_windows_ok(s0.len() as int, z0 + i, stride as int, 1, -2, 1, 16 - i),
            simple_run(p.slice@, z0 + i, stride as int, thresh2 as int, 1, 16 - i) == simple_run(
                s0,
                z0,
                stride as int,
                thresh2 as int,
                1,
                16,
            ),
            final(p.slice)@ == final(old(p).slice)@,
    {
        let ghost cur = p.slice@;
        let b = {
            let mut q = p.with_offset(i);
            let r = needs_filter(&mut q, stride, thresh2);
            proof {
                assert(has_resolved(q.slice));
                assert(q.slice@ == final(q.slice)@);
            }
            r
        };
        assert(p.slice@ == cur);
        if b {
            let mut q = p.with_offset(i);
            do_filter_2(&mut q, stride);
            proof {
                assert(has_resolved(q.slice));
                assert(q.slice@ == final(q.slice)@);
            }
        }
        assert(p.slice@ == simple_step(cur, z0 + i, stride as int, thresh2 as int));
    }
}



/// What `rd4` leaves in its work area `a`.
pub open spec fn rd4_pred(a: Seq<u8>) -> Seq<u8> {
    block_fill(a, 33, 4, 4, |x: int, y: int| avg3_spec(rd4_edge(a, x - y + 3), rd4_edge(a, x - y + 4), rd4_edge(a, x - y + 5)))
}

/// 4x4 down-right diagonal prediction.
pub fn rd4(dst: &mut OffsetArray<u8, 133, 33>)
    ensures
        final(dst).arr@ == rd4_pred(old(dst).arr@),
{
    let ghost s0 = dst.arr@;
    assert(frame4(s0, s0, 33));
    let i = *dst.index(-1);
    let j = *dst.index(-1 + BPS);
    let k = *dst.index(-1 + 2 * BPS);
    let l = *dst.index(-1 + 3 * BPS);
    let x = *dst.index(-1 - BPS);
    let a = *dst.index(-BPS);
    let b = *dst.index(1 - BPS);
    let c = *dst.index(2 - BPS);
    let d = *dst.index(3 - BPS);
    let v0 = avg3(j, k, l);
    let ghost prev = dst.arr@;
    dst.set(0 + 3 * BPS, v0);
    proof { lemma_frame4_step(prev, s0, 33, 0, 3, v0); }
    let v1 = avg3(i, j, k);
    let ghost prev = dst.arr@;
    dst.set(1 + 3 * BPS, v1);
    proof { lemma_frame4_step(prev, s0, 33, 1, 3, v1); }
    let ghost prev = dst.arr@;
    dst.set(0 + 2 * BPS, v1);
    proof { lemma_frame4_step(prev, s0, 33, 0, 2, v1); }
    let v2 = avg3(x, i, j);
    let ghost prev = dst.arr@;
    dst.set(2 + 3 * BPS, v2);
    proof { lemma_frame4_step(prev, s0, 33, 2, 3, v2); }
    let ghost prev = dst.arr@;
    dst.set(1 + 2 * BPS, v2);
    proof { lemma_frame4_step(prev, s0, 33, 1, 2, v2); }
    let ghost prev = dst.arr@;
    dst.set(0 + 1 * BPS, v2);
    proof { lemma_frame4_step(prev, s0, 33, 0, 1, v2); }
    let v3 = avg3(a, x, i);
    let ghost prev = dst.arr@;
    dst.set(3 + 3 * BPS, v3);
    proof { lemma_frame4_step(prev, s0, 33, 3, 3, v3); }
    let ghost prev = dst.arr@;
    dst.set(2 + 2 * BPS, v3);
    proof { lemma_frame4_step(prev, s0, 33, 2, 2, v3); }
    let ghost prev = dst.arr@;
    dst.set(1 + 1 * BPS, v3);
    proof { lemma_frame4_step(prev, s0, 33, 1, 1, v3); }
    let ghost prev = dst.arr@;
    dst.set(0 + 0 * BPS, v3);
    proof { lemma_frame4_step(prev, s0, 33, 0, 0, v3); }
    let v4 = avg3(b, a, x);
    let ghost prev = dst.arr@;
    dst.set(3 + 2 * BPS, v4);
    proof { lemma_frame4_step(prev, s0, 33, 3, 2, v4); }
    let ghost prev = dst.arr@;
    dst.set(2 + 1 * BPS, v4);
    proof { lemma_frame4_step(prev, s0, 33, 2, 1, v4); }
    let ghost prev = dst.arr@;
    dst.set(1 + 0 * BPS, v4);
    proof { lemma_frame4_step(prev, s0, 33, 1, 0, v4); }
    let v5 = avg3(c, b, a);
    let ghost prev = dst.arr@;
    dst.set(3 + 1 * BPS, v5);
    proof { lemma_frame4_step(prev, s0, 33, 3, 1, v5); }
    let ghost prev = dst.arr@;
    dst.set(2 + 0 * BPS, v5);
    proof { lemma_frame4_step(prev, s0, 33, 2, 0, v5); }
    let v6 = avg3(d, c, b);
    let ghost prev = dst.arr@;
    dst.set(3 + 0 * BPS, v6);
    proof { lemma_frame4_step(prev, s0, 33, 3, 0, v6); }
    let ghost f = |x: int, y: int| avg3_spec(rd4_edge(s0, x - y + 3), rd4_edge(s0, x - y + 4), rd4_edge(s0, x - y + 5));
    assert(dst.arr@[33int] == f(0, 0));
    assert(dst.arr@[34int] == f(1, 0));
    assert(dst.arr@[35int] == f(2, 0));
    assert(dst.arr@[36int] == f(3, 0));
    assert(dst.arr@[65int] == f(0, 1));
    assert(dst.arr@[66int] == f(1, 1));
    assert(dst.arr@[67int] == f(2, 1));
    assert(dst.arr@[68int] == f(3, 1));
    assert(dst.arr@[97int] == f(0, 2));
    assert(dst.arr@[98int] == f(1, 2));
    assert(dst.arr@[99int] == f(2, 2));
    assert(dst.arr@[100int] == f(3, 2));
    assert(dst.arr@[129int] == f(0, 3));
    assert(dst.arr@[130int] == f(1, 3));
    assert(dst.arr@[131int] == f(2, 3));
    assert(dst.arr@[132int] == f(3, 3));
    proof { lemma_block4_from_values(s0, dst.arr@, 33, f); }
}


/// What `ld4` leaves in its work area `a`.
pub open spec fn ld4_pred(a: Seq<u8>) -> Seq<u8> {
    block_fill(a, 32, 4, 4, |x: int, y: int| avg3_spec(a[x + y] as int, a[x + y + 1] as int, a[if x + y + 2 <= 7 { x + y + 2 } else { 7 }] as int))
}

/// 4x4 down-left diagonal prediction.
pub fn ld4(dst: &mut OffsetArray<u8, 132, 32>)
    ensures
        final(dst).arr@ == ld4_pred(old(dst).arr@),
{
    let ghost s0 = dst.arr@;
    assert(frame4(s0, s0, 32));
    let a = *dst.index(0 - BPS);
    let b = *dst.index(1 - BPS);
    let c = *dst.index(2 - BPS);
    let d = *dst.index(3 - BPS);
    let e = *dst.index(4 - BPS);
    let f = *dst.index(5 - BPS);
    let g = *dst.index(6 - BPS);
    let h = *dst.index(7 - BPS);
    let v0 = avg3(a, b, c);
    let ghost prev = dst.arr@;
    dst.set(0 + 0 * BPS, v0);
    proof { lemma_frame4_step(prev, s0, 32, 0, 0, v0); }
    let v1 = avg3(b, c, d);
    let ghost prev = dst.arr@;
    dst.set(1 + 0 * BPS, v1);
    proof { lemma_frame4_step(prev, s0, 32, 1, 0, v1); }
    let ghost prev = dst.arr@;
    dst.set(0 + 1 * BPS, v1);
    proof { lemma_frame4_step(prev, s0, 32, 0, 1, v1); }
    let v2 = avg3(c, d, e);
    let ghost prev = dst.arr@;
    dst.set(2 + 0 * BPS, v2);
    proof { lemma_frame4_step(prev, s0, 32, 2, 0, v2); }
    let ghost prev = dst.arr@;
    dst.set(1 + 1 * BPS, v2);
    proof { lemma_frame4_step(prev, s0, 32, 1, 1, v2); }
    let ghost prev = dst.arr@;
    dst.set(0 + 2 * BPS, v2);
    proof { lemma_frame4_step(prev, s0, 32, 0, 2, v2); }
    let v3 = avg3(d, e, f);
    let ghost prev = dst.arr@;
    dst.set(3 + 0 * BPS, v3);
    proof { lemma_frame4_step(prev, s0, 32, 3, 0, v3); }
    let ghost prev = dst.arr@;
    dst.set(2 + 1 * BPS, v3);
    proof { lemma_frame4_step(prev, s0, 32, 2, 1, v3); }
    let ghost prev = dst.arr@;
    dst.set(1 + 2 * BPS, v3);
    proof { lemma_frame4_step(prev, s0, 32, 1, 2, v3); }
    let ghost prev = dst.arr@;
    dst.set(0 + 3 * BPS, v3);
    proof { lemma_frame4_step(prev, s0, 32, 0, 3, v3); }
    let v4 = avg3(e, f, g);
    let ghost prev = dst.arr@;
    dst.set(3 + 1 * BPS, v4);
    proof { lemma_frame4_step(prev, s0, 32, 3, 1, v4); }
    let ghost prev = dst.arr@;
    dst.set(2 + 2 * BPS, v4);
    proof { lemma_frame4_step(prev, s0, 32, 2, 2, v4); }
    let ghost prev = dst.arr@;
    dst.set(1 + 3 * BPS, v4);
    proof { lemma_frame4_step(prev, s0, 32, 1, 3, v4); }
    let v5 = avg3(f, g, h);
    let ghost prev = dst.arr@;
    dst.set(3 + 2 * BPS, v5);
    proof { lemma_frame4_step(prev, s0, 32, 3, 2, v5); }
    let ghost prev = dst.arr@;
    dst.set(2 + 3 * BPS, v5);
    proof { lemma_frame4_step(prev, s0, 32, 2, 3, v5); }
    let v6 = avg3(g, h, h);
    let ghost prev = dst.arr@;
    dst.set(3 + 3 * BPS, v6);
    proof { lemma_frame4_step(prev, s0, 32, 3, 3, v6); }
    let ghost f = |x: int, y: int| avg3_spec(s0[x + y] as int, s0[x + y + 1] as int, s0[if x + y + 2 <= 7 { x + y + 2 } else { 7 }] as int);
    assert(dst.arr@[32int] == f(0, 0));
    assert(dst.arr@[33int] == f(1, 0));
    assert(dst.arr@[34int] == f(2, 0));
    assert(dst.arr@[35int] == f(3, 0));
    assert(dst.arr@[64int] == f(0, 1));
    assert(dst.arr@[65int] == f(1, 1));
    assert(dst.arr@[66int] == f(2, 1));
    assert(dst.arr@[67int] == f(3, 1));
    assert(dst.arr@[96int] == f(0, 2));
    assert(dst.arr@[97int] == f(1, 2));
    assert(dst.arr@[98int] == f(2, 2));
    assert(dst.arr@[99int] == f(3, 2));
    assert(dst.arr@[128int] == f(0, 3));
    assert(dst.arr@[129int] == f(1, 3));
    assert(dst.arr@[130int] == f(2, 3));
    assert(dst.arr@[131int] == f(3, 3));
    proof { lemma_block4_from_values(s0, dst.arr@, 32, f); }
}

/// What `vr4` leaves in its work area `a`.
pub open spec fn vr4_pred(a: Seq<u8>) -> Seq<u8> {
    block_fill(a, 33, 4, 4, |x: int, y: int| if 2 * x - y >= 0 && (2 * x - y) % 2 == 0 { avg2_spec(rd4_edge(a, 4 + (2 * x - y) / 2), rd4_edge(a, 5 + (2 * x - y) / 2)) } else if 2 * x - y >= -1 { avg3_spec(rd4_edge(a, (2 * x - y + 7) / 2), rd4_edge(a, (2 * x - y + 9) / 2), rd4_edge(a, (2 * x - y + 11) / 2)) } else { avg3_spec(rd4_edge(a, 2 * x - y + 4), rd4_edge(a, 2 * x - y + 5), rd4_edge(a, 2 * x - y + 6)) })
}

/// 4x4 vertical-right prediction.
pub fn vr4(dst: &mut OffsetArray<u8, 133, 33>)
    ensures
        final(dst).arr@ == vr4_pred(old(dst).arr@),
{
    let ghost s0 = dst.arr@;
    assert(frame4(s0, s0, 33));
    let i = *dst.index(-1);
    let j = *dst.index(-1 + BPS);
    let k = *dst.index(-1 + 2 * BPS);
    let x = *dst.index(-1 - BPS);
    let a = *dst.index(-BPS);
    let b = *dst.index(1 - BPS);
    let c = *dst.index(2 - BPS);
    let d = *dst.index(3 - BPS);
    let v0 = avg2(x, a);
    let ghost prev = dst.arr@;
    dst.set(0 + 0 * BPS, v0);
    proof { lemma_frame4_step(prev, s0, 33, 0, 0, v0); }
    let ghost prev = dst.arr@;
    dst.set(1 + 2 * BPS, v0);
    proof { lemma_frame4_step(prev, s0, 33, 1, 2, v0); }
    let v1 = avg2(a, b);
    let ghost prev = dst.arr@;
    dst.set(1 + 0 * BPS, v1);
    proof { lemma_frame4_step(prev, s0, 33, 1, 0, v1); }
    let ghost prev = dst.arr@;
    dst.set(2 + 2 * BPS, v1);
    proof { lemma_frame4_step(prev, s0, 33, 2, 2, v1); }
    let v2 = avg2(b, c);
    let ghost prev = dst.arr@;
    dst.set(2 + 0 * BPS, v2);
    proof { lemma_frame4_step(prev, s0, 33, 2, 0, v2); }
    let ghost prev = dst.arr@;
    dst.set(3 + 2 * BPS, v2);
    proof { lemma_frame4_step(prev, s0, 33, 3, 2, v2); }
    let v3 = avg2(c, d);
    let ghost prev = dst.arr@;
    dst.set(3 + 0 * BPS, v3);
    proof { lemma_frame4_step(prev, s0, 33, 3, 0, v3); }
    let v4 = avg3(k, j, i);
    let ghost prev = dst.arr@;
    dst.set(0 + 3 * BPS, v4);
    proof { lemma_frame4_step(prev, s0, 33, 0, 3, v4); }
    let v5 = avg3(j, i, x);
    let ghost prev = dst.arr@;
    dst.set(0 + 2 * BPS, v5);
    proof { lemma_frame4_step(prev, s0, 33, 0, 2, v5); }
    let v6 = avg3(i, x, a);
    let ghost prev = dst.arr@;
    dst.set(0 + 1 * BPS, v6);
    proof { lemma_frame4_step(prev, s0, 33, 0, 1, v6); }
    let ghost prev = dst.arr@;
    dst.set(1 + 3 * BPS, v6);
    proof { lemma_frame4_step(prev, s0, 33, 1, 3, v6); }
    let v7 = avg3(x, a, b);
    let ghost prev = dst.arr@;
    dst.set(1 + 1 * BPS, v7);
    proof { lemma_frame4_step(prev, s0, 33, 1, 1, v7); }
    let ghost prev = dst.arr@;
    dst.set(2 + 3 * BPS, v7);
    proof { lemma_frame4_step(prev, s0, 33, 2, 3, v7); }
    let v8 = avg3(a, b, c);
    let ghost prev = dst.arr@;
    dst.set(2 + 1 * BPS, v8);
    proof { lemma_frame4_step(prev, s0, 33, 2, 1, v8); }
    let ghost prev = dst.arr@;
    dst.set(3 + 3 * BPS, v8);
    proof { lemma_frame4_step(prev, s0, 33, 3, 3, v8); }
    let v9 = avg3(b, c, d);
    let ghost prev = dst.arr@;
    dst.set(3 + 1 * BPS, v9);
    proof { lemma_frame4_step(prev, s0, 33, 3, 1, v9); }
    let ghost f = |x: int, y: int| if 2 * x - y >= 0 && (2 * x - y) % 2 == 0 { avg2_spec(rd4_edge(s0, 4 + (2 * x - y) / 2), rd4_edge(s0, 5 + (2 * x - y) / 2)) } else if 2 * x - y >= -1 { avg3_spec(rd4_edge(s0, (2 * x - y + 7) / 2), rd4_edge(s0, (2 * x - y + 9) / 2), rd4_edge(s0, (2 * x - y + 11) / 2)) } else { avg3_spec(rd4_edge(s0, 2 * x - y + 4), rd4_edge(s0, 2 * x - y + 5), rd4_edge(s0, 2 * x - y + 6)) };
    assert(dst.arr@[33int] == f(0, 0));
    assert(dst.arr@[34int] == f(1, 0));
    assert(dst.arr@[35int] == f(2, 0));
    assert(dst.arr@[36int] == f(3, 0));
    assert(dst.arr@[65int] == f(0, 1));
    assert(dst.arr@[66int] == f(1, 1));
    assert(dst.arr@[67int] == f(2, 1));
    assert(dst.arr@[68int] == f(3, 1));
    assert(dst.arr@[97int] == f(0, 2));
    assert(dst.arr@[98int] == f(1, 2));
    assert(dst.arr@[99int] == f(2, 2));
    assert(dst.arr@[100int] == f(3, 2));
    assert(dst.arr@[129int] == f(0, 3));
    assert(dst.arr@[130int] == f(1, 3));
    assert(dst.arr@[131int] == f(2, 3));
    assert(dst.arr@[132int] == f(3, 3));
    proof { lemma_block4_from_values(s0, dst.arr@, 33, f); }
}

/// What `vl4` leaves in its work area `a`.
pub open spec fn vl4_pred(a: Seq<u8>) -> Seq<u8> {
    block_fill(a, 32, 4, 4, |x: int, y: int| if x == 3 && y == 2 { avg3_spec(a[4] as int, a[5] as int, a[6] as int) } else if x == 3 && y == 3 { avg3_spec(a[5] as int, a[6] as int, a[7] as int) } else if y % 2 == 0 { avg2_spec(a[x + y / 2] as int, a[x + y / 2 + 1] as int) } else { avg3_spec(a[x + y / 2] as int, a[x + y / 2 + 1] as int, a[x + y / 2 + 2] as int) })
}

/// 4x4 vertical-left prediction.
pub fn vl4(dst: &mut OffsetArray<u8, 132, 32>)
    ensures
        final(dst).arr@ == vl4_pred(old(dst).arr@),
{
    let ghost s0 = dst.arr@;
    assert(frame4(s0, s0, 32));
    let a = *dst.index(0 - BPS);
    let b = *dst.index(1 - BPS);
    let c = *dst.index(2 - BPS);
    let d = *dst.index(3 - BPS);
    let e = *dst.index(4 - BPS);
    let f = *dst.index(5 - BPS);
    let g = *dst.index(6 - BPS);
    let h = *dst.index(7 - BPS);
    let v0 = avg2(a, b);
    let ghost prev = dst.arr@;
    dst.set(0 + 0 * BPS, v0);
    proof { lemma_frame4_step(prev, s0, 32, 0, 0, v0); }
    let v1 = avg2(b, c);
    let ghost prev = dst.arr@;
    dst.set(1 + 0 * BPS, v1);
    proof { lemma_frame4_step(prev, s0, 32, 1, 0, v1); }
    let ghost prev = dst.arr@;
    dst.set(0 + 2 * BPS, v1);
    proof { lemma_frame4_step(prev, s0, 32, 0, 2, v1); }
    let v2 = avg2(c, d);
    let ghost prev = dst.arr@;
    dst.set(2 + 0 * BPS, v2);
    proof { lemma_frame4_step(prev, s0, 32, 2, 0, v2); }
    let ghost prev = dst.arr@;
    dst.set(1 + 2 * BPS, v2);
    proof { lemma_frame4_step(prev, s0, 32, 1, 2, v2); }
    let v3 = avg2(d, e);
    let ghost prev = dst.arr@;
    dst.set(3 + 0 * BPS, v3);
    proof { lemma_frame4_step(prev, s0, 32, 3, 0, v3); }
    let ghost prev = dst.arr@;
    dst.set(2 + 2 * BPS, v3);
    proof { lemma_frame4_step(prev, s0, 32, 2, 2, v3); }
    let v4 = avg3(a, b, c);
    let ghost prev = dst.arr@;
    dst.set(0 + 1 * BPS, v4);
    proof { lemma_frame4_step(prev, s0, 32, 0, 1, v4); }
    let v5 = avg3(b, c, d);
    let ghost prev = dst.arr@;
    dst.set(1 + 1 * BPS, v5);
    proof { lemma_frame4_step(prev, s0, 32, 1, 1, v5); }
    let ghost prev = dst.arr@;
    dst.set(0 + 3 * BPS, v5);
    proof { lemma_frame4_step(prev, s0, 32, 0, 3, v5); }
    let v6 = avg3(c, d, e);
    let ghost prev = dst.arr@;
    dst.set(2 + 1 * BPS, v6);
    proof { lemma_frame4_step(prev, s0, 32, 2, 1, v6); }
    let ghost prev = dst.arr@;
    dst.set(1 + 3 * BPS, v6);
    proof { lemma_frame4_step(prev, s0, 32, 1, 3, v6); }
    let v7 = avg3(d, e, f);
    let ghost prev = dst.arr@;
    dst.set(3 + 1 * BPS, v7);
    proof { lemma_frame4_step(prev, s0, 32, 3, 1, v7); }
    let ghost prev = dst.arr@;
    dst.set(2 + 3 * BPS, v7);
    proof { lemma_frame4_step(prev, s0, 32, 2, 3, v7); }
    let v8 = avg3(e, f, g);
    let ghost prev = dst.arr@;
    dst.set(3 + 2 * BPS, v8);
    proof { lemma_frame4_step(prev, s0, 32, 3, 2, v8); }
    let v9 = avg3(f, g, h);
    let ghost prev = dst.arr@;
    dst.set(3 + 3 * BPS, v9);
    proof { lemma_frame4_step(prev, s0, 32, 3, 3, v9); }
    let ghost f = |x: int, y: int| if x == 3 && y == 2 { avg3_spec(s0[4] as int, s0[5] as int, s0[6] as int) } else if x == 3 && y == 3 { avg3_spec(s0[5] as int, s0[6] as int, s0[7] as int) } else if y % 2 == 0 { avg2_spec(s0[x + y / 2] as int, s0[x + y / 2 + 1] as int) } else { avg3_spec(s0[x + y / 2] as int, s0[x + y / 2 + 1] as int, s0[x + y / 2 + 2] as int) };
    assert(dst.arr@[32int] == f(0, 0));
    assert(dst.arr@[33int] == f(1, 0));
    assert(dst.arr@[34int] == f(2, 0));
    assert(dst.arr@[35int] == f(3, 0));
    assert(dst.arr@[64int] == f(0, 1));
    assert(dst.arr@[65int] == f(1, 1));
    assert(dst.arr@[66int] == f(2, 1));
    assert(dst.arr@[67int] == f(3, 1));
    assert(dst.arr@[96int] == f(0, 2));
    assert(dst.arr@[97int] == f(1, 2));
    assert(dst.arr@[98int] == f(2, 2));
    assert(dst.arr@[99int] == f(3, 2));
    assert(dst.arr@[128int] == f(0, 3));
    assert(dst.arr@[129int] == f(1, 3));
    assert(dst.arr@[130int] == f(2, 3));
    assert(dst.arr@[131int] == f(3, 3));
    proof { lemma_block4_from_values(s0, dst.arr@, 32, f); }
}

/// What `hu4` leaves in its work area `a`.
pub open spec fn hu4_pred(a: Seq<u8>) -> Seq<u8> {
    block_fill(a, 33, 4, 4, |x: int, y: int| if x + 2 * y > 5 { a[128] } else if (x + 2 * y) % 2 == 0 { avg2_spec(a[32 + 16 * (x + 2 * y)] as int, a[64 + 16 * (x + 2 * y)] as int) } else if x + 2 * y == 5 { avg3_spec(a[96] as int, a[128] as int, a[128] as int) } else { avg3_spec(a[16 + 16 * (x + 2 * y)] as int, a[48 + 16 * (x + 2 * y)] as int, a[80 + 16 * (x + 2 * y)] as int) })
}

/// 4x4 horizontal-up prediction.
pub fn hu4(dst: &mut OffsetArray<u8, 133, 33>)
    ensures
        final(dst).arr@ == hu4_pred(old(dst).arr@),
{
    let ghost s0 = dst.arr@;
    assert(frame4(s0, s0, 33));
    let i = *dst.index(-1);
    let j = *dst.index(-1 + BPS);
    let k = *dst.index(-1 + 2 * BPS);
    let l = *dst.index(-1 + 3 * BPS);
    let v0 = avg2(i, j);
    let ghost prev = dst.arr@;
    dst.set(0 + 0 * BPS, v0);
    proof { lemma_frame4_step(prev, s0, 33, 0, 0, v0); }
    let v1 = avg2(j, k);
    let ghost prev = dst.arr@;
    dst.set(2 + 0 * BPS, v1);
    proof { lemma_frame4_step(prev, s0, 33, 2, 0, v1); }
    let ghost prev = dst.arr@;
    dst.set(0 + 1 * BPS, v1);
    proof { lemma_frame4_step(prev, s0, 33, 0, 1, v1); }
    let v2 = avg2(k, l);
    let ghost prev = dst.arr@;
    dst.set(2 + 1 * BPS, v2);
    proof { lemma_frame4_step(prev, s0, 33, 2, 1, v2); }
    let ghost prev = dst.arr@;
    dst.set(0 + 2 * BPS, v2);
    proof { lemma_frame4_step(prev, s0, 33, 0, 2, v2); }
    let v3 = avg3(i, j, k);
    let ghost prev = dst.arr@;
    dst.set(1 + 0 * BPS, v3);
    proof { lemma_frame4_step(prev, s0, 33, 1, 0, v3); }
    let v4 = avg3(j, k, l);
    let ghost prev = dst.arr@;
    dst.set(3 + 0 * BPS, v4);
    proof { lemma_frame4_step(prev, s0, 33, 3, 0, v4); }
    let ghost prev = dst.arr@;
    dst.set(1 + 1 * BPS, v4);
    proof { lemma_frame4_step(prev, s0, 33, 1, 1, v4); }
    let v5 = avg3(k, l, l);
    let ghost prev = dst.arr@;
    dst.set(3 + 1 * BPS, v5);
    proof { lemma_frame4_step(prev, s0, 33, 3, 1, v5); }
    let ghost prev = dst.arr@;
    dst.set(1 + 2 * BPS, v5);
    proof { lemma_frame4_step(prev, s0, 33, 1, 2, v5); }
    let v6 = l;
    let ghost prev = dst.arr@;
    dst.set(3 + 2 * BPS, v6);
    proof { lemma_frame4_step(prev, s0, 33, 3, 2, v6); }
    let ghost prev = dst.arr@;
    dst.set(2 + 2 * BPS, v6);
    proof { lemma_frame4_step(prev, s0, 33, 2, 2, v6); }
    let ghost prev = dst.arr@;
    dst.set(0 + 3 * BPS, v6);
    proof { lemma_frame4_step(prev, s0, 33, 0, 3, v6); }
    let ghost prev = dst.arr@;
    dst.set(1 + 3 * BPS, v6);
    proof { lemma_frame4_step(prev, s0, 33, 1, 3, v6); }
    let ghost prev = dst.arr@;
    dst.set(2 + 3 * BPS, v6);
    proof { lemma_frame4_step(prev, s0, 33, 2, 3, v6); }
    let ghost prev = dst.arr@;
    dst.set(3 + 3 * BPS, v6);
    proof { lemma_frame4_step(prev, s0, 33, 3, 3, v6); }
    let ghost f = |x: int, y: int| if x + 2 * y > 5 { s0[128] } else if (x + 2 * y) % 2 == 0 { avg2_spec(s0[32 + 16 * (x + 2 * y)] as int, s0[64 + 16 * (x + 2 * y)] as int) } else if x + 2 * y == 5 { avg3_spec(s0[96] as int, s0[128] as int, s0[128] as int) } else { avg3_spec(s0[16 + 16 * (x + 2 * y)] as int, s0[48 + 16 * (x + 2 * y)] as int, s0[80 + 16 * (x + 2 * y)] as int) };
    assert(dst.arr@[33int] == f(0, 0));
    assert(dst.arr@[34int] == f(1, 0));
    assert(dst.arr@[35int] == f(2, 0));
    assert(dst.arr@[36int] == f(3, 0));
    assert(dst.arr@[65int] == f(0, 1));
    assert(dst.arr@[66int] == f(1, 1));
    assert(dst.arr@[67int] == f(2, 1));
    assert(dst.arr@[68int] == f(3, 1));
    assert(dst.arr@[97int] == f(0, 2));
    assert(dst.arr@[98int] == f(1, 2));
    assert(dst.arr@[99int] == f(2, 2));
    assert(dst.arr@[100int] == f(3, 2));
    assert(dst.arr@[129int] == f(0, 3));
    assert(dst.arr@[130int] == f(1, 3));
    assert(dst.arr@[131int] == f(2, 3));
    assert(dst.arr@[132int] == f(3, 3));
    proof { lemma_block4_from_values(s0, dst.arr@, 33, f); }
}

/// What `hd4` leaves in its work area `a`.
pub open spec fn hd4_pred(a: Seq<u8>) -> Seq<u8> {
    block_fill(a, 33, 4, 4, |x: int, y: int| if 2 * y - x >= 0 && (2 * y - x) % 2 == 0 { avg2_spec(rd4_edge(a, 3 - (2 * y - x) / 2), rd4_edge(a, 4 - (2 * y - x) / 2)) } else if 2 * y - x >= -1 { avg3_spec(rd4_edge(a, (5 - (2 * y - x)) / 2), rd4_edge(a, (7 - (2 * y - x)) / 2), rd4_edge(a, (9 - (2 * y - x)) / 2)) } else { avg3_spec(rd4_edge(a, 2 - (2 * y - x)), rd4_edge(a, 3 - (2 * y - x)), rd4_edge(a, 4 - (2 * y - x))) })
}

/// 4x4 horizontal-down prediction.
pub fn hd4(dst: &mut OffsetArray<u8, 133, 33>)
    ensures
        final(dst).arr@ == hd4_pred(old(dst).arr@),
{
    let ghost s0 = dst.arr@;
    assert(frame4(s0, s0, 33));
    let i = *dst.index(-1);
    let j = *dst.index(-1 + BPS);
    let k = *dst.index(-1 + 2 * BPS);
    let l = *dst.index(-1 + 3 * BPS);
    let x = *dst.index(-1 - BPS);
    let a = *dst.index(-BPS);
    let b = *dst.index(1 - BPS);
    let c = *dst.index(2 - BPS);
    let v0 = avg2(i, x);
    let ghost prev = dst.arr@;
    dst.set(0 + 0 * BPS, v0);
    proof { lemma_frame4_step(prev, s0, 33, 0, 0, v0); }
    let ghost prev = dst.arr@;
    dst.set(2 + 1 * BPS, v0);
    proof { lemma_frame4_step(prev, s0, 33, 2, 1, v0); }
    let v1 = avg2(j, i);
    let ghost prev = dst.arr@;
    dst.set(0 + 1 * BPS, v1);
    proof { lemma_frame4_step(prev, s0, 33, 0, 1, v1); }
    let ghost prev = dst.arr@;
    dst.set(2 + 2 * BPS, v1);
    proof { lemma_frame4_step(prev, s0, 33, 2, 2, v1); }
    let v2 = avg2(k, j);
    let ghost prev = dst.arr@;
    dst.set(0 + 2 * BPS, v2);
    proof { lemma_frame4_step(prev, s0, 33, 0, 2, v2); }
    let ghost prev = dst.arr@;
    dst.set(2 + 3 * BPS, v2);
    proof { lemma_frame4_step(prev, s0, 33, 2, 3, v2); }
    let v3 = avg2(l, k);
    let ghost prev = dst.arr@;
    dst.set(0 + 3 * BPS, v3);
    proof { lemma_frame4_step(prev, s0, 33, 0, 3, v3); }
    let v4 = avg3(a, b, c);
    let ghost prev = dst.arr@;
    dst.set(3 + 0 * BPS, v4);
    proof { lemma_frame4_step(prev, s0, 33, 3, 0, v4); }
    let v5 = avg3(x, a, b);
    let ghost prev = dst.arr@;
    dst.set(2 + 0 * BPS, v5);
    proof { lemma_frame4_step(prev, s0, 33, 2, 0, v5); }
    let v6 = avg3(i, x, a);
    let ghost prev = dst.arr@;
    dst.set(1 + 0 * BPS, v6);
    proof { lemma_frame4_step(prev, s0, 33, 1, 0, v6); }
    let ghost prev = dst.arr@;
    dst.set(3 + 1 * BPS, v6);
    proof { lemma_frame4_step(prev, s0, 33, 3, 1, v6); }
    let v7 = avg3(j, i, x);
    let ghost prev = dst.arr@;
    dst.set(1 + 1 * BPS, v7);
    proof { lemma_frame4_step(prev, s0, 33, 1, 1, v7); }
    let ghost prev = dst.arr@;
    dst.set(3 + 2 * BPS, v7);
    proof { lemma_frame4_step(prev, s0, 33, 3, 2, v7); }
    let v8 = avg3(k, j, i);
    let ghost prev = dst.arr@;
    dst.set(1 + 2 * BPS, v8);
    proof { lemma_frame4_step(prev, s0, 33, 1, 2, v8); }
    let ghost prev = dst.arr@;
    dst.set(3 + 3 * BPS, v8);
    proof { lemma_frame4_step(prev, s0, 33, 3, 3, v8); }
    let v9 = avg3(l, k, j);
    let ghost prev = dst.arr@;
    dst.set(1 + 3 * BPS, v9);
    proof { lemma_frame4_step(prev, s0, 33, 1, 3, v9); }
    let ghost f = |x: int, y: int| if 2 * y - x >= 0 && (2 * y - x) % 2 == 0 { avg2_spec(rd4_edge(s0, 3 - (2 * y - x) / 2), rd4_edge(s0, 4 - (2 * y - x) / 2)) } else if 2 * y - x >= -1 { avg3_spec(rd4_edge(s0, (5 - (2 * y - x)) / 2), rd4_edge(s0, (7 - (2 * y - x)) / 2), rd4_edge(s0, (9 - (2 * y - x)) / 2)) } else { avg3_spec(rd4_edge(s0, 2 - (2 * y - x)), rd4_edge(s0, 3 - (2 * y - x)), rd4_edge(s0, 4 - (2 * y - x))) };
    assert(dst.arr@[33int] == f(0, 0));
    assert(dst.arr@[34int] == f(1, 0));
    assert(dst.arr@[35int] == f(2, 0));
    assert(dst.arr@[36int] == f(3, 0));
    assert(dst.arr@[65int] == f(0, 1));
    assert(dst.arr@[66int] == f(1, 1));
    assert(dst.arr@[67int] == f(2, 1));
    assert(dst.arr@[68int] == f(3, 1));
    assert(dst.arr@[97int] == f(0, 2));
    assert(dst.arr@[98int] == f(1, 2));
    assert(dst.arr@[99int] == f(2, 2));
    assert(dst.arr@[100int] == f(3, 2));
    assert(dst.arr@[129int] == f(0, 3));
    assert(dst.arr@[130int] == f(1, 3));
    assert(dst.arr@[131int] == f(2, 3));
    assert(dst.arr@[132int] == f(3, 3));
    proof { lemma_block4_from_values(s0, dst.arr@, 33, f); }
}


/// The simple filter across a vertical edge of 16 samples (filtering
/// horizontally, rows `stride` apart).
pub fn simple_h_filter_16(p: &mut OffsetSliceRefMut<u8>, stride: isize, thresh: u32)
    requires
        old(p).slice@.len() <= isize::MAX,
        thresh < 0x7fff_ffff,
        run_windows_ok(old(p).slice@.len() as int, old(p).zero as int, 1, stride as int, -2, 1, 16),
    ensures
        final(p).slice@.len() == old(p).slice@.len(),
        final(p).slice@ == simple_run(old(p).slice@, old(p).zero as int, 1, 2 * thresh + 1, stride as int, 16),
        final(p).zero == old(p).zero,
        final(final(p).slice)@ == final(old(p).slice)@,
{
    let ghost s0 = p.slice@;
    let ghost z0 = p.zero as int;
    let thresh2 = 2 * thresh + 1;
    assert(0 * stride == 0) by (nonlinear_arith);
    for i in 0..16isize
        invariant
            p.slice@.len() == s0.len(),
            s0.len() <= isize::MAX,
            p.zero == z0,
            0 <= z0 < s0.len(),
            thresh2 == 2 * thresh + 1,
            run_windows_ok(s0.len() as int, z0 + i * stride, 1, stride as int, -2, 1, 16 - i),
            simple_run(p.slice@, z0 + i * stride, 1, thresh2 as int, stride as int, 16 - i) == simple_run(
                s0,
                z0,
                1,
                thresh2 as int,
                stride as int,
                16,
            ),
            final(p.slice)@ == final(old(p).slice)@,
    {
        let ghost cur = p.slice@;
        let off = i * stride;
        proof {
            assert((i + 1) * stride == i * stride + stride) by (nonlinear_arith);
        }
        let b = {
            let mut q = p.with_offset(off);
            let r = needs_filter(&mut q, 1, thresh2);
            proof {
                assert(has_resolved(q.slice));
                assert(q.slice@ == final(q.slice)@);
            }
            r
        };
        assert(p.slice@ == cur);
        if b {
            let mut q = p.with_offset(off);
            do_filter_2(&mut q, 1);
            proof {
                assert(has_resolved(q.slice));
                assert(q.slice@ == final(q.slice)@);
            }
        }
        assert(p.slice@ == simple_step(cur, z0 + i * stride, 1, thresh2 as int));
    }
}

proof fn lemma_simple_run_len(s: Seq<u8>, z: int, st: int, t: int, adv: int, n: int)
    requires
        run_windows_ok(s.len() as int, z, st, adv, -2, 1, n),
    ensures
        simple_run(s, z, st, t, adv, n).len() == s.len(),
    decreases n,
{
    if n > 0 {
        lemma_window_inner(s, z, st, -2, 1, -1);
        lemma_window_inner(s, z, st, -2, 1, 0);
        lemma_simple_run_len(simple_step(s, z, st, t), z + adv, st, t, adv, n - 1);
    }
}

/// `n` runs of the simple filter over 16 samples, each `madv` beyond the
/// previous one (the first at `z + madv`), run positions `radv` apart.
pub open spec fn simple_inner_runs(s: Seq<u8>, z: int, st: int, t: int, madv: int, radv: int, n: int) -> Seq<u8>
    decreases n,
{
    if n <= 0 {
        s
    } else {
        simple_inner_runs(simple_run(s, z + madv, st, t, radv, 16), z + madv, st, t, madv, radv, n - 1)
    }
}

/// The windows of all positions of `simple_inner_runs` lie inside a buffer
/// of length `len`.
pub open spec fn inner_windows_ok(len: int, z: int, st: int, madv: int, radv: int, lo: int, hi: int, n: int) -> bool
    decreases n,
{
    if n <= 0 {
        true
    } else {
        &&& run_windows_ok(len, z + madv, st, radv, lo, hi, 16)
        &&& inner_windows_ok(len, z + madv, st, madv, radv, lo, hi, n - 1)
    }
}

proof fn lemma_simple_inner_runs_len(s: Seq<u8>, z: int, st: int, t: int, madv: int, radv: int, n: int)
    requires
        inner_windows_ok(s.len() as int, z, st, madv, radv, -2, 1, n),
    ensures
        simple_inner_runs(s, z, st, t, madv, radv, n).len() == s.len(),
    decreases n,
{
    if n > 0 {
        lemma_simple_run_len(s, z + madv, st, t, radv, 16);
        lemma_simple_inner_runs_len(simple_run(s, z + madv, st, t, radv, 16), z + madv, st, t, madv, radv, n - 1);
    }
}

/// The simple filter on the three inner horizontal edges of a macroblock.
pub fn simple_v_filter_16i(p: &mut OffsetSliceRefMut<u8>, stride: isize, thresh: u32)
    requires
        old(p).slice@.len() <= isize::MAX,
        thresh < 0x7fff_ffff,
        0 <= old(p).zero < old(p).slice@.len(),
        inner_windows_ok(old(p).slice@.len() as int, old(p).zero as int, stride as int, 4 * stride, 1, -2, 1, 3),
    ensures
        final(p).slice@.len() == old(p).slice@.len(),
        final(p).slice@ == simple_inner_runs(old(p).slice@, old(p).zero as int, stride as int, 2 * thresh + 1, 4 * stride, 1, 3),
        final(p).zero == old(p).zero,
        final(final(p).slice)@ == final(old(p).slice)@,
{
    let ghost s0 = p.slice@;
    let ghost z0 = p.zero as int;
    let mut p = p.with_offset(0);
    let ghost fin = final(p.slice)@;
    for k in 0..3usize
        invariant
            final(p.slice)@ == fin,
            p.slice@.len() == s0.len(),
            s0.len() <= isize::MAX,
            thresh < 0x7fff_ffff,
            0 <= z0 < s0.len(),
            0 <= p.zero < s0.len(),
            inner_windows_ok(s0.len() as int, p.zero as int, stride as int, 4 * stride, 1, -2, 1, 3 - k),
            simple_inner_runs(p.slice@, p.zero as int, stride as int, 2 * thresh + 1, 4 * stride, 1, 3 - k)
                == simple_inner_runs(s0, z0, stride as int, 2 * thresh + 1, 4 * stride, 1, 3),
    {
        proof {
            lemma_window_inner(s0, p.zero + 4 * stride, stride as int, -2, 1, 0);
        }
        p.move_zero(4 * stride);
        let ghost before = p.slice@;
        simple_v_filter_16(&mut p, stride, thresh);
        proof {
            lemma_simple_run_len(before, p.zero as int, stride as int, 2 * thresh + 1, 1, 16);
        }
    }
    proof {
        assert(has_resolved(p.slice));
        assert(p.slice@ == final(p.slice)@);
    }
}

/// The simple filter on the three inner vertical edges of a macroblock.
pub fn simple_h_filter_16i(p: &mut OffsetSliceRefMut<u8>, stride: isize, thresh: u32)
    requires
        old(p).slice@.len() <= isize::MAX,
        thresh < 0x7fff_ffff,
        0 <= old(p).zero < old(p).slice@.len(),
        inner_windows_ok(old(p).slice@.len() as int, old(p).zero as int, 1, 4, stride as int, -2, 1, 3),
    ensures
        final(p).slice@.len() == old(p).slice@.len(),
        final(p).slice@ == simple_inner_runs(old(p).slice@, old(p).zero as int, 1, 2 * thresh + 1, 4, stride as int, 3),
        final(p).zero == old(p).zero,
        final(final(p).slice)@ == final(old(p).slice)@,
{
    let ghost s0 = p.slice@;
    let ghost z0 = p.zero as int;
    let mut p = p.with_offset(0);
    let ghost fin = final(p.slice)@;
    for k in 0..3usize
        invariant
            final(p.slice)@ == fin,
            p.slice@.len() == s0.len(),
            s0.len() <= isize::MAX,
            thresh < 0x7fff_ffff,
            0 <= z0 < s0.len(),
            0 <= p.zero < s0.len(),
            inner_windows_ok(s0.len() as int, p.zero as int, 1, 4, stride as int, -2, 1, 3 - k),
            simple_inner_runs(p.slice@, p.zero as int, 1, 2 * thresh + 1, 4, stride as int, 3 - k)
                == simple_inner_runs(s0, z0, 1, 2 * thresh + 1, 4, stride as int, 3),
    {
        proof {
            lemma_window_inner(s0, p.zero + 4, 1, -2, 1, 0);
        }
        p.move_zero(4);
        let ghost before = p.slice@;
        simple_h_filter_16(&mut p, stride, thresh);
        proof {
            lemma_simple_run_len(before, p.zero as int, 1, 2 * thresh + 1, stride as int, 16);
        }
    }
    proof {
        assert(has_resolved(p.slice));
        assert(p.slice@ == final(p.slice)@);
    }
}


/// One position of the complex filter with the 6-tap inner step.
pub open spec fn complex26_step(s: Seq<u8>, z: int, h: int, t: int, it: int, ht: int) -> Seq<u8> {
    if needs_filter2_spec(s, z, h, t, it) {
        if hev_spec(s, z, h, ht) {
            filter2_spec(s, z, h)
        } else {
            filter6_spec(s, z, h)
        }
    } else {
        s
    }
}

/// `complex26_step` at `n` positions `z, z + v, z + 2 * v, ...`, in turn.
pub open spec fn complex26_run(s: Seq<u8>, z: int, h: int, v: int, t: int, it: int, ht: int, n: int) -> Seq<u8>
    decreases n,
{
    if n <= 0 {
        s
    } else {
        complex26_run(complex26_step(s, z, h, t, it, ht), z + v, h, v, t, it, ht, n - 1)
    }
}

proof fn lemma_complex26_run_len(s: Seq<u8>, z: int, h: int, v: int, t: int, it: int, ht: int, n: int)
    requires
        run_windows_ok(s.len() as int, z, h, v, -4, 3, n),
    ensures
        complex26_run(s, z, h, v, t, it, ht, n).len() == s.len(),
    decreases n,
{
    if n > 0 {
        lemma_window_inner(s, z, h, -4, 3, -3);
        lemma_window_inner(s, z, h, -4, 3, -2);
        lemma_window_inner(s, z, h, -4, 3, -1);
        lemma_window_inner(s, z, h, -4, 3, 0);
        lemma_window_inner(s, z, h, -4, 3, 1);
        lemma_window_inner(s, z, h, -4, 3, 2);
        lemma_complex26_run_len(complex26_step(s, z, h, t, it, ht), z + v, h, v, t, it, ht, n - 1);
    }
}

/// Complex in-loop filtering of `size` positions, `vstride` apart, across
/// an edge (taps `hstride` apart).  The zero position of `p` is left
/// `size * vstride` further on.
pub fn filter_loop_26(
    p: &mut OffsetSliceRefMut<u8>,
    hstride: isize,
    vstride: isize,
    size: u32,
    thresh: u32,
    ithresh: u8,
    hev_thresh: u8,
)
    requires
        old(p).slice@.len() <= isize::MAX,
        thresh < 0x7fff_ffff,
        0 <= old(p).zero < old(p).slice@.len(),
        run_windows_ok(old(p).slice@.len() as int, old(p).zero as int, hstride as int, vstride as int, -4, 3, size as int),
        isize::MIN <= old(p).zero + size * vstride <= isize::MAX,
    ensures
        final(p).slice@.len() == old(p).slice@.len(),
        final(p).slice@ == complex26_run(
            old(p).slice@,
            old(p).zero as int,
            hstride as int,
            vstride as int,
            2 * thresh + 1,
            ithresh as int,
            hev_thresh as int,
            size as int,
        ),
        final(p).zero == old(p).zero + size * vstride,
        final(final(p).slice)@ == final(old(p).slice)@,
{
    let ghost s0 = p.slice@;
    let ghost z0 = p.zero as int;
    let thresh2 = 2 * thresh + 1;
    assert(0 * vstride == 0);
    for i in 0..size
        invariant
            p.slice@.len() == s0.len(),
            s0.len() <= isize::MAX,
            thresh2 == 2 * thresh + 1,
            p.zero == z0 + i * vstride,
            isize::MIN <= z0 + size * vstride <= isize::MAX,
            0 <= z0 < s0.len(),
            run_windows_ok(s0.len() as int, p.zero as int, hstride as int, vstride as int, -4, 3, size - i),
            complex26_run(p.slice@, p.zero as int, hstride as int, vstride as int, thresh2 as int, ithresh as int, hev_thresh as int, size - i)
                == complex26_run(s0, z0, hstride as int, vstride as int, thresh2 as int, ithresh as int, hev_thresh as int, size as int),
            final(p.slice)@ == final(old(p).slice)@,
    {
        let ghost cur = p.slice@;
        let ghost cz = p.zero as int;
        proof {
            lemma_window_inner(s0, cz, hstride as int, -4, 3, -3);
            lemma_window_inner(s0, cz, hstride as int, -4, 3, -2);
            lemma_window_inner(s0, cz, hstride as int, -4, 3, -1);
            lemma_window_inner(s0, cz, hstride as int, -4, 3, 0);
            lemma_window_inner(s0, cz, hstride as int, -4, 3, 1);
            lemma_window_inner(s0, cz, hstride as int, -4, 3, 2);
        }
        if needs_filter_2(p, hstride, thresh2, ithresh) {
            if hev(p, hstride, hev_thresh) {
                do_filter_2(p, hstride);
            } else {
                do_filter_6(p, hstride);
            }
        }
        assert(p.slice@ == complex26_step(cur, cz, hstride as int, thresh2 as int, ithresh as int, hev_thresh as int));
        proof {
            assert((i + 1) * vstride == i * vstride + vstride) by (nonlinear_arith);
            assert(i + 1 <= size);
            assert(z0 + (i + 1) * vstride <= isize::MAX && z0 + (i + 1) * vstride >= isize::MIN) by (nonlinear_arith)
                requires
                    0 <= i + 1 <= size,
                    isize::MIN <= z0 + size * vstride <= isize::MAX,
                    isize::MIN <= z0 <= isize::MAX,
            ;
        }
        p.move_zero(vstride);
    }
    proof {
        lemma_complex26_run_len(s0, z0, hstride as int, vstride as int, 2 * thresh + 1, ithresh as int, hev_thresh as int, size as int);
    }
}

/// One position of the complex filter with the 4-tap inner step.
pub open spec fn complex24_step(s: Seq<u8>, z: int, h: int, t: int, it: int, ht: int) -> Seq<u8> {
    if needs_filter2_spec(s, z, h, t, it) {
        if hev_spec(s, z, h, ht) {
            filter2_spec(s, z, h)
        } else {
            filter4_spec(s, z, h)
        }
    } else {
        s
    }
}

/// `complex24_step` at `n` positions `z, z + v, z + 2 * v, ...`, in turn.
pub open spec fn complex24_run(s: Seq<u8>, z: int, h: int, v: int, t: int, it: int, ht: int, n: int) -> Seq<u8>
    decreases n,
{
    if n <= 0 {
        s
    } else {
        complex24_run(complex24_step(s, z, h, t, it, ht), z + v, h, v, t, it, ht, n - 1)
    }
}

proof fn lemma_complex24_run_len(s: Seq<u8>, z: int, h: int, v: int, t: int, it: int, ht: int, n: int)
    requires
        run_windows_ok(s.len() as int, z, h, v, -4, 3, n),
    ensures
        complex24_run(s, z, h, v, t, it, ht, n).len() == s.len(),
    decreases n,
{
    if n > 0 {
        lemma_window_inner(s, z, h, -4, 3, -3);
        lemma_window_inner(s, z, h, -4, 3, -2);
        lemma_window_inner(s, z, h, -4, 3, -1);
        lemma_window_inner(s, z, h, -4, 3, 0);
        lemma_window_inner(s, z, h, -4, 3, 1);
        lemma_window_inner(s, z, h, -4, 3, 2);
        lemma_complex24_run_len(complex24_step(s, z, h, t, it, ht), z + v, h, v, t, it, ht, n - 1);
    }
}

/// Complex in-loop filtering of `size` positions, `vstride` apart, across
/// an edge (taps `hstride` apart).  The zero position of `p` is left
/// `size * vstride` further on.
pub fn filter_loop_24(
    p: &mut OffsetSliceRefMut<u8>,
    hstride: isize,
    vstride: isize,
    size: u32,
    thresh: u32,
    ithresh: u8,
    hev_thresh: u8,
)
    requires
        old(p).slice@.len() <= isize::MAX,
        thresh < 0x7fff_ffff,
        0 <= old(p).zero < old(p).slice@.len(),
        run_windows_ok(old(p).slice@.len() as int, old(p).zero as int, hstride as int, vstride as int, -4, 3, size as int),
        isize::MIN <= old(p).zero + size * vstride <= isize::MAX,
    ensures
        final(p).slice@.len() == old(p).slice@.len(),
        final(p).slice@ == complex24_run(
            old(p).slice@,
            old(p).zero as int,
            hstride as int,
            vstride as int,
            2 * thresh + 1,
            ithresh as int,
            hev_thresh as int,
            size as int,
        ),
        final(p).zero == old(p).zero + size * vstride,
        final(final(p).slice)@ == final(old(p).slice)@,
{
    let ghost s0 = p.slice@;
    let ghost z0 = p.zero as int;
    let thresh2 = 2 * thresh + 1;
    assert(0 * vstride == 0);
    for i in 0..size
        invariant
            p.slice@.len() == s0.len(),
            s0.len() <= isize::MAX,
            thresh2 == 2 * thresh + 1,
            p.zero == z0 + i * vstride,
            isize::MIN <= z0 + size * vstride <= isize::MAX,
            0 <= z0 < s0.len(),
            run_windows_ok(s0.len() as int, p.zero as int, hstride as int, vstride as int, -4, 3, size - i),
            complex24_run(p.slice@, p.zero as int, hstride as int, vstride as int, thresh2 as int, ithresh as int, hev_thresh as int, size - i)
                == complex24_run(s0, z0, hstride as int, vstride as int, thresh2 as int, ithresh as int, hev_thresh as int, size as int),
            final(p.slice)@ == final(old(p).slice)@,
    {
        let ghost cur = p.slice@;
        let ghost cz = p.zero as int;
        proof {
            lemma_window_inner(s0, cz, hstride as int, -4, 3, -3);
            lemma_window_inner(s0, cz, hstride as int, -4, 3, -2);
            lemma_window_inner(s0, cz, hstride as int, -4, 3, -1);
            lemma_window_inner(s0, cz, hstride as int, -4, 3, 0);
            lemma_window_inner(s0, cz, hstride as int, -4, 3, 1);
            lemma_window_inner(s0, cz, hstride as int, -4, 3, 2);
        }
        if needs_filter_2(p, hstride, thresh2, ithresh) {
            if hev(p, hstride, hev_thresh) {
                do_filter_2(p, hstride);
            } else {
                do_filter_4(p, hstride);
            }
        }
        assert(p.slice@ == complex24_step(cur, cz, hstride as int, thresh2 as int, ithresh as int, hev_thresh as int));
        proof {
            assert((i + 1) * vstride == i * vstride + vstride) by (nonlinear_arith);
            assert(i + 1 <= size);
            assert(z0 + (i + 1) * vstride <= isize::MAX && z0 + (i + 1) * vstride >= isize::MIN) by (nonlinear_arith)
                requires
                    0 <= i + 1 <= size,
                    isize::MIN <= z0 + size * vstride <= isize::MAX,
                    isize::MIN <= z0 <= isize::MAX,
            ;
        }
        p.move_zero(vstride);
    }
    proof {
        lemma_complex24_run_len(s0, z0, hstride as int, vstride as int, 2 * thresh + 1, ithresh as int, hev_thresh as int, size as int);
    }
}


/// `n` runs of `complex24_run` over 16 positions, each `madv` beyond the
/// previous one (the first at `z + madv`).
pub open spec fn complex24_inner_runs(
    s: Seq<u8>,
    z: int,
    h: int,
    v: int,
    t: int,
    it: int,
    ht: int,
    madv: int,
    n: int,
) -> Seq<u8>
    decreases n,
{
    if n <= 0 {
        s
    } else {
        complex24_inner_runs(complex24_run(s, z + madv, h, v, t, it, ht, 16), z + madv, h, v, t, it, ht, madv, n - 1)
    }
}

proof fn lemma_complex24_inner_runs_len(s: Seq<u8>, z: int, h: int, v: int, t: int, it: int, ht: int, madv: int, n: int)
    requires
        inner_windows_ok(s.len() as int, z, h, madv, v, -4, 3, n),
    ensures
        complex24_inner_runs(s, z, h, v, t, it, ht, madv, n).len() == s.len(),
    decreases n,
{
    if n > 0 {
        lemma_complex24_run_len(s, z + madv, h, v, t, it, ht, 16);
        lemma_complex24_inner_runs_len(complex24_run(s, z + madv, h, v, t, it, ht, 16), z + madv, h, v, t, it, ht, madv, n - 1);
    }
}

/// Complex filtering across the horizontal macroblock edge (16 columns).
pub fn v_filter_16(p: &mut OffsetSliceRefMut<u8>, stride: isize, thresh: u32, ithresh: u8, hev_thresh: u8)
    requires
        old(p).slice@.len() <= isize::MAX,
        thresh < 0x7fff_ffff,
        0 <= old(p).zero < old(p).slice@.len(),
        run_windows_ok(old(p).slice@.len() as int, old(p).zero as int, stride as int, 1, -4, 3, 16),
        old(p).zero + 16 <= isize::MAX,
    ensures
        final(p).slice@.len() == old(p).slice@.len(),
        final(p).slice@ == complex26_run(old(p).slice@, old(p).zero as int, stride as int, 1, 2 * thresh + 1, ithresh as int, hev_thresh as int, 16),
        final(p).zero == old(p).zero + 16,
        final(final(p).slice)@ == final(old(p).slice)@,
{
    filter_loop_26(p, stride, 1, 16, thresh, ithresh, hev_thresh);
}

/// Complex filtering across the vertical macroblock edge (16 rows).
pub fn h_filter_16(p: &mut OffsetSliceRefMut<u8>, stride: isize, thresh: u32, ithresh: u8, hev_thresh: u8)
    requires
        old(p).slice@.len() <= isize::MAX,
        thresh < 0x7fff_ffff,
        0 <= old(p).zero < old(p).slice@.len(),
        run_windows_ok(old(p).slice@.len() as int, old(p).zero as int, 1, stride as int, -4, 3, 16),
        isize::MIN <= old(p).zero + 16 * stride <= isize::MAX,
    ensures
        final(p).slice@.len() == old(p).slice@.len(),
        final(p).slice@ == complex26_run(old(p).slice@, old(p).zero as int, 1, stride as int, 2 * thresh + 1, ithresh as int, hev_thresh as int, 16),
        final(p).zero == old(p).zero + 16 * stride,
        final(final(p).slice)@ == final(old(p).slice)@,
{
    filter_loop_26(p, 1, stride, 16, thresh, ithresh, hev_thresh);
}

/// Complex filtering across the three inner horizontal edges.
pub fn v_filter_16i(p: &mut OffsetSliceRefMut<u8>, stride: isize, thresh: u32, ithresh: u8, hev_thresh: u8)
    requires
        old(p).slice@.len() <= isize::MAX,
        thresh < 0x7fff_ffff,
        0 <= old(p).zero < old(p).slice@.len(),
        inner_windows_ok(old(p).slice@.len() as int, old(p).zero as int, stride as int, 4 * stride, 1, -4, 3, 3),
        old(p).zero + 4 * stride + 16 <= isize::MAX,
        old(p).zero + 8 * stride + 16 <= isize::MAX,
        old(p).zero + 12 * stride + 16 <= isize::MAX,
    ensures
        final(p).slice@.len() == old(p).slice@.len(),
        final(p).slice@ == complex24_inner_runs(old(p).slice@, old(p).zero as int, stride as int, 1, 2 * thresh + 1, ithresh as int, hev_thresh as int, 4 * stride, 3),
        final(p).zero == old(p).zero,
        final(final(p).slice)@ == final(old(p).slice)@,
{
    let ghost s0 = p.slice@;
    let ghost z0 = p.zero as int;
    assert((1 - 1) * 4 * stride == 0) by (nonlinear_arith);
    for k in 1..4isize
        invariant
            p.slice@.len() == s0.len(),
            s0.len() <= isize::MAX,
            thresh < 0x7fff_ffff,
            p.zero == z0,
            0 <= z0 < s0.len(),
            inner_windows_ok(s0.len() as int, z0 + (k - 1) * 4 * stride, stride as int, 4 * stride, 1, -4, 3, 4 - k),
            z0 + 4 * stride + 16 <= isize::MAX,
            z0 + 8 * stride + 16 <= isize::MAX,
            z0 + 12 * stride + 16 <= isize::MAX,
            complex24_inner_runs(p.slice@, z0 + (k - 1) * 4 * stride, stride as int, 1, 2 * thresh + 1, ithresh as int, hev_thresh as int, 4 * stride, 4 - k)
                == complex24_inner_runs(s0, z0, stride as int, 1, 2 * thresh + 1, ithresh as int, hev_thresh as int, 4 * stride, 3),
            final(p.slice)@ == final(old(p).slice)@,
    {
        let ghost cur = p.slice@;
        proof {
            assert((k - 1) * 4 * stride + 4 * stride == k * 4 * stride) by (nonlinear_arith);
            if k == 1 {
                assert(k * 4 * stride == 4 * stride);
            } else if k == 2 {
                assert(k * 4 * stride == 8 * stride);
            } else {
                assert(k * 4 * stride == 12 * stride);
            }
            lemma_window_inner(s0, z0 + k * 4 * stride, stride as int, -4, 3, 0);
        }
        let off = k * 4 * stride;
        {
            let mut new_p = p.with_offset(off);
            filter_loop_24(&mut new_p, stride, 1, 16, thresh, ithresh, hev_thresh);
            proof {
                assert(has_resolved(new_p.slice));
                assert(new_p.slice@ == final(new_p.slice)@);
            }
        }
        proof {
            lemma_complex24_run_len(cur, z0 + k * 4 * stride, stride as int, 1, 2 * thresh + 1, ithresh as int, hev_thresh as int, 16);
        }
    }
}

/// Complex filtering across the three inner vertical edges.
pub fn h_filter_16i(p: &mut OffsetSliceRefMut<u8>, stride: isize, thresh: u32, ithresh: u8, hev_thresh: u8)
    requires
        old(p).slice@.len() <= isize::MAX,
        thresh < 0x7fff_ffff,
        0 <= old(p).zero < old(p).slice@.len(),
        inner_windows_ok(old(p).slice@.len() as int, old(p).zero as int, 1, 4, stride as int, -4, 3, 3),
        isize::MIN <= old(p).zero + 4 + 16 * stride <= isize::MAX,
        isize::MIN <= old(p).zero + 8 + 16 * stride <= isize::MAX,
        isize::MIN <= old(p).zero + 12 + 16 * stride <= isize::MAX,
    ensures
        final(p).slice@.len() == old(p).slice@.len(),
        final(p).slice@ == complex24_inner_runs(old(p).slice@, old(p).zero as int, 1, stride as int, 2 * thresh + 1, ithresh as int, hev_thresh as int, 4, 3),
        final(p).zero == old(p).zero,
        final(final(p).slice)@ == final(old(p).slice)@,
{
    let ghost s0 = p.slice@;
    let ghost z0 = p.zero as int;
    for k in 1..4isize
        invariant
            p.slice@.len() == s0.len(),
            s0.len() <= isize::MAX,
            thresh < 0x7fff_ffff,
            p.zero == z0,
            0 <= z0 < s0.len(),
            inner_windows_ok(s0.len() as int, z0 + (k - 1) * 4, 1, 4, stride as int, -4, 3, 4 - k),
            isize::MIN <= z0 + 4 + 16 * stride <= isize::MAX,
            isize::MIN <= z0 + 8 + 16 * stride <= isize::MAX,
            isize::MIN <= z0 + 12 + 16 * stride <= isize::MAX,
            complex24_inner_runs(p.slice@, z0 + (k - 1) * 4, 1, stride as int, 2 * thresh + 1, ithresh as int, hev_thresh as int, 4, 4 - k)
                == complex24_inner_runs(s0, z0, 1, stride as int, 2 * thresh + 1, ithresh as int, hev_thresh as int, 4, 3),
            final(p.slice)@ == final(old(p).slice)@,
    {
        let ghost cur = p.slice@;
        proof {
            lemma_window_inner(s0, z0 + k * 4, 1, -4, 3, 0);
        }
        let off = k * 4;
        {
            let mut new_p = p.with_offset(off);
            filter_loop_24(&mut new_p, 1, stride, 16, thresh, ithresh, hev_thresh);
            proof {
                assert(has_resolved(new_p.slice));
                assert(new_p.slice@ == final(new_p.slice)@);
            }
        }
        proof {
            lemma_complex24_run_len(cur, z0 + k * 4, 1, stride as int, 2 * thresh + 1, ithresh as int, hev_thresh as int, 16);
        }
    }
}



/// Complex filtering of both chroma planes across the horizontal
/// macroblock edge (8 columns).
pub fn v_filter_8(
    u: &mut OffsetSliceRefMut<u8>,
    v: &mut OffsetSliceRefMut<u8>,
    stride: isize,
    thresh: u32,
    ithresh: u8,
    hev_thresh: u8,
)
    requires
        old(u).slice@.len() <= isize::MAX,
        old(v).slice@.len() <= isize::MAX,
        thresh < 0x7fff_ffff,
        0 <= old(u).zero < old(u).slice@.len(),
        0 <= old(v).zero < old(v).slice@.len(),
        isize::MIN <= old(u).zero + 8 * 1 <= isize::MAX,
        isize::MIN <= old(v).zero + 8 * 1 <= isize::MAX,
        run_windows_ok(old(u).slice@.len() as int, old(u).zero as int, stride as int, 1, -4, 3, 8),
        run_windows_ok(old(v).slice@.len() as int, old(v).zero as int, stride as int, 1, -4, 3, 8),
    ensures
        final(u).slice@.len() == old(u).slice@.len(),
        final(v).slice@.len() == old(v).slice@.len(),
        final(u).slice@ == complex26_run(old(u).slice@, old(u).zero as int, stride as int, 1, 2 * thresh + 1, ithresh as int, hev_thresh as int, 8),
        final(v).slice@ == complex26_run(old(v).slice@, old(v).zero as int, stride as int, 1, 2 * thresh + 1, ithresh as int, hev_thresh as int, 8),
        final(u).zero == old(u).zero + 8 * 1,
        final(v).zero == old(v).zero + 8 * 1,
        final(final(u).slice)@ == final(old(u).slice)@,
        final(final(v).slice)@ == final(old(v).slice)@,
{
    filter_loop_26(u, stride, 1, 8, thresh, ithresh, hev_thresh);
    filter_loop_26(v, stride, 1, 8, thresh, ithresh, hev_thresh);
}

/// Complex filtering of both chroma planes across the vertical macroblock
/// edge (8 rows).
pub fn h_filter_8(
    u: &mut OffsetSliceRefMut<u8>,
    v: &mut OffsetSliceRefMut<u8>,
    stride: isize,
    thresh: u32,
    ithresh: u8,
    hev_thresh: u8,
)
    requires
        old(u).slice@.len() <= isize::MAX,
        old(v).slice@.len() <= isize::MAX,
        thresh < 0x7fff_ffff,
        0 <= old(u).zero < old(u).slice@.len(),
        0 <= old(v).zero < old(v).slice@.len(),
        isize::MIN <= old(u).zero + 8 * stride as int <= isize::MAX,
        isize::MIN <= old(v).zero + 8 * stride as int <= isize::MAX,
        run_windows_ok(old(u).slice@.len() as int, old(u).zero as int, 1, stride as int, -4, 3, 8),
        run_windows_ok(old(v).slice@.len() as int, old(v).zero as int, 1, stride as int, -4, 3, 8),
    ensures
        final(u).slice@.len() == old(u).slice@.len(),
        final(v).slice@.len() == old(v).slice@.len(),
        final(u).slice@ == complex26_run(old(u).slice@, old(u).zero as int, 1, stride as int, 2 * thresh + 1, ithresh as int, hev_thresh as int, 8),
        final(v).slice@ == complex26_run(old(v).slice@, old(v).zero as int, 1, stride as int, 2 * thresh + 1, ithresh as int, hev_thresh as int, 8),
        final(u).zero == old(u).zero + 8 * stride as int,
        final(v).zero == old(v).zero + 8 * stride as int,
        final(final(u).slice)@ == final(old(u).slice)@,
        final(final(v).slice)@ == final(old(v).slice)@,
{
    filter_loop_26(u, 1, stride, 8, thresh, ithresh, hev_thresh);
    filter_loop_26(v, 1, stride, 8, thresh, ithresh, hev_thresh);
}

/// Complex filtering of both chroma planes across the inner horizontal
/// edge.
pub fn v_filter_8i(
    u: &mut OffsetSliceRefMut<u8>,
    v: &mut OffsetSliceRefMut<u8>,
    stride: isize,
    thresh: u32,
    ithresh: u8,
    hev_thresh: u8,
)
    requires
        old(u).slice@.len() <= isize::MAX,
        old(v).slice@.len() <= isize::MAX,
        thresh < 0x7fff_ffff,
        0 <= old(u).zero + 4 * (stride as int) < old(u).slice@.len(),
        0 <= old(v).zero + 4 * (stride as int) < old(v).slice@.len(),
        isize::MIN <= old(u).zero + 4 * (stride as int) + 8 * 1 <= isize::MAX,
        isize::MIN <= old(v).zero + 4 * (stride as int) + 8 * 1 <= isize::MAX,
        run_windows_ok(old(u).slice@.len() as int, old(u).zero + 4 * (stride as int), stride as int, 1, -4, 3, 8),
        run_windows_ok(old(v).slice@.len() as int, old(v).zero + 4 * (stride as int), stride as int, 1, -4, 3, 8),
    ensures
        final(u).slice@.len() == old(u).slice@.len(),
        final(v).slice@.len() == old(v).slice@.len(),
        final(u).slice@ == complex24_run(old(u).slice@, old(u).zero + 4 * (stride as int), stride as int, 1, 2 * thresh + 1, ithresh as int, hev_thresh as int, 8),
        final(v).slice@ == complex24_run(old(v).slice@, old(v).zero + 4 * (stride as int), stride as int, 1, 2 * thresh + 1, ithresh as int, hev_thresh as int, 8),
        final(u).zero == old(u).zero as int,
        final(v).zero == old(v).zero as int,
        final(final(u).slice)@ == final(old(u).slice)@,
        final(final(v).slice)@ == final(old(v).slice)@,
{
    {
        let mut uu = u.with_offset(4 * stride);
        filter_loop_24(&mut uu, stride, 1, 8, thresh, ithresh, hev_thresh);
        proof {
            assert(has_resolved(uu.slice));
            assert(uu.slice@ == final(uu.slice)@);
        }
    }
    {
        let mut vv = v.with_offset(4 * stride);
        filter_loop_24(&mut vv, stride, 1, 8, thresh, ithresh, hev_thresh);
        proof {
            assert(has_resolved(vv.slice));
            assert(vv.slice@ == final(vv.slice)@);
        }
    }
}

/// Complex filtering of both chroma planes across the inner vertical edge.
pub fn h_filter_8i(
    u: &mut OffsetSliceRefMut<u8>,
    v: &mut OffsetSliceRefMut<u8>,
    stride: isize,
    thresh: u32,
    ithresh: u8,
    hev_thresh: u8,
)
    requires
        old(u).slice@.len() <= isize::MAX,
        old(v).slice@.len() <= isize::MAX,
        thresh < 0x7fff_ffff,
        0 <= old(u).zero + 4 < old(u).slice@.len(),
        0 <= old(v).zero + 4 < old(v).slice@.len(),
        isize::MIN <= old(u).zero + 4 + 8 * stride as int <= isize::MAX,
        isize::MIN <= old(v).zero + 4 + 8 * stride as int <= isize::MAX,
        run_windows_ok(old(u).slice@.len() as int, old(u).zero + 4, 1, stride as int, -4, 3, 8),
        run_windows_ok(old(v).slice@.len() as int, old(v).zero + 4, 1, stride as int, -4, 3, 8),
    ensures
        final(u).slice@.len() == old(u).slice@.len(),
        final(v).slice@.len() == old(v).slice@.len(),
        final(u).slice@ == complex24_run(old(u).slice@, old(u).zero + 4, 1, stride as int, 2 * thresh + 1, ithresh as int, hev_thresh as int, 8),
        final(v).slice@ == complex24_run(old(v).slice@, old(v).zero + 4, 1, stride as int, 2 * thresh + 1, ithresh as int, hev_thresh as int, 8),
        final(u).zero == old(u).zero as int,
        final(v).zero == old(v).zero as int,
        final(final(u).slice)@ == final(old(u).slice)@,
        final(final(v).slice)@ == final(old(v).slice)@,
{
    {
        let mut uu = u.with_offset(4);
        filter_loop_24(&mut uu, 1, stride, 8, thresh, ithresh, hev_thresh);
        proof {
            assert(has_resolved(uu.slice));
            assert(uu.slice@ == final(uu.slice)@);
        }
    }
    {
        let mut vv = v.with_offset(4);
        filter_loop_24(&mut vv, 1, stride, 8, thresh, ithresh, hev_thresh);
        proof {
            assert(has_resolved(vv.slice));
            assert(vv.slice@ == final(vv.slice)@);
        }
    }
}


/// The dithering adjustment for dither value `d`: `(d - 128) / 16`,
/// rounded to nearest.
pub open spec fn dither_delta(d: u8) -> int {
    (d - 128 + 8) / 16
}

/// `s` with the first `k` samples of the row at `base` adjusted by dither
/// row `r`.
pub open spec fn dither_row_upto(s: Seq<u8>, d: Seq<u8>, base: int, r: int, k: int) -> Seq<u8> {
    Seq::new(
        s.len(),
        |p: int|
            if base <= p < base + k {
                clamp(s[p] + dither_delta(d[8 * r + p - base]), 0, 255) as u8
            } else {
                s[p]
            },
    )
}

/// The first `n` rows of an 8x8 dither pattern added to `s`, row `r` at
/// `r * stride`.
pub open spec fn dither_rows(s: Seq<u8>, d: Seq<u8>, stride: int, n: int) -> Seq<u8>
    decreases n,
{
    if n <= 0 {
        s
    } else {
        dither_row_upto(dither_rows(s, d, stride, n - 1), d, (n - 1) * stride, n - 1, 8)
    }
}

proof fn lemma_shr4_i32(x: i32)
    ensures
        (x >> 4u32) as int == (x as int) / 16,
{
    let q = x >> 4u32;
    assert(q * 16 <= x && x < q * 16 + 16) by (bit_vector)
        requires
            q == x >> 4u32;
}

/// Adds an 8x8 dither pattern (centred on 128, scaled down by 16) to the
/// 8x8 block of `dst` with rows `dst_stride` apart.
pub fn dither_combine_8x8(dither: &[u8; 64], dst: &mut [u8], dst_stride: usize)
    requires
        7 * dst_stride + 8 <= old(dst).len(),
        8 * dst_stride <= old(dst).len(),
    ensures
        final(dst)@ == dither_rows(old(dst)@, dither@, dst_stride as int, 8),
{
    let ghost s0 = dst@;
    assert(s0.len() == dst.len());
    assert(0 * dst_stride == 0) by (nonlinear_arith);
    let mut off: usize = 0;
    for r in 0..8usize
        invariant
            dst@.len() == s0.len(),
            s0.len() <= usize::MAX,
            7 * dst_stride + 8 <= s0.len(),
            8 * dst_stride <= s0.len(),
            off == r * dst_stride,
            dst@ == dither_rows(s0, dither@, dst_stride as int, r as int),
    {
        let ghost row_start = dst@;
        proof {
            assert(r * dst_stride <= 7 * dst_stride) by (nonlinear_arith)
                requires
                    r <= 7,
            ;
            assert((r + 1) * dst_stride == r * dst_stride + dst_stride) by (nonlinear_arith);
            assert((r + 1) * dst_stride <= 8 * dst_stride) by (nonlinear_arith)
                requires
                    r + 1 <= 8,
            ;
        }
        for i in 0..8usize
            invariant
                dst@.len() == s0.len(),
                s0.len() <= usize::MAX,
                off + 8 <= s0.len(),
                r < 8,
                dst@ == dither_row_upto(row_start, dither@, off as int, r as int, i as int),
        {
            let delta0: i32 = dither[8 * r + i] as i32 - 128;
            let t = delta0 + 8;
            proof { lemma_shr4_i32(t); }
            let delta1 = t >> 4;
            let v = clip_8b(dst[off + i] as i32 + delta1);
            dst[off + i] = v;
            assert(dst@ =~= dither_row_upto(row_start, dither@, off as int, r as int, i + 1));
        }
        off = off + dst_stride;
    }
}

} // verus!
