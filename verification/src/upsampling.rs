//! Fancy upsampling: conversion of a pair of luma rows with half-resolution
//! chroma into packed RGB-style pixels, interpolating the chroma planes.
//!
//! Given chroma samples laid out in a square as
//!
//! ```text
//!  [a b]
//!  [c d]
//! ```
//!
//! the chroma of the pixel nearest to `a` is about `(9a + 3b + 3c + d + 8) / 16`,
//! computed in two rounding steps as `fancy_chroma` states.
use vstd::prelude::*;
use crate::array::to_array_ref_mut;
use crate::yuv::{
    bgr_spec, rgb565_spec, rgb_spec, rgba4444_spec, vp8_yuv_to_argb, vp8_yuv_to_bgr,
    vp8_yuv_to_bgra, vp8_yuv_to_rgb, vp8_yuv_to_rgb_565, vp8_yuv_to_rgba, vp8_yuv_to_rgba_4444,
};

verus! {

/// Chroma of a pixel at the left or right edge: `near` is the sample of the
/// pixel's own chroma row, `far` the one of the other row.
pub open spec fn edge_chroma(near: int, far: int) -> int {
    (3 * near + far + 2) / 4
}

/// Chroma of the pixel nearest to sample `a` of the square `[a b] [c d]`,
/// where `b` is `a`'s horizontal neighbour, `c` its vertical neighbour and
/// `d` the diagonal one.
pub open spec fn fancy_chroma(a: int, b: int, c: int, d: int) -> int {
    (((a + b + c + d + 8) + 2 * (b + c)) / 8 + a) / 2
}

/// Chroma of pixel `i` of a row of `len` pixels, where `near` holds the chroma
/// samples of the row's own half-resolution line and `far` those of the other.
pub open spec fn row_chroma(near: Seq<u8>, far: Seq<u8>, len: int, i: int) -> int {
    if i == 0 {
        edge_chroma(near[0] as int, far[0] as int)
    } else if i % 2 == 1 {
        let x = (i + 1) / 2;
        if i + 1 < len {
            fancy_chroma(near[x - 1] as int, near[x] as int, far[x - 1] as int, far[x] as int)
        } else {
            edge_chroma(near[x - 1] as int, far[x - 1] as int)
        }
    } else {
        let x = i / 2;
        fancy_chroma(near[x] as int, near[x - 1] as int, far[x] as int, far[x - 1] as int)
    }
}

/// Bytes `i * step .. (i + 1) * step` of `s`: the `i`-th pixel of a row.
pub open spec fn chunk(s: Seq<u8>, step: nat, i: int) -> Seq<u8> {
    s.subrange(i * step, i * step + step)
}

/// Number of chroma samples that a row of `len` pixels reads.
pub open spec fn chroma_len(len: int) -> int {
    (len + 1) / 2
}

/// Packs a `u` and a `v` sample into the two 16-bit lanes of a word.
pub open spec fn packed(u: int, v: int) -> int {
    u + v * 65536
}

proof fn lemma_edge_lanes(au: u32, av: u32, cu: u32, cv: u32, s: u32)
    by (bit_vector)
    requires
        au < 256,
        av < 256,
        cu < 256,
        cv < 256,
        s == 3 * (au + av * 65536) + (cu + cv * 65536) + 0x20002,
    ensures
        (s >> 2u32) & 0xff == (3 * au + cu + 2) / 4,
        (s >> 2u32) >> 16u32 == (3 * av + cv + 2) / 4,
{
}

proof fn lemma_inner_lanes(
    au: u32,
    av: u32,
    bu: u32,
    bv: u32,
    cu: u32,
    cv: u32,
    du: u32,
    dv: u32,
    avg: u32,
    s12: u32,
    s03: u32,
    w0: u32,
    w1: u32,
)
    by (bit_vector)
    requires
        au < 256,
        av < 256,
        bu < 256,
        bv < 256,
        cu < 256,
        cv < 256,
        du < 256,
        dv < 256,
        avg == (au + av * 65536) + (bu + bv * 65536) + (cu + cv * 65536) + (du + dv * 65536)
            + 0x80008,
        s12 == avg + 2 * ((bu + bv * 65536) + (cu + cv * 65536)),
        s03 == avg + 2 * ((au + av * 65536) + (du + dv * 65536)),
        w0 == (s12 >> 3u32) + (au + av * 65536),
        w1 == (s03 >> 3u32) + (bu + bv * 65536),
    ensures
        (w0 >> 1u32) & 0xff == ((au + bu + cu + du + 8 + 2 * (bu + cu)) / 8 + au) / 2,
        (w0 >> 1u32) >> 16u32 == ((av + bv + cv + dv + 8 + 2 * (bv + cv)) / 8 + av) / 2,
        (w1 >> 1u32) & 0xff == ((au + bu + cu + du + 8 + 2 * (au + du)) / 8 + bu) / 2,
        (w1 >> 1u32) >> 16u32 == ((av + bv + cv + dv + 8 + 2 * (av + dv)) / 8 + bv) / 2,
{
}

/// Writing the pixel `p` at slot `k` of a row leaves every other slot as it was.
proof fn lemma_chunk_write(before: Seq<u8>, after: Seq<u8>, step: nat, k: int, p: Seq<u8>)
    requires
        0 <= k,
        p.len() == step,
        (k + 1) * step <= before.len(),
        after == before.subrange(0, k * step) + p + before.subrange(
            (k + 1) * step,
            before.len() as int,
        ),
    ensures
        after.len() == before.len(),
        chunk(after, step, k) == p,
        forall|i: int| 0 <= i < k ==> #[trigger] chunk(after, step, i) == chunk(before, step, i),
        after.subrange((k + 1) * step, after.len() as int) == before.subrange(
            (k + 1) * step,
            before.len() as int,
        ),
{
    assert((k + 1) * step == k * step + step) by (nonlinear_arith);
    assert(0 <= k * step) by (nonlinear_arith)
        requires
            0 <= k,
    ;
    assert(chunk(after, step, k) =~= p);
    assert(after.subrange((k + 1) * step, after.len() as int) =~= before.subrange(
        (k + 1) * step,
        before.len() as int,
    ));
    assert forall|i: int| 0 <= i < k implies #[trigger] chunk(after, step, i) == chunk(
        before,
        step,
        i,
    ) by {
        assert(i * step + step <= k * step && 0 <= i * step) by (nonlinear_arith)
            requires
                0 <= i < k,
        ;
        assert(chunk(after, step, i) =~= chunk(before, step, i));
    }
}

/// The first `n` pixels of the row `dst` are those of the luma row `y` with
/// the chroma that fancy upsampling gives them (`near_*` being the chroma
/// line of the row itself, `far_*` the other one).
pub open spec fn row_upsampled(
    pixel: spec_fn(u8, u8, u8) -> Seq<u8>,
    step: nat,
    dst: Seq<u8>,
    y: Seq<u8>,
    near_u: Seq<u8>,
    near_v: Seq<u8>,
    far_u: Seq<u8>,
    far_v: Seq<u8>,
    len: int,
    n: int,
) -> bool {
    forall|i: int|
        0 <= i < n ==> #[trigger] chunk(dst, step, i) == pixel(
            y[i],
            row_chroma(near_u, far_u, len, i) as u8,
            row_chroma(near_v, far_v, len, i) as u8,
        )
}

/// What a conversion of `len` pixels leaves past the pixels it writes.
pub open spec fn tail_kept(after: Seq<u8>, before: Seq<u8>, start: int) -> bool {
    &&& after.len() == before.len()
    &&& after.subrange(start, after.len() as int) == before.subrange(start, before.len() as int)
}

/// The inputs that a row of `len` pixels reads are all there.
pub open spec fn row_inputs_ok(
    y: Seq<u8>,
    near_u: Seq<u8>,
    near_v: Seq<u8>,
    far_u: Seq<u8>,
    far_v: Seq<u8>,
    dst_len: int,
    step: nat,
    len: int,
) -> bool {
    &&& 1 <= len
    &&& len <= y.len()
    &&& chroma_len(len) <= near_u.len()
    &&& chroma_len(len) <= near_v.len()
    &&& chroma_len(len) <= far_u.len()
    &&& chroma_len(len) <= far_v.len()
    &&& len * step <= dst_len
}

/// Number of pixels that a 4:4:4 conversion writes.
pub open spec fn yuv444_count(y_len: int, u_len: int, v_len: int, dst_len: int, step: nat) -> int {
    let a = if y_len < u_len { y_len } else { u_len };
    let b = if a < v_len { a } else { v_len };
    let c = dst_len / (step as int);
    if b < c { b } else { c }
}

proof fn lemma_tail_kept_later(after: Seq<u8>, before: Seq<u8>, a: int, b: int)
    requires
        tail_kept(after, before, a),
        0 <= a <= b <= before.len(),
    ensures
        tail_kept(after, before, b),
{
    assert(after.subrange(b, after.len() as int) =~= after.subrange(a, after.len() as int).subrange(
        b - a,
        after.len() - a,
    ));
    assert(before.subrange(b, before.len() as int) =~= before.subrange(
        a,
        before.len() as int,
    ).subrange(b - a, before.len() - a));
}

/// Writing the expected pixel `k` after the first `k` extends the converted
/// prefix of the row by one pixel.
proof fn lemma_row_extend(
    pixel: spec_fn(u8, u8, u8) -> Seq<u8>,
    step: nat,
    orig: Seq<u8>,
    before: Seq<u8>,
    after: Seq<u8>,
    y: Seq<u8>,
    near_u: Seq<u8>,
    near_v: Seq<u8>,
    far_u: Seq<u8>,
    far_v: Seq<u8>,
    len: int,
    k: int,
    p: Seq<u8>,
)
    requires
        0 <= k < len,
        len * step <= before.len(),
        row_upsampled(pixel, step, before, y, near_u, near_v, far_u, far_v, len, k),
        tail_kept(before, orig, k * step),
        p == pixel(y[k], row_chroma(near_u, far_u, len, k) as u8, row_chroma(near_v, far_v, len, k) as u8),
        p.len() == step,
        after == before.subrange(0, k * step) + p + before.subrange(
            (k + 1) * step,
            before.len() as int,
        ),
    ensures
        row_upsampled(pixel, step, after, y, near_u, near_v, far_u, far_v, len, k + 1),
        tail_kept(after, orig, (k + 1) * step),
{
    assert((k + 1) * step <= len * step) by (nonlinear_arith)
        requires
            k + 1 <= len,
    ;
    assert(k * step <= (k + 1) * step) by (nonlinear_arith);
    lemma_chunk_write(before, after, step, k, p);
    lemma_tail_kept_later(before, orig, k * step, (k + 1) * step);
    assert forall|i: int| 0 <= i < k + 1 implies #[trigger] chunk(after, step, i) == pixel(
        y[i],
        row_chroma(near_u, far_u, len, i) as u8,
        row_chroma(near_v, far_v, len, i) as u8,
    ) by {
        if i < k {
            assert(chunk(after, step, i) == chunk(before, step, i));
        }
    }
}

proof fn lemma_shr_le(x: u32, n: u32)
    by (bit_vector)
    ensures
        x >> n <= x,
{
}

/// Conversion of one pixel into `step()` bytes of some packed RGB format,
/// and the row-level operations built on it.
pub trait FancyUpsampler: Sized {
    /// Number of bytes of one output pixel.
    spec fn step() -> nat;

    /// The bytes of the output pixel for the samples `(y, u, v)`.
    spec fn pixel(y: u8, u: u8, v: u8) -> Seq<u8>;

    proof fn lemma_pixel_len(y: u8, u: u8, v: u8)
        ensures
            Self::pixel(y, u, v).len() == Self::step(),
            1 <= Self::step() <= 4,
    ;

    /// Number of bytes of one output pixel.
    fn xstep() -> (n: usize)
        ensures
            n == Self::step(),
    ;

    /// Writes the pixel for `(y, u, v)` into `out`, which is one pixel long.
    fn upsample(y: u8, u: u8, v: u8, out: &mut [u8])
        requires
            old(out)@.len() == Self::step(),
        ensures
            final(out)@ == Self::pixel(y, u, v),
    ;

    /// A `u` and a `v` sample side by side in the two 16-bit lanes of a word,
    /// so that both chroma planes are interpolated by one computation.
    fn load_uv(u: u8, v: u8) -> (r: u32)
        ensures
            r == packed(u as int, v as int),
    {
        let r = (u as u32) | ((v as u32) << 16);
        assert((u as u32) | ((v as u32) << 16u32) == u + v * 65536) by (bit_vector)
            requires
                u < 256,
                v < 256,
        ;
        r
    }

    /// Writes the pixel for `(y, u, v)` into slot `k` of the row `dst`.
    fn upsample_at(dst: &mut [u8], k: usize, y: u8, u: u8, v: u8)
        requires
            (k + 1) * Self::step() <= old(dst)@.len(),
        ensures
            final(dst)@ == old(dst)@.subrange(0, k * Self::step()) + Self::pixel(y, u, v)
                + old(dst)@.subrange((k + 1) * Self::step(), old(dst)@.len() as int),
    {
        let step = Self::xstep();
        let n = dst.len();
        proof {
            assert((k + 1) * step == k * step + step) by (nonlinear_arith);
            assert(k * step + step <= dst@.len());
        }
        let start = k * step;
        let (head, rest) = dst.split_at_mut(start);
        let (slot, tail) = rest.split_at_mut(step);
        Self::upsample(y, u, v, slot);
        proof {
            assert(final(dst)@ =~= old(dst)@.subrange(0, k * Self::step()) + Self::pixel(y, u, v)
                + old(dst)@.subrange((k + 1) * Self::step(), old(dst)@.len() as int));
        }
    }

    /// Converts one row of `len` pixels: `near_*` are the chroma samples of
    /// the row's own half-resolution line, `far_*` those of the other line of
    /// the pair.
    fn upsample_row(
        y: &[u8],
        near_u: &[u8],
        near_v: &[u8],
        far_u: &[u8],
        far_v: &[u8],
        dst: &mut [u8],
        len: usize,
    )
        requires
            row_inputs_ok(y@, near_u@, near_v@, far_u@, far_v@, old(dst)@.len() as int, Self::step(), len as int),
        ensures
            row_upsampled(|y: u8, u: u8, v: u8| Self::pixel(y, u, v), Self::step(), final(dst)@, y@, near_u@, near_v@, far_u@, far_v@, len as int, len as int),
            tail_kept(final(dst)@, old(dst)@, len * Self::step()),
    {
        let ghost orig = dst@;
        let ghost step = Self::step();
        let ghost pixel = |y: u8, u: u8, v: u8| Self::pixel(y, u, v);
        let len_m1 = len - 1;
        let last_pixel_pair = len_m1 >> 1;
        assert(len_m1 >> 1usize == len_m1 / 2) by (bit_vector);
        proof {
            assert(1 * step <= len * step) by (nonlinear_arith)
                requires
                    1 <= len,
            ;
            assert(orig.subrange(0, orig.len() as int) =~= orig);
        }
        let mut tl_uv = Self::load_uv(near_u[0], near_v[0]);  // top-left sample
        let mut l_uv = Self::load_uv(far_u[0], far_v[0]);  // left-sample
        {
            let s = 3 * tl_uv + l_uv + 0x00020002;
            let uv0 = s >> 2;
            proof {
                lemma_edge_lanes(near_u@[0] as u32, near_v@[0] as u32, far_u@[0] as u32, far_v@[0] as u32, s);
            }
            let ghost before = dst@;
            Self::upsample_at(dst, 0, y[0], (uv0 & 0xff) as u8, (uv0 >> 16) as u8);
            proof {
                Self::lemma_pixel_len(y@[0], (uv0 & 0xff) as u8, (uv0 >> 16) as u8);
                lemma_row_extend(pixel, step, orig, before, dst@, y@, near_u@, near_v@, far_u@, far_v@,
                    len as int, 0, pixel(y@[0], (uv0 & 0xff) as u8, (uv0 >> 16) as u8));
            }
        }
        let mut x: usize = 1;
        while x <= last_pixel_pair
            invariant
                row_inputs_ok(y@, near_u@, near_v@, far_u@, far_v@, orig.len() as int, step, len as int),
                step == Self::step(),
                pixel == (|y: u8, u: u8, v: u8| Self::pixel(y, u, v)),
                last_pixel_pair == (len - 1) / 2,
                1 <= x <= last_pixel_pair + 1,
                tl_uv == packed(near_u@[x - 1] as int, near_v@[x - 1] as int),
                l_uv == packed(far_u@[x - 1] as int, far_v@[x - 1] as int),
                row_upsampled(pixel, step, dst@, y@, near_u@, near_v@, far_u@, far_v@, len as int, 2 * x - 1),
                tail_kept(dst@, orig, (2 * x - 1) * step),
            decreases last_pixel_pair + 1 - x,
        {
            let t_uv = Self::load_uv(near_u[x], near_v[x]);  // top sample
            let uv = Self::load_uv(far_u[x], far_v[x]);  // sample
            // precompute invariant values associated with first and second diagonals
            let avg = tl_uv + t_uv + l_uv + uv + 0x00080008;
            let s12 = avg + 2 * (t_uv + l_uv);
            let s03 = avg + 2 * (tl_uv + uv);
            let diag_12 = s12 >> 3;
            let diag_03 = s03 >> 3;
            proof {
                lemma_shr_le(s12, 3);
                lemma_shr_le(s03, 3);
            }
            let w0 = diag_12 + tl_uv;
            let w1 = diag_03 + t_uv;
            let uv0 = w0 >> 1;
            let uv1 = w1 >> 1;
            proof {
                lemma_inner_lanes(
                    near_u@[x - 1] as u32, near_v@[x - 1] as u32,
                    near_u@[x as int] as u32, near_v@[x as int] as u32,
                    far_u@[x - 1] as u32, far_v@[x - 1] as u32,
                    far_u@[x as int] as u32, far_v@[x as int] as u32,
                    avg, s12, s03, w0, w1,
                );
                assert(row_chroma(near_u@, far_u@, len as int, 2 * x - 1) == (uv0 & 0xff));
                assert(row_chroma(near_v@, far_v@, len as int, 2 * x - 1) == (uv0 >> 16));
                assert(row_chroma(near_u@, far_u@, len as int, 2 * x as int) == (uv1 & 0xff));
                assert(row_chroma(near_v@, far_v@, len as int, 2 * x as int) == (uv1 >> 16));
                assert((2 * x + 1) * step <= len * step) by (nonlinear_arith)
                    requires
                        2 * x + 1 <= len,
                ;
                assert((2 * x) * step <= (2 * x + 1) * step) by (nonlinear_arith);
            }
            let ghost before = dst@;
            Self::upsample_at(dst, 2 * x - 1, y[2 * x - 1], (uv0 & 0xff) as u8, (uv0 >> 16) as u8);
            proof {
                Self::lemma_pixel_len(y@[2 * x - 1], (uv0 & 0xff) as u8, (uv0 >> 16) as u8);
                lemma_row_extend(pixel, step, orig, before, dst@, y@, near_u@, near_v@, far_u@, far_v@,
                    len as int, 2 * x - 1, pixel(y@[2 * x - 1], (uv0 & 0xff) as u8, (uv0 >> 16) as u8));
            }
            let ghost mid = dst@;
            Self::upsample_at(dst, 2 * x, y[2 * x], (uv1 & 0xff) as u8, (uv1 >> 16) as u8);
            proof {
                Self::lemma_pixel_len(y@[2 * x as int], (uv1 & 0xff) as u8, (uv1 >> 16) as u8);
                lemma_row_extend(pixel, step, orig, mid, dst@, y@, near_u@, near_v@, far_u@, far_v@,
                    len as int, 2 * x as int, pixel(y@[2 * x as int], (uv1 & 0xff) as u8, (uv1 >> 16) as u8));
            }
            tl_uv = t_uv;
            l_uv = uv;
            x = x + 1;
        }
        assert(len & 1usize == 0 <==> len % 2 == 0) by (bit_vector);
        if len & 1 == 0 {
            let s = 3 * tl_uv + l_uv + 0x00020002;
            let uv0 = s >> 2;
            proof {
                lemma_edge_lanes(
                    near_u@[x - 1] as u32, near_v@[x - 1] as u32,
                    far_u@[x - 1] as u32, far_v@[x - 1] as u32, s,
                );
                assert(row_chroma(near_u@, far_u@, len as int, len - 1) == (uv0 & 0xff));
                assert(row_chroma(near_v@, far_v@, len as int, len - 1) == (uv0 >> 16));
            }
            let ghost before = dst@;
            Self::upsample_at(dst, len - 1, y[len - 1], (uv0 & 0xff) as u8, (uv0 >> 16) as u8);
            proof {
                Self::lemma_pixel_len(y@[len - 1], (uv0 & 0xff) as u8, (uv0 >> 16) as u8);
                lemma_row_extend(pixel, step, orig, before, dst@, y@, near_u@, near_v@, far_u@, far_v@,
                    len as int, len - 1, pixel(y@[len - 1], (uv0 & 0xff) as u8, (uv0 >> 16) as u8));
            }
        }
    }

    /// Converts a pair of luma rows that share the chroma lines `top_*`
    /// (above) and `cur_*` (below): the top row into `top_dst`, and, where
    /// `bottom` is given, its luma row into its destination.
    fn upsample_line_pair(
        &self,
        top_y: &[u8],
        bottom: Option<(&[u8], &mut [u8])>,
        top_u: &[u8],
        top_v: &[u8],
        cur_u: &[u8],
        cur_v: &[u8],
        top_dst: &mut [u8],
        len: usize,
    )
        requires
            row_inputs_ok(top_y@, top_u@, top_v@, cur_u@, cur_v@, old(top_dst)@.len() as int, Self::step(), len as int),
            bottom matches Some((bottom_y, bottom_dst)) ==> len <= bottom_y@.len() && len * Self::step() <= bottom_dst@.len(),
        ensures
            row_upsampled(|y: u8, u: u8, v: u8| Self::pixel(y, u, v), Self::step(), final(top_dst)@, top_y@, top_u@, top_v@, cur_u@, cur_v@, len as int, len as int),
            tail_kept(final(top_dst)@, old(top_dst)@, len * Self::step()),
            bottom matches Some((bottom_y, bottom_dst)) ==> {
                &&& row_upsampled(|y: u8, u: u8, v: u8| Self::pixel(y, u, v), Self::step(), final(bottom_dst)@, bottom_y@, cur_u@, cur_v@, top_u@, top_v@, len as int, len as int)
                &&& tail_kept(final(bottom_dst)@, bottom_dst@, len * Self::step())
            },
    {
        Self::do_upsample_line_pair(top_y, bottom, top_u, top_v, cur_u, cur_v, top_dst, len);
    }

    /// The work of `upsample_line_pair`: the top row takes its chroma mostly
    /// from `top_*`, the bottom row mostly from `cur_*`.
    fn do_upsample_line_pair(
        top_y: &[u8],
        bottom: Option<(&[u8], &mut [u8])>,
        top_u: &[u8],
        top_v: &[u8],
        cur_u: &[u8],
        cur_v: &[u8],
        top_dst: &mut [u8],
        len: usize,
    )
        requires
            row_inputs_ok(top_y@, top_u@, top_v@, cur_u@, cur_v@, old(top_dst)@.len() as int, Self::step(), len as int),
            bottom matches Some((bottom_y, bottom_dst)) ==> len <= bottom_y@.len() && len * Self::step() <= bottom_dst@.len(),
        ensures
            row_upsampled(|y: u8, u: u8, v: u8| Self::pixel(y, u, v), Self::step(), final(top_dst)@, top_y@, top_u@, top_v@, cur_u@, cur_v@, len as int, len as int),
            tail_kept(final(top_dst)@, old(top_dst)@, len * Self::step()),
            bottom matches Some((bottom_y, bottom_dst)) ==> {
                &&& row_upsampled(|y: u8, u: u8, v: u8| Self::pixel(y, u, v), Self::step(), final(bottom_dst)@, bottom_y@, cur_u@, cur_v@, top_u@, top_v@, len as int, len as int)
                &&& tail_kept(final(bottom_dst)@, bottom_dst@, len * Self::step())
            },
    {
        Self::upsample_row(top_y, top_u, top_v, cur_u, cur_v, top_dst, len);
        match bottom {
            Some((bottom_y, bottom_dst)) => {
                Self::upsample_row(bottom_y, cur_u, cur_v, top_u, top_v, bottom_dst, len);
            },
            None => {},
        }
    }

    /// Converts full-resolution samples pixel by pixel: pixel `i` of `dst`
    /// gets `(y[i], u[i], v[i])`, for as many pixels as all four slices have.
    fn convert_yuv_444(y: &[u8], u: &[u8], v: &[u8], dst: &mut [u8])
        ensures
            ({
                let n = yuv444_count(y@.len() as int, u@.len() as int, v@.len() as int, old(dst)@.len() as int, Self::step());
                &&& forall|i: int| 0 <= i < n ==> #[trigger] chunk(final(dst)@, Self::step(), i) == Self::pixel(y@[i], u@[i], v@[i])
                &&& tail_kept(final(dst)@, old(dst)@, n * Self::step())
            }),
    {
        let ghost orig = dst@;
        let ghost step = Self::step();
        let xstep = Self::xstep();
        proof {
            Self::lemma_pixel_len(0, 0, 0);
        }
        let mut n = y.len();
        if u.len() < n {
            n = u.len();
        }
        if v.len() < n {
            n = v.len();
        }
        let whole = dst.len() / xstep;
        if whole < n {
            n = whole;
        }
        proof {
            assert(n * step <= orig.len()) by (nonlinear_arith)
                requires
                    n <= (orig.len() as int) / (step as int),
                    step >= 1,
            ;
            assert(orig.subrange(0, orig.len() as int) =~= orig);
        }
        let mut i: usize = 0;
        while i < n
            invariant
                step == Self::step(),
                1 <= step <= 4,
                n == yuv444_count(y@.len() as int, u@.len() as int, v@.len() as int, orig.len() as int, step),
                n <= y@.len(),
                n <= u@.len(),
                n <= v@.len(),
                n * step <= orig.len(),
                0 <= i <= n,
                forall|j: int| 0 <= j < i ==> #[trigger] chunk(dst@, step, j) == Self::pixel(y@[j], u@[j], v@[j]),
                tail_kept(dst@, orig, i * step),
            decreases n - i,
        {
            let ghost before = dst@;
            proof {
                assert((i + 1) * step <= n * step) by (nonlinear_arith)
                    requires
                        i + 1 <= n,
                ;
                assert(i * step <= (i + 1) * step) by (nonlinear_arith);
            }
            Self::upsample_at(dst, i, y[i], u[i], v[i]);
            proof {
                Self::lemma_pixel_len(y@[i as int], u@[i as int], v@[i as int]);
                lemma_chunk_write(before, dst@, step, i as int, Self::pixel(y@[i as int], u@[i as int], v@[i as int]));
                lemma_tail_kept_later(before, orig, i * step, (i + 1) * step);
                assert forall|j: int| 0 <= j < i + 1 implies #[trigger] chunk(dst@, step, j) == Self::pixel(y@[j], u@[j], v@[j]) by {
                    if j < i {
                        assert(chunk(dst@, step, j) == chunk(before, step, j));
                    }
                }
            }
            i = i + 1;
        }
    }
}

/// Output in RGBA, four bytes per pixel with opaque alpha last.
pub struct YuvToRgbaUpsampler {}

impl FancyUpsampler for YuvToRgbaUpsampler {
    open spec fn step() -> nat {
        4
    }

    open spec fn pixel(y: u8, u: u8, v: u8) -> Seq<u8> {
        rgb_spec(y, u, v).push(0xff)
    }

    proof fn lemma_pixel_len(y: u8, u: u8, v: u8) {
    }

    fn xstep() -> (n: usize) {
        4
    }

    fn upsample(y: u8, u: u8, v: u8, out: &mut [u8]) {
        let dst = to_array_ref_mut::<u8, 4>(out);
        vp8_yuv_to_rgba(y, u, v, dst);
        proof {
            assert(old(out)@.skip(4) =~= Seq::<u8>::empty());
            assert(final(out)@ =~= Self::pixel(y, u, v));
        }
    }
}

/// Output in BGRA, four bytes per pixel with opaque alpha last.
pub struct YuvToBgraUpsampler {}

impl FancyUpsampler for YuvToBgraUpsampler {
    open spec fn step() -> nat {
        4
    }

    open spec fn pixel(y: u8, u: u8, v: u8) -> Seq<u8> {
        bgr_spec(y, u, v).push(0xff)
    }

    proof fn lemma_pixel_len(y: u8, u: u8, v: u8) {
    }

    fn xstep() -> (n: usize) {
        4
    }

    fn upsample(y: u8, u: u8, v: u8, out: &mut [u8]) {
        let dst = to_array_ref_mut::<u8, 4>(out);
        vp8_yuv_to_bgra(y, u, v, dst);
        proof {
            assert(old(out)@.skip(4) =~= Seq::<u8>::empty());
            assert(final(out)@ =~= Self::pixel(y, u, v));
        }
    }
}

/// Output in RGB, three bytes per pixel.
pub struct YuvToRgbUpsampler {}

impl FancyUpsampler for YuvToRgbUpsampler {
    open spec fn step() -> nat {
        3
    }

    open spec fn pixel(y: u8, u: u8, v: u8) -> Seq<u8> {
        rgb_spec(y, u, v)
    }

    proof fn lemma_pixel_len(y: u8, u: u8, v: u8) {
    }

    fn xstep() -> (n: usize) {
        3
    }

    fn upsample(y: u8, u: u8, v: u8, out: &mut [u8]) {
        let dst = to_array_ref_mut::<u8, 3>(out);
        vp8_yuv_to_rgb(y, u, v, dst);
        proof {
            assert(old(out)@.skip(3) =~= Seq::<u8>::empty());
            assert(final(out)@ =~= Self::pixel(y, u, v));
        }
    }
}

/// Output in BGR, three bytes per pixel.
pub struct YuvToBgrUpsampler {}

impl FancyUpsampler for YuvToBgrUpsampler {
    open spec fn step() -> nat {
        3
    }

    open spec fn pixel(y: u8, u: u8, v: u8) -> Seq<u8> {
        bgr_spec(y, u, v)
    }

    proof fn lemma_pixel_len(y: u8, u: u8, v: u8) {
    }

    fn xstep() -> (n: usize) {
        3
    }

    fn upsample(y: u8, u: u8, v: u8, out: &mut [u8]) {
        let dst = to_array_ref_mut::<u8, 3>(out);
        vp8_yuv_to_bgr(y, u, v, dst);
        proof {
            assert(old(out)@.skip(3) =~= Seq::<u8>::empty());
            assert(final(out)@ =~= Self::pixel(y, u, v));
        }
    }
}

/// Output in ARGB, four bytes per pixel with opaque alpha first.
pub struct YuvToArgbUpsampler {}

impl FancyUpsampler for YuvToArgbUpsampler {
    open spec fn step() -> nat {
        4
    }

    open spec fn pixel(y: u8, u: u8, v: u8) -> Seq<u8> {
        seq![0xffu8] + rgb_spec(y, u, v)
    }

    proof fn lemma_pixel_len(y: u8, u: u8, v: u8) {
    }

    fn xstep() -> (n: usize) {
        4
    }

    fn upsample(y: u8, u: u8, v: u8, out: &mut [u8]) {
        let dst = to_array_ref_mut::<u8, 4>(out);
        vp8_yuv_to_argb(y, u, v, dst);
        proof {
            assert(old(out)@.skip(4) =~= Seq::<u8>::empty());
            assert(final(out)@ =~= Self::pixel(y, u, v));
        }
    }
}

/// Output in RGBA-4444, two bytes per pixel.
pub struct YuvToRgba4444Upsampler {}

impl FancyUpsampler for YuvToRgba4444Upsampler {
    open spec fn step() -> nat {
        2
    }

    open spec fn pixel(y: u8, u: u8, v: u8) -> Seq<u8> {
        rgba4444_spec(y, u, v)
    }

    proof fn lemma_pixel_len(y: u8, u: u8, v: u8) {
    }

    fn xstep() -> (n: usize) {
        2
    }

    fn upsample(y: u8, u: u8, v: u8, out: &mut [u8]) {
        let dst = to_array_ref_mut::<u8, 2>(out);
        vp8_yuv_to_rgba_4444(y, u, v, dst);
        proof {
            assert(old(out)@.skip(2) =~= Seq::<u8>::empty());
            assert(final(out)@ =~= Self::pixel(y, u, v));
        }
    }
}

/// Output in RGB-565, two bytes per pixel.
pub struct YuvToRgb565Upsampler {}

impl FancyUpsampler for YuvToRgb565Upsampler {
    open spec fn step() -> nat {
        2
    }

    open spec fn pixel(y: u8, u: u8, v: u8) -> Seq<u8> {
        rgb565_spec(y, u, v)
    }

    proof fn lemma_pixel_len(y: u8, u: u8, v: u8) {
    }

    fn xstep() -> (n: usize) {
        2
    }

    fn upsample(y: u8, u: u8, v: u8, out: &mut [u8]) {
        let dst = to_array_ref_mut::<u8, 2>(out);
        vp8_yuv_to_rgb_565(y, u, v, dst);
        proof {
            assert(old(out)@.skip(2) =~= Seq::<u8>::empty());
            assert(final(out)@ =~= Self::pixel(y, u, v));
        }
    }
}

/// The two-step rounding of `fancy_chroma` gives exactly the weighted mean
/// `(9a + 3b + 3c + d + 8) / 16` of the square `[a b] [c d]`.
pub proof fn law_fancy_chroma_is_weighted_mean(a: int, b: int, c: int, d: int)
    ensures
        fancy_chroma(a, b, c, d) == (9 * a + 3 * b + 3 * c + d + 8) / 16,
{
    let x = a + 3 * b + 3 * c + d + 8;
    let q = x / 8;
    let r = x % 8;
    assert(x == 8 * q + r && 0 <= r < 8);
    let m = (q + a) / 2;
    let e = (q + a) % 2;
    assert(q + a == 2 * m + e && 0 <= e < 2);
    assert(9 * a + 3 * b + 3 * c + d + 8 == 16 * m + 8 * e + r);
    assert((16 * m + 8 * e + r) / 16 == m);
}

/// Where both chroma lines hold the same value `k` throughout, fancy
/// upsampling gives every pixel of the row the chroma `k`.
pub proof fn law_flat_chroma_is_kept(near: Seq<u8>, far: Seq<u8>, len: int, k: u8, i: int)
    requires
        1 <= len,
        chroma_len(len) <= near.len(),
        chroma_len(len) <= far.len(),
        forall|j: int| 0 <= j < near.len() ==> near[j] == k,
        forall|j: int| 0 <= j < far.len() ==> far[j] == k,
        0 <= i < len,
    ensures
        row_chroma(near, far, len, i) == k,
{
}

} // verus!
