//! Laws of the inverse transforms, intra predictors and loop filters of
//! `dec`, stated from their definitions in VP8 rather than from the way the
//! functions compute them.
use vstd::prelude::*;
use crate::dec::{
    idct_horizontal, mul1_spec, mul2_spec,
    block_fill, dc16_no_left_pred, dc16_no_top_pred, dc16_pred, dc4_pred, dc8_uv_no_left_pred,
    dc8_uv_no_top_pred, dc8_uv_pred, he16_pred, he8_uv_pred, tm_pred, ve16_pred, ve8_uv_pred, complex24_step, complex26_step, filter2_spec, filter4_spec, filter6_spec, hev_spec, simple_step, needs_filter2_spec, needs_filter_spec, hd4_pred, he4_pred, hu4_pred, ld4_pred, rd4_pred,
    ve4_pred, vl4_pred, vr4_pred, px, sum_col, sum_row, window_ok, wht_output,
};
use crate::dec_clip_tables::clamp;

verus! {

//------------------------------------------------------------------------------
// Inner-edge loop filter

/// The 4-tap inner-edge filter smooths the edge between `p0` (at `z - st`)
/// and `q0` (at `z`): it changes only `p1, p0, q0, q1`; on a rising edge it
/// raises the two samples before the edge and lowers the two after it, on a
/// falling edge the other way round, and the inner pair never crosses.  The
/// inner samples move by 3/8 of the step, rounded (as long as that is at most
/// 15), and each outer sample moves by half the move of `q0`, rounded up,
/// as long as it is not clipped.
pub proof fn law_filter4_smooths_edge(s: Seq<u8>, z: int, st: int)
    requires
        st != 0,
        window_ok(s, z, st, -2, 1),
    ensures
        ({
            let t = filter4_spec(s, z, st);
            let p1 = px(s, z, -2, st);
            let p0 = px(s, z, -1, st);
            let q0 = px(s, z, 0, st);
            let q1 = px(s, z, 1, st);
            let np1 = px(t, z, -2, st);
            let np0 = px(t, z, -1, st);
            let nq0 = px(t, z, 0, st);
            let nq1 = px(t, z, 1, st);
            &&& t.len() == s.len()
            &&& forall|k: int|
                0 <= k < s.len() && k != z - 2 * st && k != z - st && k != z && k != z + st ==> #[trigger] t[k]
                    == s[k]
            &&& p0 <= q0 ==> p1 <= np1 && p0 <= np0 && np0 <= nq0 && nq0 <= q0 && nq1 <= q1
            &&& q0 <= p0 ==> np1 <= p1 && np0 <= p0 && nq0 <= np0 && q0 <= nq0 && q1 <= nq1
            &&& -30 <= q0 - p0 <= 30 ==> {
                &&& q0 - nq0 == (3 * (q0 - p0) + 4) / 8
                &&& np0 - p0 == (3 * (q0 - p0) + 3) / 8
            }
            &&& 8 <= p1 <= 247 ==> np1 - p1 == (q0 - nq0 + 1) / 2
            &&& 8 <= q1 <= 247 ==> q1 - nq1 == (q0 - nq0 + 1) / 2
        }),
{
    let t = filter4_spec(s, z, st);
    let p1 = px(s, z, -2, st);
    let p0 = px(s, z, -1, st);
    let q0 = px(s, z, 0, st);
    let q1 = px(s, z, 1, st);
    let d = q0 - p0;
    let a = 3 * d;
    let a1 = clamp((a + 4) / 8, -16, 15);
    let a2 = clamp((a + 3) / 8, -16, 15);
    let a3 = (a1 + 1) / 2;
    assert(z + (-2) * st == z - 2 * st);
    assert(z + (-1) * st == z - st);
    assert(z + 0 * st == z);
    assert(z + 1 * st == z + st);
    crate::dec::lemma_window_inner(s, z, st, -2, 1, -1);
    crate::dec::lemma_window_inner(s, z, st, -2, 1, 0);
    // the moves of the inner pair never exceed the step
    if d >= 0 {
        assert(0 <= a2 <= a1);
        assert(a1 + a2 <= d);
    } else {
        assert(a1 <= 0 && a2 <= 0 && a2 <= a1);
        assert(a1 + a2 >= d);
    }
    assert(a1 - 1 <= a2);
    assert(-8 <= a3 <= 8);
    assert(t[z - st] == clamp(p0 + a2, 0, 255) as u8);
    assert(t[z] == clamp(q0 - a1, 0, 255) as u8);
    assert(t[z - 2 * st] == clamp(p1 + a3, 0, 255) as u8);
    assert(t[z + st] == clamp(q1 - a3, 0, 255) as u8);
}

/// The 2-tap filter of the simple loop filter and of high-variance edges
/// changes only `p0` and `q0`.  Where the outer samples agree
/// (`p1 == q1`), it moves `p0` and `q0` toward each other without letting
/// them cross, by 3/8 of the step rounded (at most 15), the move of `q0`
/// exceeding that of `p0` by at most one.
pub proof fn law_filter2_smooths_edge(s: Seq<u8>, z: int, st: int)
    requires
        st != 0,
        window_ok(s, z, st, -2, 1),
    ensures
        ({
            let t = filter2_spec(s, z, st);
            let p1 = px(s, z, -2, st);
            let p0 = px(s, z, -1, st);
            let q0 = px(s, z, 0, st);
            let q1 = px(s, z, 1, st);
            let np0 = px(t, z, -1, st);
            let nq0 = px(t, z, 0, st);
            &&& t.len() == s.len()
            &&& forall|k: int| 0 <= k < s.len() && k != z - st && k != z ==> #[trigger] t[k] == s[k]
            &&& p1 == q1 && p0 <= q0 ==> p0 <= np0 && np0 <= nq0 && nq0 <= q0
            &&& p1 == q1 && q0 <= p0 ==> np0 <= p0 && nq0 <= np0 && q0 <= nq0
            &&& p1 == q1 && -30 <= q0 - p0 <= 30 ==> {
                &&& q0 - nq0 == (3 * (q0 - p0) + 4) / 8
                &&& np0 - p0 == (3 * (q0 - p0) + 3) / 8
            }
            &&& 0 <= (q0 - nq0) - (np0 - p0) <= 1 || nq0 == 0 || nq0 == 255 || np0 == 0 || np0 == 255
        }),
{
    let t = filter2_spec(s, z, st);
    let p1 = px(s, z, -2, st);
    let p0 = px(s, z, -1, st);
    let q0 = px(s, z, 0, st);
    let q1 = px(s, z, 1, st);
    let d = q0 - p0;
    let a = 3 * d + clamp(p1 - q1, -128, 127);
    let a1 = clamp((a + 4) / 8, -16, 15);
    let a2 = clamp((a + 3) / 8, -16, 15);
    assert(z + (-2) * st == z - 2 * st);
    assert(z + (-1) * st == z - st);
    assert(z + 0 * st == z);
    assert(z + 1 * st == z + st);
    crate::dec::lemma_window_inner(s, z, st, -2, 1, -1);
    crate::dec::lemma_window_inner(s, z, st, -2, 1, 0);
    if p1 == q1 {
        if d >= 0 {
            assert(0 <= a2 <= a1);
            assert(a1 + a2 <= d);
        } else {
            assert(a1 <= 0 && a2 <= 0 && a2 <= a1);
            assert(a1 + a2 >= d);
        }
    }
    assert(a1 - 1 <= a2 <= a1);
    assert(t[z - st] == clamp(p0 + a2, 0, 255) as u8);
    assert(t[z] == clamp(q0 - a1, 0, 255) as u8);
}

/// The 6-tap filter of macroblock edges changes only `p2..q2`.  Where the
/// outer samples `p1`, `q1` agree, it moves the three samples on each side
/// toward the edge's other side, the nearer a sample the further it moves
/// (as long as none is clipped), and each side by the same amount
/// (mirrored) at the same distance.
pub proof fn law_filter6_smooths_edge(s: Seq<u8>, z: int, st: int)
    requires
        st != 0,
        window_ok(s, z, st, -3, 2),
    ensures
        ({
            let t = filter6_spec(s, z, st);
            let p2 = px(s, z, -3, st);
            let p1 = px(s, z, -2, st);
            let p0 = px(s, z, -1, st);
            let q0 = px(s, z, 0, st);
            let q1 = px(s, z, 1, st);
            let q2 = px(s, z, 2, st);
            let np2 = px(t, z, -3, st);
            let np1 = px(t, z, -2, st);
            let np0 = px(t, z, -1, st);
            let nq0 = px(t, z, 0, st);
            let nq1 = px(t, z, 1, st);
            let nq2 = px(t, z, 2, st);
            &&& t.len() == s.len()
            &&& forall|k: int|
                0 <= k < s.len() && k != z - 3 * st && k != z - 2 * st && k != z - st && k != z && k != z + st
                    && k != z + 2 * st ==> #[trigger] t[k] == s[k]
            &&& p1 == q1 && p0 <= q0 ==> p2 <= np2 && p1 <= np1 && p0 <= np0 && nq0 <= q0 && nq1 <= q1 && nq2 <= q2
            &&& p1 == q1 && q0 <= p0 ==> np2 <= p2 && np1 <= p1 && np0 <= p0 && q0 <= nq0 && q1 <= nq1 && q2 <= nq2
            &&& p1 == q1 && 27 <= p2 <= 228 && 27 <= p1 <= 228 && 27 <= p0 <= 228 && 27 <= q0 <= 228 && 27 <= q2
                <= 228 ==> {
                &&& np0 - p0 == q0 - nq0
                &&& np1 - p1 == q1 - nq1
                &&& np2 - p2 == q2 - nq2
                &&& p0 <= q0 ==> np2 - p2 <= np1 - p1 && np1 - p1 <= np0 - p0
                &&& q0 <= p0 ==> p2 - np2 <= p1 - np1 && p1 - np1 <= p0 - np0
            }
        }),
{
    let t = filter6_spec(s, z, st);
    let p1 = px(s, z, -2, st);
    let q1 = px(s, z, 1, st);
    let p0 = px(s, z, -1, st);
    let q0 = px(s, z, 0, st);
    let a = clamp(3 * (q0 - p0) + clamp(p1 - q1, -128, 127), -128, 127);
    let a1 = (27 * a + 63) / 128;
    let a2 = (18 * a + 63) / 128;
    let a3 = (9 * a + 63) / 128;
    assert(z + (-3) * st == z - 3 * st);
    assert(z + (-2) * st == z - 2 * st);
    assert(z + (-1) * st == z - st);
    assert(z + 0 * st == z);
    assert(z + 1 * st == z + st);
    assert(z + 2 * st == z + 2 * st);
    crate::dec::lemma_window_inner(s, z, st, -3, 2, -2);
    crate::dec::lemma_window_inner(s, z, st, -3, 2, -1);
    crate::dec::lemma_window_inner(s, z, st, -3, 2, 0);
    crate::dec::lemma_window_inner(s, z, st, -3, 2, 1);
    assert(-128 <= a <= 127);
    if a >= 0 {
        assert(0 <= a3 <= a2 <= a1 <= 27);
    } else {
        assert(-27 <= a1 <= a2 <= a3 <= 0);
    }
    assert(t[z - 3 * st] == clamp(px(s, z, -3, st) + a3, 0, 255) as u8);
    assert(t[z - 2 * st] == clamp(p1 + a2, 0, 255) as u8);
    assert(t[z - st] == clamp(p0 + a1, 0, 255) as u8);
    assert(t[z] == clamp(q0 - a1, 0, 255) as u8);
    assert(t[z + st] == clamp(q1 - a2, 0, 255) as u8);
    assert(t[z + 2 * st] == clamp(px(s, z, 2, st) - a3, 0, 255) as u8);
}

/// The edge tests of the loop filter: a flat edge (the eight samples
/// `p3..q3` equal) is always filtered and never of high variance, whatever
/// the (non-negative) thresholds; a step across the edge larger than a
/// quarter of the edge limit `t` is never filtered; a step beside the edge
/// larger than `thresh` is always of high variance.
pub proof fn law_edge_tests(s: Seq<u8>, z: int, st: int, t: int, it: int, thresh: int)
    requires
        window_ok(s, z, st, -4, 3),
        0 <= t,
        0 <= it,
        0 <= thresh,
    ensures
        (forall|k: int| -4 <= k <= 3 ==> #[trigger] px(s, z, k, st) == px(s, z, 0, st)) ==> {
            &&& needs_filter_spec(s, z, st, t)
            &&& needs_filter2_spec(s, z, st, t, it)
            &&& !hev_spec(s, z, st, thresh)
        },
        4 * (px(s, z, 0, st) - px(s, z, -1, st)) > t ==> !needs_filter_spec(s, z, st, t) && !needs_filter2_spec(s, z, st, t, it),
        4 * (px(s, z, -1, st) - px(s, z, 0, st)) > t ==> !needs_filter_spec(s, z, st, t) && !needs_filter2_spec(s, z, st, t, it),
        px(s, z, -2, st) - px(s, z, -1, st) > thresh || px(s, z, -1, st) - px(s, z, -2, st) > thresh
            || px(s, z, 1, st) - px(s, z, 0, st) > thresh || px(s, z, 0, st) - px(s, z, 1, st) > thresh ==> hev_spec(s, z, st, thresh),
{
    if forall|k: int| -4 <= k <= 3 ==> #[trigger] px(s, z, k, st) == px(s, z, 0, st) {
        assert(px(s, z, -4, st) == px(s, z, 0, st));
        assert(px(s, z, -3, st) == px(s, z, 0, st));
        assert(px(s, z, -2, st) == px(s, z, 0, st));
        assert(px(s, z, -1, st) == px(s, z, 0, st));
        assert(px(s, z, 1, st) == px(s, z, 0, st));
        assert(px(s, z, 2, st) == px(s, z, 0, st));
        assert(px(s, z, 3, st) == px(s, z, 0, st));
    }
}

/// How the loop filter treats one edge position: an edge that fails its
/// test is left as it is; an edge of high variance gets only the 2-tap
/// adjustment of `p0` and `q0`, keeping `p1` and `q1`; any other edge that
/// passes gets the 4-tap filter on inner edges and the 6-tap filter on
/// macroblock edges.  The simple filter applies the 2-tap filter to every
/// edge that passes its test.
pub proof fn law_filter_choice(s: Seq<u8>, z: int, st: int, t: int, it: int, ht: int)
    requires
        st != 0,
        window_ok(s, z, st, -4, 3),
    ensures
        !needs_filter2_spec(s, z, st, t, it) ==> complex24_step(s, z, st, t, it, ht) == s
            && complex26_step(s, z, st, t, it, ht) == s,
        needs_filter2_spec(s, z, st, t, it) && hev_spec(s, z, st, ht) ==> {
            &&& complex24_step(s, z, st, t, it, ht) == filter2_spec(s, z, st)
            &&& complex26_step(s, z, st, t, it, ht) == filter2_spec(s, z, st)
            &&& px(complex24_step(s, z, st, t, it, ht), z, -2, st) == px(s, z, -2, st)
            &&& px(complex24_step(s, z, st, t, it, ht), z, 1, st) == px(s, z, 1, st)
        },
        needs_filter2_spec(s, z, st, t, it) && !hev_spec(s, z, st, ht) ==> {
            &&& complex24_step(s, z, st, t, it, ht) == filter4_spec(s, z, st)
            &&& complex26_step(s, z, st, t, it, ht) == filter6_spec(s, z, st)
        },
        needs_filter_spec(s, z, st, t) ==> simple_step(s, z, st, t) == filter2_spec(s, z, st),
        !needs_filter_spec(s, z, st, t) ==> simple_step(s, z, st, t) == s,
{
    crate::dec::lemma_window_inner(s, z, st, -4, 3, -2);
    crate::dec::lemma_window_inner(s, z, st, -4, 3, 1);
    crate::dec::lemma_window_inner(s, z, st, -4, 3, -1);
    crate::dec::lemma_window_inner(s, z, st, -4, 3, 0);
    assert(window_ok(s, z, st, -2, 1));
    law_filter2_smooths_edge(s, z, st);
    let t2 = filter2_spec(s, z, st);
    assert(z + (-2) * st != z - st && z + (-2) * st != z);
    assert(z + 1 * st != z - st && z + 1 * st != z);
    assert(t2[z + (-2) * st] == s[z + (-2) * st]);
    assert(t2[z + 1 * st] == s[z + 1 * st]);
}

//------------------------------------------------------------------------------
// Inverse DCT

/// Output positions 0 and 3 of the 4-point transform take its even basis
/// function with sign `+1`, positions 1 and 2 with sign `-1`.
pub open spec fn outer(k: int) -> bool {
    k == 0 || k == 3
}

/// `x`, negated unless `pos`.
pub open spec fn signed(pos: bool, x: int) -> int {
    if pos { x } else { -x }
}

/// Without odd frequencies (only the coefficients at rows and columns 0 and
/// 2 non-zero) the inverse DCT is exact: residual (times 8, before the
/// rounding bias 4 is shifted out) at row `r`, column `c` is the DC plus or
/// minus the other three coefficients, with signs `+` at the outer and `-`
/// at the inner positions.
pub proof fn law_idct_even_frequencies(d: Seq<i16>, r: int, c: int)
    requires
        d.len() == 16,
        0 <= r < 4,
        0 <= c < 4,
        forall|k: int| 0 <= k < 16 && k != 0 && k != 2 && k != 8 && k != 10 ==> #[trigger] d[k] == 0,
    ensures
        idct_horizontal(d, r, c) == 4 + d[0] + signed(outer(r), d[8] as int) + signed(
            outer(c),
            d[2] + signed(outer(r), d[10] as int),
        ),
{
    assert(d[1] == 0 && d[3] == 0 && d[4] == 0 && d[5] == 0 && d[6] == 0 && d[7] == 0);
    assert(d[9] == 0 && d[11] == 0 && d[12] == 0 && d[13] == 0 && d[14] == 0 && d[15] == 0);
    assert(mul1_spec(0) == 0 && mul2_spec(0) == 0);
}

proof fn lemma_mul_ordered(v: int)
    requires
        2 <= v <= 32767,
    ensures
        v <= mul1_spec(v),
        1 <= mul2_spec(v) < v,
{
    assert(0 <= v * 20091) by (nonlinear_arith)
        requires
            0 <= v,
    ;
    vstd::arithmetic::div_mod::lemma_div_pos_is_pos(v * 20091, 65536);
    assert(65536 <= v * 35468 < v * 65536) by (nonlinear_arith)
        requires
            2 <= v,
    ;
    vstd::arithmetic::div_mod::lemma_div_is_ordered(65536, v * 35468, 65536);
    vstd::arithmetic::div_mod::lemma_div_is_ordered(v * 35468, v * 65536 - 1, 65536);
    assert((v * 65536 - 1) / 65536 == v - 1) by {
        vstd::arithmetic::div_mod::lemma_fundamental_div_mod_converse(v * 65536 - 1, 65536, v - 1, 65535);
    }
}

/// The first horizontal frequency alone (coefficient 1) gives every row the
/// same profile, falling from left to right (for a coefficient of at least
/// 2) and antisymmetric about the rounding bias: columns 0 and 3, and 1 and
/// 2, add up to 8.
pub proof fn law_idct_first_horizontal_frequency(d: Seq<i16>, r: int)
    requires
        d.len() == 16,
        0 <= r < 4,
        forall|k: int| 0 <= k < 16 && k != 1 ==> #[trigger] d[k] == 0,
    ensures
        idct_horizontal(d, r, 0) + idct_horizontal(d, r, 3) == 8,
        idct_horizontal(d, r, 1) + idct_horizontal(d, r, 2) == 8,
        forall|c: int| 0 <= c < 4 ==> #[trigger] idct_horizontal(d, r, c) == idct_horizontal(d, 0, c),
        d[1] >= 2 ==> idct_horizontal(d, r, 0) > idct_horizontal(d, r, 1) > idct_horizontal(d, r, 2)
            > idct_horizontal(d, r, 3),
{
    assert(d[0] == 0 && d[2] == 0 && d[3] == 0 && d[4] == 0 && d[5] == 0 && d[6] == 0 && d[7] == 0);
    assert(d[8] == 0 && d[9] == 0 && d[10] == 0 && d[11] == 0 && d[12] == 0 && d[13] == 0 && d[14] == 0
        && d[15] == 0);
    assert(mul1_spec(0) == 0 && mul2_spec(0) == 0);
    if d[1] >= 2 {
        lemma_mul_ordered(d[1] as int);
    }
}

/// The first vertical frequency alone (coefficient 4) gives every column
/// the same profile, falling from top to bottom (for a coefficient of at
/// least 2) and antisymmetric about the rounding bias: rows 0 and 3, and 1
/// and 2, add up to 8.
pub proof fn law_idct_first_vertical_frequency(d: Seq<i16>, c: int)
    requires
        d.len() == 16,
        0 <= c < 4,
        forall|k: int| 0 <= k < 16 && k != 4 ==> #[trigger] d[k] == 0,
    ensures
        idct_horizontal(d, 0, c) + idct_horizontal(d, 3, c) == 8,
        idct_horizontal(d, 1, c) + idct_horizontal(d, 2, c) == 8,
        forall|r: int| 0 <= r < 4 ==> #[trigger] idct_horizontal(d, r, c) == idct_horizontal(d, r, 0),
        d[4] >= 2 ==> idct_horizontal(d, 0, c) > idct_horizontal(d, 1, c) > idct_horizontal(d, 2, c)
            > idct_horizontal(d, 3, c),
{
    assert(d[0] == 0 && d[1] == 0 && d[2] == 0 && d[3] == 0 && d[5] == 0 && d[6] == 0 && d[7] == 0);
    assert(d[8] == 0 && d[9] == 0 && d[10] == 0 && d[11] == 0 && d[12] == 0 && d[13] == 0 && d[14] == 0
        && d[15] == 0);
    assert(mul1_spec(0) == 0 && mul2_spec(0) == 0);
    if d[4] >= 2 {
        lemma_mul_ordered(d[4] as int);
    }
}

//------------------------------------------------------------------------------
// Inverse Walsh-Hadamard transform

/// Whether entry `c` of row `r` of the VP8 Walsh-Hadamard basis
/// `[[1, 1, 1, 1], [1, 1, -1, -1], [1, -1, -1, 1], [1, -1, 1, -1]]` is `+1`
/// (else it is `-1`).
pub open spec fn wht_basis_pos(r: int, c: int) -> bool {
    if r == 0 {
        true
    } else if r == 1 {
        c < 2
    } else if r == 2 {
        c == 0 || c == 3
    } else {
        c % 2 == 0
    }
}

/// `x` with the sign that the product of two basis entries gives.
pub open spec fn wht_term(pos_row: bool, pos_col: bool, x: int) -> int {
    if pos_row == pos_col { x } else { -x }
}

/// The first `n` terms of the two-dimensional Walsh-Hadamard sum for output
/// `m`: coefficient `k` (row `k / 4`, column `k % 4`) weighted by the basis
/// signs of row `m / 4` and column `m % 4`.
pub open spec fn wht_sum(d: Seq<i16>, m: int, n: int) -> int
    decreases n,
{
    if n <= 0 {
        0
    } else {
        wht_sum(d, m, n - 1) + wht_term(
            wht_basis_pos(m / 4, (n - 1) / 4),
            wht_basis_pos(m % 4, (n - 1) % 4),
            d[n - 1] as int,
        )
    }
}

/// Output `m` of the inverse WHT (the DC of luma block `m`) is the
/// Walsh-Hadamard sum of the 16 coefficients for that output, rounded and
/// divided by 8.
pub proof fn law_wht_is_walsh_hadamard_sum(d: Seq<i16>, m: int)
    requires
        d.len() == 16,
        0 <= m < 16,
    ensures
        wht_output(d, m) == (wht_sum(d, m, 16) + 3) / 8,
{
    reveal_with_fuel(wht_sum, 17);
    if m == 0 {
    } else if m == 1 {
    } else if m == 2 {
    } else if m == 3 {
    } else if m == 4 {
    } else if m == 5 {
    } else if m == 6 {
    } else if m == 7 {
    } else if m == 8 {
    } else if m == 9 {
    } else if m == 10 {
    } else if m == 11 {
    } else if m == 12 {
    } else if m == 13 {
    } else if m == 14 {
    } else {
    }
}

//------------------------------------------------------------------------------
// Intra predictors

/// The `n` edge samples at `start`, `start + step`, ... all lie in
/// `lo..=hi`.
pub open spec fn edge_in_range(a: Seq<u8>, start: int, step: int, n: int, lo: int, hi: int) -> bool {
    forall|j: int| 0 <= j < n ==> lo <= #[trigger] a[start + step * j] <= hi
}

/// Every sample of the `w` x `h` block (stride 32) at `base` lies in
/// `lo..=hi`.
pub open spec fn block_in_range(b: Seq<u8>, base: int, w: int, h: int, lo: int, hi: int) -> bool {
    forall|x: int, y: int| 0 <= x < w && 0 <= y < h ==> lo <= #[trigger] b[base + 32 * y + x] <= hi
}

proof fn lemma_sum_row_range(a: Seq<u8>, start: int, n: int, lo: int, hi: int)
    requires
        0 <= n,
        edge_in_range(a, start, 1, n, lo, hi),
    ensures
        n * lo <= sum_row(a, start, n) <= n * hi,
    decreases n,
{
    if n > 0 {
        assert(edge_in_range(a, start, 1, n - 1, lo, hi));
        lemma_sum_row_range(a, start, n - 1, lo, hi);
        let e = a[start + 1 * (n - 1)] as int;
        assert(lo <= e <= hi);
        assert(sum_row(a, start, n) == sum_row(a, start, n - 1) + e);
        assert((n - 1) * lo + lo == n * lo && (n - 1) * hi + hi == n * hi) by (nonlinear_arith);
    } else {
        assert(n * lo == 0 && n * hi == 0) by (nonlinear_arith)
            requires
                n == 0,
        ;
    }
}

proof fn lemma_sum_col_range(a: Seq<u8>, start: int, n: int, lo: int, hi: int)
    requires
        0 <= n,
        edge_in_range(a, start, 32, n, lo, hi),
    ensures
        n * lo <= sum_col(a, start, n) <= n * hi,
    decreases n,
{
    if n > 0 {
        assert(edge_in_range(a, start, 32, n - 1, lo, hi));
        lemma_sum_col_range(a, start, n - 1, lo, hi);
        let e = a[start + 32 * (n - 1)] as int;
        assert(lo <= e <= hi);
        assert(sum_col(a, start, n) == sum_col(a, start, n - 1) + e);
        assert((n - 1) * lo + lo == n * lo && (n - 1) * hi + hi == n * hi) by (nonlinear_arith);
    } else {
        assert(n * lo == 0 && n * hi == 0) by (nonlinear_arith)
            requires
                n == 0,
        ;
    }
}

/// A block filled with the constant `v`, taken from the range, lies in it.
proof fn lemma_fill_in_range(a: Seq<u8>, base: int, w: int, h: int, v: u8, lo: int, hi: int)
    requires
        0 <= base,
        0 < w <= 32,
        0 < h,
        base + 32 * (h - 1) + w <= a.len(),
        lo <= v <= hi,
    ensures
        block_in_range(block_fill(a, base, w, h, |x: int, y: int| v), base, w, h, lo, hi),
{
    let b = block_fill(a, base, w, h, |x: int, y: int| v);
    assert forall|x: int, y: int| 0 <= x < w && 0 <= y < h implies lo <= #[trigger] b[base + 32 * y + x] <= hi by {
        vstd::arithmetic::div_mod::lemma_fundamental_div_mod_converse(32 * y + x, 32, y, x);
        assert(32 * y <= 32 * (h - 1)) by (nonlinear_arith)
            requires
                y <= h - 1,
        ;
    }
}

/// The rounded mean `(half + sum) / count` of `count` samples in `lo..=hi`
/// is in `lo..=hi` too.
proof fn lemma_mean_in_range(sum: int, count: int, half: int, lo: int, hi: int)
    requires
        0 < count,
        0 <= half < count,
        count * lo <= sum <= count * hi,
    ensures
        lo <= (half + sum) / count <= hi,
{
    assert(lo <= (half + sum) / count) by (nonlinear_arith)
        requires
            0 < count,
            0 <= half,
            count * lo <= sum,
    {
        vstd::arithmetic::div_mod::lemma_fundamental_div_mod(half + sum, count);
        let q = (half + sum) / count;
        let r = (half + sum) % count;
        assert(0 <= r < count);
        if q < lo {
            assert(q <= lo - 1);
            assert(count * q <= count * (lo - 1));
        }
    }
    assert((half + sum) / count <= hi) by (nonlinear_arith)
        requires
            0 < count,
            half < count,
            sum <= count * hi,
    {
        vstd::arithmetic::div_mod::lemma_fundamental_div_mod(half + sum, count);
        let q = (half + sum) / count;
        let r = (half + sum) % count;
        assert(0 <= r < count);
        if q > hi {
            assert(q >= hi + 1);
            assert(count * q >= count * (hi + 1));
        }
    }
}

/// 16x16 DC prediction fills the block with the mean of the 16 samples
/// above and the 16 to its left: whatever range those samples span, every
/// predicted sample lies in it (so a flat edge of `v` gives a block of `v`).
pub proof fn law_dc16_within_edges(a: Seq<u8>, lo: int, hi: int)
    requires
        a.len() == 528,
        edge_in_range(a, 0, 1, 16, lo, hi),
        edge_in_range(a, 31, 32, 16, lo, hi),
    ensures
        block_in_range(dc16_pred(a), 32, 16, 16, lo, hi),
{
    lemma_sum_row_range(a, 0, 16, lo, hi);
    lemma_sum_col_range(a, 31, 16, lo, hi);
    let v = (16 + sum_row(a, 0, 16) + sum_col(a, 31, 16)) / 32;
    lemma_mean_in_range(sum_row(a, 0, 16) + sum_col(a, 31, 16), 32, 16, lo, hi);
    crate::dec::lemma_sum_row_bound(a, 0, 16);
    crate::dec::lemma_sum_col_bound(a, 31, 16);
    assert(0 <= v <= 255);
    lemma_fill_in_range(a, 32, 16, 16, v as u8, lo, hi);
    assert(dc16_pred(a) == block_fill(a, 32, 16, 16, |x: int, y: int| v as u8));
}

/// 16x16 DC prediction without samples above fills the block with the mean
/// of all 16 samples to its left: every predicted sample lies in their range
/// (a flat left edge of `v` gives a block of `v`).
pub proof fn law_dc16_no_top_within_left_edge(a: Seq<u8>, lo: int, hi: int)
    requires
        a.len() == 497,
        edge_in_range(a, 0, 32, 16, lo, hi),
    ensures
        block_in_range(dc16_no_top_pred(a), 1, 16, 16, lo, hi),
{
    lemma_sum_col_range(a, 0, 16, lo, hi);
    crate::dec::lemma_sum_col_bound(a, 0, 16);
    let v = (8 + sum_col(a, 0, 16)) / 16;
    lemma_mean_in_range(sum_col(a, 0, 16), 16, 8, lo, hi);
    assert(0 <= v <= 255);
    lemma_fill_in_range(a, 1, 16, 16, v as u8, lo, hi);
    assert(dc16_no_top_pred(a) == block_fill(a, 1, 16, 16, |x: int, y: int| v as u8));
}

/// 16x16 DC prediction without left samples fills the block with the mean
/// of all 16 samples above it: every predicted sample lies in their range.
pub proof fn law_dc16_no_left_within_top_edge(a: Seq<u8>, lo: int, hi: int)
    requires
        a.len() == 528,
        edge_in_range(a, 0, 1, 16, lo, hi),
    ensures
        block_in_range(dc16_no_left_pred(a), 32, 16, 16, lo, hi),
{
    lemma_sum_row_range(a, 0, 16, lo, hi);
    crate::dec::lemma_sum_row_bound(a, 0, 16);
    let v = (8 + sum_row(a, 0, 16)) / 16;
    lemma_mean_in_range(sum_row(a, 0, 16), 16, 8, lo, hi);
    assert(0 <= v <= 255);
    lemma_fill_in_range(a, 32, 16, 16, v as u8, lo, hi);
    assert(dc16_no_left_pred(a) == block_fill(a, 32, 16, 16, |x: int, y: int| v as u8));
}

/// 4x4 DC prediction fills the block with the mean of the 4 samples above
/// and the 4 to its left: every predicted sample lies in their range.
pub proof fn law_dc4_within_edges(a: Seq<u8>, lo: int, hi: int)
    requires
        a.len() == 160,
        edge_in_range(a, 0, 1, 4, lo, hi),
        edge_in_range(a, 31, 32, 4, lo, hi),
    ensures
        block_in_range(dc4_pred(a), 32, 4, 4, lo, hi),
{
    lemma_sum_row_range(a, 0, 4, lo, hi);
    lemma_sum_col_range(a, 31, 4, lo, hi);
    crate::dec::lemma_sum_row_bound(a, 0, 4);
    crate::dec::lemma_sum_col_bound(a, 31, 4);
    let v = (4 + sum_row(a, 0, 4) + sum_col(a, 31, 4)) / 8;
    lemma_mean_in_range(sum_row(a, 0, 4) + sum_col(a, 31, 4), 8, 4, lo, hi);
    assert(0 <= v <= 255);
    lemma_fill_in_range(a, 32, 4, 4, v as u8, lo, hi);
    assert(dc4_pred(a) == block_fill(a, 32, 4, 4, |x: int, y: int| v as u8));
}

/// 8x8 chroma DC prediction fills the block with the mean of the 8 samples
/// above and the 8 to its left: every predicted sample lies in their range.
pub proof fn law_dc8_uv_within_edges(a: Seq<u8>, lo: int, hi: int)
    requires
        a.len() == 264,
        edge_in_range(a, 0, 1, 8, lo, hi),
        edge_in_range(a, 31, 32, 8, lo, hi),
    ensures
        block_in_range(dc8_uv_pred(a), 32, 8, 8, lo, hi),
{
    lemma_sum_row_range(a, 0, 8, lo, hi);
    lemma_sum_col_range(a, 31, 8, lo, hi);
    crate::dec::lemma_sum_row_bound(a, 0, 8);
    crate::dec::lemma_sum_col_bound(a, 31, 8);
    let v = (8 + sum_row(a, 0, 8) + sum_col(a, 31, 8)) / 16;
    lemma_mean_in_range(sum_row(a, 0, 8) + sum_col(a, 31, 8), 16, 8, lo, hi);
    assert(0 <= v <= 255);
    lemma_fill_in_range(a, 32, 8, 8, v as u8, lo, hi);
    assert(dc8_uv_pred(a) == block_fill(a, 32, 8, 8, |x: int, y: int| v as u8));
}

/// 8x8 chroma DC prediction without left samples fills the block with the
/// mean of the 8 samples above: every predicted sample lies in their range.
pub proof fn law_dc8_uv_no_left_within_top_edge(a: Seq<u8>, lo: int, hi: int)
    requires
        a.len() == 264,
        edge_in_range(a, 0, 1, 8, lo, hi),
    ensures
        block_in_range(dc8_uv_no_left_pred(a), 32, 8, 8, lo, hi),
{
    lemma_sum_row_range(a, 0, 8, lo, hi);
    crate::dec::lemma_sum_row_bound(a, 0, 8);
    let v = (4 + sum_row(a, 0, 8)) / 8;
    lemma_mean_in_range(sum_row(a, 0, 8), 8, 4, lo, hi);
    assert(0 <= v <= 255);
    lemma_fill_in_range(a, 32, 8, 8, v as u8, lo, hi);
    assert(dc8_uv_no_left_pred(a) == block_fill(a, 32, 8, 8, |x: int, y: int| v as u8));
}

/// 8x8 chroma DC prediction without samples above fills the block with the
/// mean of the 8 samples to its left: every predicted sample lies in their
/// range.
pub proof fn law_dc8_uv_no_top_within_left_edge(a: Seq<u8>, lo: int, hi: int)
    requires
        a.len() == 233,
        edge_in_range(a, 0, 32, 8, lo, hi),
    ensures
        block_in_range(dc8_uv_no_top_pred(a), 1, 8, 8, lo, hi),
{
    lemma_sum_col_range(a, 0, 8, lo, hi);
    crate::dec::lemma_sum_col_bound(a, 0, 8);
    let v = (4 + sum_col(a, 0, 8)) / 8;
    lemma_mean_in_range(sum_col(a, 0, 8), 8, 4, lo, hi);
    assert(0 <= v <= 255);
    lemma_fill_in_range(a, 1, 8, 8, v as u8, lo, hi);
    assert(dc8_uv_no_top_pred(a) == block_fill(a, 1, 8, 8, |x: int, y: int| v as u8));
}

/// Sample (`x`, `y`) of a filled block is what the fill gives there.
proof fn lemma_block_fill_at(a: Seq<u8>, base: int, w: int, h: int, f: spec_fn(int, int) -> u8, x: int, y: int)
    requires
        0 <= base,
        0 <= x < w <= 32,
        0 <= y < h,
        base + 32 * y + x < a.len(),
    ensures
        block_fill(a, base, w, h, f)[base + 32 * y + x] == f(x, y),
{
    vstd::arithmetic::div_mod::lemma_fundamental_div_mod_converse(32 * y + x, 32, y, x);
}

/// 16x16 vertical prediction: every sample repeats the sample above its
/// column.
pub proof fn law_ve16_repeats_top(a: Seq<u8>, x: int, y: int)
    requires
        a.len() == 528,
        0 <= x < 16,
        0 <= y < 16,
    ensures
        ve16_pred(a)[32 + 32 * y + x] == a[x],
{
    lemma_block_fill_at(a, 32, 16, 16, |x: int, y: int| a[x], x, y);
}

/// 8x8 chroma vertical prediction: every sample repeats the sample above
/// its column.
pub proof fn law_ve8_uv_repeats_top(a: Seq<u8>, x: int, y: int)
    requires
        a.len() == 264,
        0 <= x < 8,
        0 <= y < 8,
    ensures
        ve8_uv_pred(a)[32 + 32 * y + x] == a[x],
{
    lemma_block_fill_at(a, 32, 8, 8, |x: int, y: int| a[x], x, y);
}

/// 16x16 horizontal prediction: every sample repeats the sample left of its
/// row.
pub proof fn law_he16_repeats_left(a: Seq<u8>, x: int, y: int)
    requires
        a.len() == 497,
        0 <= x < 16,
        0 <= y < 16,
    ensures
        he16_pred(a)[1 + 32 * y + x] == a[32 * y],
{
    lemma_block_fill_at(a, 1, 16, 16, |x: int, y: int| a[32 * y], x, y);
}

/// 8x8 chroma horizontal prediction: every sample repeats the sample left
/// of its row.
pub proof fn law_he8_uv_repeats_left(a: Seq<u8>, x: int, y: int)
    requires
        a.len() == 233,
        0 <= x < 8,
        0 <= y < 8,
    ensures
        he8_uv_pred(a)[1 + 32 * y + x] == a[32 * y],
{
    lemma_block_fill_at(a, 1, 8, 8, |x: int, y: int| a[32 * y], x, y);
}

/// "True motion" prediction extends the top row by the change down the
/// left column: where the left column stays at the corner value, it is
/// vertical prediction (each column repeats its top sample), and where the
/// top row stays at the corner value, it is horizontal prediction (each row
/// repeats its left sample).
pub proof fn law_tm_reduces_to_vertical_and_horizontal(a: Seq<u8>, n: int, x: int, y: int)
    requires
        1 <= n <= 16,
        a.len() == 33 * n + 1,
        0 <= x < n,
        0 <= y < n,
    ensures
        a[32 * (y + 1)] == a[0] ==> tm_pred(a, n)[33 + 32 * y + x] == a[1 + x],
        a[1 + x] == a[0] ==> tm_pred(a, n)[33 + 32 * y + x] == a[32 * (y + 1)],
        tm_pred(a, n)[33 + 32 * y + x] as int == clamp(a[1 + x] + a[32 * (y + 1)] - a[0], 0, 255),
{
    assert(33 + 32 * y + x < a.len()) by (nonlinear_arith)
        requires
            0 <= x < n,
            0 <= y < n,
            a.len() == 33 * n + 1,
    ;
    lemma_block_fill_at(
        a,
        33,
        n,
        n,
        |x: int, y: int| clamp(a[1 + x] + a[32 * (y + 1)] - a[0], 0, 255) as u8,
        x,
        y,
    );
}

/// The rounded mean of two samples.
pub open spec fn avg2(p: int, q: int) -> int {
    (p + q + 1) / 2
}

/// The smoothed sample: `q` weighted twice against its neighbours `p`, `r`.
pub open spec fn avg3(p: int, q: int, r: int) -> int {
    (p + 2 * q + r + 2) / 4
}

/// 4x4 vertical prediction, as VP8 defines it: column `x` repeats the
/// smoothed top sample avg3(top[x - 1], top[x], top[x + 1]), the top-left
/// sample X standing before A and E after D.
pub proof fn law_ve4_follows_top_edge(a: Seq<u8>)
    requires
        a.len() == 161,
    ensures
        ({
            let b = ve4_pred(a);
            &&& b[33] == avg3(a[0] as int, a[1] as int, a[2] as int)
            &&& b[34] == avg3(a[1] as int, a[2] as int, a[3] as int)
            &&& b[35] == avg3(a[2] as int, a[3] as int, a[4] as int)
            &&& b[36] == avg3(a[3] as int, a[4] as int, a[5] as int)
            &&& b[65] == avg3(a[0] as int, a[1] as int, a[2] as int)
            &&& b[66] == avg3(a[1] as int, a[2] as int, a[3] as int)
            &&& b[67] == avg3(a[2] as int, a[3] as int, a[4] as int)
            &&& b[68] == avg3(a[3] as int, a[4] as int, a[5] as int)
            &&& b[97] == avg3(a[0] as int, a[1] as int, a[2] as int)
            &&& b[98] == avg3(a[1] as int, a[2] as int, a[3] as int)
            &&& b[99] == avg3(a[2] as int, a[3] as int, a[4] as int)
            &&& b[100] == avg3(a[3] as int, a[4] as int, a[5] as int)
            &&& b[129] == avg3(a[0] as int, a[1] as int, a[2] as int)
            &&& b[130] == avg3(a[1] as int, a[2] as int, a[3] as int)
            &&& b[131] == avg3(a[2] as int, a[3] as int, a[4] as int)
            &&& b[132] == avg3(a[3] as int, a[4] as int, a[5] as int)
        }),
{
}

/// 4x4 horizontal prediction, as VP8 defines it: row `y` repeats the
/// smoothed left sample, from avg3(X, I, J) down to avg3(K, L, L).
pub proof fn law_he4_follows_left_edge(a: Seq<u8>)
    requires
        a.len() == 161,
    ensures
        ({
            let b = he4_pred(a);
            &&& b[33] == avg3(a[0] as int, a[32] as int, a[64] as int)
            &&& b[34] == avg3(a[0] as int, a[32] as int, a[64] as int)
            &&& b[35] == avg3(a[0] as int, a[32] as int, a[64] as int)
            &&& b[36] == avg3(a[0] as int, a[32] as int, a[64] as int)
            &&& b[65] == avg3(a[32] as int, a[64] as int, a[96] as int)
            &&& b[66] == avg3(a[32] as int, a[64] as int, a[96] as int)
            &&& b[67] == avg3(a[32] as int, a[64] as int, a[96] as int)
            &&& b[68] == avg3(a[32] as int, a[64] as int, a[96] as int)
            &&& b[97] == avg3(a[64] as int, a[96] as int, a[128] as int)
            &&& b[98] == avg3(a[64] as int, a[96] as int, a[128] as int)
            &&& b[99] == avg3(a[64] as int, a[96] as int, a[128] as int)
            &&& b[100] == avg3(a[64] as int, a[96] as int, a[128] as int)
            &&& b[129] == avg3(a[96] as int, a[128] as int, a[128] as int)
            &&& b[130] == avg3(a[96] as int, a[128] as int, a[128] as int)
            &&& b[131] == avg3(a[96] as int, a[128] as int, a[128] as int)
            &&& b[132] == avg3(a[96] as int, a[128] as int, a[128] as int)
        }),
{
}

/// 4x4 down-right prediction, as VP8 defines it: each diagonal running down
/// to the right repeats one smoothed sample of the edge L, K, J, I, X, A,
/// B, C, D.
pub proof fn law_rd4_follows_edges(a: Seq<u8>)
    requires
        a.len() == 133,
    ensures
        ({
            let b = rd4_pred(a);
            &&& b[33] == avg3(a[1] as int, a[0] as int, a[32] as int)
            &&& b[34] == avg3(a[2] as int, a[1] as int, a[0] as int)
            &&& b[35] == avg3(a[3] as int, a[2] as int, a[1] as int)
            &&& b[36] == avg3(a[4] as int, a[3] as int, a[2] as int)
            &&& b[65] == avg3(a[0] as int, a[32] as int, a[64] as int)
            &&& b[66] == avg3(a[1] as int, a[0] as int, a[32] as int)
            &&& b[67] == avg3(a[2] as int, a[1] as int, a[0] as int)
            &&& b[68] == avg3(a[3] as int, a[2] as int, a[1] as int)
            &&& b[97] == avg3(a[32] as int, a[64] as int, a[96] as int)
            &&& b[98] == avg3(a[0] as int, a[32] as int, a[64] as int)
            &&& b[99] == avg3(a[1] as int, a[0] as int, a[32] as int)
            &&& b[100] == avg3(a[2] as int, a[1] as int, a[0] as int)
            &&& b[129] == avg3(a[64] as int, a[96] as int, a[128] as int)
            &&& b[130] == avg3(a[32] as int, a[64] as int, a[96] as int)
            &&& b[131] == avg3(a[0] as int, a[32] as int, a[64] as int)
            &&& b[132] == avg3(a[1] as int, a[0] as int, a[32] as int)
        }),
{
}

/// 4x4 down-left prediction, as VP8 defines it: each diagonal running down
/// to the left repeats one smoothed sample of the top edge A..H, the last
/// one avg3(G, H, H).
pub proof fn law_ld4_follows_top_edge(a: Seq<u8>)
    requires
        a.len() == 132,
    ensures
        ({
            let b = ld4_pred(a);
            &&& b[32] == avg3(a[0] as int, a[1] as int, a[2] as int)
            &&& b[33] == avg3(a[1] as int, a[2] as int, a[3] as int)
            &&& b[34] == avg3(a[2] as int, a[3] as int, a[4] as int)
            &&& b[35] == avg3(a[3] as int, a[4] as int, a[5] as int)
            &&& b[64] == avg3(a[1] as int, a[2] as int, a[3] as int)
            &&& b[65] == avg3(a[2] as int, a[3] as int, a[4] as int)
            &&& b[66] == avg3(a[3] as int, a[4] as int, a[5] as int)
            &&& b[67] == avg3(a[4] as int, a[5] as int, a[6] as int)
            &&& b[96] == avg3(a[2] as int, a[3] as int, a[4] as int)
            &&& b[97] == avg3(a[3] as int, a[4] as int, a[5] as int)
            &&& b[98] == avg3(a[4] as int, a[5] as int, a[6] as int)
            &&& b[99] == avg3(a[5] as int, a[6] as int, a[7] as int)
            &&& b[128] == avg3(a[3] as int, a[4] as int, a[5] as int)
            &&& b[129] == avg3(a[4] as int, a[5] as int, a[6] as int)
            &&& b[130] == avg3(a[5] as int, a[6] as int, a[7] as int)
            &&& b[131] == avg3(a[6] as int, a[7] as int, a[7] as int)
        }),
{
}

/// 4x4 vertical-right prediction, as VP8 defines it: the rows alternate
/// between averages of two and smoothings of three samples of the edge
/// I, X, A, B, C, D, shifting right every second row.
pub proof fn law_vr4_follows_edges(a: Seq<u8>)
    requires
        a.len() == 133,
    ensures
        ({
            let b = vr4_pred(a);
            &&& b[33] == avg2(a[0] as int, a[1] as int)
            &&& b[34] == avg2(a[1] as int, a[2] as int)
            &&& b[35] == avg2(a[2] as int, a[3] as int)
            &&& b[36] == avg2(a[3] as int, a[4] as int)
            &&& b[65] == avg3(a[32] as int, a[0] as int, a[1] as int)
            &&& b[66] == avg3(a[0] as int, a[1] as int, a[2] as int)
            &&& b[67] == avg3(a[1] as int, a[2] as int, a[3] as int)
            &&& b[68] == avg3(a[2] as int, a[3] as int, a[4] as int)
            &&& b[97] == avg3(a[64] as int, a[32] as int, a[0] as int)
            &&& b[98] == avg2(a[0] as int, a[1] as int)
            &&& b[99] == avg2(a[1] as int, a[2] as int)
            &&& b[100] == avg2(a[2] as int, a[3] as int)
            &&& b[129] == avg3(a[96] as int, a[64] as int, a[32] as int)
            &&& b[130] == avg3(a[32] as int, a[0] as int, a[1] as int)
            &&& b[131] == avg3(a[0] as int, a[1] as int, a[2] as int)
            &&& b[132] == avg3(a[1] as int, a[2] as int, a[3] as int)
        }),
{
}

/// 4x4 vertical-left prediction, as VP8 defines it: the rows alternate
/// between averages of two and smoothings of three samples of the top edge
/// A..H, shifting left every second row, with its two odd samples
/// avg3(E, F, G) and avg3(F, G, H).
pub proof fn law_vl4_follows_top_edge(a: Seq<u8>)
    requires
        a.len() == 132,
    ensures
        ({
            let b = vl4_pred(a);
            &&& b[32] == avg2(a[0] as int, a[1] as int)
            &&& b[33] == avg2(a[1] as int, a[2] as int)
            &&& b[34] == avg2(a[2] as int, a[3] as int)
            &&& b[35] == avg2(a[3] as int, a[4] as int)
            &&& b[64] == avg3(a[0] as int, a[1] as int, a[2] as int)
            &&& b[65] == avg3(a[1] as int, a[2] as int, a[3] as int)
            &&& b[66] == avg3(a[2] as int, a[3] as int, a[4] as int)
            &&& b[67] == avg3(a[3] as int, a[4] as int, a[5] as int)
            &&& b[96] == avg2(a[1] as int, a[2] as int)
            &&& b[97] == avg2(a[2] as int, a[3] as int)
            &&& b[98] == avg2(a[3] as int, a[4] as int)
            &&& b[99] == avg3(a[4] as int, a[5] as int, a[6] as int)
            &&& b[128] == avg3(a[1] as int, a[2] as int, a[3] as int)
            &&& b[129] == avg3(a[2] as int, a[3] as int, a[4] as int)
            &&& b[130] == avg3(a[3] as int, a[4] as int, a[5] as int)
            &&& b[131] == avg3(a[5] as int, a[6] as int, a[7] as int)
        }),
{
}

/// 4x4 horizontal-down prediction, as VP8 defines it: the columns alternate
/// between averages of two and smoothings of three samples of the edge
/// L, K, J, I, X, A, B, C, shifting down every second column.
pub proof fn law_hd4_follows_edges(a: Seq<u8>)
    requires
        a.len() == 133,
    ensures
        ({
            let b = hd4_pred(a);
            &&& b[33] == avg2(a[32] as int, a[0] as int)
            &&& b[34] == avg3(a[32] as int, a[0] as int, a[1] as int)
            &&& b[35] == avg3(a[0] as int, a[1] as int, a[2] as int)
            &&& b[36] == avg3(a[1] as int, a[2] as int, a[3] as int)
            &&& b[65] == avg2(a[64] as int, a[32] as int)
            &&& b[66] == avg3(a[64] as int, a[32] as int, a[0] as int)
            &&& b[67] == avg2(a[32] as int, a[0] as int)
            &&& b[68] == avg3(a[32] as int, a[0] as int, a[1] as int)
            &&& b[97] == avg2(a[96] as int, a[64] as int)
            &&& b[98] == avg3(a[96] as int, a[64] as int, a[32] as int)
            &&& b[99] == avg2(a[64] as int, a[32] as int)
            &&& b[100] == avg3(a[64] as int, a[32] as int, a[0] as int)
            &&& b[129] == avg2(a[128] as int, a[96] as int)
            &&& b[130] == avg3(a[128] as int, a[96] as int, a[64] as int)
            &&& b[131] == avg2(a[96] as int, a[64] as int)
            &&& b[132] == avg3(a[96] as int, a[64] as int, a[32] as int)
        }),
{
}

/// 4x4 horizontal-up prediction from the left samples I, J, K, L, as VP8
/// defines it: the first row is avg2(I, J), avg3(I, J, K), avg2(J, K),
/// avg3(J, K, L), each later row starts two positions further along this
/// sequence (continued by avg2(K, L), avg3(K, L, L)), and every position
/// beyond its end, the whole last row among them, repeats L.
pub proof fn law_hu4_follows_left_edge(a: Seq<u8>)
    requires
        a.len() == 133,
    ensures
        ({
            let b = hu4_pred(a);
            let i = a[32] as int;
            let j = a[64] as int;
            let k = a[96] as int;
            let l = a[128] as int;
            &&& b.len() == a.len()
            &&& b[33] == (i + j + 1) / 2
            &&& b[34] == (i + 2 * j + k + 2) / 4
            &&& b[35] == (j + k + 1) / 2 && b[65] == (j + k + 1) / 2
            &&& b[36] == (j + 2 * k + l + 2) / 4 && b[66] == (j + 2 * k + l + 2) / 4
            &&& b[67] == (k + l + 1) / 2 && b[97] == (k + l + 1) / 2
            &&& b[68] == (k + 3 * l + 2) / 4 && b[98] == (k + 3 * l + 2) / 4
            &&& b[99] == l && b[100] == l
            &&& b[129] == l && b[130] == l && b[131] == l && b[132] == l
        }),
{
    let b = hu4_pred(a);
    assert(b[33] == crate::dec::avg2_spec(a[32] as int, a[64] as int));
    assert(b[34] == crate::dec::avg3_spec(a[32] as int, a[64] as int, a[96] as int));
    assert(b[35] == crate::dec::avg2_spec(a[64] as int, a[96] as int));
    assert(b[65] == crate::dec::avg2_spec(a[64] as int, a[96] as int));
    assert(b[36] == crate::dec::avg3_spec(a[64] as int, a[96] as int, a[128] as int));
    assert(b[66] == crate::dec::avg3_spec(a[64] as int, a[96] as int, a[128] as int));
    assert(b[67] == crate::dec::avg2_spec(a[96] as int, a[128] as int));
    assert(b[97] == crate::dec::avg2_spec(a[96] as int, a[128] as int));
    assert(b[68] == crate::dec::avg3_spec(a[96] as int, a[128] as int, a[128] as int));
    assert(b[98] == crate::dec::avg3_spec(a[96] as int, a[128] as int, a[128] as int));
    assert(b[99] == a[128] && b[100] == a[128]);
    assert(b[129] == a[128] && b[130] == a[128] && b[131] == a[128] && b[132] == a[128]);
}

} // verus!
