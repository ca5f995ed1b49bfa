//! Clipping and absolute-value lookups used by the in-loop filters and the
//! true-motion predictor.  Each lookup is defined on exactly the index range
//! of the corresponding libwebp table; indexing outside of it is refused.
use vstd::prelude::*;

verus! {

/// `v` clamped into `[lo, hi]`.
pub open spec fn clamp(v: int, lo: int, hi: int) -> int {
    if v < lo {
        lo
    } else if v > hi {
        hi
    } else {
        v
    }
}

/// Absolute value of an integer.
pub open spec fn abs_int(v: int) -> int {
    if v < 0 {
        -v
    } else {
        v
    }
}

/// Clips `[-255, 511]` to `[0, 255]`.
pub fn vp8_kclip1(i: isize) -> (r: u8)
    requires
        -255 <= i <= 511,
    ensures
        r == clamp(i as int, 0, 255),
{
    if i < 0 {
        0
    } else if i > 255 {
        255
    } else {
        i as u8
    }
}

/// Clips `[-1020, 1020]` to `[-128, 127]`.
pub fn vp8_ksclip1(i: isize) -> (r: i8)
    requires
        -1020 <= i <= 1020,
    ensures
        r == clamp(i as int, -128, 127),
{
    if i < -128 {
        -128
    } else if i > 127 {
        127
    } else {
        i as i8
    }
}

/// Clips `[-112, 112]` to `[-16, 15]`.
pub fn vp8_ksclip2(i: isize) -> (r: i8)
    requires
        -112 <= i <= 112,
    ensures
        r == clamp(i as int, -16, 15),
{
    if i < -16 {
        -16
    } else if i > 15 {
        15
    } else {
        i as i8
    }
}

/// Absolute value of `i` for `i` in `[-255, 255]`.
pub fn vp8_kabs0(i: isize) -> (r: u8)
    requires
        -255 <= i <= 255,
    ensures
        r == abs_int(i as int),
{
    if i < 0 {
        (-i) as u8
    } else {
        i as u8
    }
}

} // verus!
