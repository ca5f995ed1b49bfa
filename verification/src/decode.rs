//! Colorspace modes, status codes and the plain-valued option and feature
//! records of the decoding API.
use vstd::prelude::*;

verus! {

/// Version of the decoding interface, passed to the initialisers.
pub const WEBP_DECODER_ABI_VERSION: i32 = 0x0209;

/// Colorspace of the output: the naming describes the byte order of packed
/// samples in memory (`MODE_BGRA` is B, G, R, A, B, G, R, A, ...);
/// lower-case letters mark premultiplied RGB channels.
#[allow(non_camel_case_types)]
pub type WEBP_CSP_MODE = u32;

pub const MODE_RGB: WEBP_CSP_MODE = 0;
pub const MODE_RGBA: WEBP_CSP_MODE = 1;
pub const MODE_BGR: WEBP_CSP_MODE = 2;
pub const MODE_BGRA: WEBP_CSP_MODE = 3;
pub const MODE_ARGB: WEBP_CSP_MODE = 4;
pub const MODE_RGBA_4444: WEBP_CSP_MODE = 5;
pub const MODE_RGB_565: WEBP_CSP_MODE = 6;
// RGB-premultiplied transparent modes (alpha value is preserved)
#[allow(non_upper_case_globals)]
pub const MODE_rgbA: WEBP_CSP_MODE = 7;
#[allow(non_upper_case_globals)]
pub const MODE_bgrA: WEBP_CSP_MODE = 8;
#[allow(non_upper_case_globals)]
pub const MODE_Argb: WEBP_CSP_MODE = 9;
#[allow(non_upper_case_globals)]
pub const MODE_rgbA_4444: WEBP_CSP_MODE = 10;
// YUV modes must come after RGB ones.
pub const MODE_YUV: WEBP_CSP_MODE = 11;
pub const MODE_YUVA: WEBP_CSP_MODE = 12;
pub const MODE_LAST: WEBP_CSP_MODE = 13;

/// Status codes of the decoder.
#[allow(non_camel_case_types)]
pub type VP8StatusCode = u32;

pub const VP8_STATUS_OK: VP8StatusCode = 0;
pub const VP8_STATUS_OUT_OF_MEMORY: VP8StatusCode = 1;
pub const VP8_STATUS_INVALID_PARAM: VP8StatusCode = 2;
pub const VP8_STATUS_BITSTREAM_ERROR: VP8StatusCode = 3;
pub const VP8_STATUS_UNSUPPORTED_FEATURE: VP8StatusCode = 4;
pub const VP8_STATUS_SUSPENDED: VP8StatusCode = 5;
pub const VP8_STATUS_USER_ABORT: VP8StatusCode = 6;
pub const VP8_STATUS_NOT_ENOUGH_DATA: VP8StatusCode = 7;

/// The mode has premultiplied RGB channels.
pub open spec fn is_premultiplied_spec(mode: WEBP_CSP_MODE) -> bool {
    mode == MODE_rgbA || mode == MODE_bgrA || mode == MODE_Argb || mode == MODE_rgbA_4444
}

/// The mode has an alpha channel.
pub open spec fn is_alpha_spec(mode: WEBP_CSP_MODE) -> bool {
    mode == MODE_RGBA || mode == MODE_BGRA || mode == MODE_ARGB || mode == MODE_RGBA_4444
        || mode == MODE_YUVA || is_premultiplied_spec(mode)
}

/// Every premultiplied mode carries alpha.
pub proof fn law_premultiplied_modes_have_alpha(mode: WEBP_CSP_MODE)
    ensures
        is_premultiplied_spec(mode) ==> is_alpha_spec(mode),
{
}

/// 1 if `mode` is one of the premultiplied modes, else 0.
#[allow(non_snake_case)]
pub fn WebPIsPremultipliedMode(mode: WEBP_CSP_MODE) -> (r: i32)
    ensures
        r == (if is_premultiplied_spec(mode) { 1i32 } else { 0i32 }),
{
    if mode == MODE_rgbA || mode == MODE_bgrA || mode == MODE_Argb || mode == MODE_rgbA_4444 {
        1
    } else {
        0
    }
}

/// 1 if `mode` carries alpha, else 0.
#[allow(non_snake_case)]
pub fn WebPIsAlphaMode(mode: WEBP_CSP_MODE) -> (r: i32)
    ensures
        r == (if is_alpha_spec(mode) { 1i32 } else { 0i32 }),
{
    if mode == MODE_RGBA || mode == MODE_BGRA || mode == MODE_ARGB || mode == MODE_RGBA_4444
        || mode == MODE_YUVA || WebPIsPremultipliedMode(mode) != 0 {
        1
    } else {
        0
    }
}

/// 1 if `mode` is an RGB mode (not a YUV one), else 0.
#[allow(non_snake_case)]
pub fn WebPIsRGBMode(mode: WEBP_CSP_MODE) -> (r: i32)
    ensures
        r == (if mode < MODE_YUV { 1i32 } else { 0i32 }),
{
    if mode < MODE_YUV {
        1
    } else {
        0
    }
}

/// Features gathered from the bitstream.
#[derive(Clone, Copy)]
pub struct WebPBitstreamFeatures {
    /// Width in pixels, as read from the bitstream.
    pub width: i32,
    /// Height in pixels, as read from the bitstream.
    pub height: i32,
    /// True if the bitstream contains an alpha channel.
    pub has_alpha: i32,
    /// True if the bitstream is an animation.
    pub has_animation: i32,
    /// 0 = undefined (/mixed), 1 = lossy, 2 = lossless
    pub format: i32,
    /// padding for later use
    pub pad: [u32; 5],
}

/// Decoding options.
#[derive(Clone, Copy)]
pub struct WebPDecoderOptions {
    /// if true, skip the in-loop filtering
    pub bypass_filtering: i32,
    /// if true, use faster pointwise upsampler
    pub no_fancy_upsampling: i32,
    /// if true, cropping is applied _first_
    pub use_cropping: i32,
    /// left position for cropping; will be snapped to even value
    pub crop_left: i32,
    /// top position for cropping; will be snapped to even value
    pub crop_top: i32,
    /// width of the cropping area
    pub crop_width: i32,
    /// height of the cropping area
    pub crop_height: i32,
    /// if true, scaling is applied _afterward_
    pub use_scaling: i32,
    /// final resolution width
    pub scaled_width: i32,
    /// final resolution height
    pub scaled_height: i32,
    /// if true, use multi-threaded decoding
    pub use_threads: i32,
    /// dithering strength (0=Off, 100=full)
    pub dithering_strength: i32,
    /// if true, flip output vertically
    pub flip: i32,
    /// alpha dithering strength in [0..100]
    pub alpha_dithering_strength: i32,
    /// padding for later use
    pub pad: [u32; 5],
}

} // verus!
