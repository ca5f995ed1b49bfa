//! The plain-valued records of the animation decoder and its queries.
use vstd::prelude::*;
use crate::decode::{MODE_RGBA, WEBP_CSP_MODE};

verus! {

/// Options of the animation decoder.
#[derive(Clone, Copy)]
pub struct WebPAnimDecoderOptions {
    /// output colorspace
    pub color_mode: WEBP_CSP_MODE,
    /// if true, use multi-threaded decoding
    pub use_threads: i32,
    /// padding for later use
    pub padding: [u32; 7],
}

/// Global information about an animation.
#[derive(Clone, Copy)]
pub struct WebPAnimInfo {
    pub canvas_width: u32,
    pub canvas_height: u32,
    pub loop_count: u32,
    pub bgcolor: u32,
    pub frame_count: u32,
    /// padding for later use
    pub pad: [u32; 4],
}

/// What the animation decoder's queries read of its state: the global
/// information and the position in the frame sequence.
#[derive(Clone, Copy)]
pub struct WebPAnimDecoder {
    /// Global info about the animation.
    pub info_: WebPAnimInfo,
    /// Previous frame timestamp (milliseconds).
    pub prev_frame_timestamp_: i32,
    /// True if previous frame was a keyframe.
    pub prev_frame_was_keyframe_: i32,
    /// Index of the next frame to be decoded (starting from 1).
    pub next_frame_: i32,
}

/// Sets the options to their defaults: RGBA output, no threads.
#[allow(non_snake_case)]
pub fn DefaultDecoderOptions(dec_options: &mut WebPAnimDecoderOptions)
    ensures
        final(dec_options).color_mode == MODE_RGBA,
        final(dec_options).use_threads == 0,
        final(dec_options).padding == old(dec_options).padding,
{
    dec_options.color_mode = MODE_RGBA;
    dec_options.use_threads = 0;
}

/// Initialises the options to their defaults and returns 1, or returns 0
/// when there are no options to initialise.
#[allow(non_snake_case)]
pub fn WebPAnimDecoderOptionsInit(dec_options: Option<&mut WebPAnimDecoderOptions>) -> (r: i32)
    ensures
        r == (if dec_options is Some { 1i32 } else { 0i32 }),
        dec_options matches Some(o) ==> {
            &&& final(o).color_mode == MODE_RGBA
            &&& final(o).use_threads == 0
            &&& final(o).padding == o.padding
        },
{
    match dec_options {
        None => 0,
        Some(o) => {
            DefaultDecoderOptions(o);
            1
        },
    }
}

/// 1 while the decoder has frames left to decode, else 0 (also for no
/// decoder).
#[allow(non_snake_case)]
pub fn WebPAnimDecoderHasMoreFrames(dec: Option<&WebPAnimDecoder>) -> (r: i32)
    requires
        dec matches Some(d) ==> d.info_.frame_count <= i32::MAX,
    ensures
        r == (if dec matches Some(d) && d.next_frame_ <= d.info_.frame_count { 1i32 } else { 0i32 }),
{
    match dec {
        None => 0,
        Some(d) => {
            let frame_count = d.info_.frame_count as i32;
            if d.next_frame_ <= frame_count {
                1
            } else {
                0
            }
        },
    }
}

} // verus!
