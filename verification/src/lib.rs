//! Verified building blocks of a WebP (VP8) decoder: inverse transforms,
//! intra predictors, in-loop filters, macroblock reconstruction and
//! YUV to RGB conversion with fancy upsampling.
use vstd::prelude::*;

pub mod dec_clip_tables;
pub mod array;
pub mod dec;
pub mod dec_laws;
pub mod decode;
pub mod demux;
pub mod dsp;
pub mod frame_dec;
pub mod offsetref;
pub mod upsampling;
pub mod vp8_dec;
pub mod yuv;

verus! {
} // verus!
