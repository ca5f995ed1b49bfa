use webp_dec::decode::{
    WebPBitstreamFeatures, WebPDecoderOptions, WebPIsAlphaMode, WebPIsPremultipliedMode,
    WebPIsRGBMode, MODE_ARGB, MODE_Argb, MODE_BGR, MODE_BGRA, MODE_LAST, MODE_RGB, MODE_RGBA,
    MODE_RGBA_4444, MODE_RGB_565, MODE_YUV, MODE_YUVA, MODE_bgrA, MODE_rgbA, MODE_rgbA_4444,
    VP8_STATUS_NOT_ENOUGH_DATA, VP8_STATUS_OK,
};
use webp_dec::demux::{
    DefaultDecoderOptions, WebPAnimDecoder, WebPAnimDecoderHasMoreFrames,
    WebPAnimDecoderOptions, WebPAnimDecoderOptionsInit, WebPAnimInfo,
};

#[test]
fn mode_predicates() {
    let premultiplied = [MODE_rgbA, MODE_bgrA, MODE_Argb, MODE_rgbA_4444];
    let alpha = [MODE_RGBA, MODE_BGRA, MODE_ARGB, MODE_RGBA_4444, MODE_YUVA];
    for m in 0..MODE_LAST {
        let p = premultiplied.contains(&m);
        assert_eq!(WebPIsPremultipliedMode(m), p as i32, "mode {}", m);
        assert_eq!(WebPIsAlphaMode(m), (p || alpha.contains(&m)) as i32, "mode {}", m);
        assert_eq!(WebPIsRGBMode(m), (m < MODE_YUV) as i32, "mode {}", m);
    }
    assert_eq!(WebPIsAlphaMode(MODE_RGB), 0);
    assert_eq!(WebPIsAlphaMode(MODE_BGR), 0);
    assert_eq!(WebPIsAlphaMode(MODE_RGB_565), 0);
    assert_eq!(WebPIsAlphaMode(MODE_YUV), 0);
    assert_eq!(WebPIsRGBMode(MODE_YUV), 0);
    assert_eq!(WebPIsRGBMode(MODE_YUVA), 0);
    assert_eq!(WebPIsRGBMode(MODE_rgbA_4444), 1);
    assert_eq!(WebPIsAlphaMode(99), 0);
    assert_eq!(VP8_STATUS_OK, 0);
    assert_eq!(VP8_STATUS_NOT_ENOUGH_DATA, 7);
}

#[test]
fn premultiplied_modes_have_alpha() {
    for m in 0..MODE_LAST {
        if WebPIsPremultipliedMode(m) != 0 {
            assert_eq!(WebPIsAlphaMode(m), 1);
        }
    }
}

#[test]
fn anim_options_init() {
    assert_eq!(WebPAnimDecoderOptionsInit(None), 0);
    let mut o = WebPAnimDecoderOptions { color_mode: MODE_YUV, use_threads: 5, padding: [3; 7] };
    assert_eq!(WebPAnimDecoderOptionsInit(Some(&mut o)), 1);
    assert_eq!(o.color_mode, MODE_RGBA);
    assert_eq!(o.use_threads, 0);
    assert_eq!(o.padding, [3; 7]);
    let mut p = WebPAnimDecoderOptions { color_mode: MODE_BGR, use_threads: 1, padding: [0; 7] };
    DefaultDecoderOptions(&mut p);
    assert_eq!(p.color_mode, MODE_RGBA);
    assert_eq!(p.use_threads, 0);
}

fn decoder(next: i32, count: u32) -> WebPAnimDecoder {
    WebPAnimDecoder {
        info_: WebPAnimInfo {
            canvas_width: 3,
            canvas_height: 2,
            loop_count: 0,
            bgcolor: 0xffffffff,
            frame_count: count,
            pad: [0; 4],
        },
        prev_frame_timestamp_: 0,
        prev_frame_was_keyframe_: 0,
        next_frame_: next,
    }
}

#[test]
fn anim_has_more_frames() {
    assert_eq!(WebPAnimDecoderHasMoreFrames(None), 0);
    assert_eq!(WebPAnimDecoderHasMoreFrames(Some(&decoder(1, 1))), 1);
    assert_eq!(WebPAnimDecoderHasMoreFrames(Some(&decoder(1, 3))), 1);
    assert_eq!(WebPAnimDecoderHasMoreFrames(Some(&decoder(3, 3))), 1);
    assert_eq!(WebPAnimDecoderHasMoreFrames(Some(&decoder(4, 3))), 0);
    assert_eq!(WebPAnimDecoderHasMoreFrames(Some(&decoder(1, 0))), 0);
}

#[test]
fn plain_records() {
    let f = WebPBitstreamFeatures { width: 3, height: 2, has_alpha: 0, has_animation: 0, format: 1, pad: [0; 5] };
    let g = f;
    assert_eq!(g.width * g.height, 6);
    let o = WebPDecoderOptions {
        bypass_filtering: 0,
        no_fancy_upsampling: 0,
        use_cropping: 0,
        crop_left: 0,
        crop_top: 0,
        crop_width: 0,
        crop_height: 0,
        use_scaling: 0,
        scaled_width: 0,
        scaled_height: 0,
        use_threads: 0,
        dithering_strength: 100,
        flip: 1,
        alpha_dithering_strength: 50,
        pad: [0; 5],
    };
    assert_eq!(o.dithering_strength, 100);
}
