# webp_dec

Verified building blocks of a WebP (VP8) decoder, written in Verus.

`src/` is the verified library:

- `dec.rs` — inverse transforms (DCT, DC-only, AC3, WHT), the intra
  predictors of 4x4, 16x16 and 8x8 blocks, the simple and complex in-loop
  filters, and dithering, each with a contract stating its exact result;
- `dec_clip_tables.rs` — the clipping and absolute-value tables as functions;
- `frame_dec.rs` — dispatch of the residual transforms of a macroblock;
- `vp8_dec.rs` — reconstruction of a macroblock and of a row of macroblocks
  in the work buffer, and the in-loop filtering of a macroblock in the cache
  rows, specified step by step;
- `yuv.rs`, `upsampling.rs` — YUV to RGB conversion of pixels and fancy
  upsampling of pairs of rows;
- `offsetref.rs`, `array.rs` — slices and arrays indexed around a movable
  zero position;
- `decode.rs`, `demux.rs` — colorspace modes, status codes and the plain
  records of the decoding and animation API.

`tests/` exercises the library on concrete values. `app/` is the C-compatible
surface: the records of the C interface, the functions of the C library, and
the entry points through which C code calls the library.
