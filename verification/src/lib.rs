//! Decoding of per-channel image data into one interleaved 4-bytes-per-pixel
//! buffer (channel 0, 1, 2, 3 repeating).
//!
//! Each encoded channel is either raw bytes (one byte per pixel) or a
//! PackBits run-length stream. The entry points `decode_rgb`, `decode_rgba`,
//! `decode_grayscale` and `decode_grayscale_a` allocate the output buffer,
//! pre-fill it, and write each supplied channel at its byte offset within
//! every pixel. Malformed streams are rejected with an explicit error, never
//! a panic: a run that claims more data bytes than the stream holds is a
//! `TruncatedInput`, and a write that would land past the end of the output
//! buffer is a `BufferTooSmall`.

pub mod channel;
pub mod image;
pub mod rle;

pub use channel::decode_channel;
pub use channel::decode_raw;
pub use channel::decode_rle;
pub use channel::ChannelCompression;
pub use channel::DecodeError;
pub use image::decode_grayscale;
pub use image::decode_grayscale_a;
pub use image::decode_rgb;
pub use image::decode_rgba;
