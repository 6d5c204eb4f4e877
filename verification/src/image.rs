//! The four decode entry points. Each allocates one interleaved output
//! buffer of `4 * output_pixels` bytes, pre-fills it, and decodes each
//! supplied channel into its slot of every pixel.
//!
//! The variants without an alpha channel pre-fill with 255, so slot 3 of
//! every pixel reads as fully opaque without a single alpha write; the
//! variants with an alpha channel pre-fill with 0, since every slot is going
//! to be written anyway. A failure of any channel fails the whole call.

use crate::channel::apply_channel;
use crate::channel::channel_bytes;
use crate::channel::decode_channel;
use crate::channel::lemma_stride_written_at;
use crate::channel::lemma_stride_written_other_slot;
use crate::channel::stride_written;
use crate::channel::ChannelCompression;
use crate::channel::DecodeError;
use vstd::prelude::*;

verus! {

/// A buffer of `len` bytes, every one holding `value`.
pub open spec fn filled_seq(len: nat, value: u8) -> Seq<u8> {
    Seq::new(len, |_j: int| value)
}

fn filled(len: usize, value: u8) -> (v: Vec<u8>)
    ensures
        v@ == filled_seq(len as nat, value),
{
    let mut v: Vec<u8> = Vec::new();
    let mut i: usize = 0;
    while i < len
        invariant
            i == v@.len(),
            i <= len,
            forall|j: int| 0 <= j < i ==> v@[j] == value,
        decreases len - i,
    {
        v.push(value);
        i = i + 1;
    }
    proof {
        assert(v@ =~= filled_seq(len as nat, value));
    }
    v
}

/// The outcome of an RGB decode: an opaque-alpha buffer of `4 * pixels`
/// bytes with red, green and blue written at slots 0, 1 and 2, or the error
/// of the first channel that fails.
pub open spec fn rgb_decoded(
    pixels: int,
    red: Seq<u8>,
    red_compression: ChannelCompression,
    green: Seq<u8>,
    green_compression: ChannelCompression,
    blue: Seq<u8>,
    blue_compression: ChannelCompression,
) -> Result<Seq<u8>, DecodeError> {
    let base = filled_seq((4 * pixels) as nat, 255);
    match apply_channel(base, red, red_compression, 0) {
        Result::Err(e) => Result::Err(e),
        Result::Ok(b1) => match apply_channel(b1, green, green_compression, 1) {
            Result::Err(e) => Result::Err(e),
            Result::Ok(b2) => apply_channel(b2, blue, blue_compression, 2),
        },
    }
}

/// The outcome of an RGBA decode: a zero-filled buffer of `4 * pixels`
/// bytes with red, green, blue and alpha written at slots 0 to 3, or the
/// error of the first channel that fails.
pub open spec fn rgba_decoded(
    pixels: int,
    red: Seq<u8>,
    red_compression: ChannelCompression,
    green: Seq<u8>,
    green_compression: ChannelCompression,
    blue: Seq<u8>,
    blue_compression: ChannelCompression,
    alpha: Seq<u8>,
    alpha_compression: ChannelCompression,
) -> Result<Seq<u8>, DecodeError> {
    let base = filled_seq((4 * pixels) as nat, 0);
    match apply_channel(base, red, red_compression, 0) {
        Result::Err(e) => Result::Err(e),
        Result::Ok(b1) => match apply_channel(b1, green, green_compression, 1) {
            Result::Err(e) => Result::Err(e),
            Result::Ok(b2) => match apply_channel(b2, blue, blue_compression, 2) {
                Result::Err(e) => Result::Err(e),
                Result::Ok(b3) => apply_channel(b3, alpha, alpha_compression, 3),
            },
        },
    }
}

/// The outcome of a grayscale decode: an opaque-alpha buffer of
/// `4 * pixels` bytes with the one color channel broadcast to slots 0, 1
/// and 2, or the error of the first dispatch that fails.
pub open spec fn grayscale_decoded(
    pixels: int,
    color: Seq<u8>,
    color_compression: ChannelCompression,
) -> Result<Seq<u8>, DecodeError> {
    let base = filled_seq((4 * pixels) as nat, 255);
    match apply_channel(base, color, color_compression, 0) {
        Result::Err(e) => Result::Err(e),
        Result::Ok(b1) => match apply_channel(b1, color, color_compression, 1) {
            Result::Err(e) => Result::Err(e),
            Result::Ok(b2) => apply_channel(b2, color, color_compression, 2),
        },
    }
}

/// The outcome of a grayscale-with-alpha decode: a zero-filled buffer of
/// `4 * pixels` bytes with the color channel broadcast to slots 0, 1 and 2
/// and alpha written at slot 3, or the error of the first dispatch that
/// fails.
pub open spec fn grayscale_a_decoded(
    pixels: int,
    color: Seq<u8>,
    color_compression: ChannelCompression,
    alpha: Seq<u8>,
    alpha_compression: ChannelCompression,
) -> Result<Seq<u8>, DecodeError> {
    let base = filled_seq((4 * pixels) as nat, 0);
    match apply_channel(base, color, color_compression, 0) {
        Result::Err(e) => Result::Err(e),
        Result::Ok(b1) => match apply_channel(b1, color, color_compression, 1) {
            Result::Err(e) => Result::Err(e),
            Result::Ok(b2) => match apply_channel(b2, color, color_compression, 2) {
                Result::Err(e) => Result::Err(e),
                Result::Ok(b3) => apply_channel(b3, alpha, alpha_compression, 3),
            },
        },
    }
}

/// Decodes an RGB image: red, green and blue land at slots 0, 1 and 2 of
/// every pixel, and the 255 pre-fill leaves slot 3 fully opaque.
pub fn decode_rgb(
    output_pixels: usize,
    red: &[u8],
    red_compression: ChannelCompression,
    green: &[u8],
    green_compression: ChannelCompression,
    blue: &[u8],
    blue_compression: ChannelCompression,
) -> (r: Result<Vec<u8>, DecodeError>)
    requires
        4 * output_pixels <= usize::MAX,
    ensures
        r matches Ok(v) ==> Result::<Seq<u8>, DecodeError>::Ok(v@) == rgb_decoded(
            output_pixels as int,
            red@,
            red_compression,
            green@,
            green_compression,
            blue@,
            blue_compression,
        ),
        r matches Err(e) ==> Result::<Seq<u8>, DecodeError>::Err(e) == rgb_decoded(
            output_pixels as int,
            red@,
            red_compression,
            green@,
            green_compression,
            blue@,
            blue_compression,
        ),
{
    let mut output = filled(4 * output_pixels, 255);
    match decode_channel(red, red_compression, 0, &mut output) {
        Result::Ok(_) => {},
        Result::Err(e) => {
            return Result::Err(e);
        },
    }
    match decode_channel(green, green_compression, 1, &mut output) {
        Result::Ok(_) => {},
        Result::Err(e) => {
            return Result::Err(e);
        },
    }
    match decode_channel(blue, blue_compression, 2, &mut output) {
        Result::Ok(_) => {},
        Result::Err(e) => {
            return Result::Err(e);
        },
    }
    Result::Ok(output)
}

/// Decodes an RGBA image: red, green, blue and alpha land at slots 0 to 3
/// of every pixel of a zero-filled buffer.
pub fn decode_rgba(
    output_pixels: usize,
    red: &[u8],
    red_compression: ChannelCompression,
    green: &[u8],
    green_compression: ChannelCompression,
    blue: &[u8],
    blue_compression: ChannelCompression,
    alpha: &[u8],
    alpha_compression: ChannelCompression,
) -> (r: Result<Vec<u8>, DecodeError>)
    requires
        4 * output_pixels <= usize::MAX,
    ensures
        r matches Ok(v) ==> Result::<Seq<u8>, DecodeError>::Ok(v@) == rgba_decoded(
            output_pixels as int,
            red@,
            red_compression,
            green@,
            green_compression,
            blue@,
            blue_compression,
            alpha@,
            alpha_compression,
        ),
        r matches Err(e) ==> Result::<Seq<u8>, DecodeError>::Err(e) == rgba_decoded(
            output_pixels as int,
            red@,
            red_compression,
            green@,
            green_compression,
            blue@,
            blue_compression,
            alpha@,
            alpha_compression,
        ),
{
    let mut output = filled(4 * output_pixels, 0);
    match decode_channel(red, red_compression, 0, &mut output) {
        Result::Ok(_) => {},
        Result::Err(e) => {
            return Result::Err(e);
        },
    }
    match decode_channel(green, green_compression, 1, &mut output) {
        Result::Ok(_) => {},
        Result::Err(e) => {
            return Result::Err(e);
        },
    }
    match decode_channel(blue, blue_compression, 2, &mut output) {
        Result::Ok(_) => {},
        Result::Err(e) => {
            return Result::Err(e);
        },
    }
    match decode_channel(alpha, alpha_compression, 3, &mut output) {
        Result::Ok(_) => {},
        Result::Err(e) => {
            return Result::Err(e);
        },
    }
    Result::Ok(output)
}

/// Decodes a grayscale image: the one color channel is broadcast to slots
/// 0, 1 and 2 of every pixel, and the 255 pre-fill leaves slot 3 fully
/// opaque.
pub fn decode_grayscale(
    output_pixels: usize,
    color: &[u8],
    color_compression: ChannelCompression,
) -> (r: Result<Vec<u8>, DecodeError>)
    requires
        4 * output_pixels <= usize::MAX,
    ensures
        r matches Ok(v) ==> Result::<Seq<u8>, DecodeError>::Ok(v@) == grayscale_decoded(
            output_pixels as int,
            color@,
            color_compression,
        ),
        r matches Err(e) ==> Result::<Seq<u8>, DecodeError>::Err(e) == grayscale_decoded(
            output_pixels as int,
            color@,
            color_compression,
        ),
{
    let mut output = filled(4 * output_pixels, 255);
    match decode_channel(color, color_compression, 0, &mut output) {
        Result::Ok(_) => {},
        Result::Err(e) => {
            return Result::Err(e);
        },
    }
    match decode_channel(color, color_compression, 1, &mut output) {
        Result::Ok(_) => {},
        Result::Err(e) => {
            return Result::Err(e);
        },
    }
    match decode_channel(color, color_compression, 2, &mut output) {
        Result::Ok(_) => {},
        Result::Err(e) => {
            return Result::Err(e);
        },
    }
    Result::Ok(output)
}

/// Decodes a grayscale image with an alpha channel: the color channel is
/// broadcast to slots 0, 1 and 2 and alpha lands at slot 3 of every pixel
/// of a zero-filled buffer.
pub fn decode_grayscale_a(
    output_pixels: usize,
    color: &[u8],
    color_compression: ChannelCompression,
    alpha: &[u8],
    alpha_compression: ChannelCompression,
) -> (r: Result<Vec<u8>, DecodeError>)
    requires
        4 * output_pixels <= usize::MAX,
    ensures
        r matches Ok(v) ==> Result::<Seq<u8>, DecodeError>::Ok(v@) == grayscale_a_decoded(
            output_pixels as int,
            color@,
            color_compression,
            alpha@,
            alpha_compression,
        ),
        r matches Err(e) ==> Result::<Seq<u8>, DecodeError>::Err(e) == grayscale_a_decoded(
            output_pixels as int,
            color@,
            color_compression,
            alpha@,
            alpha_compression,
        ),
{
    let mut output = filled(4 * output_pixels, 0);
    match decode_channel(color, color_compression, 0, &mut output) {
        Result::Ok(_) => {},
        Result::Err(e) => {
            return Result::Err(e);
        },
    }
    match decode_channel(color, color_compression, 1, &mut output) {
        Result::Ok(_) => {},
        Result::Err(e) => {
            return Result::Err(e);
        },
    }
    match decode_channel(color, color_compression, 2, &mut output) {
        Result::Ok(_) => {},
        Result::Err(e) => {
            return Result::Err(e);
        },
    }
    match decode_channel(alpha, alpha_compression, 3, &mut output) {
        Result::Ok(_) => {},
        Result::Err(e) => {
            return Result::Err(e);
        },
    }
    Result::Ok(output)
}

/// An RGB decode has no alpha channel to write, yet every pixel of a
/// successful result is fully opaque: its slot-3 byte is 255, straight from
/// the pre-fill, since the three color channels only touch slots 0 to 2.
pub proof fn lemma_rgb_alpha_opaque(
    pixels: int,
    red: Seq<u8>,
    red_compression: ChannelCompression,
    green: Seq<u8>,
    green_compression: ChannelCompression,
    blue: Seq<u8>,
    blue_compression: ChannelCompression,
    out: Seq<u8>,
    p: int,
)
    requires
        rgb_decoded(pixels, red, red_compression, green, green_compression, blue, blue_compression)
            == Result::<Seq<u8>, DecodeError>::Ok(out),
        0 <= p < pixels,
    ensures
        out.len() == 4 * pixels,
        out[4 * p + 3] == 255,
{
    let base = filled_seq((4 * pixels) as nat, 255);
    let b1 = apply_channel(base, red, red_compression, 0)->Ok_0;
    let b2 = apply_channel(b1, green, green_compression, 1)->Ok_0;
    lemma_stride_written_other_slot(b2, 2, channel_bytes(blue, blue_compression)->Some_0, p, 3);
    lemma_stride_written_other_slot(b1, 1, channel_bytes(green, green_compression)->Some_0, p, 3);
    lemma_stride_written_other_slot(base, 0, channel_bytes(red, red_compression)->Some_0, p, 3);
}

/// Once all four channels of a successful RGBA decode expand to exactly the
/// pixel count, every byte of the result is the matching byte of its
/// channel: no byte is left at the zero pre-fill.
pub proof fn lemma_rgba_fully_covered(
    pixels: int,
    red: Seq<u8>,
    red_compression: ChannelCompression,
    green: Seq<u8>,
    green_compression: ChannelCompression,
    blue: Seq<u8>,
    blue_compression: ChannelCompression,
    alpha: Seq<u8>,
    alpha_compression: ChannelCompression,
    out: Seq<u8>,
    p: int,
    slot: int,
)
    requires
        rgba_decoded(
            pixels,
            red,
            red_compression,
            green,
            green_compression,
            blue,
            blue_compression,
            alpha,
            alpha_compression,
        ) == Result::<Seq<u8>, DecodeError>::Ok(out),
        channel_bytes(red, red_compression)->Some_0.len() == pixels,
        channel_bytes(green, green_compression)->Some_0.len() == pixels,
        channel_bytes(blue, blue_compression)->Some_0.len() == pixels,
        channel_bytes(alpha, alpha_compression)->Some_0.len() == pixels,
        0 <= p < pixels,
        0 <= slot < 4,
    ensures
        out.len() == 4 * pixels,
        slot == 0 ==> out[4 * p + slot] == channel_bytes(red, red_compression)->Some_0[p],
        slot == 1 ==> out[4 * p + slot] == channel_bytes(green, green_compression)->Some_0[p],
        slot == 2 ==> out[4 * p + slot] == channel_bytes(blue, blue_compression)->Some_0[p],
        slot == 3 ==> out[4 * p + slot] == channel_bytes(alpha, alpha_compression)->Some_0[p],
{
    let base = filled_seq((4 * pixels) as nat, 0);
    let rb = channel_bytes(red, red_compression)->Some_0;
    let gb = channel_bytes(green, green_compression)->Some_0;
    let bb = channel_bytes(blue, blue_compression)->Some_0;
    let ab = channel_bytes(alpha, alpha_compression)->Some_0;
    let b1 = stride_written(base, 0, rb);
    let b2 = stride_written(b1, 1, gb);
    let b3 = stride_written(b2, 2, bb);
    if slot == 3 {
        lemma_stride_written_at(b3, 3, ab, p);
    } else {
        lemma_stride_written_other_slot(b3, 3, ab, p, slot);
        if slot == 2 {
            lemma_stride_written_at(b2, 2, bb, p);
        } else {
            lemma_stride_written_other_slot(b2, 2, bb, p, slot);
            if slot == 1 {
                lemma_stride_written_at(b1, 1, gb, p);
            } else {
                lemma_stride_written_other_slot(b1, 1, gb, p, slot);
                lemma_stride_written_at(base, 0, rb, p);
            }
        }
    }
}

/// Once both channels of a successful grayscale-with-alpha decode expand to
/// exactly the pixel count, every byte of the result is the matching byte
/// of its channel — the color byte at slots 0 to 2, the alpha byte at slot
/// 3 — and no byte is left at the zero pre-fill.
pub proof fn lemma_grayscale_a_fully_covered(
    pixels: int,
    color: Seq<u8>,
    color_compression: ChannelCompression,
    alpha: Seq<u8>,
    alpha_compression: ChannelCompression,
    out: Seq<u8>,
    p: int,
    slot: int,
)
    requires
        grayscale_a_decoded(pixels, color, color_compression, alpha, alpha_compression)
            == Result::<Seq<u8>, DecodeError>::Ok(out),
        channel_bytes(color, color_compression)->Some_0.len() == pixels,
        channel_bytes(alpha, alpha_compression)->Some_0.len() == pixels,
        0 <= p < pixels,
        0 <= slot < 4,
    ensures
        out.len() == 4 * pixels,
        slot <= 2 ==> out[4 * p + slot] == channel_bytes(color, color_compression)->Some_0[p],
        slot == 3 ==> out[4 * p + slot] == channel_bytes(alpha, alpha_compression)->Some_0[p],
{
    let base = filled_seq((4 * pixels) as nat, 0);
    let cb = channel_bytes(color, color_compression)->Some_0;
    let ab = channel_bytes(alpha, alpha_compression)->Some_0;
    let b1 = stride_written(base, 0, cb);
    let b2 = stride_written(b1, 1, cb);
    let b3 = stride_written(b2, 2, cb);
    if slot == 3 {
        lemma_stride_written_at(b3, 3, ab, p);
    } else {
        lemma_stride_written_other_slot(b3, 3, ab, p, slot);
        if slot == 2 {
            lemma_stride_written_at(b2, 2, cb, p);
        } else {
            lemma_stride_written_other_slot(b2, 2, cb, p, slot);
            if slot == 1 {
                lemma_stride_written_at(b1, 1, cb, p);
            } else {
                lemma_stride_written_other_slot(b1, 1, cb, p, slot);
                lemma_stride_written_at(base, 0, cb, p);
            }
        }
    }
}

} // verus!
