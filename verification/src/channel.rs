//! One encoded channel and its place in the interleaved output buffer.
//!
//! A channel holds one byte per pixel. In the output buffer the four
//! channels of a pixel stand side by side, so byte `i` of the channel at
//! slot `s` lands at buffer position `s + 4*i`: the writes of one channel
//! are 4 bytes apart and never overlap another channel's positions.

use crate::rle::expand_rle;
use crate::rle::rle_decoded;
use vstd::arithmetic::div_mod::lemma_fundamental_div_mod;
use vstd::arithmetic::div_mod::lemma_fundamental_div_mod_converse;
use vstd::prelude::*;

verus! {

/// How one encoded channel is stored: as raw bytes, one per pixel, or as a
/// PackBits run-length stream.
#[derive(Copy, Clone, Debug, PartialEq, Eq, Structural)]
pub enum ChannelCompression {
    Raw,
    RleCompressed,
}

/// Why a channel could not be decoded.
#[derive(Copy, Clone, Debug, PartialEq, Eq, Structural)]
pub enum DecodeError {
    /// A PackBits literal or repeat run claims a data byte that the encoded
    /// stream does not hold.
    TruncatedInput,
    /// A decoded byte would land past the end of the output buffer.
    BufferTooSmall,
}

/// A channel of `n` decoded bytes written at `slot` stays inside a buffer of
/// `outlen` bytes: the last write position `slot + 4*(n-1)` is in bounds.
pub open spec fn channel_fits(slot: int, n: int, outlen: int) -> bool {
    n == 0 || slot + 4 * (n - 1) + 1 <= outlen
}

/// The buffer `base` after the decoded channel `bytes` is written at `slot`:
/// byte `i` of the channel stands at position `slot + 4*i`, and every other
/// position keeps the byte it held in `base`.
pub open spec fn stride_written(base: Seq<u8>, slot: int, bytes: Seq<u8>) -> Seq<u8> {
    Seq::new(
        base.len(),
        |j: int|
            if slot <= j && (j - slot) % 4 == 0 && (j - slot) / 4 < bytes.len() {
                bytes[(j - slot) / 4]
            } else {
                base[j]
            },
    )
}

/// Writing a channel at `slot` puts byte `i` of the channel at buffer
/// position `slot + 4*i`.
pub proof fn lemma_stride_written_at(base: Seq<u8>, slot: int, bytes: Seq<u8>, i: int)
    requires
        0 <= slot,
        0 <= i < bytes.len(),
        channel_fits(slot, bytes.len() as int, base.len() as int),
    ensures
        stride_written(base, slot, bytes)[slot + 4 * i] == bytes[i],
{
    lemma_fundamental_div_mod_converse(4 * i, 4, i, 0);
}

/// Writing a channel at `slot` touches no position outside
/// `{ slot + 4*i | 0 <= i < bytes.len() }`.
pub proof fn lemma_stride_written_untouched(base: Seq<u8>, slot: int, bytes: Seq<u8>, j: int)
    requires
        0 <= j < base.len(),
        j < slot || (j - slot) % 4 != 0 || (j - slot) / 4 >= bytes.len(),
    ensures
        stride_written(base, slot, bytes)[j] == base[j],
{
}

/// A position that belongs to another slot of the pixel is never touched:
/// writing a channel at `slot` leaves position `4*p + other` unchanged.
pub proof fn lemma_stride_written_other_slot(
    base: Seq<u8>,
    slot: int,
    bytes: Seq<u8>,
    p: int,
    other: int,
)
    requires
        0 <= slot < 4,
        0 <= other < 4,
        slot != other,
        0 <= p,
        4 * p + other < base.len(),
    ensures
        stride_written(base, slot, bytes)[4 * p + other] == base[4 * p + other],
{
    let j = 4 * p + other;
    if slot <= j && (j - slot) % 4 == 0 {
        lemma_fundamental_div_mod(j - slot, 4);
        // j - slot is then 4 * ((j - slot) / 4), so other - slot would be a
        // nonzero multiple of 4 strictly between -4 and 4.
        assert(false);
    }
}

/// Writing one more byte of the channel updates exactly one position.
proof fn lemma_stride_written_extend(base: Seq<u8>, slot: int, bytes: Seq<u8>, i: int)
    requires
        0 <= slot,
        0 <= i < bytes.len(),
        channel_fits(slot, bytes.len() as int, base.len() as int),
    ensures
        stride_written(base, slot, bytes.take(i + 1)) == stride_written(
            base,
            slot,
            bytes.take(i),
        ).update(slot + 4 * i, bytes[i]),
{
    let lhs = stride_written(base, slot, bytes.take(i + 1));
    let rhs = stride_written(base, slot, bytes.take(i)).update(slot + 4 * i, bytes[i]);
    assert forall|j: int| 0 <= j < base.len() implies lhs[j] == rhs[j] by {
        lemma_fundamental_div_mod_converse(4 * i, 4, i, 0);
        if slot <= j && (j - slot) % 4 == 0 {
            lemma_fundamental_div_mod(j - slot, 4);
        }
    }
    assert(lhs =~= rhs);
}

/// Writes `bytes[i]` to `output[slot + 4*i]` for every `i`, after checking
/// that the last write stays inside the buffer; on a capacity error the
/// buffer is left unchanged.
fn write_strided(bytes: &[u8], slot: usize, output: &mut Vec<u8>) -> (r: Result<(), DecodeError>)
    ensures
        channel_fits(slot as int, bytes@.len() as int, old(output)@.len() as int) ==> r is Ok
            && final(output)@ == stride_written(old(output)@, slot as int, bytes@),
        !channel_fits(slot as int, bytes@.len() as int, old(output)@.len() as int) ==> (r matches Err(
            DecodeError::BufferTooSmall,
        ) && final(output)@ == old(output)@),
{
    let n: usize = bytes.len();
    // The whole capacity check runs in u128 so that `4 * (n - 1)` cannot
    // wrap around even for the largest slice.
    let fits_ok: bool = n == 0 || (slot as u128) + 4 * ((n - 1) as u128) + 1 <= (output.len()
        as u128);
    if !fits_ok {
        return Result::Err(DecodeError::BufferTooSmall);
    }
    let out_len: usize = output.len();
    proof {
        assert(old(output)@.len() == out_len <= usize::MAX);
        assert(stride_written(old(output)@, slot as int, bytes@.take(0)) =~= old(output)@);
    }
    let mut i: usize = 0;
    while i < n
        invariant
            n == bytes@.len(),
            i <= n,
            channel_fits(slot as int, n as int, old(output)@.len() as int),
            output@.len() == old(output)@.len() <= usize::MAX,
            output@ == stride_written(old(output)@, slot as int, bytes@.take(i as int)),
        decreases n - i,
    {
        proof {
            lemma_stride_written_extend(old(output)@, slot as int, bytes@, i as int);
        }
        let pos: usize = slot + 4 * i;
        output.set(pos, bytes[i]);
        i = i + 1;
    }
    proof {
        assert(bytes@.take(n as int) =~= bytes@);
    }
    Result::Ok(())
}

/// Writes a raw (uncompressed) channel into the interleaved output buffer:
/// input byte `i` lands at `output[channel_offset + 4*i]`, no other position
/// changes. When the last write would fall outside the buffer, nothing is
/// written and the call fails with `BufferTooSmall`.
pub fn decode_raw(input: &[u8], channel_offset: usize, output: &mut Vec<u8>) -> (r: Result<
    (),
    DecodeError,
>)
    ensures
        channel_fits(channel_offset as int, input@.len() as int, old(output)@.len() as int)
            ==> r is Ok && final(output)@ == stride_written(
            old(output)@,
            channel_offset as int,
            input@,
        ),
        !channel_fits(channel_offset as int, input@.len() as int, old(output)@.len() as int)
            ==> (r matches Err(DecodeError::BufferTooSmall) && final(output)@ == old(output)@),
{
    write_strided(input, channel_offset, output)
}

/// Expands a PackBits stream and writes the decoded bytes into the
/// interleaved output buffer: decoded byte `i` lands at
/// `output[channel_offset + 4*i]`, no other position changes. A run whose
/// data bytes are missing fails with `TruncatedInput`; a decoded byte that
/// would fall outside the buffer fails with `BufferTooSmall`. On either
/// error the buffer is left unchanged.
pub fn decode_rle(input: &[u8], channel_offset: usize, output: &mut Vec<u8>) -> (r: Result<
    (),
    DecodeError,
>)
    ensures
        rle_decoded(input@) is None ==> (r matches Err(DecodeError::TruncatedInput)
            && final(output)@ == old(output)@),
        rle_decoded(input@) matches Some(bytes) ==> {
            &&& channel_fits(channel_offset as int, bytes.len() as int, old(output)@.len() as int)
                ==> r is Ok && final(output)@ == stride_written(
                old(output)@,
                channel_offset as int,
                bytes,
            )
            &&& !channel_fits(channel_offset as int, bytes.len() as int, old(output)@.len() as int)
                ==> (r matches Err(DecodeError::BufferTooSmall) && final(output)@ == old(output)@)
        },
{
    let expanded: Vec<u8> = match expand_rle(input) {
        Result::Ok(v) => v,
        Result::Err(e) => {
            return Result::Err(e);
        },
    };
    write_strided(expanded.as_slice(), channel_offset, output)
}

/// The decoded bytes of one channel: raw bytes stand for themselves, a
/// PackBits stream is expanded first (`None` when it is truncated).
pub open spec fn channel_bytes(data: Seq<u8>, compression: ChannelCompression) -> Option<Seq<u8>> {
    match compression {
        ChannelCompression::Raw => Option::Some(data),
        ChannelCompression::RleCompressed => rle_decoded(data),
    }
}

/// The outcome of decoding one channel into the buffer `base` at `slot`:
/// the buffer with the channel's bytes written 4 apart, or the error that
/// the decode fails with.
pub open spec fn apply_channel(
    base: Seq<u8>,
    data: Seq<u8>,
    compression: ChannelCompression,
    slot: int,
) -> Result<Seq<u8>, DecodeError> {
    match channel_bytes(data, compression) {
        Option::None => Result::Err(DecodeError::TruncatedInput),
        Option::Some(bytes) => if channel_fits(slot, bytes.len() as int, base.len() as int) {
            Result::Ok(stride_written(base, slot, bytes))
        } else {
            Result::Err(DecodeError::BufferTooSmall)
        },
    }
}

/// Decodes one channel into the output buffer at `channel_offset`, routing
/// to the raw or the PackBits decoder according to the compression tag. On
/// an error the buffer is left unchanged.
pub fn decode_channel(
    data: &[u8],
    compression: ChannelCompression,
    channel_offset: usize,
    output: &mut Vec<u8>,
) -> (r: Result<(), DecodeError>)
    ensures
        apply_channel(old(output)@, data@, compression, channel_offset as int) matches Ok(buf)
            ==> r is Ok && final(output)@ == buf,
        apply_channel(old(output)@, data@, compression, channel_offset as int) matches Err(e)
            ==> r matches Err(e2) && e2 == e && final(output)@ == old(output)@,
{
    match compression {
        ChannelCompression::Raw => decode_raw(data, channel_offset, output),
        ChannelCompression::RleCompressed => decode_rle(data, channel_offset, output),
    }
}

} // verus!
