use psd_decode::decode_channel;
use psd_decode::decode_grayscale;
use psd_decode::decode_grayscale_a;
use psd_decode::decode_raw;
use psd_decode::decode_rgb;
use psd_decode::decode_rgba;
use psd_decode::decode_rle;
use psd_decode::ChannelCompression;
use psd_decode::DecodeError;

#[test]
fn raw_channel_lands_on_stride() {
    let mut out = vec![9u8; 12];
    assert_eq!(decode_raw(&[1, 2, 3], 1, &mut out), Ok(()));
    assert_eq!(out, vec![9, 1, 9, 9, 9, 2, 9, 9, 9, 3, 9, 9]);
}

#[test]
fn raw_empty_channel_writes_nothing() {
    let mut out = vec![7u8; 8];
    assert_eq!(decode_raw(&[], 3, &mut out), Ok(()));
    assert_eq!(out, vec![7u8; 8]);
}

#[test]
fn rle_decoding_is_deterministic() {
    let stream = [2u8, 10, 20, 30, 254, 7];
    let mut first = vec![0u8; 24];
    let mut second = vec![0u8; 24];
    assert_eq!(decode_rle(&stream, 0, &mut first), Ok(()));
    assert_eq!(decode_rle(&stream, 0, &mut second), Ok(()));
    assert_eq!(first, second);
}

#[test]
fn literal_run_single_byte() {
    // Control byte 0 opens a literal run of exactly one byte.
    let mut out = vec![0u8; 16];
    assert_eq!(decode_rle(&[0, 42], 0, &mut out), Ok(()));
    assert_eq!(out[0], 42);
    for j in 1..16 {
        assert_eq!(out[j], 0);
    }
}

#[test]
fn repeat_runs_two_then_seven() {
    // Signed controls -1 and -6: repeat counts 2 and 7.
    let stream = [255u8, 5, 250, 242];
    let mut out = vec![0u8; 36];
    assert_eq!(decode_rle(&stream, 0, &mut out), Ok(()));
    for p in 0..2 {
        assert_eq!(out[4 * p], 5);
    }
    for p in 2..9 {
        assert_eq!(out[4 * p], 242);
    }
}

#[test]
fn repeat_count_128_no_overflow() {
    // Signed control -127 (byte 129) repeats the data byte 128 times.
    let mut out = vec![0u8; 512];
    assert_eq!(decode_rle(&[129, 130], 0, &mut out), Ok(()));
    for p in 0..128 {
        assert_eq!(out[4 * p], 130);
        assert_eq!(out[4 * p + 1], 0);
        assert_eq!(out[4 * p + 2], 0);
        assert_eq!(out[4 * p + 3], 0);
    }
}

#[test]
fn noop_controls_write_nothing() {
    // Byte 128 (signed -128) is a no-op: the buffer keeps its pre-fill.
    let mut out = vec![0u8; 8];
    assert_eq!(decode_rle(&[128, 128], 0, &mut out), Ok(()));
    assert_eq!(out, vec![0u8; 8]);
}

#[test]
fn offset_slot_two_mix() {
    // A literal pair, a no-op, then a repeat of four, all written at slot 2.
    let stream = [1u8, 7, 240, 128, 253, 4];
    let mut out = vec![0u8; 24];
    assert_eq!(decode_rle(&stream, 2, &mut out), Ok(()));
    assert_eq!(out[2], 7);
    assert_eq!(out[6], 240);
    for p in 2..6 {
        assert_eq!(out[4 * p + 2], 4);
    }
    for j in 0..24 {
        if j % 4 != 2 {
            assert_eq!(out[j], 0);
        }
    }
}

#[test]
fn rgb_fills_alpha_opaque() {
    let out = decode_rgb(
        2,
        &[10, 11],
        ChannelCompression::Raw,
        &[20, 21],
        ChannelCompression::Raw,
        &[30, 31],
        ChannelCompression::Raw,
    )
    .unwrap();
    assert_eq!(out, vec![10, 20, 30, 255, 11, 21, 31, 255]);
}

#[test]
fn rgba_leaves_no_zero_prefill() {
    let out = decode_rgba(
        2,
        &[10, 11],
        ChannelCompression::Raw,
        &[255u8, 20],
        ChannelCompression::RleCompressed,
        &[30, 31],
        ChannelCompression::Raw,
        &[40, 41],
        ChannelCompression::Raw,
    )
    .unwrap();
    assert_eq!(out, vec![10, 20, 30, 40, 11, 20, 31, 41]);
    for byte in out {
        assert_ne!(byte, 0);
    }
}

#[test]
fn grayscale_broadcasts_color() {
    let out = decode_grayscale(2, &[100, 200], ChannelCompression::Raw).unwrap();
    assert_eq!(out, vec![100, 100, 100, 255, 200, 200, 200, 255]);
}

#[test]
fn grayscale_a_leaves_no_zero_prefill() {
    let out = decode_grayscale_a(
        2,
        &[5, 6],
        ChannelCompression::Raw,
        &[7, 8],
        ChannelCompression::Raw,
    )
    .unwrap();
    assert_eq!(out, vec![5, 5, 5, 7, 6, 6, 6, 8]);
    for byte in out {
        assert_ne!(byte, 0);
    }
}

#[test]
fn truncated_literal_reports_error() {
    // Control 3 claims four literal bytes; none follow.
    let mut out = vec![0u8; 32];
    assert_eq!(
        decode_rle(&[3], 0, &mut out),
        Err(DecodeError::TruncatedInput)
    );
    assert_eq!(out, vec![0u8; 32]);
}

#[test]
fn truncated_repeat_reports_error() {
    // Control 253 (signed -3) needs one data byte; the stream ends first.
    let mut out = vec![0u8; 32];
    assert_eq!(
        decode_rle(&[253], 0, &mut out),
        Err(DecodeError::TruncatedInput)
    );
    assert_eq!(out, vec![0u8; 32]);
}

#[test]
fn error_leaves_earlier_runs_unwritten() {
    // A valid literal run followed by a truncated repeat: the decode fails
    // as a unit and the buffer keeps its pre-fill.
    let mut out = vec![0u8; 16];
    assert_eq!(
        decode_rle(&[0, 42, 253], 0, &mut out),
        Err(DecodeError::TruncatedInput)
    );
    assert_eq!(out, vec![0u8; 16]);
}

#[test]
fn raw_capacity_error() {
    // Three bytes at slot 0 need positions 0, 4 and 8; length 8 is short.
    let mut out = vec![0u8; 8];
    assert_eq!(
        decode_raw(&[1, 2, 3], 0, &mut out),
        Err(DecodeError::BufferTooSmall)
    );
    assert_eq!(out, vec![0u8; 8]);
}

#[test]
fn raw_capacity_boundary_exact() {
    // Two bytes at slot 0 reach position 4: length 5 fits, length 4 fails.
    let mut just_fits = vec![0u8; 5];
    assert_eq!(decode_raw(&[1, 2], 0, &mut just_fits), Ok(()));
    assert_eq!(just_fits, vec![1, 0, 0, 0, 2]);
    let mut too_short = vec![0u8; 4];
    assert_eq!(
        decode_raw(&[1, 2], 0, &mut too_short),
        Err(DecodeError::BufferTooSmall)
    );
    assert_eq!(too_short, vec![0u8; 4]);
}

#[test]
fn rle_capacity_error() {
    // A repeat run of 128 bytes needs positions up to 508.
    let mut out = vec![0u8; 508];
    assert_eq!(
        decode_rle(&[129, 130], 0, &mut out),
        Err(DecodeError::BufferTooSmall)
    );
    assert_eq!(out, vec![0u8; 508]);
    let mut just_fits = vec![0u8; 509];
    assert_eq!(decode_rle(&[129, 130], 0, &mut just_fits), Ok(()));
    assert_eq!(just_fits[508], 130);
}

#[test]
fn decode_channel_dispatches_on_compression() {
    let mut raw_out = vec![0u8; 4];
    assert_eq!(
        decode_channel(&[9], ChannelCompression::Raw, 0, &mut raw_out),
        Ok(())
    );
    let mut rle_out = vec![0u8; 4];
    assert_eq!(
        decode_channel(&[0, 9], ChannelCompression::RleCompressed, 0, &mut rle_out),
        Ok(())
    );
    assert_eq!(raw_out, rle_out);
    assert_eq!(raw_out, vec![9, 0, 0, 0]);
}

#[test]
fn entry_point_propagates_truncation() {
    let r = decode_rgb(
        1,
        &[1],
        ChannelCompression::Raw,
        &[17],
        ChannelCompression::RleCompressed,
        &[3],
        ChannelCompression::Raw,
    );
    assert_eq!(r, Err(DecodeError::TruncatedInput));
}

#[test]
fn entry_point_propagates_capacity() {
    let r = decode_rgb(
        1,
        &[1],
        ChannelCompression::Raw,
        &[2],
        ChannelCompression::Raw,
        &[3, 4],
        ChannelCompression::Raw,
    );
    assert_eq!(r, Err(DecodeError::BufferTooSmall));
}

#[test]
fn zero_pixels_yield_empty_buffer() {
    let out = decode_rgb(
        0,
        &[],
        ChannelCompression::Raw,
        &[],
        ChannelCompression::Raw,
        &[],
        ChannelCompression::Raw,
    )
    .unwrap();
    assert_eq!(out, Vec::<u8>::new());
}

#[test]
fn rgba_with_rle_alpha() {
    let out = decode_rgba(
        3,
        &[1, 1, 1],
        ChannelCompression::Raw,
        &[2, 2, 2],
        ChannelCompression::Raw,
        &[3, 3, 3],
        ChannelCompression::Raw,
        &[254, 9],
        ChannelCompression::RleCompressed,
    )
    .unwrap();
    assert_eq!(out, vec![1, 2, 3, 9, 1, 2, 3, 9, 1, 2, 3, 9]);
}
