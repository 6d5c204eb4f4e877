//! The PackBits run-length scheme: a stream of runs, each introduced by one
//! control byte read as a signed 8-bit value.
//!
//! * control `-128` (byte 128): a no-op, nothing is emitted;
//! * control `0 ..= 127`: a literal run, the next `control + 1` stream bytes
//!   are emitted as they stand;
//! * control `-127 ..= -1` (bytes 129 ..= 255): a repeat run, the next stream
//!   byte is emitted `1 + (-control)` times, so up to 128 times.
//!
//! The stream needs no terminator: it ends when the bytes end, but only in
//! front of a control byte. A run whose data bytes are missing makes the
//! whole stream invalid.

use crate::channel::DecodeError;
use vstd::prelude::*;

verus! {

/// The expansion of the PackBits stream `input`, or `None` when some run
/// claims a data byte that the stream does not hold.
///
/// Control bytes appear here as the unsigned bytes they are stored as:
/// 128 is the no-op, values below 128 open a literal run of `control + 1`
/// bytes, and values above 128 open a repeat run of `257 - control` copies
/// of the following byte (the signed reading `1 + (-control)`).
pub open spec fn rle_decoded(input: Seq<u8>) -> Option<Seq<u8>>
    decreases input.len(),
{
    if input.len() == 0 {
        Option::Some(Seq::empty())
    } else {
        let control = input[0];
        if control == 128 {
            rle_decoded(input.skip(1))
        } else if control < 128 {
            let count: int = control as int + 1;
            if input.len() < 1 + count {
                Option::None
            } else {
                match rle_decoded(input.skip(1 + count)) {
                    Option::Some(rest) => Option::Some(input.subrange(1, 1 + count) + rest),
                    Option::None => Option::None,
                }
            }
        } else {
            if input.len() < 2 {
                Option::None
            } else {
                let count: int = 257 - control as int;
                match rle_decoded(input.skip(2)) {
                    Option::Some(rest) => Option::Some(
                        Seq::new(count as nat, |_j: int| input[1]) + rest,
                    ),
                    Option::None => Option::None,
                }
            }
        }
    }
}

/// Decoding a PackBits stream is deterministic: the expansion is a function
/// of the encoded bytes alone, so equal streams expand to equal byte
/// sequences (and equal decodes of them fill equal buffers).
pub proof fn lemma_rle_deterministic(a: Seq<u8>, b: Seq<u8>)
    requires
        a == b,
    ensures
        rle_decoded(a) == rle_decoded(b),
{
}

/// Expands a PackBits stream into the flat sequence of decoded channel
/// bytes, before any strided write into an output buffer.
pub(crate) fn expand_rle(input: &[u8]) -> (r: Result<Vec<u8>, DecodeError>)
    ensures
        r is Ok <==> rle_decoded(input@) is Some,
        r matches Ok(v) ==> Option::Some(v@) == rle_decoded(input@),
        r matches Err(e) ==> e == DecodeError::TruncatedInput,
{
    let mut out: Vec<u8> = Vec::new();
    let mut ip: usize = 0;
    let input_len: usize = input.len();
    proof {
        assert(input@.len() == input_len <= usize::MAX);
        assert(input@.skip(0) =~= input@);
        if let Option::Some(rest) = rle_decoded(input@) {
            assert(Seq::<u8>::empty() + rest =~= rest);
        }
    }
    while ip < input.len()
        invariant
            ip <= input@.len() <= usize::MAX,
            (match rle_decoded(input@.skip(ip as int)) {
                Option::Some(rest) => rle_decoded(input@) == Option::Some(out@ + rest),
                Option::None => rle_decoded(input@) is None,
            }),
        decreases input@.len() - ip,
    {
        let control: u8 = input[ip];
        if control == 128 {
            // No-op control byte: consume it and emit nothing.
            proof {
                assert(input@.skip(ip as int).skip(1) =~= input@.skip(ip as int + 1));
            }
            ip = ip + 1;
        } else if control < 128 {
            // Literal run: the next `control + 1` stream bytes are emitted.
            let count: usize = control as usize + 1;
            if input.len() - ip < 1 + count {
                proof {
                    assert(rle_decoded(input@) is None);
                }
                return Result::Err(DecodeError::TruncatedInput);
            }
            let ghost out_snap: Seq<u8> = out@;
            let mut k: usize = 0;
            while k < count
                invariant
                    k <= count,
                    ip + 1 + count <= input@.len() <= usize::MAX,
                    out@ == out_snap + input@.subrange(ip as int + 1, ip as int + 1 + k as int),
                decreases count - k,
            {
                proof {
                    assert(input@.subrange(ip as int + 1, ip as int + 1 + (k as int + 1)) =~= input@
                        .subrange(ip as int + 1, ip as int + 1 + k as int)
                        .push(input@[ip as int + 1 + k as int]));
                }
                out.push(input[ip + 1 + k]);
                k = k + 1;
            }
            proof {
                let s: Seq<u8> = input@.skip(ip as int);
                assert(s.skip(1 + count as int) =~= input@.skip(ip as int + 1 + count as int));
                assert(s.subrange(1, 1 + count as int) =~= input@.subrange(
                    ip as int + 1,
                    ip as int + 1 + count as int,
                ));
                match rle_decoded(input@.skip(ip as int + 1 + count as int)) {
                    Option::Some(rest) => {
                        assert(out_snap + (s.subrange(1, 1 + count as int) + rest) =~= out@ + rest);
                    },
                    Option::None => {},
                }
            }
            ip = ip + 1 + count;
        } else {
            // Repeat run: the next stream byte is emitted `257 - control`
            // times; the count is computed in usize so that control 129
            // (signed -127) yields 128 without any 8-bit overflow.
            if input.len() - ip < 2 {
                proof {
                    assert(rle_decoded(input@) is None);
                }
                return Result::Err(DecodeError::TruncatedInput);
            }
            let value: u8 = input[ip + 1];
            let count: usize = 257 - (control as usize);
            let ghost out_snap: Seq<u8> = out@;
            let mut k: usize = 0;
            while k < count
                invariant
                    k <= count,
                    out@ == out_snap + Seq::new(k as nat, |_j: int| value),
                decreases count - k,
            {
                proof {
                    assert(Seq::new((k as int + 1) as nat, |_j: int| value) =~= Seq::new(
                        k as nat,
                        |_j: int| value,
                    ).push(value));
                }
                out.push(value);
                k = k + 1;
            }
            proof {
                let s: Seq<u8> = input@.skip(ip as int);
                assert(s.skip(2) =~= input@.skip(ip as int + 2));
                assert(Seq::new((257 - control as int) as nat, |_j: int| s[1]) =~= Seq::new(
                    count as nat,
                    |_j: int| value,
                ));
                match rle_decoded(input@.skip(ip as int + 2)) {
                    Option::Some(rest) => {
                        assert(out_snap + (Seq::new(count as nat, |_j: int| value) + rest) =~= out@
                            + rest);
                    },
                    Option::None => {},
                }
            }
            ip = ip + 2;
        }
    }
    proof {
        assert(input@.skip(input@.len() as int) =~= Seq::<u8>::empty());
        assert(out@ + Seq::<u8>::empty() =~= out@);
    }
    Result::Ok(out)
}

} // verus!
