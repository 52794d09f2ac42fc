//! The frames that host and chip send each other.
//!
//! ```text
//! 00 00 FF | LEN LCS | TFI code data.. DCS | 00
//! ```
//!
//! `LEN` counts the bytes from the frame identifier `TFI` to the end of the
//! data, `LEN + LCS` and the sum of the bytes from `TFI` to `DCS` are multiples
//! of 256.

use crate::error::Error;
use core::fmt::Debug;
use vstd::prelude::*;

verus! {

pub const PREAMBLE: [u8; 3] = [0x00, 0x00, 0xFF];

pub const POSTAMBLE: u8 = 0x00;

pub const ACK: [u8; 6] = [0x00, 0x00, 0xFF, 0x00, 0xFF, 0x00];

/// Frame identifier of what the host sends.
pub const HOST_TO_PN532: u8 = 0xD4;

/// Frame identifier of what the chip sends.
pub const PN532_TO_HOST: u8 = 0xD5;

/// The sum of some bytes.
pub open spec fn byte_sum(bytes: Seq<u8>) -> nat
    decreases bytes.len(),
{
    if bytes.len() == 0 {
        0
    } else {
        byte_sum(bytes.drop_last()) + bytes.last() as nat
    }
}

/// The sum of two runs of bytes is that of the whole.
pub proof fn lemma_byte_sum_concat(a: Seq<u8>, b: Seq<u8>)
    ensures
        byte_sum(a + b) == byte_sum(a) + byte_sum(b),
    decreases b.len(),
{
    if b.len() == 0 {
        assert(a + b =~= a);
    } else {
        assert((a + b).drop_last() =~= a + b.drop_last());
        lemma_byte_sum_concat(a, b.drop_last());
    }
}

/// The byte that brings `sum` up to a multiple of 256.
pub open spec fn complement(sum: nat) -> u8 {
    ((256 - sum % 256) % 256) as u8
}

/// A checksum may be taken over a sum that was reduced after each part of the
/// data.
pub proof fn lemma_checksum_in_parts(tfi: u8, code: u8, first: Seq<u8>, second: Seq<u8>)
    ensures
        ({
            let start = (tfi as nat + code as nat) % 256;
            let middle = (start + byte_sum(first)) % 256;
            let end = (middle + byte_sum(second)) % 256;
            complement(end) == complement(tfi as nat + code as nat + byte_sum(first + second))
        }),
{
    lemma_byte_sum_concat(first, second);
}

/// The part of a frame before its data, of which there are `data_len` bytes.
pub open spec fn header(tfi: u8, code: u8, data_len: nat) -> Seq<u8> {
    let len = (data_len + 2) % 256;
    seq![PREAMBLE[0], PREAMBLE[1], PREAMBLE[2], len as u8, complement(len), tfi, code]
}

/// A frame up to its data checksum.
pub open spec fn frame(tfi: u8, code: u8, data: Seq<u8>) -> Seq<u8> {
    header(tfi, code, data.len()) + data + seq![complement(tfi as nat + code as nat + byte_sum(data))]
}

/// The bytes that carry a command and its data to the chip, up to the data
/// checksum.
pub open spec fn command_frame(code: u8, data: Seq<u8>) -> Seq<u8> {
    frame(HOST_TO_PN532, code, data)
}

/// The bytes with which the chip answers, postamble and all.
pub open spec fn response_frame(code: u8, data: Seq<u8>) -> Seq<u8> {
    frame(PN532_TO_HOST, code, data).push(POSTAMBLE)
}

/// The longest data that fits into one response frame.
pub open spec fn max_response_data() -> nat {
    253
}

/// The two's complement of a byte.
pub fn to_checksum(sum: u8) -> (checksum: u8)
    ensures
        checksum == complement(sum as nat),
        (sum + checksum) % 256 == 0,
{
    assert(!sum == 255 - sum) by (bit_vector);
    (!sum).wrapping_add(1)
}

/// What the bytes of `buf` say when the chip is expected to answer with `code`.
///
/// The checks come in this order: preamble, length checksum, the lengths that
/// no response has (nothing, or the one byte of an error frame), room for the
/// whole frame, postamble, frame identifier and code, data checksum.
pub open spec fn parsed<E: Debug>(buf: Seq<u8>, code: u8) -> Result<Seq<u8>, Error<E>> {
    let len = buf[3] as int;
    if buf.take(3) != PREAMBLE@ {
        Err(Error::BadResponseFrame)
    } else if (len + buf[4]) % 256 != 0 {
        Err(Error::CrcError)
    } else if len == 0 {
        Err(Error::BadResponseFrame)
    } else if len == 1 {
        Err(Error::Syntax)
    } else if buf.len() <= len + 6 {
        Err(Error::BufTooSmall)
    } else if buf[len + 6] != POSTAMBLE || buf[5] != PN532_TO_HOST || buf[6] != code {
        Err(Error::BadResponseFrame)
    } else if byte_sum(buf.subrange(5, len + 6)) % 256 != 0 {
        Err(Error::CrcError)
    } else {
        Ok(buf.subrange(7, len + 5))
    }
}

/// The result of reading a response, with the data as a sequence.
pub open spec fn response_view<E: Debug>(result: Result<&[u8], Error<E>>) -> Result<
    Seq<u8>,
    Error<E>,
> {
    match result {
        Ok(data) => Ok(data@),
        Err(e) => Err(e),
    }
}

/// Take the data out of a response frame that stands at the start of
/// `response_buf`.
pub fn parse_response<E: Debug>(response_buf: &[u8], expected_response_command: u8) -> (result:
    Result<&[u8], Error<E>>)
    requires
        response_buf@.len() >= 3,
        response_buf@.take(3) == PREAMBLE@ ==> response_buf@.len() >= 5,
    ensures
        response_view(result) == parsed::<E>(response_buf@, expected_response_command),
        result is Ok <==> parsed::<E>(response_buf@, expected_response_command) is Ok,
        result matches Ok(data) ==> {
            &&& parsed::<E>(response_buf@, expected_response_command) == Ok::<_, Error<E>>(data@)
            &&& data@ == response_buf@.subrange(7, response_buf@[3] + 5)
        },
        result matches Err(e) ==> parsed::<E>(response_buf@, expected_response_command) == Err::<
            Seq<u8>,
            _,
        >(e),
{
    proof {
        let head = response_buf@.take(3);
        assert(head =~= PREAMBLE@ <==> (head[0] == PREAMBLE[0] && head[1] == PREAMBLE[1] && head[2]
            == PREAMBLE[2]));
    }
    if response_buf[0] != PREAMBLE[0] || response_buf[1] != PREAMBLE[1] || response_buf[2]
        != PREAMBLE[2] {
        return Err(Error::BadResponseFrame);
    }
    // Check length & length checksum
    let frame_len: u8 = response_buf[3];
    if frame_len.wrapping_add(response_buf[4]) != 0 {
        return Err(Error::CrcError);
    }
    if frame_len == 0 {
        return Err(Error::BadResponseFrame);
    }
    if frame_len == 1 {
        // error frame
        return Err(Error::Syntax);
    }
    let end: usize = 5 + frame_len as usize;
    match response_buf.get(end + 1) {
        None => {
            return Err(Error::BufTooSmall);
        },
        Some(byte) => {
            if *byte != POSTAMBLE {
                return Err(Error::BadResponseFrame);
            }
        },
    }
    if response_buf[5] != PN532_TO_HOST || response_buf[6] != expected_response_command {
        return Err(Error::BadResponseFrame);
    }
    // Check frame checksum value matches bytes
    if sum_bytes(&response_buf[5..end + 1]) != 0 {
        return Err(Error::CrcError);
    }
    Ok(&response_buf[7..end])
}

/// The sum of some bytes, modulo 256.
fn sum_bytes(bytes: &[u8]) -> (sum: u8)
    ensures
        sum == byte_sum(bytes@) % 256,
{
    let mut sum: u8 = 0;
    let mut i: usize = 0;
    while i < bytes.len()
        invariant
            i <= bytes@.len(),
            sum == byte_sum(bytes@.take(i as int)) % 256,
        decreases bytes@.len() - i,
    {
        assert(bytes@.take(i + 1).drop_last() == bytes@.take(i as int));
        sum = sum.wrapping_add(bytes[i]);
        i += 1;
    }
    assert(bytes@.take(i as int) == bytes@);
    sum
}

} // verus!
