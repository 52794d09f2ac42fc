//! What holds of all frames, and of the buffer that takes them.

use crate::error::Error;
use crate::exchange::{exchange_fits, exchange_step, send_phase, staged};
use crate::exchange::{Progress, Stage, OVERHEAD};
use crate::frame::{
    byte_sum, command_frame, complement, frame, header, lemma_byte_sum_concat, max_response_data,
    parsed, response_frame,
};
use crate::frame::{ACK, HOST_TO_PN532, PN532_TO_HOST, POSTAMBLE, PREAMBLE};
use crate::interface::{same_answer, Call};
use crate::requests::Command;
use core::fmt::Debug;
use vstd::prelude::*;

verus! {

/// Changing one byte changes the sum by the difference.
proof fn lemma_byte_sum_update(bytes: Seq<u8>, i: int, byte: u8)
    requires
        0 <= i < bytes.len(),
    ensures
        byte_sum(bytes.update(i, byte)) == byte_sum(bytes) - bytes[i] + byte,
    decreases bytes.len(),
{
    let changed = bytes.update(i, byte);
    if i == bytes.len() - 1 {
        assert(changed.drop_last() =~= bytes.drop_last());
    } else {
        assert(changed.drop_last() =~= bytes.drop_last().update(i, byte));
        lemma_byte_sum_update(bytes.drop_last(), i, byte);
    }
}

/// The sum of the two bytes before the data, the data, and the byte after it.
proof fn lemma_body_sum(tfi: u8, code: u8, data: Seq<u8>, checksum: u8)
    ensures
        byte_sum(seq![tfi, code] + data + seq![checksum]) == tfi + code + byte_sum(data) + checksum,
{
    reveal_with_fuel(byte_sum, 3);
    let ids = seq![tfi, code];
    assert(ids.drop_last() =~= seq![tfi]);
    assert(byte_sum(ids) == tfi + code);
    assert(byte_sum(seq![checksum]) == checksum);
    lemma_byte_sum_concat(ids, data);
    lemma_byte_sum_concat(ids + data, seq![checksum]);
}

/// A complement brings the sum up to a multiple of 256, and no other byte does.
proof fn lemma_complement(sum: nat, byte: u8)
    ensures
        (sum + byte) % 256 == 0 <==> byte == complement(sum),
{
}

/// The parts of a frame, byte by byte.
proof fn lemma_frame_layout(tfi: u8, code: u8, data: Seq<u8>)
    ensures
        ({
            let bytes = frame(tfi, code, data);
            let len = data.len() as int;
            &&& bytes.len() == len + 8
            &&& bytes.take(3) == PREAMBLE@
            &&& bytes[3] == (len + 2) % 256
            &&& bytes[4] == complement(bytes[3] as nat)
            &&& bytes[5] == tfi
            &&& bytes[6] == code
            &&& bytes.subrange(7, 7 + len) == data
            &&& bytes[7 + len] == complement(tfi as nat + code as nat + byte_sum(data))
            &&& bytes.subrange(5, 8 + len) == seq![tfi, code] + data + seq![bytes[7 + len]]
        }),
{
    let bytes = frame(tfi, code, data);
    let len = data.len() as int;
    assert(bytes.take(3) =~= PREAMBLE@);
    assert(bytes.subrange(7, 7 + len) =~= data);
    assert(bytes.subrange(5, 8 + len) =~= seq![tfi, code] + data + seq![bytes[7 + len]]);
}

/// The sum of bytes is taken one by one, and every byte counts for its value.
pub proof fn law_byte_sum_counts_every_byte(bytes: Seq<u8>, byte: u8)
    ensures
        byte_sum(Seq::<u8>::empty()) == 0,
        byte_sum(bytes.push(byte)) == byte_sum(bytes) + byte,
{
    assert(bytes.push(byte).drop_last() =~= bytes);
}

/// The complement of a sum is the one byte that makes it a multiple of 256.
pub proof fn law_complement_closes_the_sum(sum: nat, byte: u8)
    ensures
        (sum + byte) % 256 == 0 <==> byte == complement(sum),
{
    lemma_complement(sum, byte);
}

/// The marks of a frame.
pub proof fn law_marks()
    ensures
        PREAMBLE@ == seq![0x00u8, 0x00, 0xFF],
        POSTAMBLE == 0x00,
        ACK@ == seq![0x00u8, 0x00, 0xFF, 0x00, 0xFF, 0x00],
        HOST_TO_PN532 == 0xD4,
        PN532_TO_HOST == 0xD5,
{
    assert(PREAMBLE@ =~= seq![0x00u8, 0x00, 0xFF]);
    assert(ACK@ =~= seq![0x00u8, 0x00, 0xFF, 0x00, 0xFF, 0x00]);
}

/// The seven bytes before the data of a frame.
pub proof fn law_header_bytes(tfi: u8, code: u8, data_len: nat)
    ensures
        ({
            let bytes = header(tfi, code, data_len);
            &&& bytes.len() == 7
            &&& bytes[0] == 0x00 && bytes[1] == 0x00 && bytes[2] == 0xFF
            &&& bytes[3] == (data_len + 2) % 256
            &&& (bytes[3] + bytes[4]) % 256 == 0
            &&& bytes[5] == tfi
            &&& bytes[6] == code
        }),
{
    let bytes = header(tfi, code, data_len);
    lemma_complement(bytes[3] as nat, bytes[4]);
}

/// The frame that is sent carries the command and, behind it, the payload as it is:
/// every byte of it, in order, and nothing else but the checksum.
pub proof fn law_command_frame_carries_payload(code: u8, payload: Seq<u8>)
    ensures
        ({
            let bytes = command_frame(code, payload);
            let n = payload.len() as int;
            &&& bytes.len() == n + 8
            &&& bytes[0] == 0x00 && bytes[1] == 0x00 && bytes[2] == 0xFF
            &&& bytes[3] == (n + 2) % 256
            &&& (bytes[3] + bytes[4]) % 256 == 0
            &&& bytes[5] == 0xD4
            &&& bytes[6] == code
            &&& bytes.subrange(7, 7 + n) == payload
            &&& byte_sum(bytes.skip(5)) % 256 == 0
        }),
{
    lemma_frame_layout(HOST_TO_PN532, code, payload);
    law_command_frame_adds_up(code, payload);
    let bytes = command_frame(code, payload);
    assert(bytes[0] == bytes.take(3)[0] && bytes[1] == bytes.take(3)[1] && bytes[2]
        == bytes.take(3)[2]);
}

/// A response frame carries the code and, behind it, the data as it is, and is closed
/// by the checksum and a zero byte.
pub proof fn law_response_frame_carries_data(code: u8, data: Seq<u8>)
    ensures
        ({
            let bytes = response_frame(code, data);
            let n = data.len() as int;
            &&& bytes.len() == n + 9
            &&& bytes[0] == 0x00 && bytes[1] == 0x00 && bytes[2] == 0xFF
            &&& bytes[3] == (n + 2) % 256
            &&& (bytes[3] + bytes[4]) % 256 == 0
            &&& bytes[5] == 0xD5
            &&& bytes[6] == code
            &&& bytes.subrange(7, 7 + n) == data
            &&& byte_sum(bytes.subrange(5, 8 + n)) % 256 == 0
            &&& bytes[8 + n] == 0x00
        }),
{
    let inner = frame(PN532_TO_HOST, code, data);
    let bytes = response_frame(code, data);
    let n = data.len() as int;
    lemma_frame_layout(PN532_TO_HOST, code, data);
    lemma_complement(inner[3] as nat, inner[4]);
    lemma_complement(PN532_TO_HOST as nat + code as nat + byte_sum(data), inner[n + 7]);
    lemma_body_sum(PN532_TO_HOST, code, data, inner[n + 7]);
    assert(bytes.subrange(7, 7 + n) =~= inner.subrange(7, 7 + n));
    assert(bytes.subrange(5, 8 + n) =~= inner.subrange(5, 8 + n));
    assert(inner[0] == inner.take(3)[0] && inner[1] == inner.take(3)[1] && inner[2]
        == inner.take(3)[2]);
}

/// What is received yields `data` exactly if it begins with a frame from the chip
/// that carries `data`: preamble, length and its checksum, the identifier of the
/// chip, the expected code, the data, a checksum that adds up, and a zero byte.
pub proof fn law_accepted_iff_layout<E: Debug>(buf: Seq<u8>, code: u8, data: Seq<u8>)
    requires
        buf.len() >= 3,
        buf[0] == 0x00 && buf[1] == 0x00 && buf[2] == 0xFF ==> buf.len() >= 5,
    ensures
        parsed::<E>(buf, code) == Ok::<_, Error<E>>(data) <==> {
            let n = data.len() as int;
            &&& n <= 253
            &&& n + 9 <= buf.len()
            &&& buf[0] == 0x00 && buf[1] == 0x00 && buf[2] == 0xFF
            &&& buf[3] == n + 2
            &&& (buf[3] + buf[4]) % 256 == 0
            &&& buf[5] == 0xD5
            &&& buf[6] == code
            &&& buf.subrange(7, 7 + n) == data
            &&& byte_sum(buf.subrange(5, 8 + n)) % 256 == 0
            &&& buf[8 + n] == 0x00
        },
{
    let n = data.len() as int;
    lemma_preamble(buf);
    if parsed::<E>(buf, code) == Ok::<_, Error<E>>(data) {
        assert(buf[3] == n + 2);
    }
    if n + 9 <= buf.len() && buf[3] == n + 2 && buf.subrange(7, 7 + n) == data {
        assert(buf.subrange(7, buf[3] + 5) =~= data);
    }
}

proof fn lemma_preamble(buf: Seq<u8>)
    requires
        buf.len() >= 3,
    ensures
        buf.take(3) == PREAMBLE@ <==> buf[0] == 0x00 && buf[1] == 0x00 && buf[2] == 0xFF,
{
    let head = buf.take(3);
    assert(head[0] == buf[0] && head[1] == buf[1] && head[2] == buf[2]);
    if buf[0] == 0x00 && buf[1] == 0x00 && buf[2] == 0xFF {
        assert(head =~= PREAMBLE@);
    }
}

/// Why bytes are refused. A length that does not match its checksum is a wrong
/// checksum, as is a whole frame whose bytes do not add up; a single announced byte
/// is an error frame; a frame that does not fit is too long for the buffer; and
/// whatever does not look like the expected frame is a bad one. Nothing else is ever
/// reported.
pub proof fn law_refusals<E: Debug>(buf: Seq<u8>, code: u8)
    requires
        buf.len() >= 3,
        buf[0] == 0x00 && buf[1] == 0x00 && buf[2] == 0xFF ==> buf.len() >= 5,
    ensures
        ({
            let len = buf[3] as int;
            let head = buf[0] == 0x00 && buf[1] == 0x00 && buf[2] == 0xFF;
            let announced = head && (len + buf[4]) % 256 == 0;
            let whole = announced && len >= 2 && len + 7 <= buf.len();
            let framed = whole && buf[len + 6] == 0x00 && buf[5] == 0xD5 && buf[6] == code;
            let adds_up = byte_sum(buf.subrange(5, len + 6)) % 256 == 0;
            let result = parsed::<E>(buf, code);
            &&& result is Ok <==> framed && adds_up
            &&& result == Err::<Seq<u8>, Error<E>>(Error::CrcError) <==> head && !announced
                || framed && !adds_up
            &&& result == Err::<Seq<u8>, Error<E>>(Error::Syntax) <==> announced && len == 1
            &&& result == Err::<Seq<u8>, Error<E>>(Error::BufTooSmall) <==> announced && len >= 2
                && !whole
            &&& result == Err::<Seq<u8>, Error<E>>(Error::BadResponseFrame) <==> !head || announced
                && len == 0 || whole && !framed
        }),
{
    lemma_preamble(buf);
}

/// A frame carries its own checks: `LEN` and `LCS` add up to a multiple of 256, and
/// so do the bytes from the frame identifier to the data checksum.
pub proof fn law_command_frame_adds_up(code: u8, payload: Seq<u8>)
    ensures
        ({
            let bytes = command_frame(code, payload);
            &&& bytes.len() == payload.len() + 8
            &&& (bytes[3] + bytes[4]) % 256 == 0
            &&& byte_sum(bytes.skip(5)) % 256 == 0
        }),
{
    let bytes = command_frame(code, payload);
    let n = payload.len() as int;
    lemma_frame_layout(HOST_TO_PN532, code, payload);
    assert(bytes.skip(5) =~= bytes.subrange(5, n + 8));
    lemma_body_sum(HOST_TO_PN532, code, payload, bytes[n + 7]);
    lemma_complement(bytes[3] as nat, bytes[4]);
    lemma_complement(HOST_TO_PN532 as nat + code as nat + byte_sum(payload), bytes[n + 7]);
}

/// The frame that is sent determines the command and the payload.
pub proof fn law_command_frame_determines_request(
    code_a: u8,
    payload_a: Seq<u8>,
    code_b: u8,
    payload_b: Seq<u8>,
)
    ensures
        command_frame(code_a, payload_a) == command_frame(code_b, payload_b) <==> code_a == code_b
            && payload_a == payload_b,
{
    if command_frame(code_a, payload_a) == command_frame(code_b, payload_b) {
        lemma_frame_layout(HOST_TO_PN532, code_a, payload_a);
        lemma_frame_layout(HOST_TO_PN532, code_b, payload_b);
    }
}

/// Moving bytes between the data of a request and its body changes nothing: the
/// same frame is laid out, and two drivers that send the one and the other, and are
/// answered alike, make the same calls and report the same.
pub proof fn law_split_of_payload_is_immaterial<E: Debug>(
    code: u8,
    first: Seq<u8>,
    second: Seq<u8>,
    third: Seq<u8>,
    buffer: Seq<u8>,
    calls_a: Seq<Call<E>>,
    result_a: Result<(), Error<E>>,
    calls_b: Seq<Call<E>>,
    result_b: Result<(), Error<E>>,
)
    requires
        send_phase(code, (first + second) + third, calls_a, result_a),
        send_phase(code, first + (second + third), calls_b, result_b),
        calls_a.len() == 1 && calls_b.len() == 1 ==> same_answer(calls_a[0], calls_b[0]),
    ensures
        command_frame(code, (first + second) + third) == command_frame(
            code,
            first + (second + third),
        ),
        staged(buffer, code, (first + second) + third) == staged(
            buffer,
            code,
            first + (second + third),
        ),
        calls_a == calls_b,
        result_a == result_b,
{
    assert((first + second) + third =~= first + (second + third));
    assert(calls_a =~= calls_b);
}

/// An exchange, too, depends only on the data of the request and the body joined
/// together, not on where the one ends and the other begins.
pub proof fn law_split_of_exchange_is_immaterial<E: Debug>(
    code: u8,
    first: Seq<u8>,
    second: Seq<u8>,
    third: Seq<u8>,
    response_len: Option<nat>,
    stage: Stage,
    calls: Seq<Call<E>>,
    result: Result<Progress<Seq<u8>>, Error<E>>,
)
    ensures
        exchange_step(code, (first + second) + third, response_len, stage, calls, result)
            == exchange_step(code, first + (second + third), response_len, stage, calls, result),
{
    assert((first + second) + third =~= first + (second + third));
}

/// A response is accepted, and yields `data`, exactly if the bytes received begin
/// with the response frame for `data`. No other bytes yield `data`, and what
/// stands behind the frame does not matter.
pub proof fn law_accepted_iff_response_frame<E: Debug>(buf: Seq<u8>, code: u8, data: Seq<u8>)
    requires
        buf.len() >= 3,
        buf.take(3) == PREAMBLE@ ==> buf.len() >= 5,
    ensures
        parsed::<E>(buf, code) == Ok::<_, Error<E>>(data) <==> {
            &&& data.len() <= max_response_data()
            &&& response_frame(code, data).len() <= buf.len()
            &&& buf.take(response_frame(code, data).len() as int) == response_frame(code, data)
        },
{
    let whole = response_frame(code, data);
    let bytes = frame(PN532_TO_HOST, code, data);
    let n = data.len() as int;
    lemma_frame_layout(PN532_TO_HOST, code, data);
    lemma_complement(bytes[3] as nat, bytes[4]);
    lemma_complement(PN532_TO_HOST as nat + code as nat + byte_sum(data), bytes[n + 7]);
    if n <= max_response_data() && whole.len() <= buf.len() && buf.take(whole.len() as int)
        == whole {
        assert forall|i: int| 0 <= i < n + 9 implies buf[i] == whole[i] by {
            assert(buf.take(whole.len() as int)[i] == buf[i]);
        }
        assert(buf.take(3) =~= bytes.take(3));
        assert(buf.subrange(5, n + 8) =~= bytes.subrange(5, n + 8));
        assert(buf.subrange(7, n + 7) =~= bytes.subrange(7, n + 7));
        lemma_body_sum(PN532_TO_HOST, code, data, bytes[n + 7]);
    }
    if parsed::<E>(buf, code) == Ok::<_, Error<E>>(data) {
        let len = buf[3] as int;
        assert(data == buf.subrange(7, len + 5));
        assert(len == n + 2);
        lemma_complement(buf[3] as nat, buf[4]);
        assert(buf.subrange(5, len + 6) =~= seq![PN532_TO_HOST, code] + data + seq![buf[n + 7]]);
        lemma_body_sum(PN532_TO_HOST, code, data, buf[n + 7]);
        lemma_complement(PN532_TO_HOST as nat + code as nat + byte_sum(data), buf[n + 7]);
        assert forall|i: int| 0 <= i < n + 9 implies buf[i] == whole[i] by {
            if i < 3 {
                assert(buf.take(3)[i] == buf[i]);
                assert(bytes.take(3)[i] == bytes[i]);
            } else if 7 <= i < n + 7 {
                assert(data[i - 7] == buf[i]);
                assert(bytes.subrange(7, 7 + n)[i - 7] == bytes[i]);
            }
        }
        assert(buf.take(whole.len() as int) =~= whole);
    }
}

/// What a read of `room` zeroed bytes yields when `sent` comes in.
pub open spec fn delivered(sent: Seq<u8>, room: nat) -> Seq<u8> {
    Seq::new(
        room,
        |i: int|
            if i < sent.len() {
                sent[i]
            } else {
                0u8
            },
    )
}

/// A response is received if its data is no longer than `response_len`; otherwise
/// the provided length was too low.
pub proof fn law_response_len_decides<E: Debug>(code: u8, data: Seq<u8>, response_len: nat)
    requires
        data.len() <= max_response_data(),
    ensures
        parsed::<E>(
            delivered(response_frame(code, data), response_len + OVERHEAD as nat),
            code,
        ) == if data.len() <= response_len {
            Ok::<_, Error<E>>(data)
        } else {
            Err(Error::BufTooSmall)
        },
{
    let whole = response_frame(code, data);
    let bytes = frame(PN532_TO_HOST, code, data);
    let buf = delivered(whole, response_len + OVERHEAD as nat);
    lemma_frame_layout(PN532_TO_HOST, code, data);
    lemma_complement(bytes[3] as nat, bytes[4]);
    if data.len() <= response_len {
        assert(buf.take(whole.len() as int) =~= whole);
        law_accepted_iff_response_frame::<E>(buf, code, data);
    } else {
        assert(buf.take(3) =~= bytes.take(3));
    }
}

/// A response frame in which one byte of the data, or the data checksum, was
/// altered is reported as a wrong checksum.
pub proof fn law_altered_data_is_noticed<E: Debug>(
    code: u8,
    data: Seq<u8>,
    tail: Seq<u8>,
    i: int,
    byte: u8,
)
    requires
        data.len() <= max_response_data(),
        7 <= i <= data.len() + 7,
        byte != response_frame(code, data)[i],
    ensures
        parsed::<E>((response_frame(code, data) + tail).update(i, byte), code) == Err::<
            Seq<u8>,
            Error<E>,
        >(Error::CrcError),
{
    let bytes = frame(PN532_TO_HOST, code, data);
    let n = data.len() as int;
    let buf = (response_frame(code, data) + tail).update(i, byte);
    let body = bytes.subrange(5, n + 8);
    lemma_frame_layout(PN532_TO_HOST, code, data);
    lemma_complement(bytes[3] as nat, bytes[4]);
    lemma_complement(PN532_TO_HOST as nat + code as nat + byte_sum(data), bytes[n + 7]);
    lemma_body_sum(PN532_TO_HOST, code, data, bytes[n + 7]);
    assert(buf.take(3) =~= bytes.take(3));
    assert(buf.subrange(5, n + 8) =~= body.update(i - 5, byte));
    lemma_byte_sum_update(body, i - 5, byte);
    assert(body[i - 5] == bytes[i]);
    assert(response_frame(code, data)[i] == bytes[i]);
}

/// A response frame whose length byte, or length checksum, was altered is reported
/// as a wrong checksum.
pub proof fn law_altered_length_is_noticed<E: Debug>(
    code: u8,
    data: Seq<u8>,
    tail: Seq<u8>,
    i: int,
    byte: u8,
)
    requires
        i == 3 || i == 4,
        byte != response_frame(code, data)[i],
    ensures
        parsed::<E>((response_frame(code, data) + tail).update(i, byte), code) == Err::<
            Seq<u8>,
            Error<E>,
        >(Error::CrcError),
{
    let bytes = frame(PN532_TO_HOST, code, data);
    let buf = (response_frame(code, data) + tail).update(i, byte);
    lemma_frame_layout(PN532_TO_HOST, code, data);
    lemma_complement(bytes[3] as nat, bytes[4]);
    assert(buf.take(3) =~= bytes.take(3));
    assert(response_frame(code, data)[i] == bytes[i]);
}

/// An error frame, which announces a single byte, is reported as a syntax error,
/// whatever follows and whatever was expected.
pub proof fn law_error_frame_is_syntax<E: Debug>(buf: Seq<u8>, code: u8)
    requires
        buf.len() >= 5,
        buf.take(5) == seq![0x00u8, 0x00, 0xFF, 0x01, 0xFF],
    ensures
        parsed::<E>(buf, code) == Err::<Seq<u8>, Error<E>>(Error::Syntax),
{
    assert forall|i: int| 0 <= i < 5 implies buf[i] == buf.take(5)[i] by {}
    assert(buf.take(3) =~= PREAMBLE@);
}

/// An ACK frame is never taken for a response.
pub proof fn law_ack_is_no_response<E: Debug>(buf: Seq<u8>, code: u8)
    requires
        buf.len() >= ACK@.len(),
        buf.take(ACK@.len() as int) == ACK@,
    ensures
        parsed::<E>(buf, code) == Err::<Seq<u8>, Error<E>>(Error::CrcError),
{
    assert forall|i: int| 0 <= i < 6 implies buf[i] == ACK@[i] by {
        assert(buf.take(6)[i] == buf[i]);
    }
    assert(buf.take(3) =~= PREAMBLE@);
}

/// A frame that the host sent is never taken for a response.
pub proof fn law_command_frame_is_no_response<E: Debug>(
    sent: u8,
    payload: Seq<u8>,
    tail: Seq<u8>,
    code: u8,
)
    requires
        payload.len() <= max_response_data(),
    ensures
        parsed::<E>(command_frame(sent, payload).push(POSTAMBLE) + tail, code) == Err::<
            Seq<u8>,
            Error<E>,
        >(Error::BadResponseFrame),
{
    let bytes = command_frame(sent, payload);
    let buf = bytes.push(POSTAMBLE) + tail;
    lemma_frame_layout(HOST_TO_PN532, sent, payload);
    lemma_complement(bytes[3] as nat, bytes[4]);
    assert(buf.take(3) =~= bytes.take(3));
}

/// The same bytes are never a response to two different commands.
pub proof fn law_response_belongs_to_one_command<E: Debug>(buf: Seq<u8>, a: Command, b: Command)
    requires
        parsed::<E>(buf, a.response_code()) is Ok,
        parsed::<E>(buf, b.response_code()) is Ok,
    ensures
        a == b,
{
    crate::requests::law_codes_are_distinct(a, b);
}

/// A buffer of `size` bytes with `size - 9 >= max(response_len, request_len)` is
/// large enough for every stage of an exchange.
pub proof fn law_documented_size_suffices(
    size: nat,
    stage: Stage,
    request_len: nat,
    response_len: nat,
)
    requires
        size - 9 >= response_len,
        size - 9 >= request_len,
    ensures
        exchange_fits(size, stage, request_len, response_len),
{
}

} // verus!
