//! What holds of every single step of an exchange, call by call.
//!
//! A regular exchange makes five calls: it writes the request (0), checks for the
//! ACK (1), reads the ACK (2), checks for the response (3) and reads the response
//! (4). A step starts at the first of them, or, if it goes on after a wait, at the
//! check that found the chip busy.

use crate::error::{reported, Error};
use crate::exchange::{
    ack_result, buffer_after, exchange_fits, exchange_step, may_respond, overwrite, payload_fits,
    response_result, send_phase, stage_of, staged, with_response, without_response, zeros,
};
use crate::exchange::{Progress, Stage, Waiting, MAX_PAYLOAD, OVERHEAD};
use crate::frame::{byte_sum, command_frame, parsed, response_view};
use crate::interface::Call;
use crate::laws::{law_accepted_iff_layout, law_command_frame_carries_payload, law_refusals};
use core::fmt::Debug;
use core::task::Poll;
use vstd::prelude::*;
use vstd::std_specs::convert::FromSpec;

verus! {

/// The limits that the frames of the chip set: nine bytes of a frame are not data,
/// and at most 27 bytes are sent in one.
pub proof fn law_limits()
    ensures
        OVERHEAD == 9,
        MAX_PAYLOAD == 27,
{
}

/// An error of the interface reaches the caller as it is, wrapped, and nothing else
/// does.
pub proof fn law_interface_errors_are_wrapped<E: Debug>(outcome: Result<(), E>, e: E)
    ensures
        <Error<E> as FromSpec<E>>::from_spec(e) == Error::InterfaceError(e),
        outcome is Ok <==> reported(outcome) is Ok,
        outcome == Err::<(), E>(e) <==> reported(outcome) == Err::<(), Error<E>>(
            Error::InterfaceError(e),
        ),
{
}

/// Sending writes one frame that carries the payload unchanged behind the command,
/// and succeeds if the write does. More than 27 bytes are refused, and nothing is
/// written.
pub proof fn law_send_writes_the_payload<E: Debug>(
    code: u8,
    payload: Seq<u8>,
    calls: Seq<Call<E>>,
    result: Result<(), Error<E>>,
    e: E,
)
    requires
        send_phase(code, payload, calls, result),
    ensures
        payload.len() > 27 ==> calls.len() == 0 && result == Err::<(), Error<E>>(Error::CrcError),
        payload.len() <= 27 ==> {
            &&& calls.len() == 1
            &&& calls[0] matches Call::Write { frame, outcome }
            &&& frame.len() == payload.len() + 8
            &&& frame[0] == 0x00 && frame[1] == 0x00 && frame[2] == 0xFF
            &&& frame[3] == payload.len() + 2
            &&& (frame[3] + frame[4]) % 256 == 0
            &&& frame[5] == 0xD4
            &&& frame[6] == code
            &&& frame.subrange(7, 7 + payload.len() as int) == payload
            &&& byte_sum(frame.skip(5)) % 256 == 0
            &&& result is Ok <==> outcome is Ok
            &&& result == Err::<(), Error<E>>(Error::InterfaceError(e)) <==> outcome == Err::<
                (),
                E,
            >(e)
            &&& result is Err ==> result->Err_0 is InterfaceError
        },
{
    law_command_frame_carries_payload(code, payload);
}

/// An acknowledgement is the six bytes `00 00 FF 00 FF 00` and nothing else.
pub proof fn law_only_an_ack_acknowledges<E: Debug>(after: Seq<u8>, outcome: Result<(), E>, e: E)
    ensures
        ack_result(after, outcome) is Ok <==> outcome is Ok && after == seq![
            0x00u8,
            0x00,
            0xFF,
            0x00,
            0xFF,
            0x00,
        ],
        ack_result(after, outcome) == Err::<(), Error<E>>(Error::BadAck) <==> outcome is Ok
            && after != seq![0x00u8, 0x00, 0xFF, 0x00, 0xFF, 0x00],
        ack_result(after, outcome) == Err::<(), Error<E>>(Error::InterfaceError(e)) <==> outcome
            == Err::<(), E>(e),
{
    assert(crate::frame::ACK@ =~= seq![0x00u8, 0x00, 0xFF, 0x00, 0xFF, 0x00]);
}

/// A read yields `data` exactly if it succeeded and the bytes read begin with a
/// response frame that carries `data`, all of it and in order.
pub proof fn law_response_is_its_data<E: Debug>(
    after: Seq<u8>,
    outcome: Result<(), E>,
    code: u8,
    data: Seq<u8>,
    e: E,
)
    requires
        after.len() >= 9,
    ensures
        response_result(after, outcome, code) == Ok::<_, Error<E>>(data) <==> {
            let n = data.len() as int;
            &&& outcome is Ok
            &&& n <= 253
            &&& n + 9 <= after.len()
            &&& after[0] == 0x00 && after[1] == 0x00 && after[2] == 0xFF
            &&& after[3] == n + 2
            &&& (after[3] + after[4]) % 256 == 0
            &&& after[5] == 0xD5
            &&& after[6] == code
            &&& after.subrange(7, 7 + n) == data
            &&& byte_sum(after.subrange(5, 8 + n)) % 256 == 0
            &&& after[8 + n] == 0x00
        },
        response_result(after, outcome, code) == Err::<Seq<u8>, Error<E>>(
            Error::InterfaceError(e),
        ) <==> outcome == Err::<(), E>(e),
        outcome is Ok ==> (response_result(after, outcome, code) is Err <==> parsed::<E>(
            after,
            code,
        ) is Err),
        outcome is Ok && parsed::<E>(after, code) is Err ==> response_result(after, outcome, code)
            == parsed::<E>(after, code),
{
    law_accepted_iff_layout::<E>(after, code, data);
    law_refusals::<E>(after, code);
}

/// A received slice stands for the bytes in it, and an error for itself.
pub proof fn law_received_slice_is_its_bytes<E: Debug>(result: Result<&[u8], Error<E>>)
    ensures
        result is Ok <==> response_view(result) is Ok,
        result matches Ok(data) ==> response_view(result) == Ok::<_, Error<E>>(data@),
        result matches Err(e) ==> response_view(result) == Err::<Seq<u8>, _>(e),
{
}

/// A wait that ends is followed by the stage that belongs to it.
pub proof fn law_wait_is_resumed_where_it_was_left(waiting: Waiting, expired: bool)
    ensures
        waiting is Ack ==> waiting.resume(expired) == (Stage::Ack { expired }),
        waiting is Response ==> waiting.resume(expired) == (Stage::Response { expired }),
        stage_of(None) is Start,
        stage_of(Some(waiting)) == waiting.resume(false),
{
}

/// A step that is entered with time run out makes no call and ends the exchange:
/// with the error for a missing ACK if the ACK was owed, and with that for a
/// missing response if the response was owed.
pub proof fn law_expired_wait_times_out<E: Debug>(
    code: u8,
    payload: Seq<u8>,
    response_len: Option<nat>,
    waiting: Waiting,
    calls: Seq<Call<E>>,
    result: Result<Progress<Seq<u8>>, Error<E>>,
)
    requires
        exchange_step(code, payload, response_len, waiting.resume(true), calls, result),
    ensures
        calls.len() == 0,
        waiting is Ack ==> result == Err::<Progress<Seq<u8>>, Error<E>>(Error::TimeoutAck),
        waiting is Response ==> result == Err::<Progress<Seq<u8>>, Error<E>>(
            Error::TimeoutResponse,
        ),
{
}

/// A timeout is only reported by a step that is entered with time run out, and of
/// the wait that it was entered after.
pub proof fn law_no_timeout_unless_expired<E: Debug>(
    code: u8,
    payload: Seq<u8>,
    response_len: Option<nat>,
    stage: Stage,
    calls: Seq<Call<E>>,
    result: Result<Progress<Seq<u8>>, Error<E>>,
)
    requires
        exchange_step(code, payload, response_len, stage, calls, result),
    ensures
        result == Err::<Progress<Seq<u8>>, Error<E>>(Error::TimeoutAck) <==> stage == (Stage::Ack {
            expired: true,
        }),
        result == Err::<Progress<Seq<u8>>, Error<E>>(Error::TimeoutResponse) <==> stage == (
        Stage::Response { expired: true }),
{
}

/// Without a time limit there is no timeout.
pub proof fn law_untimed_step_never_times_out<E: Debug>(
    code: u8,
    payload: Seq<u8>,
    response_len: Option<nat>,
    waiting: Option<Waiting>,
    calls: Seq<Call<E>>,
    result: Result<Progress<Seq<u8>>, Error<E>>,
)
    requires
        exchange_step(code, payload, response_len, stage_of(waiting), calls, result),
    ensures
        result != Err::<Progress<Seq<u8>>, Error<E>>(Error::TimeoutAck),
        result != Err::<Progress<Seq<u8>>, Error<E>>(Error::TimeoutResponse),
{
    law_no_timeout_unless_expired(code, payload, response_len, stage_of(waiting), calls, result);
}

/// The calls of a later phase are those of the step without the earlier ones.
proof fn lemma_calls_by_phase<E: Debug>(
    code: u8,
    payload: Seq<u8>,
    response_len: Option<nat>,
    stage: Stage,
    calls: Seq<Call<E>>,
    result: Result<Progress<Seq<u8>>, Error<E>>,
)
    requires
        exchange_step(code, payload, response_len, stage, calls, result),
    ensures
        stage is Start && calls.len() >= 2 ==> calls.skip(1).last() == calls.last(),
        stage is Start && calls.len() >= 4 ==> calls.skip(1).skip(2).last() == calls.last(),
        stage is Ack && calls.len() >= 3 ==> calls.skip(2).last() == calls.last(),
        forall|i: int|
            #![trigger calls[i]]
            stage is Start && 1 <= i < calls.len() ==> calls[i] == calls.skip(1)[i - 1],
        forall|i: int|
            #![trigger calls[i]]
            stage is Start && 3 <= i < calls.len() ==> calls[i] == calls.skip(1).skip(2)[i - 3],
        forall|i: int|
            #![trigger calls[i]]
            stage is Ack && 2 <= i < calls.len() ==> calls[i] == calls.skip(2)[i - 2],
{
}

/// A step reports that it is waiting exactly if its last call found the chip busy;
/// it waits for the response once the ACK is there, and for the ACK before that.
pub proof fn law_waits_iff_busy<E: Debug>(
    code: u8,
    payload: Seq<u8>,
    response_len: Option<nat>,
    stage: Stage,
    calls: Seq<Call<E>>,
    result: Result<Progress<Seq<u8>>, Error<E>>,
)
    requires
        exchange_step(code, payload, response_len, stage, calls, result),
    ensures
        ({
            let busy = calls.len() >= 1 && calls.last() == (Call::<E>::WaitReady {
                readiness: Poll::Pending,
            });
            let for_ack = stage is Start && calls.len() == 2 || stage is Ack && calls.len() == 1;
            &&& busy ==> {
                ||| result == Ok::<_, Error<E>>(Progress::<Seq<u8>>::Pending(Waiting::Ack))
                    && for_ack
                ||| result == Ok::<_, Error<E>>(Progress::<Seq<u8>>::Pending(Waiting::Response))
                    && !for_ack
            }
            &&& result matches Ok(Progress::Pending(_)) ==> busy
        }),
{
    lemma_calls_by_phase(code, payload, response_len, stage, calls, result);
}

/// A step asks its questions in the regular order and asks them as they should be
/// asked: the frame carries the payload, and what is read into has been zeroed and
/// is as long as what is expected.
pub proof fn law_step_asks_in_order<E: Debug>(
    code: u8,
    payload: Seq<u8>,
    response_len: Option<nat>,
    stage: Stage,
    calls: Seq<Call<E>>,
    result: Result<Progress<Seq<u8>>, Error<E>>,
    i: int,
)
    requires
        exchange_step(code, payload, response_len, stage, calls, result),
        0 <= i < calls.len(),
    ensures
        ({
            let from: int = if stage is Start {
                0
            } else if stage is Ack {
                1
            } else {
                3
            };
            let p = from + i;
            &&& p <= 4
            &&& response_len is None ==> p <= 2
            &&& p == 0 ==> {
                &&& payload.len() <= 27
                &&& calls[i] matches Call::Write { frame, .. }
                &&& frame.len() == payload.len() + 8
                &&& frame[0] == 0x00 && frame[1] == 0x00 && frame[2] == 0xFF
                &&& frame[3] == payload.len() + 2
                &&& (frame[3] + frame[4]) % 256 == 0
                &&& frame[5] == 0xD4
                &&& frame[6] == code
                &&& frame.subrange(7, 7 + payload.len() as int) == payload
                &&& byte_sum(frame.skip(5)) % 256 == 0
            }
            &&& p == 1 || p == 3 ==> calls[i] is WaitReady
            &&& p == 2 ==> {
                &&& calls[i] matches Call::Read { before, after, .. }
                &&& before == Seq::new(6, |j: int| 0u8)
                &&& after.len() == 6
            }
            &&& p == 4 ==> {
                &&& calls[i] matches Call::Read { before, after, .. }
                &&& before == Seq::new(response_len->0 + 9, |j: int| 0u8)
                &&& after.len() == response_len->0 + 9
            }
        }),
{
    lemma_calls_by_phase(code, payload, response_len, stage, calls, result);
    law_command_frame_carries_payload(code, payload);
    assert(crate::frame::ACK@.len() == 6);
    assert(calls[i] == calls[i]);
    assert(zeros(6) =~= Seq::new(6, |j: int| 0u8));
    if response_len is Some {
        assert(zeros(response_len->0 + 9) =~= Seq::new(response_len->0 + 9, |j: int| 0u8));
    }
}

/// A step goes on exactly as long as all goes well: every call but the last
/// succeeded, and the ACK that was read is one; and if the last one did so too,
/// there was nothing left to ask.
pub proof fn law_step_goes_on_while_all_is_well<E: Debug>(
    code: u8,
    payload: Seq<u8>,
    response_len: Option<nat>,
    stage: Stage,
    calls: Seq<Call<E>>,
    result: Result<Progress<Seq<u8>>, Error<E>>,
    i: int,
)
    requires
        exchange_step(code, payload, response_len, stage, calls, result),
        0 <= i < calls.len(),
    ensures
        ({
            let from: int = if stage is Start {
                0
            } else if stage is Ack {
                1
            } else {
                3
            };
            let p = from + i;
            let well = match calls[i] {
                Call::Write { outcome, .. } => outcome is Ok,
                Call::WaitReady { readiness } => readiness matches Poll::Ready(Ok(())),
                Call::Read { after, outcome, .. } => outcome is Ok && (p == 2 ==> after == seq![
                    0x00u8,
                    0x00,
                    0xFF,
                    0x00,
                    0xFF,
                    0x00,
                ]),
            };
            &&& i < calls.len() - 1 ==> well
            &&& i == calls.len() - 1 && well ==> p == 4 || p == 2 && response_len is None
        }),
{
    lemma_calls_by_phase(code, payload, response_len, stage, calls, result);
    assert(crate::frame::ACK@ =~= seq![0x00u8, 0x00, 0xFF, 0x00, 0xFF, 0x00]);
    assert(calls[i] == calls[i]);
}

/// A step that makes no call was refused, because the payload is too long or time
/// has run out. Every other one makes at least one.
pub proof fn law_step_without_calls<E: Debug>(
    code: u8,
    payload: Seq<u8>,
    response_len: Option<nat>,
    stage: Stage,
    calls: Seq<Call<E>>,
    result: Result<Progress<Seq<u8>>, Error<E>>,
)
    requires
        exchange_step(code, payload, response_len, stage, calls, result),
    ensures
        calls.len() == 0 <==> stage is Start && payload.len() > 27 || stage == (Stage::Ack {
            expired: true,
        }) || stage == (Stage::Response { expired: true }),
        stage is Start && payload.len() > 27 ==> result == Err::<Progress<Seq<u8>>, Error<E>>(
            Error::CrcError,
        ),
{
}

/// A call that fails is the last one, and its error is what the step reports. No
/// other step reports an error of the interface.
pub proof fn law_step_reports_interface_errors<E: Debug>(
    code: u8,
    payload: Seq<u8>,
    response_len: Option<nat>,
    stage: Stage,
    calls: Seq<Call<E>>,
    result: Result<Progress<Seq<u8>>, Error<E>>,
    e: E,
)
    requires
        exchange_step(code, payload, response_len, stage, calls, result),
    ensures
        result == Err::<Progress<Seq<u8>>, Error<E>>(Error::InterfaceError(e)) <==> {
            &&& calls.len() >= 1
            &&& match calls.last() {
                Call::Write { outcome, .. } => outcome == Err::<(), E>(e),
                Call::WaitReady { readiness } => readiness == Poll::Ready(Err::<(), E>(e)),
                Call::Read { outcome, .. } => outcome == Err::<(), E>(e),
            }
        },
{
    lemma_calls_by_phase(code, payload, response_len, stage, calls, result);
    if calls.len() >= 1 {
        match calls.last() {
            Call::Read { after, outcome, .. } => {
                if after.len() >= 9 {
                    law_refusals::<E>(after, (code + 1) as u8);
                }
            },
            _ => {},
        }
    }
}

/// A read where the ACK is due decides about the ACK: other bytes than those of an
/// ACK frame are reported, and those of an ACK frame end the exchange if no response
/// is wanted.
pub proof fn law_step_reports_bad_acks<E: Debug>(
    code: u8,
    payload: Seq<u8>,
    response_len: Option<nat>,
    stage: Stage,
    calls: Seq<Call<E>>,
    result: Result<Progress<Seq<u8>>, Error<E>>,
)
    requires
        exchange_step(code, payload, response_len, stage, calls, result),
    ensures
        ({
            let ack_read = (stage is Start && calls.len() == 3 || stage is Ack && calls.len() == 2)
                && calls.last() is Read && calls.last()->Read_outcome is Ok;
            let is_ack = calls.last()->after == seq![0x00u8, 0x00, 0xFF, 0x00, 0xFF, 0x00];
            &&& result == Err::<Progress<Seq<u8>>, Error<E>>(Error::BadAck) <==> ack_read && !is_ack
            &&& response_len is None ==> (result matches Ok(Progress::Done(_)) <==> ack_read
                && is_ack)
            &&& response_len is None ==> (result matches Ok(Progress::Done(data)) ==> data.len()
                == 0)
        }),
{
    lemma_calls_by_phase(code, payload, response_len, stage, calls, result);
    assert(crate::frame::ACK@ =~= seq![0x00u8, 0x00, 0xFF, 0x00, 0xFF, 0x00]);
    if calls.len() >= 1 {
        match calls.last() {
            Call::Read { after, outcome, .. } => {
                if after.len() >= 9 {
                    law_refusals::<E>(after, (code + 1) as u8);
                }
            },
            _ => {},
        }
    }
}

/// An exchange that wants a response is done, and yields `data`, exactly if its last
/// call reads a response frame that carries `data`, all of it and in order, behind
/// the code that answers the command.
pub proof fn law_step_yields_the_data<E: Debug>(
    code: u8,
    payload: Seq<u8>,
    response_len: nat,
    stage: Stage,
    calls: Seq<Call<E>>,
    result: Result<Progress<Seq<u8>>, Error<E>>,
    data: Seq<u8>,
)
    requires
        exchange_step(code, payload, Some(response_len), stage, calls, result),
        code < 255,
    ensures
        ({
            let n = data.len() as int;
            let response_read = (stage is Start && calls.len() == 5 || stage is Ack && calls.len()
                == 4 || stage is Response && calls.len() == 2) && calls.last() is Read
                && calls.last()->Read_outcome is Ok;
            let after = calls.last()->after;
            &&& result == Ok::<_, Error<E>>(Progress::Done(data)) <==> {
                &&& response_read
                &&& n <= 253
                &&& n <= response_len
                &&& after[0] == 0x00 && after[1] == 0x00 && after[2] == 0xFF
                &&& after[3] == n + 2
                &&& (after[3] + after[4]) % 256 == 0
                &&& after[5] == 0xD5
                &&& after[6] == code + 1
                &&& after.subrange(7, 7 + n) == data
                &&& byte_sum(after.subrange(5, 8 + n)) % 256 == 0
                &&& after[8 + n] == 0x00
            }
            &&& response_read ==> {
                let len = after[3] as int;
                let head = after[0] == 0x00 && after[1] == 0x00 && after[2] == 0xFF;
                let announced = head && (len + after[4]) % 256 == 0;
                &&& after.len() == response_len + 9
                &&& result == Err::<Progress<Seq<u8>>, Error<E>>(Error::Syntax) <==> announced
                    && len == 1
                &&& result == Err::<Progress<Seq<u8>>, Error<E>>(Error::BufTooSmall) <==> announced
                    && len - 2 > response_len
                &&& head && !announced ==> result == Err::<Progress<Seq<u8>>, Error<E>>(
                    Error::CrcError,
                )
                &&& !head || announced && len == 0 ==> result == Err::<
                    Progress<Seq<u8>>,
                    Error<E>,
                >(Error::BadResponseFrame)
                &&& announced && 2 <= len <= response_len + 2 ==> {
                    let framed = after[len + 6] == 0x00 && after[5] == 0xD5 && after[6] == code + 1;
                    &&& !framed ==> result == Err::<Progress<Seq<u8>>, Error<E>>(
                        Error::BadResponseFrame,
                    )
                    &&& framed && byte_sum(after.subrange(5, len + 6)) % 256 != 0 ==> result
                        == Err::<Progress<Seq<u8>>, Error<E>>(Error::CrcError)
                }
            }
        }),
{
    lemma_calls_by_phase(code, payload, Some(response_len), stage, calls, result);
    if calls.len() >= 1 {
        match calls.last() {
            Call::Read { after, outcome, .. } => {
                if after.len() >= 9 {
                    law_refusals::<E>(after, (code + 1) as u8);
                    law_accepted_iff_layout::<E>(after, (code + 1) as u8, data);
                }
            },
            _ => {},
        }
    }
}

/// What a step hands to the caller is what the exchange yields: the data lies at
/// the eighth byte of the buffer, as long as reported, and a wait or an error is
/// handed on unchanged.
pub proof fn law_result_is_handed_on<E: Debug>(
    len: usize,
    waiting: Waiting,
    e: Error<E>,
    buffer: Seq<u8>,
)
    ensures
        with_response(Ok::<_, Error<E>>(Progress::Done(len)), buffer) == Ok::<_, Error<E>>(
            Progress::Done(buffer.subrange(7, 7 + len)),
        ),
        with_response(Ok::<_, Error<E>>(Progress::<usize>::Pending(waiting)), buffer) == Ok::<
            _,
            Error<E>,
        >(Progress::<Seq<u8>>::Pending(waiting)),
        with_response(Err::<Progress<usize>, _>(e), buffer) == Err::<Progress<Seq<u8>>, _>(e),
        without_response(Ok::<_, Error<E>>(Progress::Done(()))) == Ok::<_, Error<E>>(
            Progress::Done(Seq::<u8>::empty()),
        ),
        without_response(Ok::<_, Error<E>>(Progress::<()>::Pending(waiting))) == Ok::<_, Error<E>>(
            Progress::<Seq<u8>>::Pending(waiting),
        ),
        without_response(Err::<Progress<()>, _>(e)) == Err::<Progress<Seq<u8>>, _>(e),
{
}

/// Sending leaves the whole frame, closed by a zero byte, at the start of the
/// buffer, or, if the payload is too long, its first 27 bytes behind the start of a
/// frame. The rest of the buffer keeps what it held.
pub proof fn law_buffer_after_send(before: Seq<u8>, code: u8, payload: Seq<u8>)
    requires
        payload_fits(before.len(), payload.len()),
    ensures
        ({
            let buffer = staged(before, code, payload);
            let n = if payload.len() <= 27 {
                payload.len() as int
            } else {
                27
            };
            &&& buffer.len() == before.len()
            &&& buffer[0] == 0x00 && buffer[1] == 0x00 && buffer[2] == 0xFF
            &&& buffer[3] == (payload.len() + 2) % 256
            &&& (buffer[3] + buffer[4]) % 256 == 0
            &&& buffer[5] == 0xD4
            &&& buffer[6] == code
            &&& buffer.subrange(7, 7 + n) == payload.take(n)
            &&& payload.len() <= 27 ==> {
                &&& byte_sum(buffer.subrange(5, 8 + n)) % 256 == 0
                &&& buffer[8 + n] == 0x00
                &&& buffer.skip(9 + n) == before.skip(9 + n)
            }
            &&& payload.len() > 27 ==> buffer.skip(34) == before.skip(34)
        }),
{
    let buffer = staged(before, code, payload);
    let bytes = command_frame(code, payload);
    law_command_frame_carries_payload(code, payload);
    let n = payload.len() as int;
    if n <= 27 {
        assert forall|i: int| 0 <= i < n + 8 implies buffer[i] == bytes[i] by {}
        assert(buffer.subrange(7, 7 + n) =~= bytes.subrange(7, 7 + n));
        assert(payload.take(n) =~= payload);
        assert(buffer.subrange(5, 8 + n) =~= bytes.skip(5));
        assert(buffer.skip(9 + n) =~= before.skip(9 + n));
    } else {
        crate::laws::law_header_bytes(crate::frame::HOST_TO_PN532, code, payload.len());
        assert(buffer.subrange(7, 34) =~= payload.take(27));
        assert(buffer.skip(34) =~= before.skip(34));
    }
}

/// Replacing the beginning of some bytes keeps their number and the rest of them.
pub proof fn law_overwrite_keeps_the_rest(bytes: Seq<u8>, start: Seq<u8>)
    requires
        start.len() <= bytes.len(),
    ensures
        overwrite(bytes, start).len() == bytes.len(),
        overwrite(bytes, start).take(start.len() as int) == start,
        overwrite(bytes, start).skip(start.len() as int) == bytes.skip(start.len() as int),
{
    assert(overwrite(bytes, start).take(start.len() as int) =~= start);
    assert(overwrite(bytes, start).skip(start.len() as int) =~= bytes.skip(start.len() as int));
}

/// Zeroed bytes are all zero.
pub proof fn law_zeros(count: nat)
    ensures
        zeros(count) == Seq::new(count, |i: int| 0u8),
{
}

/// A step that reads a response leaves the bytes read at the start of the buffer,
/// and only what is sent or read changes the buffer.
pub proof fn law_buffer_after_step<E: Debug>(
    before: Seq<u8>,
    code: u8,
    payload: Seq<u8>,
    response_len: Option<nat>,
    stage: Stage,
    calls: Seq<Call<E>>,
    result: Result<Progress<Seq<u8>>, Error<E>>,
)
    requires
        exchange_step(code, payload, response_len, stage, calls, result),
        exchange_fits(
            before.len(),
            stage,
            payload.len(),
            if response_len is Some {
                response_len->0
            } else {
                0
            },
        ),
    ensures
        ({
            let after = buffer_after(before, code, payload, stage, calls);
            let sent = if stage is Start {
                staged(before, code, payload)
            } else {
                before
            };
            let read = stage is Start && calls.len() == 5 || stage is Ack && calls.len() == 4
                || stage is Response && calls.len() == 2;
            &&& after.len() == before.len()
            &&& !read ==> after == sent
            &&& read ==> {
                let bytes = calls.last()->after;
                &&& calls.last() is Read
                &&& bytes.len() == response_len->0 + 9
                &&& after.take(bytes.len() as int) == bytes
                &&& after.skip(bytes.len() as int) == sent.skip(bytes.len() as int)
            }
        }),
{
    lemma_calls_by_phase(code, payload, response_len, stage, calls, result);
    let sent = if stage is Start {
        staged(before, code, payload)
    } else {
        before
    };
    if stage is Start {
        law_buffer_after_send(before, code, payload);
    }
    if calls.len() >= 1 && calls.last() is Read {
        let bytes = calls.last()->after;
        if bytes.len() <= sent.len() {
            law_overwrite_keeps_the_rest(sent, bytes);
        }
    }
}

/// A payload of up to 27 bytes needs nine bytes more than it has; a longer one, of
/// which 27 are laid out before it is refused, needs 34. A response needs nine bytes
/// more than its data, where an exchange can get as far as that.
pub proof fn law_sizes(size: nat, stage: Stage, payload_len: nat, response_len: nat)
    ensures
        payload_fits(size, payload_len) <==> (if payload_len <= 27 {
            payload_len + 9 <= size
        } else {
            34 <= size
        }),
        may_respond(stage, payload_len) <==> (stage is Start && payload_len <= 27 || stage == (
        Stage::Ack { expired: false }) || stage == (Stage::Response { expired: false })),
        exchange_fits(size, stage, payload_len, response_len) <==> {
            &&& stage is Start ==> payload_fits(size, payload_len)
            &&& may_respond(stage, payload_len) ==> response_len + 9 <= size
        },
{
}

} // verus!
