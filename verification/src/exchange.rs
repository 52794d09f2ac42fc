//! How an exchange proceeds: the stages it goes through, the calls it makes at
//! each of them, and what it reports.
//!
//! An exchange alternates with the outside: whenever the chip is busy, the
//! driver hands back what it is waiting for, the caller decides whether to go on
//! (it looks at a timer, or yields to an executor), and enters the exchange
//! again at the stage that follows from the answer.

use crate::error::Error;
use crate::frame::{command_frame, header, parsed};
use crate::frame::{ACK, HOST_TO_PN532, POSTAMBLE};
use crate::interface::Call;
use core::fmt::Debug;
use core::task::Poll;
use vstd::prelude::*;

verus! {

/// The longest data, request and body together, that is sent in one frame.
pub const MAX_PAYLOAD: usize = 27;

/// Bytes of a frame that are not data.
pub const OVERHEAD: usize = 9;

/// What a busy chip is waited for.
#[derive(Copy, Clone, Eq, PartialEq, Debug)]
pub enum Waiting {
    /// The acknowledgement of a request
    Ack,
    /// The response to a request
    Response,
}

/// The point at which an exchange is entered.
#[derive(Copy, Clone, Eq, PartialEq, Debug)]
pub enum Stage {
    /// Nothing has been sent yet.
    Start,
    /// The chip was busy and owes an ACK; `expired` tells whether time has run out.
    Ack { expired: bool },
    /// The chip was busy and owes a response; `expired` tells whether time has run out.
    Response { expired: bool },
}

/// How far an exchange has come.
#[derive(Copy, Clone, Eq, PartialEq, Debug)]
pub enum Progress<R> {
    /// The chip is busy.
    Pending(Waiting),
    /// The exchange is complete.
    Done(R),
}

impl Waiting {
    /// The stage that follows a wait.
    pub open spec fn spec_resume(self, expired: bool) -> Stage {
        match self {
            Waiting::Ack => Stage::Ack { expired },
            Waiting::Response => Stage::Response { expired },
        }
    }

    /// The stage at which an exchange goes on after a wait, given whether time
    /// has run out meanwhile.
    #[verifier::when_used_as_spec(spec_resume)]
    pub fn resume(self, expired: bool) -> (stage: Stage)
        ensures
            stage == self.spec_resume(expired),
            self is Ack ==> stage == (Stage::Ack { expired }),
            self is Response ==> stage == (Stage::Response { expired }),
    {
        match self {
            Waiting::Ack => Stage::Ack { expired },
            Waiting::Response => Stage::Response { expired },
        }
    }
}

/// The stage at which an exchange without a time limit is entered: the start, or
/// where it was left waiting.
pub open spec fn stage_of(waiting: Option<Waiting>) -> Stage {
    match waiting {
        None => Stage::Start,
        Some(waiting) => waiting.resume(false),
    }
}

/// The stage at which an exchange without a time limit is entered.
pub fn untimed_stage(waiting: Option<Waiting>) -> (stage: Stage)
    ensures
        stage == stage_of(waiting),
        waiting is None ==> stage is Start,
        waiting == Some(Waiting::Ack) ==> stage == (Stage::Ack { expired: false }),
        waiting == Some(Waiting::Response) ==> stage == (Stage::Response { expired: false }),
{
    match waiting {
        None => Stage::Start,
        Some(waiting) => waiting.resume(false),
    }
}

/// `count` zero bytes.
pub open spec fn zeros(count: nat) -> Seq<u8> {
    Seq::new(count, |i: int| 0u8)
}

/// `bytes` with its beginning replaced by `start`.
pub open spec fn overwrite(bytes: Seq<u8>, start: Seq<u8>) -> Seq<u8> {
    start + bytes.skip(start.len() as int)
}

/// Replacing the bytes behind a replaced beginning makes that beginning longer.
pub proof fn lemma_overwrite_more(bytes: Seq<u8>, start: Seq<u8>, more: Seq<u8>)
    requires
        start.len() + more.len() <= bytes.len(),
    ensures
        ({
            let now = overwrite(bytes, start);
            now.take(start.len() as int) + more + now.skip((start.len() + more.len()) as int)
                == overwrite(bytes, start + more)
        }),
{
    let now = overwrite(bytes, start);
    assert(now.take(start.len() as int) + more + now.skip((start.len() + more.len()) as int)
        =~= overwrite(bytes, start + more));
}

/// Setting the byte behind a replaced beginning makes that beginning longer.
pub proof fn lemma_overwrite_push(bytes: Seq<u8>, start: Seq<u8>, byte: u8)
    requires
        start.len() < bytes.len(),
    ensures
        overwrite(bytes, start).update(start.len() as int, byte) == overwrite(
            bytes,
            start.push(byte),
        ),
{
    assert(overwrite(bytes, start).update(start.len() as int, byte) =~= overwrite(
        bytes,
        start.push(byte),
    ));
}

/// Whether a buffer of `size` bytes can take the frame for a payload of `len`
/// bytes, or, if the payload is too long for a frame, the part of it that is
/// laid out before that shows.
pub open spec fn payload_fits(size: nat, len: nat) -> bool {
    if len <= MAX_PAYLOAD {
        len + OVERHEAD <= size
    } else {
        MAX_PAYLOAD + 7 <= size
    }
}

/// Whether an exchange entered at `stage` can get as far as reading a response.
pub open spec fn may_respond(stage: Stage, payload_len: nat) -> bool {
    match stage {
        Stage::Start => payload_len <= MAX_PAYLOAD,
        Stage::Ack { expired } => !expired,
        Stage::Response { expired } => !expired,
    }
}

/// Whether a buffer of `size` bytes is large enough for an exchange.
pub open spec fn exchange_fits(
    size: nat,
    stage: Stage,
    payload_len: nat,
    response_len: nat,
) -> bool {
    &&& stage is Start ==> payload_fits(size, payload_len)
    &&& may_respond(stage, payload_len) ==> response_len + OVERHEAD <= size
}

/// Check whether a buffer of `size` bytes can take what is laid out in it when a
/// request with `data_len` bytes of data and a body of `body_len` bytes is sent.
pub fn buffer_takes_payload(size: usize, data_len: usize, body_len: usize) -> (fits: bool)
    ensures
        fits == payload_fits(size as nat, (data_len + body_len) as nat),
{
    if data_len <= MAX_PAYLOAD && body_len <= MAX_PAYLOAD - data_len {
        data_len + body_len + OVERHEAD <= size
    } else {
        MAX_PAYLOAD + 7 <= size
    }
}

/// Check whether a buffer of `size` bytes is large enough for an exchange that is
/// entered at `stage`.
pub fn buffer_takes_exchange(
    size: usize,
    stage: Stage,
    data_len: usize,
    body_len: usize,
    response_len: usize,
) -> (fits: bool)
    ensures
        fits == exchange_fits(
            size as nat,
            stage,
            (data_len + body_len) as nat,
            response_len as nat,
        ),
{
    let response_fits: bool = size >= OVERHEAD && response_len <= size - OVERHEAD;
    match stage {
        Stage::Start => {
            let sendable: bool = data_len <= MAX_PAYLOAD && body_len <= MAX_PAYLOAD - data_len;
            buffer_takes_payload(size, data_len, body_len) && (!sendable || response_fits)
        },
        Stage::Ack { expired } => expired || response_fits,
        Stage::Response { expired } => expired || response_fits,
    }
}

/// `calls` and `result` are those of sending `payload` with the command `code`.
pub open spec fn send_phase<E: Debug>(
    code: u8,
    payload: Seq<u8>,
    calls: Seq<Call<E>>,
    result: Result<(), Error<E>>,
) -> bool {
    if payload.len() > MAX_PAYLOAD {
        &&& calls.len() == 0
        &&& result == Err::<(), _>(Error::<E>::CrcError)
    } else {
        &&& calls.len() == 1
        &&& calls[0] matches Call::Write { frame, outcome }
        &&& frame == command_frame(code, payload)
        &&& result == crate::error::reported(outcome)
    }
}

/// The buffer `before` once `payload` has been laid out in it for sending.
pub open spec fn staged(before: Seq<u8>, code: u8, payload: Seq<u8>) -> Seq<u8> {
    if payload.len() > MAX_PAYLOAD {
        overwrite(
            before,
            header(HOST_TO_PN532, code, payload.len()) + payload.take(MAX_PAYLOAD as int),
        )
    } else {
        overwrite(before, command_frame(code, payload).push(POSTAMBLE))
    }
}

/// What a read of an ACK frame is taken for.
pub open spec fn ack_result<E: Debug>(after: Seq<u8>, outcome: Result<(), E>) -> Result<
    (),
    Error<E>,
> {
    match outcome {
        Err(e) => Err(Error::InterfaceError(e)),
        Ok(()) => if after == ACK@ {
            Ok(())
        } else {
            Err(Error::BadAck)
        },
    }
}

/// What a read of a response frame is taken for, when it should open with `code`.
pub open spec fn response_result<E: Debug>(
    after: Seq<u8>,
    outcome: Result<(), E>,
    code: u8,
) -> Result<Seq<u8>, Error<E>> {
    match outcome {
        Err(e) => Err(Error::InterfaceError(e)),
        Ok(()) => parsed(after, code),
    }
}

/// What a completed exchange reports, given the response it read.
pub open spec fn done<E: Debug>(response: Result<Seq<u8>, Error<E>>) -> Result<
    Progress<Seq<u8>>,
    Error<E>,
> {
    match response {
        Ok(data) => Ok(Progress::Done(data)),
        Err(e) => Err(e),
    }
}

/// `calls` and `result` are those of polling for the response to the command
/// `code`, and of reading it once it is there.
pub open spec fn response_phase<E: Debug>(
    code: u8,
    response_len: nat,
    calls: Seq<Call<E>>,
    result: Result<Progress<Seq<u8>>, Error<E>>,
) -> bool {
    &&& calls.len() >= 1
    &&& calls[0] matches Call::WaitReady { readiness }
    &&& match readiness {
        Poll::Pending => {
            &&& calls.len() == 1
            &&& result == Ok::<_, Error<E>>(Progress::<Seq<u8>>::Pending(Waiting::Response))
        },
        Poll::Ready(Err(e)) => {
            &&& calls.len() == 1
            &&& result == Err::<Progress<Seq<u8>>, _>(Error::InterfaceError(e))
        },
        Poll::Ready(Ok(())) => {
            &&& calls.len() == 2
            &&& calls[1] matches Call::Read { before, after, outcome }
            &&& before == zeros(response_len + OVERHEAD as nat)
            &&& after.len() == before.len()
            &&& result == done(response_result(after, outcome, (code + 1) as u8))
        },
    }
}

/// `calls` and `result` are those of polling for the ACK of the command `code`,
/// of reading it once it is there, and then of going on with the response, or of
/// stopping there if no response is wanted.
pub open spec fn ack_phase<E: Debug>(
    code: u8,
    response_len: Option<nat>,
    calls: Seq<Call<E>>,
    result: Result<Progress<Seq<u8>>, Error<E>>,
) -> bool {
    &&& calls.len() >= 1
    &&& calls[0] matches Call::WaitReady { readiness }
    &&& match readiness {
        Poll::Pending => {
            &&& calls.len() == 1
            &&& result == Ok::<_, Error<E>>(Progress::<Seq<u8>>::Pending(Waiting::Ack))
        },
        Poll::Ready(Err(e)) => {
            &&& calls.len() == 1
            &&& result == Err::<Progress<Seq<u8>>, _>(Error::InterfaceError(e))
        },
        Poll::Ready(Ok(())) => {
            &&& calls.len() >= 2
            &&& calls[1] matches Call::Read { before, after, outcome }
            &&& before == zeros(ACK@.len())
            &&& after.len() == before.len()
            &&& match ack_result(after, outcome) {
                Err(e) => {
                    &&& calls.len() == 2
                    &&& result == Err::<Progress<Seq<u8>>, _>(e)
                },
                Ok(()) => match response_len {
                    None => {
                        &&& calls.len() == 2
                        &&& result == Ok::<_, Error<E>>(Progress::Done(Seq::<u8>::empty()))
                    },
                    Some(len) => response_phase(code, len, calls.skip(2), result),
                },
            }
        },
    }
}

/// `calls` and `result` are those of an exchange that is entered at `stage` and
/// runs until the chip is found busy, something fails, or all is done.
///
/// With no `response_len` the exchange is done once the request is acknowledged.
pub open spec fn exchange_step<E: Debug>(
    code: u8,
    payload: Seq<u8>,
    response_len: Option<nat>,
    stage: Stage,
    calls: Seq<Call<E>>,
    result: Result<Progress<Seq<u8>>, Error<E>>,
) -> bool {
    match stage {
        Stage::Start => if payload.len() > MAX_PAYLOAD {
            &&& calls.len() == 0
            &&& result == Err::<Progress<Seq<u8>>, _>(Error::<E>::CrcError)
        } else {
            &&& calls.len() >= 1
            &&& calls[0] matches Call::Write { frame, outcome }
            &&& frame == command_frame(code, payload)
            &&& match outcome {
                Err(e) => {
                    &&& calls.len() == 1
                    &&& result == Err::<Progress<Seq<u8>>, _>(Error::InterfaceError(e))
                },
                Ok(()) => ack_phase(code, response_len, calls.skip(1), result),
            }
        },
        Stage::Ack { expired } => if expired {
            &&& calls.len() == 0
            &&& result == Err::<Progress<Seq<u8>>, _>(Error::<E>::TimeoutAck)
        } else {
            ack_phase(code, response_len, calls, result)
        },
        Stage::Response { expired } => if expired {
            &&& calls.len() == 0
            &&& result == Err::<Progress<Seq<u8>>, _>(Error::<E>::TimeoutResponse)
        } else {
            match response_len {
                None => false,
                Some(len) => response_phase(code, len, calls, result),
            }
        },
    }
}

/// Once a request has been sent, what remains of the step is about its ACK.
pub proof fn lemma_sent_then_ack<E: Debug>(
    code: u8,
    payload: Seq<u8>,
    response_len: Option<nat>,
    sent: Seq<Call<E>>,
    rest: Seq<Call<E>>,
    result: Result<Progress<Seq<u8>>, Error<E>>,
)
    requires
        send_phase(code, payload, sent, Ok(())),
        ack_phase(code, response_len, rest, result),
    ensures
        sent.len() == 1,
        exchange_step(code, payload, response_len, Stage::Start, sent + rest, result),
{
    assert((sent + rest).skip(1) =~= rest);
}

/// Once a request has been acknowledged, what remains of the step is about its
/// response.
pub proof fn lemma_ack_then_response<E: Debug>(
    code: u8,
    response_len: nat,
    acknowledged: Seq<Call<E>>,
    rest: Seq<Call<E>>,
    result: Result<Progress<Seq<u8>>, Error<E>>,
)
    requires
        ack_phase(
            code,
            None,
            acknowledged,
            Ok::<_, Error<E>>(Progress::Done(Seq::<u8>::empty())),
        ),
        response_phase(code, response_len, rest, result),
    ensures
        acknowledged.len() == 2,
        ack_phase(code, Some(response_len), acknowledged + rest, result),
{
    assert((acknowledged + rest).skip(2) =~= rest);
}

/// What a step that leaves its response in `buffer` reports.
pub open spec fn with_response<E: Debug>(
    result: Result<Progress<usize>, Error<E>>,
    buffer: Seq<u8>,
) -> Result<Progress<Seq<u8>>, Error<E>> {
    match result {
        Ok(Progress::Done(len)) => Ok(Progress::Done(buffer.subrange(7, 7 + len))),
        Ok(Progress::Pending(waiting)) => Ok(Progress::Pending(waiting)),
        Err(e) => Err(e),
    }
}

/// What a step that wants no response reports.
pub open spec fn without_response<E: Debug>(result: Result<Progress<()>, Error<E>>) -> Result<
    Progress<Seq<u8>>,
    Error<E>,
> {
    match result {
        Ok(Progress::Done(())) => Ok(Progress::Done(Seq::<u8>::empty())),
        Ok(Progress::Pending(waiting)) => Ok(Progress::Pending(waiting)),
        Err(e) => Err(e),
    }
}

/// The number of calls that an exchange makes from `stage` on when its last one
/// reads the response.
pub open spec fn calls_to_response(stage: Stage) -> nat {
    match stage {
        Stage::Start => 5,
        Stage::Ack { .. } => 4,
        Stage::Response { .. } => 2,
    }
}

/// The buffer `before` once an exchange has been entered at `stage` and has made
/// `calls`: a request that was sent and a response that was read remain in it.
pub open spec fn buffer_after<E>(
    before: Seq<u8>,
    code: u8,
    payload: Seq<u8>,
    stage: Stage,
    calls: Seq<Call<E>>,
) -> Seq<u8> {
    let sent = if stage is Start {
        staged(before, code, payload)
    } else {
        before
    };
    if calls.len() == calls_to_response(stage) {
        overwrite(sent, calls.last()->after)
    } else {
        sent
    }
}

} // verus!
