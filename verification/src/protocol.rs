//! The driver.

use crate::error::{reported, Error};
use crate::exchange::{
    ack_phase, ack_result, buffer_after, exchange_fits, exchange_step, lemma_ack_then_response,
    lemma_overwrite_more, lemma_overwrite_push, lemma_sent_then_ack, overwrite, payload_fits,
    response_phase, response_result, send_phase, stage_of, staged, untimed_stage, with_response,
    without_response, zeros,
};
use crate::exchange::{Progress, Stage, Waiting, MAX_PAYLOAD, OVERHEAD};
use crate::frame::{
    byte_sum, command_frame, complement, header, lemma_checksum_in_parts, parse_response,
    response_view, to_checksum,
};
use crate::frame::{ACK, HOST_TO_PN532, POSTAMBLE, PREAMBLE};
use crate::interface::{calls_between, lemma_calls_concat, Call, Interface};
use crate::laws::law_accepted_iff_layout;
use crate::requests::{BorrowedRequest, Command, Request};
use core::task::Poll;
use vstd::prelude::*;

verus! {

/// Main struct of this crate
///
/// Provides the methods [`process`](Pn532::process) and [`process_async`](Pn532::process_async)
/// for sending requests and parsing responses. They do as much as can be done without
/// waiting: when the chip is busy they return, and are called again once the caller has
/// looked at its timer or has been woken.
///
/// Other methods can be used if fine-grain control is required.
///
/// # Note:
/// The `Pn532` uses an internal buffer for sending and receiving messages.
/// The size of the buffer is determined by the `N` type parameter.
///
/// The following inequality should hold for all requests and responses:
/// ```text
/// N - 9 >= max(response_len, M)
/// ```
/// where
/// * `N` is the const generic type parameter of this struct.
/// * `response_len` is the largest number passed to
/// [`receive_response`](Pn532::receive_response), [`process`](Pn532::process) or [`process_async`](Pn532::process_async)
/// * `M` is the largest const generic type parameter of [`Request`] references passed to any sending methods of this struct,
/// plus the length of the body that goes with the request
#[derive(Clone, Debug)]
pub struct Pn532<I, T, const N: usize> {
    pub interface: I,
    pub timer: T,
    buf: [u8; N],
}

impl<I, T, const N: usize> Pn532<I, T, N> {
    /// The `interface` field.
    pub closed spec fn spec_interface(&self) -> I {
        self.interface
    }

    /// The `timer` field.
    pub closed spec fn spec_timer(&self) -> T {
        self.timer
    }

    /// The contents of the internal buffer.
    pub closed spec fn buffer(&self) -> Seq<u8> {
        self.buf@
    }
}

impl<I: Interface, T, const N: usize> Pn532<I, T, N> {
    /// Every call made through the interface so far.
    pub open spec fn history(&self) -> Seq<Call<I::Error>> {
        self.spec_interface().history()
    }

    /// Create a Pn532 instance
    pub fn new(interface: I, timer: T) -> (pn532: Self)
        ensures
            pn532.spec_interface() == interface,
            pn532.spec_timer() == timer,
            pn532.buffer() == zeros(N as nat),
    {
        Pn532 { interface, timer, buf: [0;N] }
    }

    /// Send a request, wait for an ACK and then wait for a response.
    ///
    /// `response_len` is the largest expected length of the returned data.
    ///
    /// The first call is made with [`Stage::Start`]. While the chip is busy the result is
    /// [`Progress::Pending`]; the caller then checks its timer and calls again, with the
    /// stage that [`Waiting::resume`] gives for what the timer said. The length of the data
    /// comes with [`Progress::Done`], the data itself from [`response`](Pn532::response).
    ///
    /// Time that runs out is reported as [`Error::TimeoutAck`] before the ACK, and as
    /// [`Error::TimeoutResponse`] after it.
    pub fn process<const M: usize>(
        &mut self,
        request: &Request<M>,
        response_len: usize,
        stage: Stage,
    ) -> (result: Result<Progress<usize>, Error<I::Error>>)
        requires
            exchange_fits(N as nat, stage, M as nat, response_len as nat),
        ensures
            final(self).spec_timer() == old(self).spec_timer(),
            result matches Ok(Progress::Done(len)) ==> len <= response_len,
            stage == (Stage::Ack { expired: true }) <==> result == Err::<
                Progress<usize>,
                Error<I::Error>,
            >(Error::TimeoutAck),
            stage == (Stage::Response { expired: true }) <==> result == Err::<
                Progress<usize>,
                Error<I::Error>,
            >(Error::TimeoutResponse),
            ({
                let calls = calls_between(old(self).history(), final(self).history());
                &&& final(self).history() == old(self).history() + calls
                &&& exchange_step(
                    request.command.code(),
                    request.data@,
                    Some(response_len as nat),
                    stage,
                    calls,
                    with_response(result, final(self).buffer()),
                )
                &&& final(self).buffer() == buffer_after(
                    old(self).buffer(),
                    request.command.code(),
                    request.data@,
                    stage,
                    calls,
                )
            }),
    {
        assert(request.data@ + Seq::<u8>::empty() =~= request.data@);
        self._process(request.borrow(), &[], response_len, stage)
    }

    fn _process(
        &mut self,
        request: BorrowedRequest<'_>,
        body: &[u8],
        response_len: usize,
        stage: Stage,
    ) -> (result: Result<Progress<usize>, Error<I::Error>>)
        requires
            exchange_fits(
                N as nat,
                stage,
                request.data@.len() + body@.len(),
                response_len as nat,
            ),
        ensures
            final(self).spec_timer() == old(self).spec_timer(),
            result matches Ok(Progress::Done(len)) ==> len <= response_len,
            stage == (Stage::Ack { expired: true }) <==> result == Err::<
                Progress<usize>,
                Error<I::Error>,
            >(Error::TimeoutAck),
            stage == (Stage::Response { expired: true }) <==> result == Err::<
                Progress<usize>,
                Error<I::Error>,
            >(Error::TimeoutResponse),
            ({
                let calls = calls_between(old(self).history(), final(self).history());
                &&& final(self).history() == old(self).history() + calls
                &&& exchange_step(
                    request.command.code(),
                    request.data@ + body@,
                    Some(response_len as nat),
                    stage,
                    calls,
                    with_response(result, final(self).buffer()),
                )
                &&& final(self).buffer() == buffer_after(
                    old(self).buffer(),
                    request.command.code(),
                    request.data@ + body@,
                    stage,
                    calls,
                )
            }),
    {
        let sent_command: Command = request.command;
        match stage {
            Stage::Start => {
                match self._send(request, body) {
                    Err(e) => {
                        return Err(e);
                    },
                    Ok(()) => {},
                }
            },
            Stage::Ack { expired } => {
                if expired {
                    return Err(Error::TimeoutAck);
                }
            },
            Stage::Response { expired } => {
                if expired {
                    return Err(Error::TimeoutResponse);
                }
                return self.await_response(sent_command, response_len);
            },
        }
        let ghost code = request.command.code();
        let ghost payload = request.data@ + body@;
        let ghost wanted = Some(response_len as nat);
        let ghost start = old(self).history();
        let ghost sent = self.history();
        let acked: Result<Progress<()>, Error<I::Error>> = self.await_ack();
        let ghost asked = self.history();
        let ghost acks = calls_between(sent, asked);
        proof {
            let reported = without_response(acked);
            lemma_calls_concat(start, sent, asked);
            assert(ack_phase(code, None, acks, reported));
            if stage is Start && !(acked matches Ok(Progress::Done(()))) {
                lemma_sent_then_ack(
                    code,
                    payload,
                    wanted,
                    calls_between(start, sent),
                    acks,
                    reported,
                );
            }
        }
        match acked {
            Err(e) => Err(e),
            Ok(Progress::Pending(waiting)) => Ok(Progress::Pending(waiting)),
            Ok(Progress::Done(())) => {
                let result: Result<Progress<usize>, Error<I::Error>> = self.await_response(
                    sent_command,
                    response_len,
                );
                proof {
                    let reported = with_response(result, self.buf@);
                    let rest = calls_between(asked, self.history());
                    lemma_calls_concat(sent, asked, self.history());
                    lemma_calls_concat(start, sent, self.history());
                    lemma_ack_then_response(code, response_len as nat, acks, rest, reported);
                    if stage is Start {
                        lemma_sent_then_ack(
                            code,
                            payload,
                            wanted,
                            calls_between(start, sent),
                            acks + rest,
                            reported,
                        );
                    }
                }
                result
            },
        }
    }

    /// Send a request that carries `data` behind its own data, wait for an ACK and then
    /// wait for a response.
    ///
    /// It is called as [`process`](Pn532::process) is.
    pub fn in_data_exchange<const M: usize>(
        &mut self,
        request: &Request<M>,
        response_len: usize,
        data: &[u8],
        stage: Stage,
    ) -> (result: Result<Progress<usize>, Error<I::Error>>)
        requires
            exchange_fits(N as nat, stage, M as nat + data@.len(), response_len as nat),
        ensures
            final(self).spec_timer() == old(self).spec_timer(),
            result matches Ok(Progress::Done(len)) ==> len <= response_len,
            stage == (Stage::Ack { expired: true }) <==> result == Err::<
                Progress<usize>,
                Error<I::Error>,
            >(Error::TimeoutAck),
            stage == (Stage::Response { expired: true }) <==> result == Err::<
                Progress<usize>,
                Error<I::Error>,
            >(Error::TimeoutResponse),
            ({
                let calls = calls_between(old(self).history(), final(self).history());
                &&& final(self).history() == old(self).history() + calls
                &&& exchange_step(
                    request.command.code(),
                    request.data@ + data@,
                    Some(response_len as nat),
                    stage,
                    calls,
                    with_response(result, final(self).buffer()),
                )
                &&& final(self).buffer() == buffer_after(
                    old(self).buffer(),
                    request.command.code(),
                    request.data@ + data@,
                    stage,
                    calls,
                )
            }),
    {
        self._process(request.borrow(), data, response_len, stage)
    }

    /// Send a request and wait for an ACK.
    ///
    /// It is called as [`process`](Pn532::process) is, and is done once the ACK has been
    /// received.
    pub fn process_no_response<const M: usize>(&mut self, request: &Request<M>, stage: Stage) -> (
    result: Result<Progress<()>, Error<I::Error>>)
        requires
            stage is Start ==> payload_fits(N as nat, M as nat),
            !(stage is Response),
        ensures
            final(self).spec_timer() == old(self).spec_timer(),
            stage == (Stage::Ack { expired: true }) <==> result == Err::<
                Progress<()>,
                Error<I::Error>,
            >(Error::TimeoutAck),
            result != Err::<Progress<()>, Error<I::Error>>(Error::TimeoutResponse),
            ({
                let calls = calls_between(old(self).history(), final(self).history());
                &&& final(self).history() == old(self).history() + calls
                &&& exchange_step(
                    request.command.code(),
                    request.data@,
                    None,
                    stage,
                    calls,
                    without_response(result),
                )
                &&& final(self).buffer() == buffer_after(
                    old(self).buffer(),
                    request.command.code(),
                    request.data@,
                    stage,
                    calls,
                )
            }),
    {
        self._process_no_response(request.borrow(), stage)
    }

    fn _process_no_response(&mut self, request: BorrowedRequest<'_>, stage: Stage) -> (result:
        Result<Progress<()>, Error<I::Error>>)
        requires
            stage is Start ==> payload_fits(N as nat, request.data@.len()),
            !(stage is Response),
        ensures
            final(self).spec_timer() == old(self).spec_timer(),
            stage == (Stage::Ack { expired: true }) <==> result == Err::<
                Progress<()>,
                Error<I::Error>,
            >(Error::TimeoutAck),
            result != Err::<Progress<()>, Error<I::Error>>(Error::TimeoutResponse),
            ({
                let calls = calls_between(old(self).history(), final(self).history());
                &&& final(self).history() == old(self).history() + calls
                &&& exchange_step(
                    request.command.code(),
                    request.data@,
                    None,
                    stage,
                    calls,
                    without_response(result),
                )
                &&& final(self).buffer() == buffer_after(
                    old(self).buffer(),
                    request.command.code(),
                    request.data@,
                    stage,
                    calls,
                )
            }),
    {
        match stage {
            Stage::Start => {
                assert(request.data@ + Seq::<u8>::empty() =~= request.data@);
                match self._send(request, &[]) {
                    Err(e) => {
                        return Err(e);
                    },
                    Ok(()) => {},
                }
            },
            Stage::Ack { expired } => {
                if expired {
                    return Err(Error::TimeoutAck);
                }
            },
            Stage::Response { .. } => {},
        }
        let ghost start = old(self).history();
        let ghost sent = self.history();
        let result: Result<Progress<()>, Error<I::Error>> = self.await_ack();
        proof {
            let code = request.command.code();
            let reported = without_response(result);
            lemma_calls_concat(start, sent, self.history());
            assert(ack_phase(code, None, calls_between(sent, self.history()), reported));
            if stage is Start {
                lemma_sent_then_ack(
                    code,
                    request.data@,
                    None,
                    calls_between(start, sent),
                    calls_between(sent, self.history()),
                    reported,
                );
            }
        }
        result
    }

    /// Send a request, with `body` behind its own data.
    ///
    /// What is handed to the interface is the frame up to its data checksum. The postamble
    /// is put behind it in the buffer and is not handed over. Data and body of more than 27
    /// bytes together are refused with [`Error::CrcError`], and nothing is handed over.
    pub fn send<const M: usize>(&mut self, request: &Request<M>, body: &[u8]) -> (result: Result<
        (),
        Error<I::Error>,
    >)
        requires
            payload_fits(N as nat, M as nat + body@.len()),
        ensures
            final(self).spec_timer() == old(self).spec_timer(),
            final(self).buffer() == staged(
                old(self).buffer(),
                request.command.code(),
                request.data@ + body@,
            ),
            ({
                let calls = calls_between(old(self).history(), final(self).history());
                &&& final(self).history() == old(self).history() + calls
                &&& send_phase(request.command.code(), request.data@ + body@, calls, result)
            }),
    {
        self._send(request.borrow(), body)
    }

    fn _send(&mut self, request: BorrowedRequest<'_>, body: &[u8]) -> (result: Result<
        (),
        Error<I::Error>,
    >)
        requires
            payload_fits(N as nat, request.data@.len() + body@.len()),
        ensures
            final(self).spec_timer() == old(self).spec_timer(),
            final(self).buffer() == staged(
                old(self).buffer(),
                request.command.code(),
                request.data@ + body@,
            ),
            ({
                let calls = calls_between(old(self).history(), final(self).history());
                &&& final(self).history() == old(self).history() + calls
                &&& send_phase(request.command.code(), request.data@ + body@, calls, result)
            }),
    {
        match self.lay_out(request, body) {
            None => Err(Error::CrcError),
            Some(end) => {
                assert(self.buf@.take(end as int) =~= command_frame(
                    request.command.code(),
                    request.data@ + body@,
                ));
                // the postamble is not part of what is handed over
                match self.interface.write(&self.buf[0..end]) {
                    Err(e) => Err(Error::from(e)),
                    Ok(()) => Ok(()),
                }
            },
        }
    }

    /// Lay out the frame for `request` and `body`, and return the index of its
    /// postamble, or nothing if one frame cannot carry that much.
    fn lay_out(&mut self, request: BorrowedRequest<'_>, body: &[u8]) -> (end: Option<usize>)
        requires
            payload_fits(N as nat, request.data@.len() + body@.len()),
        ensures
            final(self).spec_timer() == old(self).spec_timer(),
            final(self).spec_interface() == old(self).spec_interface(),
            final(self).buffer() == staged(
                old(self).buffer(),
                request.command.code(),
                request.data@ + body@,
            ),
            request.data@.len() + body@.len() > MAX_PAYLOAD ==> end is None,
            request.data@.len() + body@.len() <= MAX_PAYLOAD ==> end == Some(
                (request.data@.len() + body@.len() + 8) as usize,
            ),
    {
        let ghost payload = request.data@ + body@;
        let command: u8 = request.command.code();
        let data_len: u8 = frame_length(request.data, body);

        let mut i: usize = self.begin(data_len, command);
        let ghost before = old(self).buf@;
        let ghost head = header(HOST_TO_PN532, command, payload.len());

        // sum(command + data + frame identifier)
        let mut data_sum: u8 = HOST_TO_PN532.wrapping_add(command);
        match self.append(i, data_sum, request.data) {
            Some((last, sum)) => {
                i = last;
                data_sum = sum;
            },
            None => {
                assert(self.buf@ == staged(before, command, payload)) by {
                    let room = MAX_PAYLOAD as int;
                    lemma_overwrite_more(before, head, request.data@.take(room));
                    assert(request.data@.take(room) =~= payload.take(room));
                }
                return None;
            },
        }
        let ghost placed = head + request.data@;
        assert(self.buf@ == overwrite(before, placed)) by {
            lemma_overwrite_more(before, head, request.data@);
        }
        match self.append(i, data_sum, body) {
            Some((last, sum)) => {
                i = last;
                data_sum = sum;
            },
            None => {
                assert(self.buf@ == staged(before, command, payload)) by {
                    let room = MAX_PAYLOAD - request.data@.len();
                    lemma_overwrite_more(before, placed, body@.take(room));
                    assert(placed + body@.take(room) =~= head + payload.take(MAX_PAYLOAD as int));
                }
                return None;
            },
        }
        assert(self.buf@ == overwrite(before, head + payload)) by {
            lemma_overwrite_more(before, placed, body@);
            assert(placed + body@ =~= head + payload);
        }
        let ghost frame = command_frame(command, payload);
        assert(complement(data_sum as nat) == frame.last()) by {
            lemma_checksum_in_parts(HOST_TO_PN532, command, request.data@, body@);
        }

        i = i + 1;
        self.buf[i] = to_checksum(data_sum);
        assert(self.buf@ == overwrite(before, frame)) by {
            lemma_overwrite_push(before, head + payload, frame.last());
            assert((head + payload).push(frame.last()) =~= frame);
        }
        i = i + 1;
        self.buf[i] = POSTAMBLE;
        assert(self.buf@ == staged(before, command, payload)) by {
            lemma_overwrite_push(before, frame, POSTAMBLE);
        }
        Some(i)
    }

    /// Lay out what stands in a frame before its data, and return the index of
    /// the last byte.
    fn begin(&mut self, data_len: u8, command: u8) -> (last: usize)
        requires
            N >= 7,
        ensures
            last == 6,
            final(self).spec_timer() == old(self).spec_timer(),
            final(self).spec_interface() == old(self).spec_interface(),
            final(self).buffer() == overwrite(
                old(self).buffer(),
                seq![
                    PREAMBLE[0],
                    PREAMBLE[1],
                    PREAMBLE[2],
                    data_len,
                    complement(data_len as nat),
                    HOST_TO_PN532,
                    command,
                ],
            ),
    {
        let mut i: usize = 0;
        self.buf[i] = PREAMBLE[0];
        i = i + 1;
        self.buf[i] = PREAMBLE[1];
        i = i + 1;
        self.buf[i] = PREAMBLE[2];
        i = i + 1;
        self.buf[i] = data_len;
        i = i + 1;
        self.buf[i] = to_checksum(data_len);
        i = i + 1;
        self.buf[i] = HOST_TO_PN532;
        i = i + 1;
        self.buf[i] = command;
        i
    }

    /// Lay out `bytes` behind index `last`, as far as a frame takes them, adding
    /// them to `sum`.
    fn append(&mut self, last: usize, sum: u8, bytes: &[u8]) -> (appended: Option<(usize, u8)>)
        requires
            last <= MAX_PAYLOAD + 6,
            last + bytes@.len() < N || MAX_PAYLOAD + 6 < N,
        ensures
            final(self).spec_timer() == old(self).spec_timer(),
            final(self).spec_interface() == old(self).spec_interface(),
            ({
                let room = MAX_PAYLOAD + 6 - last;
                if bytes@.len() <= room {
                    &&& appended == Some(
                        (
                            (last + bytes@.len()) as usize,
                            ((sum as nat + byte_sum(bytes@)) % 256) as u8,
                        ),
                    )
                    &&& final(self).buffer() == old(self).buffer().take(last + 1) + bytes@ + old(
                        self,
                    ).buffer().skip(last + 1 + bytes@.len())
                } else {
                    &&& appended is None
                    &&& final(self).buffer() == old(self).buffer().take(last + 1) + bytes@.take(
                        room,
                    ) + old(self).buffer().skip(last + 1 + room)
                }
            }),
    {
        let mut i: usize = last;
        let mut total: u8 = sum;
        let mut k: usize = 0;
        while k < bytes.len()
            invariant
                k <= bytes@.len(),
                i == last + k,
                i <= MAX_PAYLOAD + 6,
                last + bytes@.len() < N || MAX_PAYLOAD + 6 < N,
                total == (sum as nat + byte_sum(bytes@.take(k as int))) % 256,
                self.timer == old(self).timer,
                self.interface == old(self).interface,
                self.buf@ == old(self).buf@.take(last + 1) + bytes@.take(k as int) + old(
                    self,
                ).buf@.skip(last + 1 + k),
            decreases bytes@.len() - k,
        {
            if i <= MAX_PAYLOAD + 5 {
                assert(bytes@.take(k + 1).drop_last() == bytes@.take(k as int));
                i = i + 1;
                self.buf[i] = bytes[k];
                total = total.wrapping_add(bytes[k]);
                k = k + 1;
                assert(self.buf@ =~= old(self).buf@.take(last + 1) + bytes@.take(k as int) + old(
                    self,
                ).buf@.skip(last + 1 + k));
            } else {
                return None;
            }
        }
        assert(bytes@.take(k as int) == bytes@);
        Some((i, total))
    }

    /// Check once whether the chip is ready.
    pub fn poll_ready(&mut self) -> (ready: Result<bool, Error<I::Error>>)
        ensures
            final(self).spec_timer() == old(self).spec_timer(),
            final(self).buffer() == old(self).buffer(),
            ({
                let calls = calls_between(old(self).history(), final(self).history());
                &&& final(self).history() == old(self).history() + calls
                &&& calls.len() == 1
                &&& calls[0] matches Call::WaitReady { readiness }
                &&& ready == match readiness {
                    Poll::Pending => Ok::<bool, Error<I::Error>>(false),
                    Poll::Ready(Ok(())) => Ok(true),
                    Poll::Ready(Err(e)) => Err(Error::InterfaceError(e)),
                }
            }),
    {
        match self.interface.wait_ready() {
            Poll::Pending => Ok(false),
            Poll::Ready(Ok(())) => Ok(true),
            Poll::Ready(Err(e)) => Err(Error::from(e)),
        }
    }

    /// Check once for an ACK, and receive it if it is there.
    fn await_ack(&mut self) -> (result: Result<Progress<()>, Error<I::Error>>)
        ensures
            final(self).spec_timer() == old(self).spec_timer(),
            final(self).buffer() == old(self).buffer(),
            ({
                let calls = calls_between(old(self).history(), final(self).history());
                &&& final(self).history() == old(self).history() + calls
                &&& forall|code: u8|
                    #[trigger] ack_phase(code, None, calls, without_response(result))
            }),
    {
        match self.poll_ready() {
            Err(e) => Err(e),
            Ok(false) => Ok(Progress::Pending(Waiting::Ack)),
            Ok(true) => match self.receive_ack() {
                Err(e) => Err(e),
                Ok(()) => Ok(Progress::Done(())),
            },
        }
    }

    /// Check once for a response, and receive it if it is there.
    fn await_response(&mut self, sent_command: Command, response_len: usize) -> (result: Result<
        Progress<usize>,
        Error<I::Error>,
    >)
        requires
            response_len + OVERHEAD <= N,
        ensures
            final(self).spec_timer() == old(self).spec_timer(),
            result matches Ok(Progress::Done(len)) ==> len <= response_len,
            ({
                let calls = calls_between(old(self).history(), final(self).history());
                &&& final(self).history() == old(self).history() + calls
                &&& response_phase(
                    sent_command.code(),
                    response_len as nat,
                    calls,
                    with_response(result, final(self).buffer()),
                )
                &&& final(self).buffer() == if calls.len() == 2 {
                    overwrite(old(self).buffer(), calls[1]->after)
                } else {
                    old(self).buffer()
                }
            }),
    {
        match self.poll_ready() {
            Err(e) => Err(e),
            Ok(false) => Ok(Progress::Pending(Waiting::Response)),
            Ok(true) => match self.receive_response(sent_command, response_len) {
                Err(e) => Err(e),
                Ok(data) => {
                    let len: usize = data.len();
                    let ghost received = data@;
                    assert(self.buf@.subrange(7, 7 + len) =~= received);
                    Ok(Progress::Done(len))
                },
            },
        }
    }

    /// Receive an ACK frame.
    /// This should be done after [`send`](Pn532::send) was called and the interface was checked to be ready.
    pub fn receive_ack(&mut self) -> (result: Result<(), Error<I::Error>>)
        ensures
            final(self).spec_timer() == old(self).spec_timer(),
            final(self).buffer() == old(self).buffer(),
            ({
                let calls = calls_between(old(self).history(), final(self).history());
                &&& final(self).history() == old(self).history() + calls
                &&& calls.len() == 1
                &&& calls[0] matches Call::Read { before, after, outcome }
                &&& before == zeros(ACK@.len())
                &&& after.len() == before.len()
                &&& result == ack_result(after, outcome)
                &&& result is Ok <==> outcome is Ok && after == seq![
                    0x00u8,
                    0x00,
                    0xFF,
                    0x00,
                    0xFF,
                    0x00,
                ]
                &&& outcome is Ok && result is Err ==> result == Err::<(), Error<I::Error>>(
                    Error::BadAck,
                )
                &&& outcome matches Err(e) ==> result == Err::<(), _>(Error::InterfaceError(e))
            }),
    {
        assert(ACK@ =~= seq![0x00u8, 0x00, 0xFF, 0x00, 0xFF, 0x00]);
        let mut ack_buf: [u8; 6] = [0;6];
        match self.interface.read(&mut ack_buf) {
            Err(e) => Err(Error::from(e)),
            Ok(()) => {
                if ack_buf[0] != ACK[0] || ack_buf[1] != ACK[1] || ack_buf[2] != ACK[2]
                    || ack_buf[3] != ACK[3] || ack_buf[4] != ACK[4] || ack_buf[5] != ACK[5] {
                    Err(Error::BadAck)
                } else {
                    assert(ack_buf@ =~= ACK@);
                    Ok(())
                }
            },
        }
    }

    /// Receive a response frame.
    /// This should be done after [`send`](Pn532::send) and [`receive_ack`](Pn532::receive_ack) was called and
    /// the interface was checked to be ready.
    ///
    /// `response_len` is the largest expected length of the returned data.
    pub fn receive_response(&mut self, sent_command: Command, response_len: usize) -> (result:
        Result<&[u8], Error<I::Error>>)
        requires
            response_len + OVERHEAD <= N,
        ensures
            final(self).spec_timer() == old(self).spec_timer(),
            ({
                let calls = calls_between(old(self).history(), final(self).history());
                &&& final(self).history() == old(self).history() + calls
                &&& calls.len() == 1
                &&& calls[0] matches Call::Read { before, after, outcome }
                &&& before == zeros((response_len + OVERHEAD) as nat)
                &&& after.len() == before.len()
                &&& final(self).buffer() == overwrite(old(self).buffer(), after)
                &&& response_view(result) == response_result(
                    after,
                    outcome,
                    sent_command.response_code(),
                )
                &&& outcome matches Err(e) ==> response_view(result) == Err::<Seq<u8>, _>(
                    Error::InterfaceError(e),
                )
                &&& result matches Ok(data) ==> {
                    let n = data@.len() as int;
                    &&& outcome is Ok
                    &&& n <= 253 && n <= response_len
                    &&& after[0] == 0x00 && after[1] == 0x00 && after[2] == 0xFF
                    &&& after[3] == n + 2
                    &&& (after[3] + after[4]) % 256 == 0
                    &&& after[5] == 0xD5
                    &&& after[6] == sent_command.code() + 1
                    &&& data@ == after.subrange(7, 7 + n)
                    &&& byte_sum(after.subrange(5, 8 + n)) % 256 == 0
                    &&& after[8 + n] == 0x00
                }
            }),
    {
        let (response_buf, _) = self.buf.split_at_mut(response_len + OVERHEAD);
        fill_zero(response_buf);
        match self.interface.read(response_buf) {
            Err(e) => Err(Error::from(e)),
            Ok(()) => {
                let result: Result<&[u8], Error<I::Error>> = parse_response(
                    response_buf,
                    sent_command.code() + 1,
                );
                proof {
                    if let Ok(data) = result {
                        law_accepted_iff_layout::<I::Error>(
                            response_buf@,
                            sent_command.response_code(),
                            data@,
                        );
                    }
                }
                result
            },
        }
    }

    /// The data of a response that was received by [`process`](Pn532::process) or
    /// [`in_data_exchange`](Pn532::in_data_exchange), which tell its length.
    pub fn response(&self, len: usize) -> (data: &[u8])
        requires
            len + 7 <= N,
        ensures
            data@ == self.buffer().subrange(7, 7 + len),
    {
        &self.buf[7..7 + len]
    }

    /// Read into `my_buff` what the chip sends, without parsing it.
    pub fn receive_big_response(&mut self, my_buff: &mut [u8]) -> (result: Result<
        (),
        Error<I::Error>,
    >)
        ensures
            final(self).spec_timer() == old(self).spec_timer(),
            final(self).buffer() == old(self).buffer(),
            final(my_buff)@.len() == old(my_buff)@.len(),
            ({
                let calls = calls_between(old(self).history(), final(self).history());
                &&& final(self).history() == old(self).history() + calls
                &&& calls.len() == 1
                &&& calls[0] matches Call::Read { before, after, outcome }
                &&& before == old(my_buff)@
                &&& after == final(my_buff)@
                &&& result == reported(outcome)
            }),
    {
        match self.interface.read(my_buff) {
            Err(e) => Err(Error::from(e)),
            Ok(()) => Ok(()),
        }
    }

    /// Send an ACK frame to force the PN532 to abort the current process.
    /// In that case, the PN532 discontinues the last processing and does not answer anything
    /// to the host controller.
    /// Then, the PN532 starts again waiting for a new command.
    pub fn abort(&mut self) -> (result: Result<(), Error<I::Error>>)
        ensures
            final(self).spec_timer() == old(self).spec_timer(),
            final(self).buffer() == old(self).buffer(),
            ({
                let calls = calls_between(old(self).history(), final(self).history());
                &&& final(self).history() == old(self).history() + calls
                &&& calls.len() == 1
                &&& calls[0] matches Call::Write { frame, outcome }
                &&& frame == ACK@
                &&& result == reported(outcome)
            }),
    {
        match self.interface.write(&ACK) {
            Err(e) => Err(Error::from(e)),
            Ok(()) => Ok(()),
        }
    }
}

impl<I: Interface, const N: usize> Pn532<I, (), N> {
    /// Create a Pn532 instance without a timer
    pub fn new_async(interface: I) -> (pn532: Self)
        ensures
            pn532.spec_interface() == interface,
            pn532.buffer() == zeros(N as nat),
    {
        Pn532 { interface, timer: (), buf: [0;N] }
    }

    /// Send a request, wait for an ACK and then wait for a response, for a task
    /// that yields while the chip is busy.
    ///
    /// `waiting` is what the previous call was waiting for, and nothing at first.
    /// Time never runs out.
    pub fn process_async<const M: usize>(
        &mut self,
        request: &Request<M>,
        response_len: usize,
        waiting: Option<Waiting>,
    ) -> (result: Result<Progress<usize>, Error<I::Error>>)
        requires
            exchange_fits(N as nat, stage_of(waiting), M as nat, response_len as nat),
        ensures
            result matches Ok(Progress::Done(len)) ==> len <= response_len,
            result != Err::<Progress<usize>, Error<I::Error>>(Error::TimeoutAck),
            result != Err::<Progress<usize>, Error<I::Error>>(Error::TimeoutResponse),
            ({
                let calls = calls_between(old(self).history(), final(self).history());
                &&& final(self).history() == old(self).history() + calls
                &&& exchange_step(
                    request.command.code(),
                    request.data@,
                    Some(response_len as nat),
                    stage_of(waiting),
                    calls,
                    with_response(result, final(self).buffer()),
                )
                &&& final(self).buffer() == buffer_after(
                    old(self).buffer(),
                    request.command.code(),
                    request.data@,
                    stage_of(waiting),
                    calls,
                )
            }),
    {
        self.process(request, response_len, untimed_stage(waiting))
    }

    /// Send a request and wait for an ACK, for a task that yields while the chip is
    /// busy.
    ///
    /// `waiting` is what the previous call was waiting for, and nothing at first.
    /// Time never runs out.
    pub fn process_no_response_async<const M: usize>(
        &mut self,
        request: &Request<M>,
        waiting: Option<Waiting>,
    ) -> (result: Result<Progress<()>, Error<I::Error>>)
        requires
            waiting is None ==> payload_fits(N as nat, M as nat),
            waiting != Some(Waiting::Response),
        ensures
            result != Err::<Progress<()>, Error<I::Error>>(Error::TimeoutAck),
            result != Err::<Progress<()>, Error<I::Error>>(Error::TimeoutResponse),
            ({
                let calls = calls_between(old(self).history(), final(self).history());
                &&& final(self).history() == old(self).history() + calls
                &&& exchange_step(
                    request.command.code(),
                    request.data@,
                    None,
                    stage_of(waiting),
                    calls,
                    without_response(result),
                )
                &&& final(self).buffer() == buffer_after(
                    old(self).buffer(),
                    request.command.code(),
                    request.data@,
                    stage_of(waiting),
                    calls,
                )
            }),
    {
        self.process_no_response(request, untimed_stage(waiting))
    }
}

/// The length byte of a frame that carries `data` and `body`: the frame
/// identifier and the command count too.
fn frame_length(data: &[u8], body: &[u8]) -> (len: u8)
    ensures
        len == (data@.len() + body@.len() + 2) % 256,
{
    let data_len: usize = data.len();
    let body_len: usize = body.len();
    assert(data_len as u8 == data_len % 256) by (bit_vector);
    assert(body_len as u8 == body_len % 256) by (bit_vector);
    let hlen: u8 = (data_len as u8).wrapping_add(1);
    let blen: u8 = body_len as u8;
    hlen.wrapping_add(blen).wrapping_add(1)
}

/// Set every byte to zero.
fn fill_zero(bytes: &mut [u8])
    ensures
        final(bytes)@ == zeros(old(bytes)@.len()),
{
    let len: usize = bytes.len();
    let mut i: usize = 0;
    while i < len
        invariant
            i <= len,
            bytes@.len() == len,
            forall|j: int| 0 <= j < i ==> bytes@[j] == 0,
        decreases len - i,
    {
        bytes[i] = 0;
        i += 1;
    }
}

} // verus!
