//! What holds of a whole exchange, from the first step to the last.

use crate::error::Error;
use crate::exchange::{ack_phase, exchange_step, response_phase, zeros};
use crate::exchange::{Progress, Stage, Waiting, MAX_PAYLOAD, OVERHEAD};
use crate::frame::{command_frame, max_response_data, parsed, response_frame, ACK};
use crate::interface::{same_answer, Call};
use crate::laws::{delivered, law_response_len_decides};
use crate::requests::Command;
use crate::steps::law_no_timeout_unless_expired;
use core::fmt::Debug;
use core::task::Poll;
use vstd::prelude::*;

verus! {

/// One step of an exchange: where it was entered, the calls it made, and what it
/// reported.
#[verifier::reject_recursive_types(E)]
pub struct Step<E: Debug> {
    pub stage: Stage,
    pub calls: Seq<Call<E>>,
    pub result: Result<Progress<Seq<u8>>, Error<E>>,
}

/// `next` enters the exchange where `step` left it waiting.
pub open spec fn follows<E: Debug>(step: Step<E>, next: Step<E>) -> bool {
    &&& step.result matches Ok(Progress::Pending(waiting))
    &&& next.stage == waiting.resume(true) || next.stage == waiting.resume(false)
}

/// `steps` are those of one exchange, from its start on.
pub open spec fn is_run<E: Debug>(
    code: u8,
    payload: Seq<u8>,
    response_len: Option<nat>,
    steps: Seq<Step<E>>,
) -> bool {
    &&& steps.len() >= 1
    &&& steps[0].stage is Start
    &&& forall|i: int|
        0 <= i < steps.len() ==> {
            let step = #[trigger] steps[i];
            exchange_step(code, payload, response_len, step.stage, step.calls, step.result)
        }
    &&& forall|i: int, j: int|
        0 <= i < steps.len() && j == i + 1 && j < steps.len() ==> follows(
            #[trigger] steps[i],
            #[trigger] steps[j],
        )
}

/// All calls made in `steps`.
pub open spec fn all_calls<E: Debug>(steps: Seq<Step<E>>) -> Seq<Call<E>>
    decreases steps.len(),
{
    if steps.len() == 0 {
        Seq::empty()
    } else {
        all_calls(steps.drop_last()) + steps.last().calls
    }
}

/// The check that found the chip busy.
pub open spec fn busy<E>() -> Call<E> {
    Call::WaitReady { readiness: Poll::Pending }
}

/// The check that found the chip ready.
pub open spec fn ready<E>() -> Call<E> {
    Call::WaitReady { readiness: Poll::Ready(Ok(())) }
}

/// `calls` without the checks that found the chip busy.
pub open spec fn settled<E>(calls: Seq<Call<E>>) -> Seq<Call<E>>
    decreases calls.len(),
{
    if calls.len() == 0 {
        Seq::empty()
    } else {
        let rest = settled(calls.drop_last());
        if calls.last() == busy::<E>() {
            rest
        } else {
            rest.push(calls.last())
        }
    }
}

/// The call that sends a request, if it succeeds.
pub open spec fn sent<E>(code: u8, payload: Seq<u8>) -> Call<E> {
    Call::Write { frame: command_frame(code, payload), outcome: Ok(()) }
}

/// The call that reads an acknowledgement.
pub open spec fn acknowledged<E>() -> Call<E> {
    Call::Read { before: zeros(ACK@.len()), after: ACK@, outcome: Ok(()) }
}

/// The calls by which a request is sent and acknowledged.
pub open spec fn opening<E>(code: u8, payload: Seq<u8>) -> Seq<Call<E>> {
    seq![sent(code, payload), ready(), acknowledged()]
}

/// `call` failed with `error`.
pub open spec fn failed_with<E>(call: Call<E>, error: E) -> bool {
    match call {
        Call::Write { outcome, .. } => outcome == Err::<(), E>(error),
        Call::WaitReady { readiness } => readiness == Poll::Ready(Err::<(), E>(error)),
        Call::Read { outcome, .. } => outcome == Err::<(), E>(error),
    }
}

/// The calls of an exchange that finds nothing amiss, up to the read of the
/// response.
pub open spec fn regular<E>(code: u8, payload: Seq<u8>) -> Seq<Call<E>> {
    opening(code, payload).push(ready())
}

/// `call` asks what an exchange asks at position `i`, whatever the answer.
pub open spec fn asks<E>(
    code: u8,
    payload: Seq<u8>,
    response_len: Option<nat>,
    i: int,
    call: Call<E>,
) -> bool {
    match call {
        Call::Write { frame, .. } => i == 0 && frame == command_frame(code, payload),
        Call::WaitReady { .. } => i == 1 || i == 3 && response_len is Some,
        Call::Read { before, after, .. } => {
            &&& after.len() == before.len()
            &&& {
                ||| i == 2 && before == zeros(ACK@.len())
                ||| i == 4 && response_len is Some && before == zeros(
                    response_len->0 + OVERHEAD as nat,
                )
            }
        },
    }
}

/// `calls` send a request, receive its ACK, and read a response that yields
/// `response`.
pub open spec fn response_read<E: Debug>(
    code: u8,
    payload: Seq<u8>,
    response_len: Option<nat>,
    calls: Seq<Call<E>>,
    response: Result<Seq<u8>, Error<E>>,
) -> bool {
    &&& response_len matches Some(len)
    &&& calls.len() == 5
    &&& calls.take(3) == opening::<E>(code, payload)
    &&& calls[3] == ready::<E>()
    &&& calls[4] matches Call::Read { before, after, outcome: Ok(()) }
    &&& before == zeros(len + OVERHEAD as nat)
    &&& after.len() == before.len()
    &&& parsed::<E>(after, (code + 1) as u8) == response
}

/// What `result` tells about the calls that an exchange has made, apart from the
/// checks that found the chip busy.
///
/// An error of the interface comes from the last call; those before it succeeded
/// and are the beginning of the regular order.
pub open spec fn accounts_for<E: Debug>(
    code: u8,
    payload: Seq<u8>,
    response_len: Option<nat>,
    calls: Seq<Call<E>>,
    result: Result<Progress<Seq<u8>>, Error<E>>,
) -> bool {
    if payload.len() > MAX_PAYLOAD {
        &&& calls.len() == 0
        &&& result == Err::<Progress<Seq<u8>>, _>(Error::<E>::CrcError)
    } else {
        match result {
            Ok(Progress::Pending(Waiting::Ack)) | Err(Error::TimeoutAck) => calls == seq![
                sent::<E>(code, payload),
            ],
            Ok(Progress::Pending(Waiting::Response)) | Err(Error::TimeoutResponse) => {
                &&& response_len is Some
                &&& calls == opening::<E>(code, payload)
            },
            Ok(Progress::Done(data)) => match response_len {
                None => data.len() == 0 && calls == opening::<E>(code, payload),
                Some(len) => response_read(code, payload, response_len, calls, Ok(data)),
            },
            Err(Error::BadAck) => {
                &&& calls.len() == 3
                &&& calls.take(2) == seq![sent::<E>(code, payload), ready()]
                &&& calls[2] matches Call::Read { before, after, outcome: Ok(()) }
                &&& before == zeros(ACK@.len())
                &&& after.len() == before.len()
                &&& after != ACK@
            },
            Err(Error::InterfaceError(e)) => {
                &&& 1 <= calls.len() <= 5
                &&& calls.drop_last() == regular::<E>(code, payload).take(calls.len() - 1)
                &&& asks(code, payload, response_len, calls.len() - 1, calls.last())
                &&& failed_with(calls.last(), e)
            },
            Err(error) => response_read(code, payload, response_len, calls, Err(error)),
        }
    }
}

proof fn lemma_settled_concat<E>(a: Seq<Call<E>>, b: Seq<Call<E>>)
    ensures
        settled(a + b) == settled(a) + settled(b),
    decreases b.len(),
{
    if b.len() == 0 {
        assert(a + b =~= a);
        assert(settled(a) + settled(b) =~= settled(a));
    } else {
        assert((a + b).drop_last() =~= a + b.drop_last());
        lemma_settled_concat(a, b.drop_last());
        assert(settled(a + b) =~= settled(a) + settled(b));
    }
}

proof fn lemma_settled_first<E>(calls: Seq<Call<E>>)
    requires
        calls.len() >= 1,
    ensures
        calls[0] == busy::<E>() ==> settled(calls) == settled(calls.skip(1)),
        calls[0] != busy::<E>() ==> settled(calls) == seq![calls[0]] + settled(calls.skip(1)),
{
    let first = seq![calls[0]];
    assert(calls =~= first + calls.skip(1));
    lemma_settled_concat(first, calls.skip(1));
    assert(first.drop_last() =~= Seq::empty());
    assert(settled(first.drop_last()) =~= Seq::empty());
    if calls[0] == busy::<E>() {
        assert(settled(first) =~= Seq::empty());
        assert(settled(calls) =~= settled(calls.skip(1)));
    } else {
        assert(settled(first) =~= first);
    }
}

proof fn lemma_success_is_unique<E>(call: Call<E>)
    ensures
        call matches Call::WaitReady { readiness: Poll::Ready(Ok(())) } ==> call == ready::<E>(),
        call matches Call::Write { frame, outcome: Ok(()) } ==> call == (Call::Write {
            frame,
            outcome: Ok::<(), E>(()),
        }),
        call matches Call::Read { before, after, outcome: Ok(()) } ==> call == (Call::Read {
            before,
            after,
            outcome: Ok::<(), E>(()),
        }),
{
    match call {
        Call::WaitReady { readiness: Poll::Ready(Ok(unit)) } => {
            assert(unit == ());
        },
        Call::Write { frame, outcome: Ok(unit) } => {
            assert(unit == ());
        },
        Call::Read { before, after, outcome: Ok(unit) } => {
            assert(unit == ());
        },
        _ => {},
    }
}

proof fn lemma_response_phase_accounts<E: Debug>(
    code: u8,
    payload: Seq<u8>,
    len: nat,
    calls: Seq<Call<E>>,
    result: Result<Progress<Seq<u8>>, Error<E>>,
)
    requires
        payload.len() <= MAX_PAYLOAD,
        response_phase(code, len, calls, result),
    ensures
        accounts_for(
            code,
            payload,
            Some(len),
            opening::<E>(code, payload) + settled(calls),
            result,
        ),
{
    let start = opening::<E>(code, payload);
    lemma_settled_first(calls);
    if calls.len() == 1 {
        assert(calls.skip(1) =~= Seq::empty());
        assert(start + Seq::<Call<E>>::empty() =~= start);
        if calls[0] != busy::<E>() {
            let all = start + settled(calls);
            assert(all =~= start.push(calls[0]));
            assert(all.drop_last() =~= regular::<E>(code, payload).take(3));
        }
    } else {
        lemma_settled_first(calls.skip(1));
        assert(calls.skip(1).skip(1) =~= Seq::empty());
        let all = start + settled(calls);
        assert(settled(calls) =~= calls);
        assert(all.take(3) =~= start);
        lemma_success_is_unique(calls[0]);
        assert(all.drop_last() =~= regular::<E>(code, payload).take(4));
    }
}

proof fn lemma_ack_phase_accounts<E: Debug>(
    code: u8,
    payload: Seq<u8>,
    response_len: Option<nat>,
    calls: Seq<Call<E>>,
    result: Result<Progress<Seq<u8>>, Error<E>>,
)
    requires
        payload.len() <= MAX_PAYLOAD,
        ack_phase(code, response_len, calls, result),
    ensures
        accounts_for(
            code,
            payload,
            response_len,
            seq![sent::<E>(code, payload)] + settled(calls),
            result,
        ),
{
    let start = seq![sent::<E>(code, payload)];
    lemma_settled_first(calls);
    if calls.len() == 1 {
        assert(calls.skip(1) =~= Seq::empty());
        assert(start + Seq::<Call<E>>::empty() =~= start);
        if calls[0] != busy::<E>() {
            let all = start + settled(calls);
            assert(all =~= start.push(calls[0]));
            assert(all.drop_last() =~= regular::<E>(code, payload).take(1));
        }
    } else {
        lemma_settled_first(calls.skip(1));
        let rest = calls.skip(2);
        assert(calls.skip(1).skip(1) =~= rest);
        lemma_success_is_unique(calls[0]);
        lemma_success_is_unique(calls[1]);
        let all = start + settled(calls);
        assert(settled(calls) =~= seq![calls[0], calls[1]] + settled(rest));
        assert(all =~= seq![start[0], calls[0], calls[1]] + settled(rest));
        if calls.len() == 2 {
            assert(rest =~= Seq::empty());
            assert(all =~= seq![start[0], calls[0], calls[1]]);
            assert(all.take(2) =~= seq![sent::<E>(code, payload), ready()]);
            assert(all.drop_last() =~= regular::<E>(code, payload).take(2));
        }
        if calls[1] == acknowledged::<E>() && response_len is Some {
            lemma_response_phase_accounts(code, payload, response_len->0, rest, result);
        }
    }
}

proof fn lemma_start_accounts<E: Debug>(
    code: u8,
    payload: Seq<u8>,
    response_len: Option<nat>,
    calls: Seq<Call<E>>,
    result: Result<Progress<Seq<u8>>, Error<E>>,
)
    requires
        exchange_step(code, payload, response_len, Stage::Start, calls, result),
    ensures
        accounts_for(code, payload, response_len, settled(calls), result),
{
    if calls.len() > 0 {
        lemma_settled_first(calls);
        if calls.len() == 1 {
            assert(calls.skip(1) =~= Seq::empty());
            assert(settled(calls) =~= calls);
            assert(calls.drop_last() =~= regular::<E>(code, payload).take(0));
        }
        lemma_success_is_unique(calls[0]);
        if calls[0] == sent::<E>(code, payload) {
            lemma_ack_phase_accounts(code, payload, response_len, calls.skip(1), result);
        }
    }
}

/// The result of an exchange tells which calls were made, and in which order.
///
/// Apart from the checks that find the chip busy, an exchange that completes
/// writes the request, sees the chip ready, reads the ACK, and, if a response is
/// wanted, sees the chip ready again and reads that. One that runs out of time has
/// stopped before the frame that it reports as missing, and one that fails has
/// stopped at the call that failed.
pub proof fn law_result_accounts_for_calls<E: Debug>(
    code: u8,
    payload: Seq<u8>,
    response_len: Option<nat>,
    steps: Seq<Step<E>>,
)
    requires
        is_run(code, payload, response_len, steps),
    ensures
        accounts_for(
            code,
            payload,
            response_len,
            settled(all_calls(steps)),
            steps.last().result,
        ),
    decreases steps.len(),
{
    let last = steps.last();
    let before = steps.drop_last();
    lemma_settled_concat(all_calls(before), last.calls);
    if steps.len() == 1 {
        assert(before =~= Seq::empty());
        assert(all_calls(before) =~= Seq::empty());
        assert(all_calls(steps) =~= last.calls);
        lemma_start_accounts(code, payload, response_len, last.calls, last.result);
    } else {
        assert(before.last() == steps[steps.len() - 2]);
        assert(follows(before.last(), last));
        law_result_accounts_for_calls(code, payload, response_len, before);
        let done = settled(all_calls(before));
        if last.calls.len() == 0 {
            assert(done + settled(last.calls) =~= done);
        }
        match last.stage {
            Stage::Start => {},
            Stage::Ack { expired } => {
                if !expired {
                    lemma_ack_phase_accounts(
                        code,
                        payload,
                        response_len,
                        last.calls,
                        last.result,
                    );
                }
            },
            Stage::Response { expired } => {
                if !expired {
                    lemma_response_phase_accounts(
                        code,
                        payload,
                        response_len->0,
                        last.calls,
                        last.result,
                    );
                }
            },
        }
    }
}

/// A step is determined by the answers it gets: where two steps that start alike
/// are answered alike, they make the same calls and report the same.
pub proof fn law_answers_determine_step<E: Debug>(
    code: u8,
    payload: Seq<u8>,
    response_len: Option<nat>,
    a: Step<E>,
    b: Step<E>,
)
    requires
        exchange_step(code, payload, response_len, a.stage, a.calls, a.result),
        exchange_step(code, payload, response_len, b.stage, b.calls, b.result),
        a.stage == b.stage,
        forall|i: int|
            0 <= i < a.calls.len() && i < b.calls.len() ==> same_answer(
                #[trigger] a.calls[i],
                #[trigger] b.calls[i],
            ),
    ensures
        a.calls == b.calls,
        a.result == b.result,
{
    let offset: int = if a.stage is Start {
        1
    } else {
        0
    };
    assert forall|i: int| 0 <= i < a.calls.len() && i < b.calls.len() implies a.calls[i]
        == b.calls[i] by {
        assert(same_answer(a.calls[i], b.calls[i]));
        if offset == 1 && i > 0 {
            assert(a.calls.skip(1)[i - 1] == a.calls[i]);
            assert(b.calls.skip(1)[i - 1] == b.calls[i]);
            if i > 2 {
                assert(a.calls.skip(1).skip(2)[i - 3] == a.calls[i]);
                assert(b.calls.skip(1).skip(2)[i - 3] == b.calls[i]);
            }
        } else if i >= 2 {
            assert(a.calls.skip(2)[i - 2] == a.calls[i]);
            assert(b.calls.skip(2)[i - 2] == b.calls[i]);
        }
    }
    assert(a.calls =~= b.calls);
}

/// An exchange that ends with `result` is over, and not for want of time.
pub open spec fn is_final<E: Debug>(result: Result<Progress<Seq<u8>>, Error<E>>) -> bool {
    !(result matches Ok(Progress::Pending(_))) && !(result matches Err(Error::TimeoutAck)) && !(
    result matches Err(Error::TimeoutResponse))
}

/// Checks that find the chip busy only delay an exchange: without them, the calls
/// of one that is over and did not run out of time are those of a single step from
/// the start, with the same result.
pub proof fn law_busy_checks_only_delay<E: Debug>(
    code: u8,
    payload: Seq<u8>,
    response_len: Option<nat>,
    steps: Seq<Step<E>>,
)
    requires
        is_run(code, payload, response_len, steps),
        is_final(steps.last().result),
    ensures
        exchange_step(
            code,
            payload,
            response_len,
            Stage::Start,
            settled(all_calls(steps)),
            steps.last().result,
        ),
{
    let calls = settled(all_calls(steps));
    let result = steps.last().result;
    law_result_accounts_for_calls(code, payload, response_len, steps);
    if payload.len() <= MAX_PAYLOAD {
        let opened = regular::<E>(code, payload);
        assert forall|i: int| 0 <= i < calls.len() - 1 implies calls[i] == opened[i] by {
            if result matches Err(Error::InterfaceError(_)) {
                assert(calls.drop_last()[i] == opened.take(calls.len() - 1)[i]);
            } else if i < 2 && calls.len() == 3 {
                assert(calls.take(2)[i] == calls[i]);
            } else if i < 3 {
                assert(calls.take(3)[i] == calls[i]);
            }
        }
        let after_write = calls.skip(1);
        assert(forall|i: int| 0 <= i < after_write.len() ==> after_write[i] == calls[i + 1]);
        if calls.len() > 3 {
            let after_ack = after_write.skip(2);
            assert(forall|i: int| 0 <= i < after_ack.len() ==> after_ack[i] == calls[i + 3]);
        }
    }
}

/// Two exchanges of the same request that are answered alike, apart from the checks
/// that find the chip busy, make the same calls apart from those checks, and so
/// write the same bytes, and end alike, however often either found the chip busy.
pub proof fn law_answers_determine_exchange<E: Debug>(
    code: u8,
    payload: Seq<u8>,
    response_len: Option<nat>,
    a: Seq<Step<E>>,
    b: Seq<Step<E>>,
)
    requires
        is_run(code, payload, response_len, a),
        is_run(code, payload, response_len, b),
        is_final(a.last().result),
        is_final(b.last().result),
        forall|i: int|
            0 <= i < settled(all_calls(a)).len() && i < settled(all_calls(b)).len()
                ==> same_answer(
                #[trigger] settled(all_calls(a))[i],
                #[trigger] settled(all_calls(b))[i],
            ),
    ensures
        settled(all_calls(a)) == settled(all_calls(b)),
        a.last().result == b.last().result,
{
    law_busy_checks_only_delay(code, payload, response_len, a);
    law_busy_checks_only_delay(code, payload, response_len, b);
    let whole_a = Step {
        stage: Stage::Start,
        calls: settled(all_calls(a)),
        result: a.last().result,
    };
    let whole_b = Step {
        stage: Stage::Start,
        calls: settled(all_calls(b)),
        result: b.last().result,
    };
    law_answers_determine_step(code, payload, response_len, whole_a, whole_b);
}

/// Time that runs out ends an exchange, with the error that belongs to what was
/// waited for, and nothing else ends it so.
pub proof fn law_expiry_ends_the_exchange<E: Debug>(
    code: u8,
    payload: Seq<u8>,
    response_len: Option<nat>,
    steps: Seq<Step<E>>,
    i: int,
)
    requires
        is_run(code, payload, response_len, steps),
        0 <= i < steps.len(),
    ensures
        steps[i].stage == (Stage::Ack { expired: true }) <==> steps[i].result == Err::<
            Progress<Seq<u8>>,
            Error<E>,
        >(Error::TimeoutAck),
        steps[i].stage == (Stage::Response { expired: true }) <==> steps[i].result == Err::<
            Progress<Seq<u8>>,
            Error<E>,
        >(Error::TimeoutResponse),
        steps[i].stage == (Stage::Ack { expired: true }) || steps[i].stage == (Stage::Response {
            expired: true,
        }) ==> i == steps.len() - 1 && steps[i].calls.len() == 0,
{
    let step = steps[i];
    law_no_timeout_unless_expired(
        code,
        payload,
        response_len,
        step.stage,
        step.calls,
        step.result,
    );
    if i < steps.len() - 1 {
        let next = steps[i + 1];
        assert(follows(step, next));
    }
}

/// The answer of a chip that is ready, acknowledges what it is sent, and responds
/// with `response`.
pub open spec fn answered<E>(call: Call<E>, response: Seq<u8>) -> bool {
    match call {
        Call::Write { outcome, .. } => outcome is Ok,
        Call::WaitReady { readiness } => readiness matches Poll::Ready(Ok(())),
        Call::Read { before, after, outcome } => {
            &&& outcome is Ok
            &&& after == delivered(
                if before.len() == ACK@.len() {
                    ACK@
                } else {
                    response
                },
                before.len(),
            )
        },
    }
}

/// Of a chip that is ready, acknowledges the request and responds to it, an
/// exchange gets the data of the response, provided that `response_len` allows for
/// it.
pub proof fn law_answered_request_completes<E: Debug>(
    command: Command,
    payload: Seq<u8>,
    response_len: nat,
    data: Seq<u8>,
    calls: Seq<Call<E>>,
    result: Result<Progress<Seq<u8>>, Error<E>>,
)
    requires
        payload.len() <= MAX_PAYLOAD,
        data.len() <= max_response_data(),
        exchange_step(
            command.code(),
            payload,
            Some(response_len),
            Stage::Start,
            calls,
            result,
        ),
        forall|i: int|
            0 <= i < calls.len() ==> answered(
                #[trigger] calls[i],
                response_frame(command.response_code(), data),
            ),
    ensures
        calls.len() == 5,
        result == if data.len() <= response_len {
            Ok::<_, Error<E>>(Progress::Done(data))
        } else {
            Err(Error::BufTooSmall)
        },
{
    let response = response_frame(command.response_code(), data);
    let after_write = calls.skip(1);
    assert(answered(calls[0], response));
    assert(after_write[0] == calls[1]);
    assert(answered(calls[1], response));
    assert(after_write[1] == calls[2]);
    assert(answered(calls[2], response));
    assert(delivered(ACK@, ACK@.len()) =~= ACK@);
    let after_ack = after_write.skip(2);
    assert(after_ack[0] == calls[3]);
    assert(answered(calls[3], response));
    assert(after_ack[1] == calls[4]);
    assert(answered(calls[4], response));
    law_response_len_decides::<E>(command.response_code(), data, response_len);
}

/// An exchange writes at most one frame: the request, as its very first call.
pub proof fn law_request_is_written_once<E: Debug>(
    code: u8,
    payload: Seq<u8>,
    response_len: Option<nat>,
    steps: Seq<Step<E>>,
    i: int,
)
    requires
        is_run(code, payload, response_len, steps),
        0 <= i < all_calls(steps).len(),
        all_calls(steps)[i] is Write,
    ensures
        i == 0,
        all_calls(steps)[i]->frame == command_frame(code, payload),
    decreases steps.len(),
{
    let last = steps.last();
    let before = steps.drop_last();
    let done = all_calls(before).len();
    if steps.len() == 1 {
        assert(before =~= Seq::empty());
        assert(all_calls(steps) =~= last.calls);
        if i > 0 {
            assert(last.calls.skip(1)[i - 1] == last.calls[i]);
            if i > 2 {
                assert(last.calls.skip(1).skip(2)[i - 3] == last.calls[i]);
            }
        }
    } else {
        assert(before.last() == steps[steps.len() - 2]);
        assert(follows(before.last(), last));
        if i < done {
            law_request_is_written_once(code, payload, response_len, before, i);
        } else {
            let k = i - done;
            assert(all_calls(steps)[i] == last.calls[k]);
            if k >= 2 {
                assert(last.calls.skip(2)[k - 2] == last.calls[k]);
            }
        }
    }
}

} // verus!
