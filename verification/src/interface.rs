//! The link to the chip, and the record of the calls made over it.

use core::fmt::Debug;
use core::task::Poll;
use vstd::prelude::*;

verus! {

/// `core::task::Poll`, with both of its variants visible to proofs.
#[verifier::external_type_specification]
#[verifier::reject_recursive_types(T)]
pub struct ExPoll<T>(Poll<T>);

/// One call made through an [`Interface`], with what went in and what came back.
#[verifier::reject_recursive_types(E)]
pub enum Call<E> {
    /// `write` was called with `frame`.
    Write { frame: Seq<u8>, outcome: Result<(), E> },
    /// `wait_ready` was called.
    WaitReady { readiness: Poll<Result<(), E>> },
    /// `read` was called on a buffer that held `before` and then held `after`.
    Read { before: Seq<u8>, after: Seq<u8>, outcome: Result<(), E> },
}

/// Trait for the transport (I2C, SPI, serial) over which a PN532 is reached.
///
/// The methods promise nothing about the chip or the wire. Their contracts
/// only say that a call is added to the record of calls, so that the functions
/// of this library can state which calls they make and in which order.
pub trait Interface {
    /// What the transport fails with.
    type Error: Debug;

    /// Every call made so far, oldest first.
    ///
    /// An implementation that is itself verified defines this, for the contracts
    /// below cannot be met without a record that grows. Code that is not verified
    /// may leave it out.
    open spec fn history(&self) -> Seq<Call<Self::Error>> {
        arbitrary()
    }

    /// Write a frame.
    fn write(&mut self, frame: &[u8]) -> (outcome: Result<(), Self::Error>)
        ensures
            final(self).history() == old(self).history().push(
                Call::Write { frame: frame@, outcome },
            ),
    ;

    /// Check whether the chip has something to read.
    fn wait_ready(&mut self) -> (readiness: Poll<Result<(), Self::Error>>)
        ensures
            final(self).history() == old(self).history().push(Call::WaitReady { readiness }),
    ;

    /// Fill `buf` with what the chip sends.
    fn read(&mut self, buf: &mut [u8]) -> (outcome: Result<(), Self::Error>)
        ensures
            final(buf)@.len() == old(buf)@.len(),
            final(self).history() == old(self).history().push(
                Call::Read { before: old(buf)@, after: final(buf)@, outcome },
            ),
    ;
}

/// The calls that were added to the record `before` to make the record `after`.
pub open spec fn calls_between<E>(before: Seq<Call<E>>, after: Seq<Call<E>>) -> Seq<Call<E>> {
    after.skip(before.len() as int)
}

/// Two calls that got the same answer, if they asked the same thing.
pub open spec fn same_answer<E>(a: Call<E>, b: Call<E>) -> bool {
    match (a, b) {
        (Call::Write { outcome: x, .. }, Call::Write { outcome: y, .. }) => x == y,
        (Call::WaitReady { readiness: x }, Call::WaitReady { readiness: y }) => x == y,
        (
            Call::Read { after: s, outcome: x, .. },
            Call::Read { after: t, outcome: y, .. },
        ) => s == t && x == y,
        _ => true,
    }
}

/// Calls added in two rounds are those of the first, then those of the second.
pub proof fn lemma_calls_concat<E>(first: Seq<Call<E>>, second: Seq<Call<E>>, third: Seq<Call<E>>)
    requires
        second == first + calls_between(first, second),
        third == second + calls_between(second, third),
    ensures
        calls_between(first, third) == calls_between(first, second) + calls_between(second, third),
        third == first + calls_between(first, third),
{
    assert(calls_between(first, third) =~= calls_between(first, second) + calls_between(
        second,
        third,
    ));
    assert(third =~= first + calls_between(first, third));
}

} // verus!
