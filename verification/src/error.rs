//! What can go wrong between the host and the PN532.

use core::fmt::Debug;
use vstd::prelude::*;
use vstd::std_specs::convert::FromSpecImpl;

verus! {

/// Pn532 Error
#[derive(Copy, Clone, Eq, PartialEq, Debug)]
pub enum Error<E: Debug> {
    /// Could not parse ACK frame
    BadAck,
    /// Could not parse response frame
    BadResponseFrame,
    /// Received a syntax error frame
    Syntax,
    /// CRC for either the length or the data is wrong
    CrcError,
    /// The provided `response_len` was too low
    BufTooSmall,
    /// Did not receive an ACK frame in time
    TimeoutAck,
    /// Did not receive a response frame in time
    TimeoutResponse,
    /// Interface specific Error
    InterfaceError(E),
}

impl<E: Debug> From<E> for Error<E> {
    fn from(e: E) -> (error: Self) {
        Error::InterfaceError(e)
    }
}

impl<E: Debug> FromSpecImpl<E> for Error<E> {
    open spec fn obeys_from_spec() -> bool {
        true
    }

    open spec fn from_spec(e: E) -> Self {
        Error::InterfaceError(e)
    }
}

/// The outcome of an interface call as the driver reports it: a failure is
/// wrapped, a success is passed on.
pub open spec fn reported<E: Debug>(outcome: Result<(), E>) -> Result<(), Error<E>> {
    match outcome {
        Ok(()) => Ok(()),
        Err(e) => Err(Error::InterfaceError(e)),
    }
}

} // verus!
