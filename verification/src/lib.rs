//! Driver protocol for the PN532 NFC controller: frames, requests, and the
//! exchange of a request for its acknowledgement and response.

pub mod error;
pub mod exchange;
pub mod frame;
pub mod interface;
pub mod laws;
pub mod protocol;
pub mod requests;
pub mod runs;
pub mod steps;

pub use error::Error;
pub use exchange::{Progress, Stage, Waiting};
pub use frame::parse_response;
pub use interface::Interface;
pub use protocol::Pn532;
pub use requests::{BorrowedRequest, Command, Request};
