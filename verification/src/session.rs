//! Decision logic of one request/response exchange.
//!
//! The session itself owns no state between calls: a caller encodes a
//! command, performs the write/flush/read on its byte stream, and reports
//! what happened as a [`LinkEvent`].  Turning that event into the outcome
//! of the exchange is pure logic and lives here.

use vstd::prelude::*;

use crate::messages::Response;
use crate::messages::decode_response;
use crate::messages::decode_response_spec;

verus! {

/// What the byte stream did during one exchange, as observed by the caller
/// that drives it.
#[derive(Debug)]
pub enum LinkEvent {
    /// Writing the request frame failed at the OS/driver level.
    WriteFailed,
    /// Flushing the stream after the write failed.
    FlushFailed,
    /// No bytes arrived within the configured read timeout.
    ReadTimedOut,
    /// Reading failed at the OS/driver level.
    ReadFailed,
    /// The read returned; these are the bytes of the receive buffer.
    Received(Vec<u8>),
}

/// Why an exchange failed.
#[derive(Clone, Copy, Debug, PartialEq, Eq, Structural)]
pub enum ExchangeError {
    /// A write, flush or read failed at the OS/driver level.
    Transport,
    /// No response arrived within the configured timeout.
    Timeout,
    /// The received bytes do not decode as a response.
    Deserialize,
}

/// The outcome of one exchange, given what the byte stream did after the
/// request frame was handed to it.  A failed write, flush or read is a
/// transport error; a read that produced no bytes within the configured
/// window is a timeout, never an indefinite block; and received bytes yield
/// the decoded response, or a deserialization error exactly when they do
/// not decode as one.
pub fn exchange_outcome(event: LinkEvent) -> (r: Result<Response, ExchangeError>)
    ensures
        (event is WriteFailed || event is FlushFailed || event is ReadFailed) ==> r
            == Err::<Response, ExchangeError>(ExchangeError::Transport),
        event is ReadTimedOut ==> r == Err::<Response, ExchangeError>(ExchangeError::Timeout),
        event matches LinkEvent::Received(bytes) ==> match decode_response_spec(bytes@) {
            Some(resp) => r == Ok::<Response, ExchangeError>(resp),
            None => r == Err::<Response, ExchangeError>(ExchangeError::Deserialize),
        },
{
    match event {
        LinkEvent::WriteFailed => Err(ExchangeError::Transport),
        LinkEvent::FlushFailed => Err(ExchangeError::Transport),
        LinkEvent::ReadFailed => Err(ExchangeError::Transport),
        LinkEvent::ReadTimedOut => Err(ExchangeError::Timeout),
        LinkEvent::Received(bytes) => match decode_response(bytes.as_slice()) {
            Ok(resp) => Ok(resp),
            Err(_) => Err(ExchangeError::Deserialize),
        },
    }
}

} // verus!
