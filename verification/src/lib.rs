//! Request/response messaging for a small serial-attached device.
//!
//! Messages are exchanged as self-delimiting frames: a compact binary
//! payload is byte-stuffed so that the delimiter byte `0` appears only as
//! the final byte of a frame.  The `stuffing` module implements the framing
//! layer, `messages` the payload layout of commands and responses, and
//! `session` the decision logic of one request/response exchange.

use vstd::prelude::*;

pub mod messages;
pub mod session;
pub mod stuffing;

verus! {

/// Errors from encoding or decoding a frame.
#[derive(Clone, Copy, Debug, PartialEq, Eq, Structural)]
pub enum CodecError {
    /// The stuffed form of the payload would not fit the transport buffer.
    BufferOverflow,
    /// The bytes do not form a well-stuffed frame, or the payload does not
    /// parse as a message of the expected shape.
    Deserialize,
}

} // verus!
