//! Payload layout of the messages exchanged with the device.
//!
//! A payload is a discriminant byte followed by the variant's fields, one
//! raw byte each.  Parsing reads exactly the bytes the variant needs and
//! ignores anything after them.

use vstd::prelude::*;

use crate::CodecError;
use crate::stuffing::MAX_PAYLOAD_LEN;
use crate::stuffing::lemma_unstuff_stuffed;
use crate::stuffing::stuff;
use crate::stuffing::stuffed_frame;
use crate::stuffing::unstuff;
use crate::stuffing::unstuff_spec;

verus! {

/// A request sent to the device.
#[derive(Clone, Copy, Debug, PartialEq, Eq, Structural)]
pub enum Command {
    /// Ask the device for its current time.
    QueryTime,
    /// Push a wall-clock time to the device.  The fields are transmitted
    /// uninterpreted; out-of-range values are not rejected here.
    SetTime { hours: u8, minutes: u8, seconds: u8 },
}

/// A reply from the device.
#[derive(Clone, Copy, Debug, PartialEq, Eq, Structural)]
pub enum Response {
    /// The device acknowledged the request.
    Ack,
    /// The device reported its current time.
    Time { hours: u8, minutes: u8, seconds: u8 },
    /// The device rejected the request with an error code.
    Error { code: u8 },
}

/// The payload bytes of a command: its discriminant byte followed by its
/// fields in declaration order.
pub open spec fn command_bytes(c: Command) -> Seq<u8> {
    match c {
        Command::QueryTime => seq![0u8],
        Command::SetTime { hours, minutes, seconds } => seq![1u8, hours, minutes, seconds],
    }
}

/// The payload bytes of a response: its discriminant byte followed by its
/// fields in declaration order.
pub open spec fn response_bytes(r: Response) -> Seq<u8> {
    match r {
        Response::Ack => seq![0u8],
        Response::Time { hours, minutes, seconds } => seq![1u8, hours, minutes, seconds],
        Response::Error { code } => seq![2u8, code],
    }
}

/// Parses a command from payload bytes; bytes after the variant's fields
/// are ignored.
pub open spec fn parse_command(data: Seq<u8>) -> Option<Command> {
    if data.len() >= 1 && data[0] == 0 {
        Some(Command::QueryTime)
    } else if data.len() >= 4 && data[0] == 1 {
        Some(Command::SetTime { hours: data[1], minutes: data[2], seconds: data[3] })
    } else {
        None
    }
}

/// Parses a response from payload bytes; bytes after the variant's fields
/// are ignored.
pub open spec fn parse_response(data: Seq<u8>) -> Option<Response> {
    if data.len() >= 1 && data[0] == 0 {
        Some(Response::Ack)
    } else if data.len() >= 4 && data[0] == 1 {
        Some(Response::Time { hours: data[1], minutes: data[2], seconds: data[3] })
    } else if data.len() >= 2 && data[0] == 2 {
        Some(Response::Error { code: data[1] })
    } else {
        None
    }
}

/// Decoding a command frame: unstuff it, then parse the payload.
pub open spec fn decode_command_spec(frame: Seq<u8>) -> Option<Command> {
    match unstuff_spec(frame) {
        Some(data) => parse_command(data),
        None => None,
    }
}

/// Decoding a response frame: unstuff it, then parse the payload.
pub open spec fn decode_response_spec(frame: Seq<u8>) -> Option<Response> {
    match unstuff_spec(frame) {
        Some(data) => parse_response(data),
        None => None,
    }
}

/// Serializes a command into its payload bytes, prior to stuffing.
pub fn command_payload(c: &Command) -> (r: Vec<u8>)
    ensures
        r@ == command_bytes(*c),
{
    match c {
        Command::QueryTime => {
            let mut out: Vec<u8> = Vec::new();
            out.push(0);
            proof {
                assert(out@ =~= command_bytes(*c));
            }
            out
        },
        Command::SetTime { hours, minutes, seconds } => {
            let mut out: Vec<u8> = Vec::new();
            out.push(1);
            out.push(*hours);
            out.push(*minutes);
            out.push(*seconds);
            proof {
                assert(out@ =~= command_bytes(*c));
            }
            out
        },
    }
}

/// Serializes a response into its payload bytes, prior to stuffing.
pub fn response_payload(r: &Response) -> (out: Vec<u8>)
    ensures
        out@ == response_bytes(*r),
{
    match r {
        Response::Ack => {
            let mut out: Vec<u8> = Vec::new();
            out.push(0);
            proof {
                assert(out@ =~= response_bytes(*r));
            }
            out
        },
        Response::Time { hours, minutes, seconds } => {
            let mut out: Vec<u8> = Vec::new();
            out.push(1);
            out.push(*hours);
            out.push(*minutes);
            out.push(*seconds);
            proof {
                assert(out@ =~= response_bytes(*r));
            }
            out
        },
        Response::Error { code } => {
            let mut out: Vec<u8> = Vec::new();
            out.push(2);
            out.push(*code);
            proof {
                assert(out@ =~= response_bytes(*r));
            }
            out
        },
    }
}

/// Parses a command from payload bytes, per [`parse_command`].
pub fn parse_command_bytes(data: &[u8]) -> (r: Option<Command>)
    ensures
        r == parse_command(data@),
{
    if data.len() >= 1 && data[0] == 0 {
        Some(Command::QueryTime)
    } else if data.len() >= 4 && data[0] == 1 {
        Some(Command::SetTime { hours: data[1], minutes: data[2], seconds: data[3] })
    } else {
        None
    }
}

/// Parses a response from payload bytes, per [`parse_response`].
pub fn parse_response_bytes(data: &[u8]) -> (r: Option<Response>)
    ensures
        r == parse_response(data@),
{
    if data.len() >= 1 && data[0] == 0 {
        Some(Response::Ack)
    } else if data.len() >= 4 && data[0] == 1 {
        Some(Response::Time { hours: data[1], minutes: data[2], seconds: data[3] })
    } else if data.len() >= 2 && data[0] == 2 {
        Some(Response::Error { code: data[1] })
    } else {
        None
    }
}

/// Encodes a command into a complete frame.  A command payload is at most
/// four bytes, so its stuffed frame always fits the transport buffer and
/// encoding always succeeds.
pub fn encode_command(c: &Command) -> (r: Result<Vec<u8>, CodecError>)
    ensures
        r matches Ok(f) && f@ == stuffed_frame(command_bytes(*c)),
{
    let payload = command_payload(c);
    assert(payload@.len() <= MAX_PAYLOAD_LEN as int);
    stuff(payload.as_slice())
}

/// Encodes a response into a complete frame, as the device would; a
/// response payload is at most four bytes, so encoding always succeeds.
pub fn encode_response(resp: &Response) -> (r: Result<Vec<u8>, CodecError>)
    ensures
        r matches Ok(f) && f@ == stuffed_frame(response_bytes(*resp)),
{
    let payload = response_payload(resp);
    assert(payload@.len() <= MAX_PAYLOAD_LEN as int);
    stuff(payload.as_slice())
}

/// Decodes a command frame, per [`decode_command_spec`]; bytes after the
/// frame's delimiter are ignored.  Fails with a deserialization error on a
/// malformed frame or an unknown discriminant, exactly when the spec parses
/// nothing.
pub fn decode_command(frame: &[u8]) -> (r: Result<Command, CodecError>)
    ensures
        decode_command_spec(frame@) matches Some(c) ==> r == Ok::<Command, CodecError>(c),
        decode_command_spec(frame@) is None ==> r == Err::<Command, CodecError>(
            CodecError::Deserialize,
        ),
{
    match unstuff(frame) {
        Ok(payload) => match parse_command_bytes(payload.as_slice()) {
            Some(c) => Ok(c),
            None => Err(CodecError::Deserialize),
        },
        Err(_) => Err(CodecError::Deserialize),
    }
}

/// Decodes a response frame, per [`decode_response_spec`]; bytes after the
/// frame's delimiter are ignored.  Fails with a deserialization error on a
/// malformed frame or an unknown discriminant, exactly when the spec parses
/// nothing.
pub fn decode_response(frame: &[u8]) -> (r: Result<Response, CodecError>)
    ensures
        decode_response_spec(frame@) matches Some(resp) ==> r == Ok::<Response, CodecError>(
            resp,
        ),
        decode_response_spec(frame@) is None ==> r == Err::<Response, CodecError>(
            CodecError::Deserialize,
        ),
{
    match unstuff(frame) {
        Ok(payload) => match parse_response_bytes(payload.as_slice()) {
            Some(resp) => Ok(resp),
            None => Err(CodecError::Deserialize),
        },
        Err(_) => Err(CodecError::Deserialize),
    }
}

/// Round-trip law: decoding the encoding of any command reproduces it.
pub proof fn lemma_command_round_trip(c: Command)
    ensures
        decode_command_spec(stuffed_frame(command_bytes(c))) == Some(c),
{
    lemma_command_round_trip_padded(c, Seq::empty());
    assert(stuffed_frame(command_bytes(c)) + Seq::<u8>::empty() =~= stuffed_frame(
        command_bytes(c),
    ));
}

/// Round-trip law for a frame read into a larger buffer: whatever bytes
/// follow the frame's delimiter, decoding reproduces the command.
pub proof fn lemma_command_round_trip_padded(c: Command, junk: Seq<u8>)
    ensures
        decode_command_spec(stuffed_frame(command_bytes(c)) + junk) == Some(c),
{
    lemma_unstuff_stuffed(command_bytes(c), junk);
}

/// Round-trip law: decoding the encoding of any response reproduces it.
pub proof fn lemma_response_round_trip(resp: Response)
    ensures
        decode_response_spec(stuffed_frame(response_bytes(resp))) == Some(resp),
{
    lemma_response_round_trip_padded(resp, Seq::empty());
    assert(stuffed_frame(response_bytes(resp)) + Seq::<u8>::empty() =~= stuffed_frame(
        response_bytes(resp),
    ));
}

/// Round-trip law for a frame read into a larger buffer: whatever bytes
/// follow the frame's delimiter, decoding reproduces the response.
pub proof fn lemma_response_round_trip_padded(resp: Response, junk: Seq<u8>)
    ensures
        decode_response_spec(stuffed_frame(response_bytes(resp)) + junk) == Some(resp),
{
    lemma_unstuff_stuffed(response_bytes(resp), junk);
}

} // verus!
