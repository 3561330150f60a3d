use ba_comm::messages::Response;
use ba_comm::messages::encode_response;
use ba_comm::session::ExchangeError;
use ba_comm::session::LinkEvent;
use ba_comm::session::exchange_outcome;

#[test]
fn timeout_becomes_a_timeout_error() {
    assert_eq!(exchange_outcome(LinkEvent::ReadTimedOut), Err(ExchangeError::Timeout));
}

#[test]
fn stream_failures_become_transport_errors() {
    assert_eq!(exchange_outcome(LinkEvent::WriteFailed), Err(ExchangeError::Transport));
    assert_eq!(exchange_outcome(LinkEvent::FlushFailed), Err(ExchangeError::Transport));
    assert_eq!(exchange_outcome(LinkEvent::ReadFailed), Err(ExchangeError::Transport));
}

#[test]
fn received_frame_decodes_to_the_response() {
    // The device's reply sits at the front of the 64-byte receive buffer,
    // followed by whatever the buffer held before the read.
    let r = Response::Time { hours: 23, minutes: 59, seconds: 58 };
    let mut buf = encode_response(&r).unwrap();
    while buf.len() < 64 {
        buf.push(0);
    }
    assert_eq!(exchange_outcome(LinkEvent::Received(buf)), Ok(r));

    let ack = encode_response(&Response::Ack).unwrap();
    assert_eq!(exchange_outcome(LinkEvent::Received(ack)), Ok(Response::Ack));
}

#[test]
fn received_garbage_becomes_a_deserialization_error() {
    assert_eq!(
        exchange_outcome(LinkEvent::Received(vec![0u8; 64])),
        Err(ExchangeError::Deserialize)
    );
    assert_eq!(
        exchange_outcome(LinkEvent::Received(vec![5, 1, 2, 0])),
        Err(ExchangeError::Deserialize)
    );
    assert_eq!(exchange_outcome(LinkEvent::Received(Vec::new())), Err(ExchangeError::Deserialize));
}
