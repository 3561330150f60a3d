use ba_comm::CodecError;
use ba_comm::messages::Command;
use ba_comm::messages::Response;
use ba_comm::messages::command_payload;
use ba_comm::messages::decode_command;
use ba_comm::messages::decode_response;
use ba_comm::messages::encode_command;
use ba_comm::messages::encode_response;
use ba_comm::messages::parse_command_bytes;
use ba_comm::messages::response_payload;
use ba_comm::stuffing::stuff;
use ba_comm::stuffing::unstuff;

#[test]
fn query_time_payload_is_single_discriminant_byte() {
    assert_eq!(command_payload(&Command::QueryTime), vec![0u8]);
}

#[test]
fn set_time_payload_is_discriminant_then_fields() {
    let c = Command::SetTime { hours: 13, minutes: 5, seconds: 0 };
    assert_eq!(command_payload(&c), vec![1u8, 13, 5, 0]);
    assert_eq!(parse_command_bytes(&[1, 13, 5, 0]), Some(c));
}

#[test]
fn command_round_trip() {
    let commands = [
        Command::QueryTime,
        Command::SetTime { hours: 13, minutes: 5, seconds: 0 },
        Command::SetTime { hours: 0, minutes: 0, seconds: 0 },
        Command::SetTime { hours: 23, minutes: 59, seconds: 59 },
        // Out-of-range fields are passed through uninterpreted.
        Command::SetTime { hours: 99, minutes: 255, seconds: 0 },
    ];
    for c in commands {
        let frame = encode_command(&c).unwrap();
        assert_eq!(decode_command(&frame), Ok(c));
    }
}

#[test]
fn response_round_trip() {
    let responses = [
        Response::Ack,
        Response::Time { hours: 13, minutes: 5, seconds: 0 },
        Response::Time { hours: 0, minutes: 0, seconds: 0 },
        Response::Error { code: 7 },
    ];
    for r in responses {
        let frame = encode_response(&r).unwrap();
        assert_eq!(decode_response(&frame), Ok(r));
    }
}

#[test]
fn decode_ignores_bytes_after_the_delimiter() {
    // The transport hands the codec its whole receive buffer, not just the
    // frame; whatever follows the delimiter must not disturb decoding.
    let r = Response::Time { hours: 1, minutes: 2, seconds: 3 };
    let mut buf = encode_response(&r).unwrap();
    while buf.len() < 64 {
        buf.push(0xAA);
    }
    assert_eq!(decode_response(&buf), Ok(r));

    let mut zeroed = encode_response(&r).unwrap();
    while zeroed.len() < 64 {
        zeroed.push(0);
    }
    assert_eq!(decode_response(&zeroed), Ok(r));
}

#[test]
fn stuffed_frame_holds_delimiter_only_as_final_byte() {
    let payloads: [&[u8]; 6] = [
        &[],
        &[0],
        &[0, 0, 0],
        &[1, 0, 0x20, 0x30],
        &[1, 13, 5, 0],
        &[7; 62],
    ];
    for payload in payloads {
        let frame = stuff(payload).unwrap();
        assert_eq!(frame.len(), payload.len() + 2);
        assert_eq!(*frame.last().unwrap(), 0);
        for &b in &frame[..frame.len() - 1] {
            assert_ne!(b, 0);
        }
        assert_eq!(unstuff(&frame), Ok(payload.to_vec()));
    }
}

#[test]
fn stuffing_of_known_payload() {
    // Worked example: blocks of nonzero bytes, each preceded by its length
    // plus one, delimiter last.
    let frame = stuff(&[1, 0, 0x20, 0x30]).unwrap();
    assert_eq!(frame, vec![2, 1, 3, 0x20, 0x30, 0]);
}

#[test]
fn oversized_payload_is_rejected_not_truncated() {
    assert_eq!(stuff(&[7u8; 63]), Err(CodecError::BufferOverflow));
    assert_eq!(stuff(&[7u8; 100]), Err(CodecError::BufferOverflow));
    // The largest supported payload still fits the 64-byte buffer.
    assert_eq!(stuff(&[7u8; 62]).unwrap().len(), 64);
    // A command is far below the bound, so encoding never fails.
    assert!(encode_command(&Command::SetTime { hours: 23, minutes: 59, seconds: 59 }).is_ok());
}

#[test]
fn malformed_frames_are_rejected() {
    // Empty buffer.
    assert_eq!(decode_response(&[]), Err(CodecError::Deserialize));
    // Delimiter where a code byte is due.
    assert_eq!(decode_response(&[0]), Err(CodecError::Deserialize));
    // Truncated: code byte promises more bytes than the buffer holds.
    assert_eq!(decode_response(&[2]), Err(CodecError::Deserialize));
    assert_eq!(decode_response(&[5, 1, 2]), Err(CodecError::Deserialize));
    // Block cut short by the delimiter.
    assert_eq!(decode_response(&[5, 1, 2, 0]), Err(CodecError::Deserialize));
    // Well-formed frame without its delimiter.
    assert_eq!(decode_response(&[2, 1]), Err(CodecError::Deserialize));
    // Well-stuffed frame whose payload has an unknown discriminant.
    let frame = stuff(&[9, 9, 9]).unwrap();
    assert_eq!(decode_response(&frame), Err(CodecError::Deserialize));
    // Well-stuffed frame whose payload is cut short for its discriminant.
    let frame = stuff(&[1, 13]).unwrap();
    assert_eq!(decode_response(&frame), Err(CodecError::Deserialize));
}

#[test]
fn error_variants_reachable_from_inputs() {
    assert_eq!(stuff(&[0u8; 70]), Err(CodecError::BufferOverflow));
    assert_eq!(unstuff(&[3, 1]), Err(CodecError::Deserialize));
    assert_eq!(decode_command(&[1]), Err(CodecError::Deserialize));
}

#[test]
fn response_payloads_by_variant() {
    assert_eq!(response_payload(&Response::Ack), vec![0u8]);
    assert_eq!(
        response_payload(&Response::Time { hours: 13, minutes: 5, seconds: 0 }),
        vec![1u8, 13, 5, 0]
    );
    assert_eq!(response_payload(&Response::Error { code: 3 }), vec![2u8, 3]);
}
