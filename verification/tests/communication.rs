use rperf::protocol::communication::{disconnect_error, frame_message, LengthReader, PayloadReader, ReceiveError};

#[test]
fn frames_carry_a_big_endian_length() {
    let payload = b"{\"kind\":\"begin\"}";
    let frame = frame_message(payload);
    assert_eq!(frame.len(), payload.len() + 2);
    assert_eq!(&frame[..2], &[0, 16]);
    assert_eq!(&frame[2..], &payload[..]);
    let big = vec![7u8; 300];
    assert_eq!(&frame_message(&big)[..2], &[1, 44]);
}

#[test]
fn frame_length_keeps_sixteen_bits() {
    let huge = vec![0u8; 65536 + 3];
    assert_eq!(&frame_message(&huge)[..2], &[0, 3]);
}

#[test]
fn readers_get_back_what_was_framed_in_any_pieces() {
    let payload: Vec<u8> = (0..1000u32).map(|i| (i % 251) as u8).collect();
    let frame = frame_message(&payload);
    let mut length = LengthReader::new();
    assert_eq!(length.remaining(), 2);
    assert_eq!(length.feed(&frame[0..1]), None);
    assert_eq!(length.remaining(), 1);
    let n = length.feed(&frame[1..2]).unwrap();
    assert_eq!(n as usize, payload.len());
    let mut reader = PayloadReader::new(n);
    let mut pos = 2;
    let mut complete = false;
    for chunk in [1usize, 7, 100, 500, 392] {
        assert!(!complete);
        let take = chunk.min(reader.remaining());
        complete = reader.feed(&frame[pos..pos + take]);
        pos += take;
    }
    assert!(complete);
    assert_eq!(reader.payload(), &payload);
}

#[test]
fn disconnects() {
    assert_eq!(disconnect_error(true), ReceiveError::ConnectionLost);
    assert_eq!(disconnect_error(false), ReceiveError::LocalShutdown);
}
