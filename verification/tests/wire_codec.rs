use crabkit::server::{handle_payload, process_message, Coordinator, Dispatch, ListenerPhase};
use crabkit::wire::{
    decode, encode, frame_for_payload, u32_from_be_bytes, FrameReader, Message, ReadState,
    WireError, MAX_FRAME_LEN,
};

#[test]
fn round_trip_text() {
    let m = Message::Text("hello".to_string());
    assert_eq!(decode(&encode(&m)), Ok(Message::Text("hello".to_string())));
}

#[test]
fn round_trip_empty_text() {
    let m = Message::Text(String::new());
    assert_eq!(decode(&encode(&m)), Ok(Message::Text(String::new())));
}

#[test]
fn round_trip_file() {
    let m = Message::File("note.txt".to_string(), b"abc".to_vec());
    assert_eq!(
        decode(&encode(&m)),
        Ok(Message::File("note.txt".to_string(), b"abc".to_vec()))
    );
}

#[test]
fn round_trip_file_empty_payload() {
    let m = Message::File(String::new(), Vec::new());
    assert_eq!(
        decode(&encode(&m)),
        Ok(Message::File(String::new(), Vec::new()))
    );
}

#[test]
fn round_trip_image() {
    let m = Message::Image("mri.jpg".to_string(), vec![0xff, 0xd8, 0x00]);
    assert_eq!(
        decode(&encode(&m)),
        Ok(Message::Image("mri.jpg".to_string(), vec![0xff, 0xd8, 0x00]))
    );
}

#[test]
fn round_trip_unicode_name() {
    let m = Message::File("crabby-🦀.bin".to_string(), vec![1, 2, 3]);
    assert_eq!(
        decode(&encode(&m)),
        Ok(Message::File("crabby-🦀.bin".to_string(), vec![1, 2, 3]))
    );
}

#[test]
fn decode_rejects_garbage() {
    assert_eq!(decode(b"garbage bytes!"), Err(WireError::DecodeFailed));
    assert_eq!(decode(b""), Err(WireError::DecodeFailed));
    assert_eq!(decode(&[9, 0, 0, 0, 1, 0]), Err(WireError::DecodeFailed));
    // A well-formed text frame with a trailing byte is refused whole.
    let mut payload = encode(&Message::Text("hi".to_string()));
    payload.push(0);
    assert_eq!(decode(&payload), Err(WireError::DecodeFailed));
    // A file frame whose name bytes are not UTF-8 is refused.
    let bad_name = vec![0u8, 0, 0, 0, 1, 0xff, 0, 0, 0, 0];
    assert_eq!(decode(&bad_name), Err(WireError::DecodeFailed));
}

#[test]
fn frame_carries_length_prefix() {
    let framed = frame_for_payload(&vec![7, 8, 9]);
    assert_eq!(framed, vec![0, 0, 0, 3, 7, 8, 9]);
    assert_eq!(u32_from_be_bytes(&framed[0..4]), 3);
}

#[test]
fn oversized_frame_is_rejected_before_payload() {
    let mut reader = FrameReader::new();
    assert_eq!(reader.needed(), 4);
    let too_big: u32 = MAX_FRAME_LEN + 1;
    reader.feed_header(&too_big.to_be_bytes());
    assert!(matches!(
        reader.state,
        ReadState::Failed(WireError::OversizedFrame)
    ));
    // Rejected on the spot: not a single payload byte is asked for.
    assert_eq!(reader.needed(), 0);
}

#[test]
fn frame_reader_accepts_whole_frame() {
    let payload = encode(&Message::Text("hello".to_string()));
    let framed = frame_for_payload(&payload);
    let mut reader = FrameReader::new();
    reader.feed_header(&framed[0..4]);
    match reader.state {
        ReadState::WantPayload(len) => assert_eq!(len as usize, payload.len()),
        _ => panic!("header within bounds must be accepted"),
    }
    let n = reader.needed();
    reader.feed_payload(framed[4..4 + n].to_vec());
    match reader.state {
        ReadState::HavePayload(got) => assert_eq!(got, payload),
        _ => panic!("payload of the declared length must complete the frame"),
    }
}

#[test]
fn truncated_frame_is_an_error() {
    let mut reader = FrameReader::new();
    reader.feed_header(&5u32.to_be_bytes());
    reader.fail_truncated();
    assert!(matches!(
        reader.state,
        ReadState::Failed(WireError::TruncatedFrame)
    ));
}

#[test]
fn text_goes_to_log_only() {
    // A frame encoding text is logged; no file or image store is involved.
    let payload = encode(&Message::Text("hello".to_string()));
    let action = handle_payload(&payload).unwrap();
    assert_eq!(action, Dispatch::LogText("hello".to_string()));
}

#[test]
fn file_payload_is_dispatched_intact() {
    let payload = encode(&Message::File("note.txt".to_string(), b"abc".to_vec()));
    let action = handle_payload(&payload).unwrap();
    assert_eq!(
        action,
        Dispatch::StoreFile("note.txt".to_string(), b"abc".to_vec())
    );
}

#[test]
fn malformed_frame_does_not_stop_service() {
    let mut coordinator = Coordinator::new();
    assert_eq!(coordinator.phase, ListenerPhase::Accepting);

    // A connection arrives with a well-sized frame of garbage.
    coordinator.on_accept();
    let garbage = vec![0xde, 0xad, 0xbe, 0xef, 0x00, 0x01];
    assert_eq!(handle_payload(&garbage), Err(WireError::DecodeFailed));
    coordinator.on_handler_done();
    assert_eq!(coordinator.phase, ListenerPhase::Accepting);

    // The next, well-formed connection is served as if nothing happened.
    coordinator.on_accept();
    let payload = encode(&Message::Text("hello".to_string()));
    assert_eq!(
        handle_payload(&payload),
        Ok(Dispatch::LogText("hello".to_string()))
    );
    coordinator.on_handler_done();
    assert_eq!(coordinator.phase, ListenerPhase::Accepting);
}

#[test]
fn shutdown_drains_then_stops() {
    let mut coordinator = Coordinator::new();
    coordinator.on_accept();
    coordinator.on_accept();
    coordinator.on_shutdown();
    assert_eq!(coordinator.phase, ListenerPhase::Draining);
    coordinator.on_handler_done();
    assert_eq!(coordinator.phase, ListenerPhase::Draining);
    coordinator.on_handler_done();
    assert_eq!(coordinator.phase, ListenerPhase::Stopped);
    assert_eq!(coordinator.in_flight, 0);
}

#[test]
fn shutdown_with_nothing_in_flight_stops_at_once() {
    let mut coordinator = Coordinator::new();
    coordinator.on_shutdown();
    assert_eq!(coordinator.phase, ListenerPhase::Stopped);
}

#[test]
fn message_labels() {
    assert_eq!(Message::Text("x".to_string()).label(), "Text");
    assert_eq!(Message::File("a".to_string(), vec![]).label(), "File");
    assert_eq!(Message::Image("a".to_string(), vec![]).label(), "Image");
}

#[test]
fn dispatch_routes_each_variant() {
    assert_eq!(
        process_message(Message::Text("t".to_string())),
        Dispatch::LogText("t".to_string())
    );
    assert_eq!(
        process_message(Message::File("f".to_string(), vec![1])),
        Dispatch::StoreFile("f".to_string(), vec![1])
    );
    assert_eq!(
        process_message(Message::Image("i".to_string(), vec![2])),
        Dispatch::StoreImage("i".to_string(), vec![2])
    );
}
