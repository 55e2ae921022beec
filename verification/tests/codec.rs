use bit_torrent_rustico::message::{FromMessageError, Message, MessageId, Request};

fn wire_ids() -> Vec<(MessageId, u8)> {
    vec![
        (MessageId::Choke, 0),
        (MessageId::Unchoke, 1),
        (MessageId::Interested, 2),
        (MessageId::NotInterested, 3),
        (MessageId::Have, 4),
        (MessageId::Bitfield, 5),
        (MessageId::Request, 6),
        (MessageId::Piece, 7),
        (MessageId::Cancel, 8),
        (MessageId::Port, 9),
    ]
}

fn round_trip(id: MessageId, payload: Vec<u8>) {
    let m = Message::new(id, payload.clone());
    let frame = m.to_bytes();
    let len = u32::from_be_bytes([frame[0], frame[1], frame[2], frame[3]]) as usize;
    assert_eq!(len, payload.len() + 1);
    assert_eq!(frame.len(), 4 + len);
    let decoded = Message::from_bytes(&frame[4..5], &frame[5..]).unwrap();
    assert_eq!(decoded.id, id);
    assert_eq!(decoded.payload, payload);
}

#[test]
fn test_round_trip_all_identifiers() {
    for (id, _) in wire_ids() {
        round_trip(id, vec![]);
        round_trip(id, vec![1, 2, 3, 4, 255]);
    }
}

#[test]
fn test_round_trip_zero_length_payloads() {
    for id in [
        MessageId::Choke,
        MessageId::Unchoke,
        MessageId::Interested,
        MessageId::NotInterested,
    ] {
        round_trip(id, vec![]);
    }
}

#[test]
fn test_identifier_bytes_on_the_wire() {
    for (id, code) in wire_ids() {
        let frame = Message::new(id, vec![]).to_bytes();
        assert_eq!(frame, vec![0, 0, 0, 1, code]);
    }
}

#[test]
fn test_keep_alive_encodes_as_zero_length() {
    let frame = Message::new(MessageId::KeepAlive, vec![]).to_bytes();
    assert_eq!(frame, vec![0, 0, 0, 0]);
}

#[test]
fn test_length_prefix_is_big_endian() {
    let payload = vec![9u8; 300];
    let frame = Message::new(MessageId::Piece, payload).to_bytes();
    assert_eq!(&frame[0..4], &[0, 0, 1, 45]);
    assert_eq!(frame[4], 7);
}

#[test]
fn test_decode_rejects_unknown_identifiers() {
    for code in 10u8..=255 {
        let r = Message::from_bytes(&[code], &[1, 2, 3]);
        assert!(matches!(r, Err(FromMessageError::InvalidMessage)));
    }
}

#[test]
fn test_decode_accepts_bytes_zero_through_nine() {
    for (id, code) in wire_ids() {
        let m = Message::from_bytes(&[code], &[42]).unwrap();
        assert_eq!(m.id, id);
        assert_eq!(m.payload, vec![42]);
    }
}

#[test]
fn test_decode_keeps_payload_as_given() {
    let payload: Vec<u8> = (0..=255).collect();
    let m = Message::from_bytes(&[5], &payload).unwrap();
    assert_eq!(m.payload, payload);
}

#[test]
fn test_request_payload_layout() {
    let r = Request::new(0x01020304, 0x00004000, 16384);
    let bytes = r.to_bytes();
    assert_eq!(
        bytes,
        vec![1, 2, 3, 4, 0, 0, 0x40, 0, 0, 0, 0x40, 0]
    );
}
