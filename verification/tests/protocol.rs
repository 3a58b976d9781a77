use dtach_rs::args::RedrawMethod;
use dtach_rs::protocol::{
    decode_message, decode_size, encode_message, encode_size, parse_header, read_message, write_message, Message, ProtocolError, TerminalSize,
};

#[test]
fn round_trips_redraw() {
    let input = Message::Redraw {
        method: RedrawMethod::Winch,
        size: TerminalSize {
            rows: 33,
            cols: 120,
        },
    };
    let mut bytes = Vec::new();
    write_message(&mut bytes, &input).unwrap();
    assert_eq!(read_message(bytes.as_slice()).unwrap(), input);
}

fn frame(message: &Message) -> Vec<u8> {
    let mut bytes = Vec::new();
    write_message(&mut bytes, message).unwrap();
    bytes
}

#[test]
fn round_trips_every_message_kind() {
    let messages = vec![
        Message::Hello("tøken-ü".to_string()),
        Message::Attach,
        Message::Detach,
        Message::Push(vec![0, 1, 2, 255]),
        Message::Push(Vec::new()),
        Message::Resize(TerminalSize { rows: 0xffff, cols: 0 }),
        Message::Redraw { method: RedrawMethod::Unspecified, size: TerminalSize::fallback() },
        Message::Redraw { method: RedrawMethod::NoRedraw, size: TerminalSize { rows: 1, cols: 2 } },
        Message::Redraw { method: RedrawMethod::CtrlL, size: TerminalSize { rows: 3, cols: 4 } },
    ];
    for message in messages {
        let mut bytes = frame(&message);
        bytes.extend_from_slice(b"trailing");
        assert_eq!(read_message(&bytes).unwrap(), message);
    }
}

#[test]
fn frames_have_the_documented_layout() {
    assert_eq!(frame(&Message::Attach), b"DTRS\x02\x00\x00\x00\x00");
    assert_eq!(
        frame(&Message::Resize(TerminalSize { rows: 0x0102, cols: 0x0304 })),
        b"DTRS\x05\x00\x00\x00\x04\x01\x02\x03\x04"
    );
    assert_eq!(frame(&Message::Hello("ab".to_string())), b"DTRS\x01\x00\x00\x00\x02ab");
    assert_eq!(
        frame(&Message::Redraw { method: RedrawMethod::Winch, size: TerminalSize { rows: 1, cols: 2 } }),
        b"DTRS\x06\x00\x00\x00\x05\x03\x00\x01\x00\x02"
    );
}

#[test]
fn fallback_size_is_24_by_80() {
    assert_eq!(TerminalSize::fallback(), TerminalSize { rows: 24, cols: 80 });
}

#[test]
fn read_refuses_bad_frames() {
    assert_eq!(read_message(b"DTRS\x02\x00\x00"), Err(ProtocolError::UnexpectedEof));
    assert_eq!(read_message(b"XTRS\x02\x00\x00\x00\x00"), Err(ProtocolError::InvalidMagic));
    assert_eq!(read_message(b"DTRS\x04\x00\x10\x00\x01"), Err(ProtocolError::PayloadTooLarge));
    assert_eq!(read_message(b"DTRS\x04\x00\x00\x00\x03ab"), Err(ProtocolError::UnexpectedEof));
    assert_eq!(read_message(b"DTRS\x01\x00\x00\x00\x01\xff"), Err(ProtocolError::TokenNotUtf8));
    assert_eq!(read_message(b"DTRS\x02\x00\x00\x00\x01x"), Err(ProtocolError::UnknownMessage));
    assert_eq!(read_message(b"DTRS\x09\x00\x00\x00\x00"), Err(ProtocolError::UnknownMessage));
    assert_eq!(
        read_message(b"DTRS\x06\x00\x00\x00\x04\x01\x00\x01\x00"),
        Err(ProtocolError::InvalidRedrawPayload)
    );
    assert_eq!(
        read_message(b"DTRS\x06\x00\x00\x00\x05\x07\x00\x01\x00\x01"),
        Err(ProtocolError::BadRedrawMethod)
    );
    assert_eq!(
        read_message(b"DTRS\x05\x00\x00\x00\x03\x00\x01\x00"),
        Err(ProtocolError::InvalidSizePayload)
    );
}

#[test]
fn largest_payload_is_accepted() {
    let message = Message::Push(vec![7u8; 1024 * 1024]);
    assert_eq!(read_message(&frame(&message)).unwrap(), message);
    let too_big = Message::Push(vec![7u8; 1024 * 1024 + 1]);
    assert_eq!(read_message(&frame(&too_big)), Err(ProtocolError::PayloadTooLarge));
}

#[test]
fn header_and_payload_decode_separately() {
    let bytes = frame(&Message::Push(b"xyz".to_vec()));
    let (kind, len) = parse_header(&bytes[..9]).unwrap();
    assert_eq!((kind, len), (4, 3));
    assert_eq!(decode_message(kind, bytes[9..9 + len].to_vec()).unwrap(), Message::Push(b"xyz".to_vec()));
    assert_eq!(decode_message(1, "hé".as_bytes().to_vec()).unwrap(), Message::Hello("hé".to_string()));
}

#[test]
fn sizes_encode_rows_then_columns_big_endian() {
    assert_eq!(encode_size(TerminalSize { rows: 33, cols: 120 }), vec![0, 33, 0, 120]);
    for size in [TerminalSize { rows: 0, cols: 0 }, TerminalSize { rows: 0xffff, cols: 0x1234 }] {
        assert_eq!(decode_size(&encode_size(size)), Ok(size));
    }
    assert_eq!(decode_size(&[1, 2, 3]), Err(ProtocolError::InvalidSizePayload));
    assert_eq!(decode_size(&[1, 2, 3, 4, 5]), Err(ProtocolError::InvalidSizePayload));
}

#[test]
fn decoded_messages_encode_back_to_their_bytes() {
    let cases: Vec<(u8, Vec<u8>)> = vec![
        (1, "tok".as_bytes().to_vec()),
        (2, vec![]),
        (3, vec![]),
        (4, vec![9, 8, 7]),
        (5, vec![0, 1, 2, 3]),
        (6, vec![3, 0, 1, 0, 2]),
    ];
    for (kind, payload) in cases {
        let message = decode_message(kind, payload.clone()).unwrap();
        assert_eq!(encode_message(&message), (kind, payload));
    }
}
