//! Codec tests: headers, frames, round trips and every decode error.

use lagnet::frame::{DecodeError, Message, MessageCode, MessageHeader, ToFrame};
use lagnet::state::{ClientState, Position, Rotation};
use lagnet::wire::{push_u32_be, read_i32_be, read_u32_be};

#[test]
fn test_read_header() {
    // The message `LAG!`, code 1, length 3.
    let test_message = vec![
        'L' as u8, 'A' as u8, 'G' as u8, '!' as u8, 1u8, 0u8, 0u8, 0u8, 3u8,
    ];
    let message = MessageHeader::read_slice(test_message.as_slice()).unwrap();

    assert_eq!(0x4C414721, message.magic);
    assert_eq!(3, message.length);
}

#[test]
fn test_is_valid() {
    let test_message = vec![
        'L' as u8, 'A' as u8, 'G' as u8, '!' as u8, 1u8, 0u8, 0u8, 0u8, 3u8,
    ];
    let message = MessageHeader::read_slice(test_message.as_slice()).unwrap();

    assert!(message.is_valid());
}

#[test]
fn test_text_message_to_frame() {
    let test_message = Message::new_text_message(String::from("Test"));

    let frame = test_message.to_frame();

    assert_eq!(frame.payload(), &String::from("Test").into_bytes());
}

#[test]
fn test_message_to_bytes() {
    let test_message_output = vec![
        'L' as u8, 'A' as u8, 'G' as u8, '!' as u8, 1u8, 0u8, 0u8, 0u8, 4u8, 'T' as u8, 'e' as u8,
        's' as u8, 't' as u8,
    ];
    let test_message = Message::new_text_message(String::from("Test"));

    assert_eq!(test_message.to_frame().to_bytes(), test_message_output);
}

#[test]
fn test_client_update_serialize() {
    let mut test_client = ClientState::new(1);
    test_client.position = Position(1, 2, 3);
    let message = Message::new_client_update_message(&test_client);
    let bytes = message.to_frame().to_bytes();

    let deserialized_message = Message::read_slice(bytes.as_slice()).unwrap();

    match deserialized_message {
        Message::ClientUpdate(client_state) => {
            assert_eq!(client_state.position, test_client.position);
        }
        _ => {
            panic!();
        }
    }
}

#[test]
fn header_round_trip() {
    let header = MessageHeader::new(MessageCode::GameStateUpdate, 40);
    let bytes = header.to_bytes();
    assert_eq!(bytes.len(), 9);
    let parsed = MessageHeader::read_slice(bytes.as_slice()).unwrap();
    assert_eq!(parsed, header);
}

#[test]
fn message_code_round_trip() {
    for code in [
        MessageCode::Text,
        MessageCode::ClientUpdate,
        MessageCode::GameStateUpdate,
        MessageCode::Ping,
    ] {
        assert_eq!(MessageCode::from_u8(code.to_u8()), Some(code));
    }
    assert_eq!(MessageCode::from_u8(0x00), None);
    assert_eq!(MessageCode::from_u8(0x04), None);
}

#[test]
fn ping_round_trip() {
    let bytes = Message::Ping.to_frame().to_bytes();
    assert_eq!(bytes.len(), 9);
    match Message::read_slice(bytes.as_slice()).unwrap() {
        Message::Ping => {}
        _ => panic!(),
    }
}

#[test]
fn text_round_trip_non_ascii() {
    // Two-byte UTF-8 sequences must survive the trip intact.
    let text = String::from("h\u{e9}llo w\u{f6}rld");
    let message = Message::new_text_message(text.clone());
    let bytes = message.to_frame().to_bytes();
    match Message::read_slice(bytes.as_slice()).unwrap() {
        Message::Text { message } => assert_eq!(message, text),
        _ => panic!(),
    }
}

#[test]
fn game_state_update_round_trip() {
    let records = vec![
        ClientState {
            id: 2,
            position: Position(1, -2, 3),
            rotation: Rotation(-90),
        },
        ClientState {
            id: 3,
            position: Position(i32::MAX, i32::MIN, 0),
            rotation: Rotation(180),
        },
    ];
    let message = Message::GameStateUpdate(records.clone());
    let bytes = message.to_frame().to_bytes();
    assert_eq!(bytes.len(), 9 + 40);
    match Message::read_slice(bytes.as_slice()).unwrap() {
        Message::GameStateUpdate(decoded) => assert_eq!(decoded, records),
        _ => panic!(),
    }
}

#[test]
fn frame_starts_with_magic() {
    let messages = vec![
        Message::Ping,
        Message::new_text_message(String::from("hi")),
        Message::new_client_update_message(&ClientState::new(7)),
        Message::GameStateUpdate(vec![ClientState::new(2)]),
    ];
    for message in messages {
        let bytes = message.to_frame().to_bytes();
        assert_eq!(&bytes[0..4], &[0x4C, 0x41, 0x47, 0x21]);
    }
}

#[test]
fn frame_length_field_counts_payload() {
    let message = Message::new_text_message(String::from("12345"));
    let bytes = message.to_frame().to_bytes();
    let length = read_u32_be(bytes.as_slice(), 5);
    assert_eq!(length, 5);
    assert_eq!(bytes.len(), 9 + 5);

    let message = Message::GameStateUpdate(vec![ClientState::new(2), ClientState::new(3)]);
    let bytes = message.to_frame().to_bytes();
    assert_eq!(read_u32_be(bytes.as_slice(), 5), 40);
}

#[test]
fn decode_short_header() {
    let bytes = vec![0x4C, 0x41, 0x47, 0x21, 1, 0, 0, 0];
    assert_eq!(
        Message::read_slice(bytes.as_slice()),
        Err(DecodeError::ShortHeader)
    );
}

#[test]
fn decode_bad_magic() {
    // A peer opening with zeroes followed by arbitrary bytes.
    let bytes = vec![0x00, 0x00, 0x00, 0x00, 1, 0, 0, 0, 2, 40, 41];
    assert_eq!(
        Message::read_slice(bytes.as_slice()),
        Err(DecodeError::BadMagic)
    );
}

#[test]
fn decode_unknown_code() {
    let bytes = vec![0x4C, 0x41, 0x47, 0x21, 0x07, 0, 0, 0, 0];
    assert_eq!(
        Message::read_slice(bytes.as_slice()),
        Err(DecodeError::UnknownCode)
    );
}

#[test]
fn decode_short_payload() {
    // A text frame announcing five bytes but carrying two.
    let bytes = vec![0x4C, 0x41, 0x47, 0x21, 0x01, 0, 0, 0, 5, 'h' as u8, 'i' as u8];
    assert_eq!(
        Message::read_slice(bytes.as_slice()),
        Err(DecodeError::ShortPayload)
    );
}

#[test]
fn decode_bad_length_client_update() {
    let mut bytes = vec![0x4C, 0x41, 0x47, 0x21, 0x02, 0, 0, 0, 19];
    bytes.extend(std::iter::repeat(0u8).take(19));
    assert_eq!(
        Message::read_slice(bytes.as_slice()),
        Err(DecodeError::BadLength)
    );
}

#[test]
fn decode_bad_length_ping() {
    let bytes = vec![0x4C, 0x41, 0x47, 0x21, 0xFF, 0, 0, 0, 1, 0];
    assert_eq!(
        Message::read_slice(bytes.as_slice()),
        Err(DecodeError::BadLength)
    );
}

#[test]
fn decode_bad_length_game_state_update() {
    let mut bytes = vec![0x4C, 0x41, 0x47, 0x21, 0x03, 0, 0, 0, 21];
    bytes.extend(std::iter::repeat(0u8).take(21));
    assert_eq!(
        Message::read_slice(bytes.as_slice()),
        Err(DecodeError::BadLength)
    );
}

#[test]
fn decode_text_too_long() {
    let mut bytes = vec![0x4C, 0x41, 0x47, 0x21, 0x01, 0, 0, 0x04, 0x01];
    bytes.extend(std::iter::repeat('a' as u8).take(1025));
    assert_eq!(
        Message::read_slice(bytes.as_slice()),
        Err(DecodeError::TextTooLong)
    );
}

#[test]
fn decode_bad_text() {
    // 0xFF can never start a UTF-8 sequence.
    let bytes = vec![0x4C, 0x41, 0x47, 0x21, 0x01, 0, 0, 0, 2, 0xFF, 0xFF];
    assert_eq!(
        Message::read_slice(bytes.as_slice()),
        Err(DecodeError::BadText)
    );
}

#[test]
fn decode_ignores_trailing_bytes() {
    let mut bytes = Message::Ping.to_frame().to_bytes();
    bytes.push(0xAB);
    match Message::read_slice(bytes.as_slice()).unwrap() {
        Message::Ping => {}
        _ => panic!(),
    }
}

#[test]
fn fits_frame_ordinary_messages() {
    assert!(Message::Ping.fits_frame());
    assert!(Message::new_text_message(String::from("hello")).fits_frame());
    assert!(Message::new_client_update_message(&ClientState::new(2)).fits_frame());
    assert!(Message::GameStateUpdate(vec![ClientState::new(2)]).fits_frame());
}

#[test]
fn wire_u32_round_trip() {
    let mut out: Vec<u8> = Vec::new();
    push_u32_be(&mut out, 0xDEADBEEF);
    assert_eq!(out, vec![0xDE, 0xAD, 0xBE, 0xEF]);
    assert_eq!(read_u32_be(out.as_slice(), 0), 0xDEADBEEF);
}

#[test]
fn wire_i32_negative() {
    let record = ClientState {
        id: 1,
        position: Position(-1, 2, -3),
        rotation: Rotation(-90),
    };
    let bytes = record.to_bytes();
    assert_eq!(bytes.len(), 20);
    assert_eq!(&bytes[4..8], &[0xFF, 0xFF, 0xFF, 0xFF]);
    assert_eq!(read_i32_be(bytes.as_slice(), 4), -1);
    assert_eq!(read_i32_be(bytes.as_slice(), 16), -90);
    let parsed = ClientState::read_slice(bytes.as_slice()).unwrap();
    assert_eq!(parsed, record);
}

#[test]
fn client_state_exact_bytes() {
    let record = ClientState {
        id: 1,
        position: Position(1, 2, 3),
        rotation: Rotation(4),
    };
    assert_eq!(
        record.to_bytes(),
        vec![0, 0, 0, 1, 0, 0, 0, 1, 0, 0, 0, 2, 0, 0, 0, 3, 0, 0, 0, 4]
    );
}

#[test]
fn client_state_read_slice_short() {
    let bytes = vec![0u8; 19];
    assert_eq!(
        ClientState::read_slice(bytes.as_slice()),
        Err(DecodeError::ShortPayload)
    );
}
