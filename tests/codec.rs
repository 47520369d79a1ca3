use rdbg::decode::{decode, ByteBuffer, Error};
use rdbg::frame::{body_len, Message as Frame};
use rdbg::wire::{Message, MsgPayload, LEN_FIELD_SIZE};

fn text(s: &str) -> MsgPayload {
    MsgPayload::Message(s.to_string())
}

fn body_of(frame: &Frame) -> Vec<u8> {
    frame.as_slice()[LEN_FIELD_SIZE..].to_vec()
}

#[test]
fn deserialize_msg() {
    let filename = "tests/codec.rs";
    let line: u32 = 17;
    let message = "message".to_string();

    let raw_msg = Frame::new(42, "ThreadId(1)", filename, line, MsgPayload::Message(message.clone()));

    let expected_msg = Message {
        time: 42,
        thread_id: "ThreadId(1)".to_string(),
        filename: filename.to_string(),
        line,
        payload: MsgPayload::Message(message),
    };
    let mut buffer = ByteBuffer::from_vec(raw_msg.as_slice()[LEN_FIELD_SIZE..].to_vec());
    let actual_msg = Message::from_buffer(&mut buffer).expect("Corrupt message");
    assert_eq!(expected_msg, actual_msg);
}

#[test]
fn deserialize_vals() {
    let filename = "tests/codec.rs";
    let line: u32 = 40;
    let values = vec![
        ("name1".to_string(), "val1".to_string()),
        ("name2".to_string(), "val2".to_string()),
    ];

    let raw_msg = Frame::new(42, "7", filename, line, MsgPayload::Values(values.clone()));

    let expected_msg = Message {
        time: 42,
        thread_id: "7".to_string(),
        filename: filename.to_string(),
        line,
        payload: MsgPayload::Values(values),
    };
    let mut buffer = ByteBuffer::from_vec(raw_msg.as_slice()[LEN_FIELD_SIZE..].to_vec());
    let actual_msg = Message::from_buffer(&mut buffer).expect("Corrupt message");
    assert_eq!(expected_msg, actual_msg);
}

#[test]
fn frame_bytes_exact() {
    let frame = Frame::new(0x0102030405060708, "1", "a.rs", 10, text("hi"));
    let expected: Vec<u8> = vec![
        0, 0, 0, 32, // body length
        1, 2, 3, 4, 5, 6, 7, 8, // time
        0, 0, 0, 1, b'1', // thread id
        0, 0, 0, 4, b'a', b'.', b'r', b's', // file name
        0, 0, 0, 10, // line
        1, // text tag
        0, 0, 0, 2, b'h', b'i', // text
    ];
    assert_eq!(frame.as_slice().to_vec(), expected);
}

#[test]
fn frame_bytes_values_exact() {
    let frame = Frame::new(
        1,
        "",
        "",
        0,
        MsgPayload::Values(vec![("x".to_string(), "1".to_string())]),
    );
    let expected: Vec<u8> = vec![
        0, 0, 0, 35, // body length
        0, 0, 0, 0, 0, 0, 0, 1, // time
        0, 0, 0, 0, // thread id
        0, 0, 0, 0, // file name
        0, 0, 0, 0, // line
        2, // values tag
        0, 0, 0, 1, // count
        0, 0, 0, 1, b'x', 0, 0, 0, 1, b'1',
    ];
    assert_eq!(frame.as_slice().to_vec(), expected);
}

#[test]
fn body_len_matches_frame() {
    let payload = MsgPayload::Values(vec![("k".to_string(), "vv".to_string())]);
    let frame = Frame::new(9, "12", "main.rs", 3, payload.clone());
    let n = body_len("12", "main.rs", &payload).unwrap();
    assert_eq!(n as usize, frame.as_slice().len() - LEN_FIELD_SIZE);
    assert_eq!(n, 8 + 6 + 11 + 4 + 1 + 4 + 5 + 6);
}

#[test]
fn required_capacity_counts_tag_and_lengths() {
    assert_eq!(text("hello").required_capacity(), Some(10));
    assert_eq!(MsgPayload::Values(vec![]).required_capacity(), Some(5));
    let two = MsgPayload::Values(vec![
        ("a".to_string(), "bc".to_string()),
        ("".to_string(), "d".to_string()),
    ]);
    assert_eq!(two.required_capacity(), Some(5 + 11 + 9));
}

#[test]
fn round_trip_text_and_values() {
    let cases = vec![
        text(""),
        text("hello"),
        text("é ünïcødé ✓"),
        MsgPayload::Values(vec![]),
        MsgPayload::Values(vec![
            ("x".to_string(), "1".to_string()),
            ("x".to_string(), "2".to_string()),
            ("ключ".to_string(), "".to_string()),
        ]),
    ];
    for payload in cases {
        let frame = Frame::new(u64::MAX, "ThreadId(3)", "src/λ.rs", u32::MAX, payload.clone());
        let decoded = decode(body_of(&frame)).expect("Corrupt message");
        assert_eq!(
            decoded,
            Message {
                time: u64::MAX,
                thread_id: "ThreadId(3)".to_string(),
                filename: "src/λ.rs".to_string(),
                line: u32::MAX,
                payload,
            }
        );
    }
}

#[test]
fn decode_rejects_truncated_body() {
    let frame = Frame::new(1, "t", "f", 2, text("abc"));
    let mut body = body_of(&frame);
    body.pop();
    assert!(matches!(decode(body), Err(Error::CorruptMsg)));
    assert!(matches!(decode(vec![]), Err(Error::CorruptMsg)));
}

#[test]
fn decode_rejects_trailing_bytes() {
    let frame = Frame::new(1, "t", "f", 2, text("abc"));
    let mut body = body_of(&frame);
    body.push(0);
    assert!(matches!(decode(body), Err(Error::CorruptMsg)));
}

#[test]
fn decode_rejects_unknown_tag() {
    let frame = Frame::new(1, "t", "f", 2, text("abc"));
    let mut body = body_of(&frame);
    // time (8) + "t" (5) + "f" (5) + line (4): the tag is next
    body[22] = 3;
    assert!(matches!(decode(body), Err(Error::CorruptMsg)));
}

#[test]
fn decode_rejects_bad_utf8() {
    let frame = Frame::new(1, "t", "f", 2, text("abc"));
    let mut body = body_of(&frame);
    let last = body.len() - 1;
    body[last] = 0xff;
    assert!(matches!(decode(body), Err(Error::BadUtf8(_))));
}

#[test]
fn decode_rejects_count_beyond_bytes() {
    let frame = Frame::new(
        1,
        "t",
        "f",
        2,
        MsgPayload::Values(vec![("x".to_string(), "1".to_string())]),
    );
    let mut body = body_of(&frame);
    // the pair count follows the tag at index 22
    body[26] = 2;
    assert!(matches!(decode(body), Err(Error::CorruptMsg)));
    let mut huge = body_of(&frame);
    huge[23] = 0xff;
    assert!(matches!(decode(huge), Err(Error::CorruptMsg)));
}

#[test]
fn decode_rejects_string_length_beyond_bytes() {
    let frame = Frame::new(1, "t", "f", 2, text("abc"));
    let mut body = body_of(&frame);
    // length of the thread id, right after the time
    body[8] = 0x7f;
    assert!(matches!(decode(body), Err(Error::CorruptMsg)));
}

#[test]
fn byte_buffer_reads_big_endian() {
    let mut b = ByteBuffer::from_vec(vec![1, 2, 3, 4, 5, 0, 0, 0, 0, 0, 0, 0, 1, 9]);
    assert_eq!(b.read_u8().unwrap(), 1);
    assert_eq!(b.read_u32().unwrap(), 0x02030405);
    assert_eq!(b.read_u64().unwrap(), 1);
    assert!(!b.at_end());
    assert!(matches!(b.read_u32(), Err(Error::CorruptMsg)));
    assert_eq!(b.read_u8().unwrap(), 9);
    assert!(b.at_end());
    assert!(matches!(b.read_u8(), Err(Error::CorruptMsg)));
}

#[test]
fn byte_buffer_reads_strings() {
    let mut b = ByteBuffer::from_vec(vec![0, 0, 0, 2, 0xc3, 0xa9, 0, 0, 0, 0]);
    assert_eq!(b.read_str().unwrap(), "é".to_string());
    assert_eq!(b.read_str().unwrap(), String::new());
    assert!(b.at_end());
    let mut empty = ByteBuffer::new(16);
    assert!(matches!(empty.read_str(), Err(Error::CorruptMsg)));
}

#[test]
fn from_buffer_rejects_trailing_bytes() {
    let frame = Frame::new(1, "t", "f", 2, text("abc"));
    let mut body = body_of(&frame);
    body.push(7);
    let mut buffer = ByteBuffer::from_vec(body);
    assert!(matches!(Message::from_buffer(&mut buffer), Err(Error::CorruptMsg)));
}

#[test]
fn read_fields_stops_after_the_payload() {
    let frame = Frame::new(1, "t", "f", 2, text("abc"));
    let mut body = body_of(&frame);
    body.push(7);
    let mut buffer = ByteBuffer::from_vec(body);
    let m = Message::read_fields(&mut buffer).expect("Corrupt message");
    assert_eq!(m.payload, text("abc"));
    assert_eq!(buffer.read_u8().unwrap(), 7);
    assert!(buffer.at_end());
}

#[test]
fn error_messages() {
    assert_eq!(
        Error::BadVersion.message(),
        "This library only supports protocol version 1".to_string()
    );
    assert_eq!(
        Error::CorruptMsg.message(),
        "The message payload was corrupted".to_string()
    );
    let bad = vec![0xffu8];
    let err = std::str::from_utf8(&bad).unwrap_err();
    assert_eq!(Error::BadUtf8(err).message(), err.to_string());
}
