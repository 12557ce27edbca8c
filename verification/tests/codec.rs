//! Encoding, decoding, and the round trip over the wire format.

use hyperchat::DecodeError;
use hyperchat::Message;
use hyperchat::MessageType;
use hyperchat::ValidationError;

fn envelope(msg_type: MessageType, content: &str, timestamp: u64, author: &str) -> Message {
    Message {
        msg_type,
        content: content.to_string(),
        timestamp,
        author: author.to_string(),
    }
}

#[test]
fn test_serialization() {
    let msg = Message::new(
        MessageType::Status,
        "Working on Rust!".to_string(),
        "charlie".to_string(),
    );

    let json = msg.to_json().unwrap();
    let deserialized = Message::from_json(&json).unwrap();

    assert_eq!(msg.content, deserialized.content);
    assert_eq!(msg.author, deserialized.author);
}

#[test]
fn test_concrete_round_trip() {
    let msg = Message::new(
        MessageType::Message,
        "Hello from Rust!".to_string(),
        "nolan".to_string(),
    );
    assert_eq!(msg.validate(), Ok(()));
    let bytes = msg.to_json().unwrap();
    let back = Message::from_json(&bytes).unwrap();
    assert_eq!(back.msg_type, MessageType::Message);
    assert_eq!(back.content, msg.content);
    assert_eq!(back.author, msg.author);
    assert_eq!(back.timestamp, msg.timestamp);
}

#[test]
fn test_tag_mapping() {
    let chat = envelope(MessageType::Message, "x", 1, "a").to_json().unwrap();
    assert_eq!(
        chat,
        b"{\"type\":\"message\",\"content\":\"x\",\"timestamp\":1,\"author\":\"a\"}".to_vec()
    );
    let status = envelope(MessageType::Status, "x", 1, "a").to_json().unwrap();
    assert_eq!(
        status,
        b"{\"type\":\"status\",\"content\":\"x\",\"timestamp\":1,\"author\":\"a\"}".to_vec()
    );
    let microblog = envelope(MessageType::Microblog, "x", 1, "a")
        .to_json()
        .unwrap();
    assert_eq!(
        microblog,
        b"{\"type\":\"microblog\",\"content\":\"x\",\"timestamp\":1,\"author\":\"a\"}".to_vec()
    );
}

#[test]
fn test_decode_rejects_unknown_tag() {
    let bytes = b"{\"type\":\"poke\",\"content\":\"x\",\"timestamp\":1,\"author\":\"a\"}";
    assert_eq!(
        Message::from_json(bytes).unwrap_err(),
        DecodeError::UnknownVariant
    );
}

#[test]
fn test_decode_malformed_inputs() {
    let cases: &[&[u8]] = &[
        b"",
        b"{",
        b"null",
        b"[1,2,3]",
        // missing author
        b"{\"type\":\"status\",\"content\":\"x\",\"timestamp\":1}",
        // timestamp is not a number
        b"{\"type\":\"status\",\"content\":\"x\",\"timestamp\":\"soon\",\"author\":\"a\"}",
        // negative timestamp
        b"{\"type\":\"status\",\"content\":\"x\",\"timestamp\":-1,\"author\":\"a\"}",
        // timestamp over 64 bits
        b"{\"type\":\"status\",\"content\":\"x\",\"timestamp\":18446744073709551616,\"author\":\"a\"}",
        // unterminated string
        b"{\"type\":\"status\",\"content\":\"x,\"timestamp\":1,\"author\":\"a\"}",
        // trailing garbage
        b"{\"type\":\"status\",\"content\":\"x\",\"timestamp\":1,\"author\":\"a\"}!",
        // not UTF-8
        b"\xff\xfe",
    ];
    for bytes in cases {
        assert_eq!(Message::from_json(bytes).unwrap_err(), DecodeError::Malformed);
    }
}

#[test]
fn test_decode_largest_timestamp() {
    let bytes =
        b"{\"type\":\"status\",\"content\":\"x\",\"timestamp\":18446744073709551615,\"author\":\"a\"}";
    let msg = Message::from_json(bytes).unwrap();
    assert_eq!(msg.timestamp, u64::MAX);
}

#[test]
fn test_decode_accepts_whitespace() {
    let bytes =
        b" {\n  \"type\" : \"status\" ,\r\n  \"content\" : \"hi\" ,\t\"timestamp\" : 42 , \"author\" : \"a\" }\n";
    let msg = Message::from_json(bytes).unwrap();
    assert_eq!(msg.msg_type, MessageType::Status);
    assert_eq!(msg.content, "hi");
    assert_eq!(msg.timestamp, 42);
    assert_eq!(msg.author, "a");
}

#[test]
fn test_decode_accepts_any_field_order() {
    let bytes = b"{\"author\":\"a\",\"timestamp\":42,\"content\":\"hi\",\"type\":\"status\"}";
    let msg = Message::from_json(bytes).unwrap();
    assert_eq!(msg.msg_type, MessageType::Status);
    assert_eq!(msg.content, "hi");
    assert_eq!(msg.timestamp, 42);
    assert_eq!(msg.author, "a");

    let bytes2 = b"{\"content\":\"hi\",\"type\":\"message\",\"author\":\"b\",\"timestamp\":7}";
    let msg2 = Message::from_json(bytes2).unwrap();
    assert_eq!(msg2.msg_type, MessageType::Message);
    assert_eq!(msg2.author, "b");
}

#[test]
fn test_decode_rejects_bad_members() {
    // A repeated key.
    let dup =
        b"{\"type\":\"status\",\"type\":\"status\",\"timestamp\":1,\"author\":\"a\"}";
    assert_eq!(Message::from_json(dup).unwrap_err(), DecodeError::Malformed);
    // An unrecognized key in place of a required one.
    let unknown_key =
        b"{\"type\":\"status\",\"content\":\"x\",\"timestamp\":1,\"signature\":\"a\"}";
    assert_eq!(
        Message::from_json(unknown_key).unwrap_err(),
        DecodeError::Malformed
    );
    // A fifth member.
    let extra =
        b"{\"type\":\"status\",\"content\":\"x\",\"timestamp\":1,\"author\":\"a\",\"extra\":1}";
    assert_eq!(Message::from_json(extra).unwrap_err(), DecodeError::Malformed);
}

#[test]
fn test_escaped_content_round_trip() {
    let tricky = "he said \"hi\",\nthen left\\ \t\u{8}\u{c}\u{1}\u{1f}";
    let msg = envelope(MessageType::Message, tricky, 7, "a\"b\\c");
    let bytes = msg.to_json().unwrap();
    let back = Message::from_json(&bytes).unwrap();
    assert_eq!(back.content, tricky);
    assert_eq!(back.author, "a\"b\\c");
}

#[test]
fn test_unicode_content_round_trip() {
    let text = "héllo wörld 🦀 ⚙";
    let msg = envelope(MessageType::Microblog, text, 9, "åsa");
    let bytes = msg.to_json().unwrap();
    let back = Message::from_json(&bytes).unwrap();
    assert_eq!(back.content, text);
    assert_eq!(back.author, "åsa");
}

#[test]
fn test_decode_unicode_escapes() {
    let bytes =
        b"{\"type\":\"status\",\"content\":\"\\u0041\\u00e9\\u20ac\\/\\b\\f\",\"timestamp\":1,\"author\":\"a\"}";
    let msg = Message::from_json(bytes).unwrap();
    assert_eq!(msg.content, "A\u{e9}\u{20ac}/\u{8}\u{c}");
}

#[test]
fn test_decode_surrogate_pair_escapes() {
    // A high/low surrogate pair stands for one supplementary-plane character.
    let bytes =
        b"{\"type\":\"status\",\"content\":\"\\ud83d\\ude00!\",\"timestamp\":1,\"author\":\"a\"}";
    let msg = Message::from_json(bytes).unwrap();
    assert_eq!(msg.content, "\u{1f600}!");

    // The crab: U+1F980 as \ud83e\udd80.
    let bytes2 =
        b"{\"type\":\"status\",\"content\":\"a\\ud83e\\udd80b\",\"timestamp\":1,\"author\":\"a\"}";
    let msg2 = Message::from_json(bytes2).unwrap();
    assert_eq!(msg2.content, "a\u{1f980}b");
}

#[test]
fn test_decode_rejects_leading_zero_timestamp() {
    let padded = b"{\"type\":\"status\",\"content\":\"x\",\"timestamp\":007,\"author\":\"a\"}";
    assert_eq!(Message::from_json(padded).unwrap_err(), DecodeError::Malformed);
    let zeros = b"{\"type\":\"status\",\"content\":\"x\",\"timestamp\":00,\"author\":\"a\"}";
    assert_eq!(Message::from_json(zeros).unwrap_err(), DecodeError::Malformed);
    // Zero itself is a single digit and stays valid.
    let zero = b"{\"type\":\"status\",\"content\":\"x\",\"timestamp\":0,\"author\":\"a\"}";
    assert_eq!(Message::from_json(zero).unwrap().timestamp, 0);
}

#[test]
fn test_decode_rejects_bad_escapes() {
    // A lone high-surrogate escape pairs with nothing.
    let surrogate =
        b"{\"type\":\"status\",\"content\":\"\\ud800\",\"timestamp\":1,\"author\":\"a\"}";
    assert_eq!(Message::from_json(surrogate).unwrap_err(), DecodeError::Malformed);
    // A high surrogate followed by a non-surrogate escape.
    let mismatched =
        b"{\"type\":\"status\",\"content\":\"\\ud83d\\u0041\",\"timestamp\":1,\"author\":\"a\"}";
    assert_eq!(
        Message::from_json(mismatched).unwrap_err(),
        DecodeError::Malformed
    );
    // A low surrogate with no high surrogate before it.
    let low_alone =
        b"{\"type\":\"status\",\"content\":\"\\udc00\",\"timestamp\":1,\"author\":\"a\"}";
    assert_eq!(
        Message::from_json(low_alone).unwrap_err(),
        DecodeError::Malformed
    );
    // An unknown escape code.
    let unknown = b"{\"type\":\"status\",\"content\":\"\\q\",\"timestamp\":1,\"author\":\"a\"}";
    assert_eq!(Message::from_json(unknown).unwrap_err(), DecodeError::Malformed);
    // A raw control character inside a string literal.
    let raw_control =
        b"{\"type\":\"status\",\"content\":\"a\x01b\",\"timestamp\":1,\"author\":\"a\"}";
    assert_eq!(Message::from_json(raw_control).unwrap_err(), DecodeError::Malformed);
}

#[test]
fn test_decode_does_not_validate() {
    // A well-formed record with empty content decodes; validation is separate.
    let bytes = b"{\"type\":\"microblog\",\"content\":\"\",\"timestamp\":3,\"author\":\"a\"}";
    let msg = Message::from_json(bytes).unwrap();
    assert_eq!(msg.validate(), Err(ValidationError::EmptyContent));

    // So does an over-long microblog.
    let long = "a".repeat(300);
    let over = envelope(MessageType::Microblog, &long, 3, "a");
    let round = Message::from_json(&over.to_json().unwrap()).unwrap();
    assert_eq!(round.content, long);
    assert_eq!(round.validate(), Err(ValidationError::MicroblogTooLong));
}

#[test]
fn test_round_trip_extremes() {
    for ts in [0u64, 1, 999, 1000, u64::MAX] {
        let msg = envelope(MessageType::Status, "x", ts, "a");
        let back = Message::from_json(&msg.to_json().unwrap()).unwrap();
        assert_eq!(back.timestamp, ts);
    }
}
