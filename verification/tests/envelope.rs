//! Construction and validation of envelopes.

use hyperchat::Message;
use hyperchat::MessageType;
use hyperchat::ValidationError;

#[test]
fn test_message_creation() {
    let msg = Message::new(
        MessageType::Message,
        "Hello, world!".to_string(),
        "alice".to_string(),
    );
    assert_eq!(msg.content, "Hello, world!");
    assert_eq!(msg.author, "alice");
}

#[test]
fn test_microblog_validation() {
    let long_content = "a".repeat(281);
    let msg = Message::new(MessageType::Microblog, long_content, "bob".to_string());
    assert!(msg.validate().is_err());

    let valid_content = "a".repeat(280);
    let msg2 = Message::new(MessageType::Microblog, valid_content, "bob".to_string());
    assert!(msg2.validate().is_ok());
}

#[test]
fn test_microblog_boundary_variants() {
    let at_cap = Message::new(MessageType::Microblog, "a".repeat(280), "bob".to_string());
    assert_eq!(at_cap.validate(), Ok(()));

    let over_cap = Message::new(MessageType::Microblog, "a".repeat(281), "bob".to_string());
    assert_eq!(over_cap.validate(), Err(ValidationError::MicroblogTooLong));
}

#[test]
fn test_microblog_cap_counts_code_points_not_bytes() {
    // 280 two-byte characters: 560 bytes but exactly at the code-point cap.
    let msg = Message::new(MessageType::Microblog, "é".repeat(280), "bob".to_string());
    assert_eq!(msg.validate(), Ok(()));

    let over = Message::new(MessageType::Microblog, "é".repeat(281), "bob".to_string());
    assert_eq!(over.validate(), Err(ValidationError::MicroblogTooLong));
}

#[test]
fn test_empty_content_fails_for_every_variant() {
    for t in [
        MessageType::Message,
        MessageType::Status,
        MessageType::Microblog,
    ] {
        let msg = Message::new(t, String::new(), "alice".to_string());
        assert_eq!(msg.validate(), Err(ValidationError::EmptyContent));
    }
}

#[test]
fn test_new_at_pins_the_timestamp() {
    let msg = Message::new_at(
        MessageType::Message,
        "hi".to_string(),
        "alice".to_string(),
        1234567890123,
    );
    assert_eq!(msg.timestamp, 1234567890123);
    assert_eq!(msg.content, "hi");
    assert_eq!(msg.author, "alice");
    assert_eq!(msg.msg_type, MessageType::Message);
}

#[test]
fn test_construction_never_fails() {
    // Construction succeeds even with empty content; only validation rejects it.
    let msg = Message::new(MessageType::Status, String::new(), "alice".to_string());
    assert_eq!(msg.content, "");
    assert_eq!(msg.author, "alice");
    assert_eq!(msg.validate(), Err(ValidationError::EmptyContent));
}

#[test]
fn test_long_chat_and_status_are_valid() {
    // The length cap binds microblogs only.
    let long = "a".repeat(5000);
    let chat = Message::new(MessageType::Message, long.clone(), "alice".to_string());
    assert_eq!(chat.validate(), Ok(()));
    let status = Message::new(MessageType::Status, long, "alice".to_string());
    assert_eq!(status.validate(), Ok(()));
}
