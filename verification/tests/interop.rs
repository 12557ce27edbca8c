//! The canonical encoding must read as plain JSON to any external reader;
//! serde_json stands in for one here.

use hyperchat::Message;
use hyperchat::MessageType;
use serde_json::Value;

#[test]
fn test_encoding_reads_as_json() {
    let msg = Message {
        msg_type: MessageType::Message,
        content: "he said \"hi\",\nthen left\\ 🦀 \u{1}".to_string(),
        timestamp: 1234567890123,
        author: "nolan".to_string(),
    };
    let bytes = msg.to_json().unwrap();
    let v: Value = serde_json::from_slice(&bytes).unwrap();
    assert_eq!(v["type"], Value::String("message".to_string()));
    assert_eq!(
        v["content"],
        Value::String("he said \"hi\",\nthen left\\ 🦀 \u{1}".to_string())
    );
    assert_eq!(v["timestamp"].as_u64(), Some(1234567890123));
    assert_eq!(v["author"], Value::String("nolan".to_string()));
}

#[test]
fn test_serde_json_output_decodes() {
    // serde_json writes object members in its own (alphabetical) order and
    // escapes quotes; the decoder must take such a record all the same.
    let mut obj = serde_json::Map::new();
    obj.insert("type".to_string(), Value::String("microblog".to_string()));
    obj.insert(
        "content".to_string(),
        Value::String("hé \"q\" 🦀".to_string()),
    );
    obj.insert(
        "timestamp".to_string(),
        Value::Number(serde_json::Number::from(123u64)),
    );
    obj.insert("author".to_string(), Value::String("bob".to_string()));
    let bytes = serde_json::to_vec(&Value::Object(obj)).unwrap();
    let msg = Message::from_json(&bytes).unwrap();
    assert_eq!(msg.msg_type, MessageType::Microblog);
    assert_eq!(msg.content, "hé \"q\" 🦀");
    assert_eq!(msg.timestamp, 123);
    assert_eq!(msg.author, "bob");
}

#[test]
fn test_encoding_has_exactly_four_fields() {
    let msg = Message {
        msg_type: MessageType::Status,
        content: "x".to_string(),
        timestamp: 1,
        author: "a".to_string(),
    };
    let v: Value = serde_json::from_slice(&msg.to_json().unwrap()).unwrap();
    let obj = v.as_object().unwrap();
    assert_eq!(obj.len(), 4);
    assert!(obj.contains_key("type"));
    assert!(obj.contains_key("content"));
    assert!(obj.contains_key("timestamp"));
    assert!(obj.contains_key("author"));
}
