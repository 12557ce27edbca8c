//! The message envelope and its validity rules.

use vstd::prelude::*;

verus! {

/// The closed set of entry kinds the log may contain.
///
/// `Message` is a conversational chat message (its wire tag is `"message"`),
/// `Status` a presence update, `Microblog` a short public post capped at
/// 280 code points.
#[derive(Debug, Clone, Copy, PartialEq, Eq, Structural)]
pub enum MessageType {
    Message,
    Status,
    Microblog,
}

/// Why an envelope failed validation.
#[derive(Debug, Clone, Copy, PartialEq, Eq, Structural)]
pub enum ValidationError {
    /// The content field was empty at validation time.
    EmptyContent,
    /// A microblog post exceeded 280 code points.
    MicroblogTooLong,
}

/// One entry of the chat log: a kind, a content text, a creation time in
/// milliseconds since the Unix epoch, and an unauthenticated author label.
///
/// Construction always succeeds; validity is a separate, explicit check
/// (`validate`), so transient invalid envelopes can exist in memory.
#[derive(Debug, Clone)]
pub struct Message {
    pub msg_type: MessageType,
    pub content: String,
    pub timestamp: u64,
    pub author: String,
}

/// The mathematical model of a `Message`: its kind, the code points of its
/// two text fields, and its timestamp.
#[verifier::ext_equal]
pub ghost struct MessageModel {
    pub msg_type: MessageType,
    pub content: Seq<char>,
    pub timestamp: u64,
    pub author: Seq<char>,
}

impl View for Message {
    type V = MessageModel;

    open spec fn view(&self) -> MessageModel {
        MessageModel {
            msg_type: self.msg_type,
            content: self.content@,
            timestamp: self.timestamp,
            author: self.author@,
        }
    }
}

/// What `validate` returns for a given envelope: `EmptyContent` for empty
/// content whatever the kind, `MicroblogTooLong` for a microblog over 280
/// code points, success otherwise.
pub open spec fn validate_spec(m: MessageModel) -> Result<(), ValidationError> {
    if m.content.len() == 0 {
        Err(ValidationError::EmptyContent)
    } else if m.msg_type is Microblog && m.content.len() > 280 {
        Err(ValidationError::MicroblogTooLong)
    } else {
        Ok(())
    }
}

/// Milliseconds since the Unix epoch, read from the system clock.
///
/// Relies on `std::time::SystemTime::now`, `SystemTime::duration_since`
/// and `Duration::as_millis`. Nothing can be promised of a wall clock, so
/// the result is unconstrained; a clock set before the epoch yields 0
/// rather than a panic.
#[verifier::external_body]
fn now_millis() -> u64 {
    std::time::SystemTime::now()
        .duration_since(std::time::UNIX_EPOCH)
        .map(|d| d.as_millis() as u64)
        .unwrap_or(0)
}

impl Message {
    /// Builds an envelope from a kind, content, author and an explicit
    /// creation time, for callers that inject their own time source.
    /// Never fails; emptiness of the content is not rejected here but by
    /// `validate`.
    pub fn new_at(msg_type: MessageType, content: String, author: String, timestamp: u64) -> (r:
        Self)
        ensures
            r.msg_type == msg_type,
            r.content@ == content@,
            r.author@ == author@,
            r.timestamp == timestamp,
    {
        Self { msg_type, content, timestamp, author }
    }

    /// Builds an envelope from a kind, content and author, stamping it with
    /// the current wall-clock time. Never fails; emptiness of the content is
    /// not rejected here but by `validate`.
    pub fn new(msg_type: MessageType, content: String, author: String) -> (r: Self)
        ensures
            r.msg_type == msg_type,
            r.content@ == content@,
            r.author@ == author@,
    {
        let timestamp = now_millis();
        Self::new_at(msg_type, content, author, timestamp)
    }

    /// Checks the validity rules: non-empty content, and at most 280 code
    /// points for a microblog. Pure and idempotent; construction and
    /// encoding never invoke it.
    pub fn validate(&self) -> (r: Result<(), ValidationError>)
        ensures
            r == validate_spec(self@),
    {
        let n = self.content.as_str().unicode_len();
        if n == 0 {
            Err(ValidationError::EmptyContent)
        } else {
            match self.msg_type {
                MessageType::Microblog => {
                    if n > 280 {
                        Err(ValidationError::MicroblogTooLong)
                    } else {
                        Ok(())
                    }
                },
                _ => Ok(()),
            }
        }
    }
}

} // verus!
