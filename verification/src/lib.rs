//! A typed, validated, serializable message envelope for an append-only
//! chat log: a closed set of message kinds, per-kind validity rules, and a
//! canonical JSON encoding with a proved decode/encode round trip.

pub mod laws;
pub mod message;
pub mod parse;
pub mod text;
pub mod wire;

pub use message::Message;
pub use message::MessageType;
pub use message::ValidationError;
pub use parse::DecodeError;
pub use wire::EncodeError;
