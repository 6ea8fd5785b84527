//! Peer-wire message framing and the metadata-exchange extension payload.
//!
//! `message` holds the message vocabulary, `wire` the mathematical model of the
//! length-prefixed frame format together with the laws proved of it, `buffer`
//! the assumptions made of `bytes::BytesMut`, and `framed` the codec that runs
//! on such a buffer. `bencode` states what is assumed of `serde_bencode`,
//! `scan` finds where a bencoded dictionary ends, `record` shows that a
//! written dictionary of integers is one by that grammar, and `extension` is
//! the metadata-exchange payload codec built on these.

pub mod bencode;
pub mod buffer;
pub mod extension;
pub mod framed;
pub mod message;
pub mod record;
pub mod scan;
pub mod wire;
