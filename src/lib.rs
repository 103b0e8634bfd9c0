//! Core of a small nREPL-style protocol server: the wire codec for bencoded
//! dictionaries, request interpretation, the session registry with its
//! dispatcher, and version-4 session identifiers; plus a few runtime helpers.

pub mod type_tag;
pub mod uuid;
pub mod codec;
pub mod protocol;
pub mod server;
pub mod triml;
