//! What the signer builds on: byte classes, encodings, the header parser and
//! the writer traits.

pub mod bytes;
pub mod crypto;
pub mod encoding;
pub mod headers;
