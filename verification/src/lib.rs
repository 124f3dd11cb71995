//! Configurable wire encodings for byte buffers inside JSON documents.
//!
//! A [`Config`] chooses how a byte buffer is represented on the wire: as a
//! JSON array of small integers, as a hex string (optionally `0x`-prefixed),
//! or as a standard base64 string.  The codec in [`formatter`] converts
//! between byte buffers and those representations, in both directions, and
//! reports precise errors for malformed input.

pub mod base64;
pub mod config;
pub mod formatter;
pub mod hex;

pub use config::ByteMode;
pub use config::Config;
pub use formatter::ArrayElem;
pub use formatter::DecodeError;
pub use formatter::Encoded;
pub use formatter::decode;
pub use formatter::decode_array;
pub use formatter::encode;
pub use formatter::encode_array;
pub use hex::decode_hex;
pub use hex::encode_hex;
pub use base64::decode_base64;
pub use base64::encode_base64;
