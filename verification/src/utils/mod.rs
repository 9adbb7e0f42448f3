//! Helpers shared by the other modules: hexadecimal text, little-endian
//! words and vector copies.

pub mod encoding;
pub mod vectors;

pub use encoding::{bytes_to_u32_le, decode_hex, encode_hex, u32_to_bytes_le, HexError};
pub use vectors::copy_of;
