//! Base85 text encoding of byte sequences, in the alphabet of RFC 1924.
//!
//! Four bytes become five symbols; a shorter last chunk of `n` bytes becomes
//! `n + 1` symbols. Decoding skips ASCII spaces and fails on any other
//! character that is no symbol of the alphabet.

pub mod alphabet;
pub mod decoding;
pub mod encoding;
pub mod laws;
pub mod radix;
pub mod text;

pub use decoding::decode;
pub use encoding::encode;
