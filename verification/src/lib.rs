//! Base32 text encoding of binary data.
//!
//! [`encode`] writes bytes as text over an alphabet of 32 symbols, five bits
//! to a symbol, and [`decode`] reads such text back, in either case of its
//! letters. Neither writes nor expects padding.

pub mod alphabet;
pub mod blocks;
pub mod decoder;
pub mod encoder;
pub mod laws;

pub use alphabet::ALPHABET;
pub use decoder::{decode, DecodeError};
pub use encoder::encode;
