//! Byte-level primitives behind a fixed-capacity, stack-allocated UTF-8 string.
//!
//! The buffer type [`StaticString`] stores at most `N` bytes, of which the first
//! `len` are the live text. The primitives in [`utils`] validate offsets, move the
//! live tail to open or close a gap, encode a single `char` in place and cut a
//! `&str` at a character boundary. Each is proved against the UTF-8 model of
//! `vstd::utf8`.
pub mod error;
pub mod lemmas;
pub mod string;
pub mod utils;

pub use error::Error;
pub use string::{SmallString, StaticString};
