//! Sized output generation: a parser for human-readable byte counts and a
//! chunked write session that emits exactly the requested number of bytes,
//! either zeroed or random, from one bounded buffer.

pub mod random;
pub mod size;
pub mod stream;
pub mod text;
