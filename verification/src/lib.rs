//! Bit-level reading for H.264 bitstreams.
//!
//! The lowest layer of an H.264 implementation: a fallible bit reader over an
//! RBSP buffer and the Exp-Golomb codes of ITU-T H.264 clause 9.1. Every read
//! is specified against a mathematical model of the buffer (see [`model`]),
//! returns an error instead of running off the end of the data, and never
//! panics. The module [`code_laws`] proves what each read decodes in terms of
//! the bits of the buffer, and [`laws`] proves that only truncated reads
//! depend on the bytes that follow them.

pub mod code_laws;
pub mod error;
pub mod laws;
pub mod model;
mod reader;

pub use error::{BitstreamError, InvalidReason};
pub use reader::BitReader;
