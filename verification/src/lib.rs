//! Decoder for the Yaz0 run-length / back-reference compressed container.
//!
//! A container is a 16-byte header (magic tag, big-endian declared output
//! size, reserved padding) followed by a payload of control bytes and
//! operations. Each control byte drives eight operations, most significant
//! bit first: a set bit copies one literal byte from the payload, a clear
//! bit copies a short run out of the output produced so far.
//!
//! `model` holds the mathematical description of the format, `decode` the
//! executable decoder proved against it, and `laws` the proved properties
//! of the format itself.

pub mod decode;
pub mod laws;
pub mod model;

pub use decode::decompress;
pub use model::DecompressError;
