//! Decoder for Type-Length-Value (TLV) record streams, the extensible
//! trailing-field encoding of Lightning-style peer-to-peer messages.
//!
//! A stream is a sequence of records, each a type id, a declared length and
//! that many payload bytes, both integers in the canonical variable-length
//! form. Decoding enforces the stream rules — strictly increasing type ids,
//! no duplicates, unknown even types rejected, unknown odd types preserved
//! as raw bytes under a fixed length ceiling — and produces an ordered map
//! from type id to decoded value.

pub mod decoder;
pub mod laws;
pub mod record;
pub mod stream;
pub mod varint;
