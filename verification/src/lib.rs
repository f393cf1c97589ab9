//! Decoder for the IDAT binary microarray-intensity file format.
//!
//! An IDAT file starts with a four-byte magic, an eight-byte version and a
//! four-byte field count, followed by a directory of (field code, absolute
//! offset) pairs. The decoder reads the directory, seeks to each required
//! field's offset and extracts the per-bead measurement arrays and the scalar
//! chip metadata into a [`idat::DecodedRecord`].
//!
//! Acquiring the raw bytes (resolving a path, decompressing a gzip variant)
//! is left to the caller; the decoder works on a fully materialized buffer.

pub mod errors;
pub mod fields;
pub mod reading_function;
pub mod idat;
pub mod source;
