//! A bounded, transactional buffer of log lines.
//!
//! Lines are assembled from three segments (metadata, payload and fields)
//! inside a write transaction and appended to the buffer on commit. A line
//! never splits a multi-byte character, and its length is held to a byte
//! budget either by trimming segments or by refusing the line.
pub mod dump_item;
pub mod line_buffer;
pub mod text;
