//! Analysis of chunked linear-PCM audio containers.
//!
//! The library walks a tag/length/value byte stream into chunks, decodes the
//! format record, segments one channel's 16-bit sample stream into repeating
//! periodic units ("contours") with a zero-crossing similarity heuristic, and
//! reduces each contour to a row of integer descriptors.

pub mod analyze;
pub mod bytes;
pub mod chunk;
pub mod engine;
pub mod error;
pub mod format;
pub mod stats;
