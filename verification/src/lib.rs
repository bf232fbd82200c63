//! The header of a bitmap file and the grayscale transform of its pixels.
//!
//! `header` reads the fixed 54-byte header block into a `Header` and writes
//! it back byte for byte; `compression` names the compression codes;
//! `little_endian` holds the byte order of the numbers. `pixel` maps one
//! pixel to its gray level, and `pipeline` does so for a whole buffer, chunk
//! by chunk and in parallel.

pub mod compression;
pub mod header;
pub mod little_endian;
pub mod pipeline;
pub mod pixel;
