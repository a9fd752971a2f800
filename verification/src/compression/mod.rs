//! The codec that stored objects are compressed with.

pub mod zlib;
