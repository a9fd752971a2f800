//! Plumbing for a content-addressed store of loose objects.
//!
//! An object is a header, `<kind> <size>` and a NUL, followed by its content.
//! Its hash is the SHA-1 digest of those bytes in hexadecimal, and it is
//! stored as a zlib stream under a path derived from the hash.
//!
//! * [`codec`] is the byte-level grammar: headers, tree records, records of
//!   text, decimal numbers and hexadecimal digests.
//! * [`compression`] and the digest in [`hash_object`] are the two things
//!   that other crates compute; what is believed of them is stated there.
//! * [`store`] holds the database in memory, stream by path. A program
//!   around the library reads the files it needs into a store and writes
//!   new streams back to disk.
//! * [`cat_file`] reads objects and [`hash_object`] writes them.
//! * [`laws`] states what holds across these parts.

pub mod cat_file;
pub mod codec;
pub mod compression;
pub mod error;
pub mod hash_object;
pub mod laws;
pub mod store;
pub mod text;
