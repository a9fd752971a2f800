//! The byte-level grammar of loose objects.

pub mod decimal;
pub mod header;
pub mod hex;
pub mod records;
pub mod scan;
pub mod tree;
