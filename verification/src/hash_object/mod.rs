//! Hashing content and writing it into the object database.

pub mod content;
