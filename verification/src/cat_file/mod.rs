//! Reading objects out of the object database and showing them.

pub mod display;
