//! What contracts emit and accept, at the level of words and bytes.
pub mod signatures;
pub mod calldata;
