//! Duplicate file detection: the decisions and grouping logic of a
//! duplicate finder, with the MD5 hashing of file contents.

pub mod hashing;
pub mod grouping;
pub mod ranking;
pub mod text;
pub mod traversal;
pub mod session;
pub mod layout;
