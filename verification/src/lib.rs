pub mod common;
pub mod hex;
pub mod names;
pub mod n3ds;
pub mod catalog;
pub mod matching;
