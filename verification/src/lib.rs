//! Verified core of a small Rust learning path: a RESP key-value server,
//! an image-to-text renderer, a message board and the basic exercises.

pub mod ascii_art;
pub mod basics;
pub mod board;
pub mod cmd;
pub mod connection;
pub mod decimal;
pub mod picture;
pub mod protocol;
pub mod text;
pub mod username;
