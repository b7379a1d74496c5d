//! A small RESP2 (Redis serialization protocol) server core: a byte-level
//! parser and encoder for RESP values, the command set built on top of it,
//! and the in-memory key-value store the commands operate on.

pub mod buffer;
pub mod command;
pub mod number;
pub mod resp;
pub mod storage;
pub mod text;
