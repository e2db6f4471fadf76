//! A minimal Redis-compatible in-memory key/value store: the RESP wire codec,
//! the per-connection frame parser, the keyspace with millisecond expiries,
//! the RDB snapshot decoder, the command dispatcher, and the replication
//! handshake, all with verified contracts.
//!
//! Socket handling, file reads and the task runtime live outside this crate;
//! they hand buffers and plain values in and carry replies back out.

pub mod commands;
pub mod handler;
pub mod laws;
pub mod num;
pub mod rdb;
pub mod repl;
pub mod serde;
pub mod server;
pub mod store;
pub mod value;
