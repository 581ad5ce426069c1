//! An in-memory key-value server that speaks the Redis wire protocol, as a
//! library: the frame codec, the keyspace with expiry, the snapshot reader,
//! the commands, and replication between a primary and its replicas.
//!
//! The library does no input or output but to read the clock. A connection
//! hands it the bytes it has read and gets frames; the server takes a frame
//! and says what to write, what to publish to the replicas, and whether to
//! go on.

pub mod args;
pub mod ascii;
pub mod buffer;
pub mod clock;
pub mod codec_laws;
pub mod config;
pub mod connection;
pub mod db;
pub mod error;
pub mod frame;
pub mod handlers;
pub mod handshake;
pub mod rdb;
pub mod replication;
pub mod server;
pub mod server_laws;
