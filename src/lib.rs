//! A small Redis-compatible key/value server library: the RESP2 frame codec,
//! the RDB snapshot reader, the keyspace with lazy expiration and the command
//! layer. Everything here works on byte buffers and plain values; sockets and
//! files stay with the binary, which hands the bytes over.
use vstd::prelude::*;

pub mod command;
pub mod database;
pub mod error;
pub mod keymap;
pub mod rdb;
pub mod request;
pub mod resp2;
pub mod response;
pub mod text;

verus! {

/// The replication role that the server reports.
#[derive(Debug, PartialEq, Eq, Structural, Clone, Copy)]
pub enum ServerMode {
    Master,
    Slave,
}

} // verus!
