//! A small in-memory key-value server and its client, speaking a subset of
//! the Redis serialization protocol.

pub mod buf;
pub mod cli;
pub mod client;
pub mod cmd;
pub mod connection;
pub mod db;
pub mod decimal;
pub mod expirations;
pub mod frame;
pub mod incremental;
pub mod order;
pub mod parse;
pub mod pubsub;
pub mod round_trip;
pub mod server;
pub mod shutdown;
pub mod text;
pub mod time;
pub mod wire;

pub use cmd::Command;
pub use frame::Frame;

use vstd::prelude::*;

verus! {

/// The port that the server listens on where none is given.
pub const DEFAULT_PORT: u16 = 6379;

} // verus!
