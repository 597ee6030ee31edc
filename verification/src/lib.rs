//! A persistent key-value store: an append-only log of records with an
//! in-memory index, the wire protocol that exposes it, and the decisions of
//! the server and the client built around them.
//!
//! The library does no input or output.  The store works on the bytes of
//! its log, the protocol on buffers, and the server and the client are
//! given what was read and say what to write.

pub mod cli;
pub mod client;
pub mod cursor;
pub mod encoding;
pub mod engine;
pub mod protocol;
pub mod resp;
pub mod server;
pub mod store;

pub use crate::client::ClientError;
pub use crate::engine::{KvsEngine, KvsEngineError};
pub use crate::store::error::KvStoreError;
pub use crate::store::KvStore;

use vstd::prelude::*;

verus! {

/// The address that the server listens on when none is given.
pub const DEFAULT_ADDR: &'static str = "127.0.0.1:4000";

/// The name of the engine that the server starts when none is given.
pub const DEFAULT_ENGINE: &'static str = "kvs";

} // verus!
