//! The decisions of the network server.
//!
//! The server waits on two sources, its listening socket and a wake
//! descriptor that asks it to shut down, and serves each connection it
//! accepts.  Waiting, accepting, reading and writing are the caller's; what
//! to do with what was read, what to answer and when to stop are decided
//! here.

pub mod config;
pub mod connection;
pub mod handler;
pub mod poll;

pub use crate::server::config::EngineOpt;
pub use crate::server::handler::HandleRequest;
