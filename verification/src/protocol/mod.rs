//! The frames exchanged between client and server.
//!
//! A frame is laid out like a log record: a `u32` variant index followed by
//! the variant's fields.  A reader tells three cases apart: a whole frame,
//! input that ends before the frame does, and bytes that cannot be a frame.

pub mod request;
pub mod response;

pub use crate::encoding::SerializationError;
pub use crate::protocol::request::Request;
pub use crate::protocol::response::Response;
