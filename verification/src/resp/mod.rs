//! The text protocol of Redis, RESP, as far as a `PING` and `SHUTDOWN`
//! service needs it.

pub mod decimal;
pub mod deserialize;
pub mod request;
pub mod serialize;
