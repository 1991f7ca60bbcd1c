//! Decoding of legacy query-request frames and encoding of their reply frames.

pub mod bytes;
pub mod document;
pub mod header;
pub mod query;
pub mod reply;

pub use header::{MsgHeader, OpCode, Response, WireError, HEADER_SIZE, OP_QUERY_CODE, OP_REPLY_CODE};
pub use query::OP_QUERY;
pub use reply::OP_REPLY;
