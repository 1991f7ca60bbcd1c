//! The frame header, message kinds and errors shared by the decoder and the encoder.

use vstd::prelude::*;
use bson::Document;

verus! {

/// Size in bytes of a frame header.
pub const HEADER_SIZE: u32 = 16;

/// Op code of a reply frame.
pub const OP_REPLY_CODE: u32 = 1;

/// Op code of a query request frame.
pub const OP_QUERY_CODE: u32 = 2004;

/// The fixed header that starts every frame.
#[derive(Debug, Clone, Copy, PartialEq, Eq, Structural)]
pub struct MsgHeader {
    /// Size of the whole frame, this header included.
    pub message_length: u32,
    pub request_id: u32,
    pub response_to: u32,
    pub op_code: u32,
}

impl MsgHeader {
    /// The header of a frame that answers the frame that `self` heads.
    pub fn get_response_with_op_code(&self, request_id: u32, message_length: u32, op_code: u32) -> (r:
        MsgHeader)
        ensures
            r == (MsgHeader {
                message_length,
                request_id,
                response_to: self.request_id,
                op_code,
            }),
    {
        MsgHeader { message_length, request_id, response_to: self.request_id, op_code }
    }
}

/// The kind of request a response answers, with the header of that request.
#[derive(Debug, Clone, Copy, PartialEq, Eq, Structural)]
pub enum OpCode {
    OpQuery(MsgHeader),
    Other(MsgHeader),
}

/// What a request handler hands back: the id of the request it answers, the
/// kind of that request, and the one document of the answer.
#[derive(Debug)]
pub struct Response {
    pub id: u32,
    pub op_code: OpCode,
    pub doc: Document,
}

/// Why a frame could not be decoded or a reply could not be built.
#[derive(Debug, Clone, Copy, PartialEq, Eq, Structural)]
pub enum WireError {
    /// Too few bytes for a fixed-width field or for the collection name's terminator.
    TruncatedFrame,
    /// The query document is not a whole document, or a document cannot be encoded.
    MalformedDocument,
    /// A reply was asked for a request that is not a query.
    UnknownMessageKind,
}

} // verus!
