//! Reply frames: the answer to a query request.

use vstd::prelude::*;
use bson::Document;
use crate::bytes::{
    le_u32, le_u64, lemma_le_u32_of, lemma_le_u64_of, push_u32_le, push_u64_le, u32_le, u64_le,
};
use crate::document::{encode_document, encoded_document};
use crate::header::{MsgHeader, OpCode, Response, WireError, HEADER_SIZE, OP_REPLY_CODE};
use crate::query::OP_QUERY;

verus! {

/// A reply frame: header, fixed fields and documents.
#[allow(non_camel_case_types)]
#[derive(Debug)]
pub struct OP_REPLY {
    pub header: MsgHeader,
    pub flags: u32,
    pub cursor_id: u64,
    pub starting_from: u32,
    pub number_returned: u32,
    pub documents: Vec<Document>,
}

/// The sixteen bytes of a header on the wire.
pub open spec fn header_bytes(h: MsgHeader) -> Seq<u8> {
    u32_le(h.message_length) + u32_le(h.request_id) + u32_le(h.response_to) + u32_le(h.op_code)
}

/// The encodings of `docs` back to back, or `None` where one cannot be encoded.
pub open spec fn encode_all(docs: Seq<Document>) -> Option<Seq<u8>>
    decreases docs.len(),
{
    if docs.len() == 0 {
        Some(Seq::empty())
    } else {
        match (encode_all(docs.drop_last()), encoded_document(docs.last())) {
            (Some(a), Some(e)) => Some(a + e),
            _ => None,
        }
    }
}

/// Where a prefix of `docs` cannot be encoded, neither can a longer one.
proof fn lemma_encode_all_fails_on(docs: Seq<Document>, i: int, k: int)
    requires
        0 <= i <= k <= docs.len(),
        encode_all(docs.subrange(0, i)) is None,
    ensures
        encode_all(docs.subrange(0, k)) is None,
    decreases k - i,
{
    if i < k {
        lemma_encode_all_fails_on(docs, i, k - 1);
        assert(docs.subrange(0, k).drop_last() =~= docs.subrange(0, k - 1));
    }
}

impl OP_REPLY {
    pub fn new(
        header: MsgHeader,
        flags: u32,
        cursor_id: u64,
        starting_from: u32,
        number_returned: u32,
        documents: Vec<Document>,
    ) -> (r: OP_REPLY)
        ensures
            r.header == header,
            r.flags == flags,
            r.cursor_id == cursor_id,
            r.starting_from == starting_from,
            r.number_returned == number_returned,
            r.documents@ == documents@,
    {
        OP_REPLY { header, flags, cursor_id, starting_from, number_returned, documents }
    }

    /// The bytes before the documents: the header, then flags, cursor id,
    /// starting position and number returned.
    pub open spec fn fixed_bytes(&self) -> Seq<u8> {
        header_bytes(self.header) + u32_le(self.flags) + u64_le(self.cursor_id) + u32_le(
            self.starting_from,
        ) + u32_le(self.number_returned)
    }

    /// The frame on the wire; an error where a document cannot be encoded.
    pub fn to_vec(&self) -> (r: Result<Vec<u8>, WireError>)
        ensures
            match encode_all(self.documents@) {
                Some(e) => r is Ok && r->Ok_0@ == self.fixed_bytes() + e,
                None => r == Err::<Vec<u8>, WireError>(WireError::MalformedDocument),
            },
    {
        let mut out: Vec<u8> = Vec::new();
        push_u32_le(&mut out, self.header.message_length);
        push_u32_le(&mut out, self.header.request_id);
        push_u32_le(&mut out, self.header.response_to);
        push_u32_le(&mut out, self.header.op_code);
        push_u32_le(&mut out, self.flags);
        push_u64_le(&mut out, self.cursor_id);
        push_u32_le(&mut out, self.starting_from);
        push_u32_le(&mut out, self.number_returned);
        let ghost fixed = out@;
        assert(fixed =~= self.fixed_bytes());
        let docs = &self.documents;
        let mut i: usize = 0;
        while i < docs.len()
            invariant
                i <= docs@.len(),
                fixed == self.fixed_bytes(),
                docs@ == self.documents@,
                encode_all(docs@.subrange(0, i as int)) is Some,
                out@ == fixed + encode_all(docs@.subrange(0, i as int))->Some_0,
            decreases docs@.len() - i,
        {
            let ghost before = out@;
            let ghost upto = docs@.subrange(0, i as int + 1);
            assert(upto.drop_last() =~= docs@.subrange(0, i as int));
            assert(upto.last() == docs@[i as int]);
            match encode_document(&docs[i]) {
                Ok(bytes) => {
                    let mut j: usize = 0;
                    while j < bytes.len()
                        invariant
                            j <= bytes@.len(),
                            out@ == before + bytes@.subrange(0, j as int),
                        decreases bytes@.len() - j,
                    {
                        out.push(bytes[j]);
                        j = j + 1;
                        assert(out@ =~= before + bytes@.subrange(0, j as int));
                    }
                    assert(bytes@.subrange(0, j as int) =~= bytes@);
                    i = i + 1;
                    assert(out@ =~= fixed + encode_all(docs@.subrange(0, i as int))->Some_0);
                },
                Err(_) => {
                    proof {
                        lemma_encode_all_fails_on(docs@, i as int + 1, docs@.len() as int);
                        assert(docs@.subrange(0, docs@.len() as int) =~= docs@);
                    }
                    return Err(WireError::MalformedDocument);
                },
            }
        }
        assert(docs@.subrange(0, i as int) =~= docs@);
        Ok(out)
    }
}

/// Size in bytes of the fields between a reply's header and its documents.
pub const REPLY_FIELDS_SIZE: u32 = 20;

/// The reply frame to a query whose header has id `query_id`, built by a handler
/// that gave the id `reply_id`, with request flags `flags` and the one encoded
/// document `doc`.
pub open spec fn reply_frame(query_id: u32, reply_id: u32, flags: u32, doc: Seq<u8>) -> Seq<u8> {
    let header = MsgHeader {
        message_length: (HEADER_SIZE + REPLY_FIELDS_SIZE + doc.len()) as u32,
        request_id: reply_id,
        response_to: query_id,
        op_code: OP_REPLY_CODE,
    };
    header_bytes(header) + u32_le(flags) + u64_le(0) + u32_le(0) + u32_le(1) + doc
}

/// What replying with `flags` to the response `(reply_id, op_code, doc)` gives.
pub open spec fn reply_outcome(flags: u32, reply_id: u32, op_code: OpCode, doc: Document) -> Result<
    Seq<u8>,
    WireError,
> {
    match op_code {
        OpCode::Other(_) => Err(WireError::UnknownMessageKind),
        OpCode::OpQuery(h) => match encoded_document(doc) {
            None => Err(WireError::MalformedDocument),
            Some(e) => if e.len() > u32::MAX - HEADER_SIZE - REPLY_FIELDS_SIZE {
                Err(WireError::MalformedDocument)
            } else {
                Ok(reply_frame(h.request_id, reply_id, flags, e))
            },
        },
    }
}

impl OP_QUERY {
    /// The bytes of the reply frame that answers this query with the one
    /// document of `res`.
    pub fn reply(&self, res: Response) -> (r: Result<Vec<u8>, WireError>)
        ensures
            match r {
                Ok(v) => reply_outcome(self.flags, res.id, res.op_code, res.doc) == Ok::<
                    Seq<u8>,
                    WireError,
                >(v@),
                Err(e) => reply_outcome(self.flags, res.id, res.op_code, res.doc) == Err::<
                    Seq<u8>,
                    WireError,
                >(e),
            },
    {
        let query_header = match res.op_code {
            OpCode::OpQuery(h) => h,
            OpCode::Other(_) => {
                return Err(WireError::UnknownMessageKind);
            },
        };
        let encoded = match encode_document(&res.doc) {
            Ok(bytes) => bytes,
            Err(_) => {
                return Err(WireError::MalformedDocument);
            },
        };
        if encoded.len() > (u32::MAX - HEADER_SIZE - REPLY_FIELDS_SIZE) as usize {
            return Err(WireError::MalformedDocument);
        }
        let message_length = HEADER_SIZE + REPLY_FIELDS_SIZE + encoded.len() as u32;
        let header = query_header.get_response_with_op_code(res.id, message_length, OP_REPLY_CODE);
        let ghost doc = res.doc;
        let reply = OP_REPLY::new(header, self.flags, 0, 0, 1, vec![res.doc]);
        let r = reply.to_vec();
        proof {
            let docs = reply.documents@;
            assert(docs.drop_last() =~= Seq::<Document>::empty());
            assert(docs.len() == 1 && docs[0] == doc);
            assert(docs.last() == doc);
            assert(encode_all(Seq::<Document>::empty()) == Some(Seq::<u8>::empty()));
            assert(Seq::<u8>::empty() + encoded@ =~= encoded@);
            assert(encode_all(docs) == Some(encoded@));
        }
        r
    }
}

/// Reading a reply frame back by the wire layout gives: a declared length equal
/// to the frame's length, the id of the answered query as the response-to id,
/// the reply op code, the request's flags, cursor id zero, starting position
/// zero, one document returned, and that document's encoding as the rest.
pub proof fn lemma_reply_reads_back(flags: u32, reply_id: u32, op_code: OpCode, doc: Document)
    requires
        reply_outcome(flags, reply_id, op_code, doc) is Ok,
    ensures
        ({
            let f = reply_outcome(flags, reply_id, op_code, doc)->Ok_0;
            &&& op_code is OpQuery
            &&& f.len() >= 36
            &&& le_u32(f, 0) == f.len()
            &&& le_u32(f, 4) == reply_id
            &&& le_u32(f, 8) == op_code->OpQuery_0.request_id
            &&& le_u32(f, 12) == OP_REPLY_CODE
            &&& le_u32(f, 16) == flags
            &&& le_u64(f, 20) == 0
            &&& le_u32(f, 28) == 0
            &&& le_u32(f, 32) == 1
            &&& f.subrange(36, f.len() as int) == encoded_document(doc)->Some_0
        }),
{
    let h = op_code->OpQuery_0;
    let e = encoded_document(doc)->Some_0;
    let f = reply_frame(h.request_id, reply_id, flags, e);
    let len = (HEADER_SIZE + REPLY_FIELDS_SIZE + e.len()) as u32;
    assert(f.subrange(0, 4) =~= u32_le(len));
    lemma_le_u32_of(f, 0, len);
    assert(f.subrange(4, 8) =~= u32_le(reply_id));
    lemma_le_u32_of(f, 4, reply_id);
    assert(f.subrange(8, 12) =~= u32_le(h.request_id));
    lemma_le_u32_of(f, 8, h.request_id);
    assert(f.subrange(12, 16) =~= u32_le(OP_REPLY_CODE));
    lemma_le_u32_of(f, 12, OP_REPLY_CODE);
    assert(f.subrange(16, 20) =~= u32_le(flags));
    lemma_le_u32_of(f, 16, flags);
    assert(f.subrange(20, 28) =~= u64_le(0));
    lemma_le_u64_of(f, 20, 0);
    assert(f.subrange(28, 32) =~= u32_le(0));
    lemma_le_u32_of(f, 28, 0);
    assert(f.subrange(32, 36) =~= u32_le(1));
    lemma_le_u32_of(f, 32, 1);
    assert(f.subrange(36, f.len() as int) =~= e);
}

} // verus!
