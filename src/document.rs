//! Structured documents: the self-length-prefixed payloads carried by a frame,
//! decoded and encoded by the `bson` crate.

use vstd::prelude::*;
use bson::Document;
use crate::bytes::{le_u32, read_u32_le};

verus! {

#[verifier::external_type_specification]
#[verifier::external_body]
pub struct ExDocument(bson::Document);

#[verifier::external_type_specification]
#[verifier::external_body]
pub struct ExDecodeError(bson::de::Error);

#[verifier::external_type_specification]
#[verifier::external_body]
pub struct ExEncodeError(bson::ser::Error);

/// The document that `Document::from_reader` builds from exactly the bytes `b`,
/// or `None` where it reports an error.
pub uninterp spec fn decoded_document(b: Seq<u8>) -> Option<Document>;

/// The bytes that `bson::to_vec` produces for `d`, or `None` where it reports an error.
pub uninterp spec fn encoded_document(d: Document) -> Option<Seq<u8>>;

/// The keys of `d`, in order.
pub uninterp spec fn document_keys(d: Document) -> Seq<Seq<char>>;

/// Relies on `bson::Document::new`: the new document has no fields.
pub assume_specification[ bson::Document::new ]() -> (r: Document)
    ensures
        document_keys(r).len() == 0,
;

/// Relies on `bson::Document::from_reader`: what it reads from a byte string
/// depends on those bytes alone.
#[verifier::external_body]
fn decode_document(b: &[u8]) -> (r: Result<Document, bson::de::Error>)
    ensures
        r is Ok <==> decoded_document(b@) is Some,
        r is Ok ==> decoded_document(b@) == Some(r->Ok_0),
{
    Document::from_reader(b)
}

/// Relies on `bson::to_vec`: the bytes it writes for a document depend on
/// that document alone.
#[verifier::external_body]
pub(crate) fn encode_document(d: &Document) -> (r: Result<Vec<u8>, bson::ser::Error>)
    ensures
        r is Ok <==> encoded_document(*d) is Some,
        r is Ok ==> encoded_document(*d) == Some(r->Ok_0@),
{
    bson::to_vec(d)
}

/// The length that the document starting at `at` declares in its first four bytes.
pub open spec fn declared_len(b: Seq<u8>, at: int) -> int {
    le_u32(b, at)
}

/// Whether a whole document starts at `at`: its declared length is at least the
/// five bytes of an empty document, it fits in `b`, and its bytes decode.
pub open spec fn framed_at(b: Seq<u8>, at: int) -> bool {
    &&& 0 <= at
    &&& at + 4 <= b.len()
    &&& 5 <= declared_len(b, at) <= b.len() - at
    &&& decoded_document(b.subrange(at, at + declared_len(b, at))) is Some
}

/// The document that starts at `at`, where `framed_at(b, at)`.
pub open spec fn doc_at(b: Seq<u8>, at: int) -> Document {
    decoded_document(b.subrange(at, at + declared_len(b, at)))->Some_0
}

/// The position just past the document that starts at `at`.
pub open spec fn doc_end(b: Seq<u8>, at: int) -> int {
    at + declared_len(b, at)
}

/// Decodes the document that starts at `at`, with the position just past it;
/// `None` where no whole document starts there.
pub fn read_document_at(buf: &[u8], at: usize) -> (r: Option<(Document, usize)>)
    requires
        at <= buf@.len(),
    ensures
        r is Some <==> framed_at(buf@, at as int),
        r is Some ==> r->Some_0.0 == doc_at(buf@, at as int) && r->Some_0.1 == doc_end(
            buf@,
            at as int,
        ),
{
    if buf.len() - at < 4 {
        return None;
    }
    let n = read_u32_le(buf, at);
    if n < 5 || n as usize > buf.len() - at {
        return None;
    }
    let end = at + n as usize;
    match decode_document(&buf[at..end]) {
        Ok(d) => Some((d, end)),
        Err(_) => None,
    }
}

} // verus!
