//! Query request frames: decoding the body that follows the header.

use vstd::prelude::*;
use bson::Document;
use crate::bytes::{le_u32, lemma_le_u32_of, read_u32_le, u32_le};
use crate::document::{
    declared_len, decoded_document, document_keys, doc_at, doc_end, framed_at, read_document_at,
};
use crate::header::{MsgHeader, WireError};

verus! {

/// The text that `String::from_utf8_lossy` makes of the bytes `b`.
pub uninterp spec fn lossy_text(b: Seq<u8>) -> Seq<char>;

/// Relies on `String::from_utf8_lossy`: the text depends on the bytes alone.
#[verifier::external_body]
fn bytes_to_text(b: &Vec<u8>) -> (r: String)
    ensures
        r@ == lossy_text(b@),
{
    String::from_utf8_lossy(b.as_slice()).into_owned()
}

/// A decoded query request.
#[allow(non_camel_case_types)]
#[derive(Debug)]
pub struct OP_QUERY {
    pub header: MsgHeader,
    pub flags: u32,
    pub collection: String,
    pub number_to_skip: u32,
    pub number_to_return: u32,
    pub query: Document,
    pub return_fields: Option<Document>,
}

/// The value of a query request, with the collection name as text.
pub struct QueryView {
    pub header: MsgHeader,
    pub flags: u32,
    pub collection: Seq<char>,
    pub number_to_skip: u32,
    pub number_to_return: u32,
    pub query: Document,
    pub return_fields: Option<Document>,
}

impl View for OP_QUERY {
    type V = QueryView;

    open spec fn view(&self) -> QueryView {
        QueryView {
            header: self.header,
            flags: self.flags,
            collection: self.collection@,
            number_to_skip: self.number_to_skip,
            number_to_return: self.number_to_return,
            query: self.query,
            return_fields: self.return_fields,
        }
    }
}

/// The first position at or after `i` that holds a zero byte, or the length of
/// `b` where there is none.
pub open spec fn nul_index(b: Seq<u8>, i: int) -> int
    decreases b.len() - i,
{
    if 0 <= i < b.len() {
        if b[i] == 0 {
            i
        } else {
            nul_index(b, i + 1)
        }
    } else {
        b.len() as int
    }
}

/// The position of the collection name's terminator, in a body that starts at `p`.
pub open spec fn name_end(b: Seq<u8>, p: int) -> int {
    nul_index(b, p + 4)
}

/// The position just past the two counts, where the query document starts.
pub open spec fn counts_end(b: Seq<u8>, p: int) -> int {
    name_end(b, p) + 9
}

/// Whether the flags, the terminated collection name and both counts fit in `b`.
pub open spec fn fixed_fields_fit(b: Seq<u8>, p: int) -> bool {
    &&& 0 <= p
    &&& p + 4 <= b.len()
    &&& name_end(b, p) < b.len()
    &&& counts_end(b, p) <= b.len()
}

/// The error of decoding the body that starts at `p`, if there is one.
pub open spec fn decode_error(b: Seq<u8>, p: int) -> Option<WireError> {
    if !fixed_fields_fit(b, p) {
        Some(WireError::TruncatedFrame)
    } else if counts_end(b, p) < b.len() && !framed_at(b, counts_end(b, p)) {
        Some(WireError::MalformedDocument)
    } else {
        None
    }
}

/// Whether `v` is what decoding the body at `p` under `header` gives, with the
/// position `end` where decoding stopped.
pub open spec fn decoded_as(header: MsgHeader, b: Seq<u8>, p: int, v: QueryView, end: int) -> bool {
    let n = name_end(b, p);
    let c = counts_end(b, p);
    &&& decode_error(b, p) is None
    &&& v.header == header
    &&& v.flags == le_u32(b, p)
    &&& v.collection == lossy_text(b.subrange(p + 4, n))
    &&& v.number_to_skip == le_u32(b, n + 1)
    &&& v.number_to_return == le_u32(b, n + 5)
    &&& if c == b.len() {
        &&& document_keys(v.query).len() == 0
        &&& v.return_fields is None
        &&& end == c
    } else {
        let q = doc_end(b, c);
        &&& v.query == doc_at(b, c)
        &&& if framed_at(b, q) {
            v.return_fields == Some(doc_at(b, q)) && end == doc_end(b, q)
        } else {
            v.return_fields is None && end == q
        }
    }
}

impl OP_QUERY {
    /// Decodes the body of a query request that starts at `*pos` in `buf`, and
    /// moves `*pos` past what was read. On an error `*pos` is left as it was.
    pub fn parse(header: MsgHeader, buf: &[u8], pos: &mut usize) -> (r: Result<OP_QUERY, WireError>)
        ensures
            match r {
                Ok(q) => decoded_as(header, buf@, *old(pos) as int, q@, *final(pos) as int),
                Err(e) => decode_error(buf@, *old(pos) as int) == Some(e) && *final(pos) == *old(pos),
            },
    {
        let len = buf.len();
        let start = *pos;
        if start > len || len - start < 4 {
            return Err(WireError::TruncatedFrame);
        }
        let flags = read_u32_le(buf, start);
        let mut i: usize = start + 4;
        let mut name: Vec<u8> = Vec::new();
        while i < len && buf[i] != 0
            invariant
                len == buf@.len(),
                start + 4 <= i <= len,
                name@ == buf@.subrange(start + 4, i as int),
                nul_index(buf@, i as int) == name_end(buf@, start as int),
            decreases len - i,
        {
            name.push(buf[i]);
            i = i + 1;
            assert(name@ =~= buf@.subrange(start + 4, i as int));
        }
        if i >= len || len - i - 1 < 8 {
            return Err(WireError::TruncatedFrame);
        }
        let number_to_skip = read_u32_le(buf, i + 1);
        let number_to_return = read_u32_le(buf, i + 5);
        let collection = bytes_to_text(&name);
        let c = i + 9;
        if c == len {
            *pos = c;
            return Ok(
                OP_QUERY {
                    header,
                    flags,
                    collection,
                    number_to_skip,
                    number_to_return,
                    query: Document::new(),
                    return_fields: None,
                },
            );
        }
        match read_document_at(buf, c) {
            None => Err(WireError::MalformedDocument),
            Some((query, q)) => {
                let return_fields = match read_document_at(buf, q) {
                    Some((projection, e)) => {
                        *pos = e;
                        Some(projection)
                    },
                    None => {
                        *pos = q;
                        None
                    },
                };
                Ok(
                    OP_QUERY {
                        header,
                        flags,
                        collection,
                        number_to_skip,
                        number_to_return,
                        query,
                        return_fields,
                    },
                )
            },
        }
    }
}

/// The body of a query request up to the query document: flags, the collection
/// name and its terminator, and the two counts.
pub open spec fn query_fields(flags: u32, name: Seq<u8>, skip: u32, ret: u32) -> Seq<u8> {
    u32_le(flags) + name + seq![0u8] + u32_le(skip) + u32_le(ret)
}

/// Whether `d` is one whole document: its declared length is its length, and it decodes.
pub open spec fn whole_document(d: Seq<u8>) -> bool {
    &&& 5 <= d.len()
    &&& le_u32(d, 0) == d.len()
    &&& decoded_document(d) is Some
}

/// Whether `name` can stand as a collection name: it holds no zero byte.
pub open spec fn plain_name(name: Seq<u8>) -> bool {
    forall|k: int| 0 <= k < name.len() ==> name[k] != 0
}

proof fn lemma_nul_index_at(b: Seq<u8>, i: int, j: int)
    requires
        0 <= i <= j < b.len(),
        b[j] == 0,
        forall|k: int| i <= k < j ==> b[k] != 0,
    ensures
        nul_index(b, i) == j,
    decreases j - i,
{
    if i < j {
        lemma_nul_index_at(b, i + 1, j);
    }
}

/// Where a document starts at `at` in `b` with the bytes `d`, it is read whole.
proof fn lemma_document_in(b: Seq<u8>, at: int, d: Seq<u8>)
    requires
        0 <= at,
        at + d.len() <= b.len(),
        b.subrange(at, at + d.len()) == d,
        whole_document(d),
    ensures
        framed_at(b, at),
        doc_at(b, at) == decoded_document(d)->Some_0,
        doc_end(b, at) == at + d.len(),
{
    assert(b[at] == d[0] && b[at + 1] == d[1] && b[at + 2] == d[2] && b[at + 3] == d[3]);
    assert(declared_len(b, at) == d.len());
}

/// The fixed fields of a body built by `query_fields` read back as they were written.
proof fn lemma_fields_read_back(b: Seq<u8>, flags: u32, name: Seq<u8>, skip: u32, ret: u32)
    requires
        plain_name(name),
        b.subrange(0, 13 + name.len() as int) == query_fields(flags, name, skip, ret),
        13 + name.len() <= b.len(),
    ensures
        fixed_fields_fit(b, 0),
        name_end(b, 0) == 4 + name.len(),
        counts_end(b, 0) == 13 + name.len(),
        le_u32(b, 0) == flags,
        b.subrange(4, 4 + name.len() as int) == name,
        le_u32(b, 5 + name.len() as int) == skip,
        le_u32(b, 9 + name.len() as int) == ret,
{
    let n = name.len() as int;
    let f = query_fields(flags, name, skip, ret);
    assert forall|k: int| 4 <= k < 4 + n implies b[k] != 0 by {
        assert(b[k] == f[k]);
        assert(f[k] == name[k - 4]);
    }
    assert(b[4 + n] == f[4 + n]);
    lemma_nul_index_at(b, 4, 4 + n);
    assert(b.subrange(0, 4) =~= f.subrange(0, 4));
    assert(f.subrange(0, 4) =~= u32_le(flags));
    lemma_le_u32_of(b, 0, flags);
    assert(b.subrange(4, 4 + n) =~= name) by {
        assert forall|k: int| 0 <= k < n implies b.subrange(4, 4 + n)[k] == name[k] by {
            assert(b[4 + k] == f[4 + k]);
        }
    }
    assert(b.subrange(5 + n, 9 + n) =~= u32_le(skip)) by {
        assert forall|k: int| 0 <= k < 4 implies b.subrange(5 + n, 9 + n)[k] == u32_le(skip)[k] by {
            assert(b[5 + n + k] == f[5 + n + k]);
        }
    }
    lemma_le_u32_of(b, 5 + n, skip);
    assert(b.subrange(9 + n, 13 + n) =~= u32_le(ret)) by {
        assert forall|k: int| 0 <= k < 4 implies b.subrange(9 + n, 13 + n)[k] == u32_le(ret)[k] by {
            assert(b[9 + n + k] == f[9 + n + k]);
        }
    }
    lemma_le_u32_of(b, 9 + n, ret);
}

/// A body that ends with its query document decodes without error, to a
/// request whose fields are those written, whose query document is what that
/// document's bytes decode to, and which has no projection; decoding stops at
/// the end of the body.
pub proof fn lemma_parse_query_only(
    header: MsgHeader,
    flags: u32,
    name: Seq<u8>,
    skip: u32,
    ret: u32,
    query: Seq<u8>,
)
    requires
        plain_name(name),
        whole_document(query),
    ensures
        ({
            let b = query_fields(flags, name, skip, ret) + query;
            &&& decode_error(b, 0) is None
            &&& forall|v: QueryView, end: int| #[trigger]
                decoded_as(header, b, 0, v, end) ==> {
                    &&& v.header == header
                    &&& v.flags == flags
                    &&& v.collection == lossy_text(name)
                    &&& v.number_to_skip == skip
                    &&& v.number_to_return == ret
                    &&& v.query == decoded_document(query)->Some_0
                    &&& v.return_fields is None
                    &&& end == b.len()
                }
        }),
{
    let f = query_fields(flags, name, skip, ret);
    let b = f + query;
    let c = f.len() as int;
    assert(b.subrange(0, c) =~= f);
    lemma_fields_read_back(b, flags, name, skip, ret);
    assert(b.subrange(c, c + query.len()) =~= query);
    lemma_document_in(b, c, query);
}

/// A body that carries a query document and then a projection document decodes
/// without error to a request holding both, and decoding stops exactly at the
/// end of the body.
pub proof fn lemma_parse_query_and_projection(
    header: MsgHeader,
    flags: u32,
    name: Seq<u8>,
    skip: u32,
    ret: u32,
    query: Seq<u8>,
    projection: Seq<u8>,
)
    requires
        plain_name(name),
        whole_document(query),
        whole_document(projection),
    ensures
        ({
            let b = query_fields(flags, name, skip, ret) + query + projection;
            &&& decode_error(b, 0) is None
            &&& forall|v: QueryView, end: int| #[trigger]
                decoded_as(header, b, 0, v, end) ==> {
                    &&& v.header == header
                    &&& v.flags == flags
                    &&& v.collection == lossy_text(name)
                    &&& v.number_to_skip == skip
                    &&& v.number_to_return == ret
                    &&& v.query == decoded_document(query)->Some_0
                    &&& v.return_fields == Some(decoded_document(projection)->Some_0)
                    &&& end == b.len()
                }
        }),
{
    let f = query_fields(flags, name, skip, ret);
    let b = f + query + projection;
    let c = f.len() as int;
    let q = c + query.len();
    assert(b.subrange(0, c) =~= f);
    lemma_fields_read_back(b, flags, name, skip, ret);
    assert(b.subrange(c, q) =~= query);
    lemma_document_in(b, c, query);
    assert(b.subrange(q, q + projection.len()) =~= projection);
    lemma_document_in(b, q, projection);
}

/// A body that ends right after the two counts decodes without error to a
/// request whose query document has no fields and which has no projection.
pub proof fn lemma_parse_no_documents(
    header: MsgHeader,
    flags: u32,
    name: Seq<u8>,
    skip: u32,
    ret: u32,
)
    requires
        plain_name(name),
    ensures
        ({
            let b = query_fields(flags, name, skip, ret);
            &&& decode_error(b, 0) is None
            &&& forall|v: QueryView, end: int| #[trigger]
                decoded_as(header, b, 0, v, end) ==> {
                    &&& document_keys(v.query).len() == 0
                    &&& v.return_fields is None
                    &&& end == b.len()
                }
        }),
{
    let b = query_fields(flags, name, skip, ret);
    assert(b.subrange(0, b.len() as int) =~= b);
    lemma_fields_read_back(b, flags, name, skip, ret);
}

/// Decoding one body twice gives the same request: every field agrees, and the
/// two query documents are equal or both have no fields; both stop at the same
/// position.
pub proof fn lemma_parse_deterministic(
    header: MsgHeader,
    b: Seq<u8>,
    p: int,
    v1: QueryView,
    end1: int,
    v2: QueryView,
    end2: int,
)
    requires
        decoded_as(header, b, p, v1, end1),
        decoded_as(header, b, p, v2, end2),
    ensures
        v1.header == v2.header,
        v1.flags == v2.flags,
        v1.collection == v2.collection,
        v1.number_to_skip == v2.number_to_skip,
        v1.number_to_return == v2.number_to_return,
        v1.query == v2.query || (document_keys(v1.query).len() == 0 && document_keys(
            v2.query,
        ).len() == 0),
        v1.return_fields == v2.return_fields,
        end1 == end2,
{
}

} // verus!
