use bson::Document;
use wire_query::{MsgHeader, OpCode, Response, WireError, OP_QUERY, OP_QUERY_CODE, OP_REPLY, OP_REPLY_CODE};

fn query_header(request_id: u32, message_length: u32) -> MsgHeader {
    MsgHeader { message_length, request_id, response_to: 0, op_code: OP_QUERY_CODE }
}

fn fields(flags: u32, name: &[u8], skip: u32, ret: u32) -> Vec<u8> {
    let mut b = Vec::new();
    b.extend_from_slice(&flags.to_le_bytes());
    b.extend_from_slice(name);
    b.push(0);
    b.extend_from_slice(&skip.to_le_bytes());
    b.extend_from_slice(&ret.to_le_bytes());
    b
}

fn doc_with(key: &str, value: i32) -> Document {
    let mut d = Document::new();
    d.insert(key, value);
    d
}

fn u32_at(b: &[u8], at: usize) -> u32 {
    u32::from_le_bytes([b[at], b[at + 1], b[at + 2], b[at + 3]])
}

#[test]
fn parse_empty_query_document() {
    let mut body = fields(0, b"db.coll", 0, 0);
    body.extend_from_slice(&[5, 0, 0, 0, 0]);
    let header = query_header(1, 16 + body.len() as u32);
    let mut pos: usize = 0;
    let q = OP_QUERY::parse(header, &body, &mut pos).unwrap();
    assert_eq!(q.header, header);
    assert_eq!(q.flags, 0);
    assert_eq!(q.collection, "db.coll");
    assert_eq!(q.number_to_skip, 0);
    assert_eq!(q.number_to_return, 0);
    assert!(q.query.is_empty());
    assert!(q.return_fields.is_none());
    assert_eq!(pos, body.len());
}

#[test]
fn parse_query_without_projection() {
    let query = doc_with("x", 1);
    let query_bytes = bson::to_vec(&query).unwrap();
    let mut body = fields(4, b"app.users", 10, 25);
    body.extend_from_slice(&query_bytes);
    let mut pos: usize = 0;
    let q = OP_QUERY::parse(query_header(3, 0), &body, &mut pos).unwrap();
    assert_eq!(q.flags, 4);
    assert_eq!(q.collection, "app.users");
    assert_eq!(q.number_to_skip, 10);
    assert_eq!(q.number_to_return, 25);
    assert_eq!(q.query, query);
    assert_eq!(bson::to_vec(&q.query).unwrap(), query_bytes);
    assert!(q.return_fields.is_none());
    assert_eq!(pos, body.len());
}

#[test]
fn parse_query_and_projection() {
    let query = doc_with("a", 1);
    let projection = doc_with("b", 0);
    let mut body = fields(0, b"db.c", 0, 0xFFFF_FFFF);
    body.extend_from_slice(&bson::to_vec(&query).unwrap());
    body.extend_from_slice(&bson::to_vec(&projection).unwrap());
    let mut pos: usize = 0;
    let q = OP_QUERY::parse(query_header(3, 0), &body, &mut pos).unwrap();
    assert_eq!(q.number_to_return, 0xFFFF_FFFF);
    assert_eq!(q.query, query);
    assert_eq!(q.return_fields, Some(projection));
    assert_eq!(pos, body.len());
}

#[test]
fn parse_body_without_documents() {
    let body = fields(2, b"db.coll", 1, 2);
    let mut pos: usize = 0;
    let q = OP_QUERY::parse(query_header(3, 0), &body, &mut pos).unwrap();
    assert!(q.query.is_empty());
    assert!(q.return_fields.is_none());
    assert_eq!(pos, body.len());
}

#[test]
fn parse_twice_gives_equal_requests() {
    let mut body = fields(1, b"db.coll", 3, 4);
    body.extend_from_slice(&bson::to_vec(&doc_with("k", 9)).unwrap());
    body.extend_from_slice(&bson::to_vec(&doc_with("p", 1)).unwrap());
    let header = query_header(5, 0);
    let mut p1: usize = 0;
    let mut p2: usize = 0;
    let a = OP_QUERY::parse(header, &body, &mut p1).unwrap();
    let b = OP_QUERY::parse(header, &body, &mut p2).unwrap();
    assert_eq!(a.header, b.header);
    assert_eq!(a.flags, b.flags);
    assert_eq!(a.collection, b.collection);
    assert_eq!(a.number_to_skip, b.number_to_skip);
    assert_eq!(a.number_to_return, b.number_to_return);
    assert_eq!(a.query, b.query);
    assert_eq!(a.return_fields, b.return_fields);
    assert_eq!(p1, p2);
}

#[test]
fn parse_starts_at_cursor_position() {
    let mut frame = vec![0xAAu8; 16];
    frame.extend_from_slice(&fields(7, b"db.coll", 0, 1));
    frame.extend_from_slice(&[5, 0, 0, 0, 0]);
    let mut pos: usize = 16;
    let q = OP_QUERY::parse(query_header(1, frame.len() as u32), &frame, &mut pos).unwrap();
    assert_eq!(q.flags, 7);
    assert_eq!(q.collection, "db.coll");
    assert_eq!(q.number_to_return, 1);
    assert_eq!(pos, frame.len());
}

#[test]
fn parse_replaces_invalid_text() {
    let body = fields(0, &[b'd', 0xFF, b'b'], 0, 0);
    let mut pos: usize = 0;
    let q = OP_QUERY::parse(query_header(1, 0), &body, &mut pos).unwrap();
    assert_eq!(q.collection, "d\u{FFFD}b");
}

#[test]
fn parse_empty_buffer_is_truncated() {
    let mut pos: usize = 0;
    let r = OP_QUERY::parse(query_header(1, 16), &[], &mut pos);
    assert_eq!(r.unwrap_err(), WireError::TruncatedFrame);
    assert_eq!(pos, 0);
}

#[test]
fn parse_position_past_end_is_truncated() {
    let body = fields(0, b"db", 0, 0);
    let mut pos: usize = body.len() + 3;
    let r = OP_QUERY::parse(query_header(1, 0), &body, &mut pos);
    assert_eq!(r.unwrap_err(), WireError::TruncatedFrame);
    assert_eq!(pos, body.len() + 3);
}

#[test]
fn parse_missing_terminator_is_truncated() {
    let mut body = 0u32.to_le_bytes().to_vec();
    body.extend_from_slice(b"db.coll");
    let mut pos: usize = 0;
    let r = OP_QUERY::parse(query_header(1, 0), &body, &mut pos);
    assert_eq!(r.unwrap_err(), WireError::TruncatedFrame);
}

#[test]
fn parse_short_counts_are_truncated() {
    let mut body = fields(0, b"db", 0, 0);
    body.truncate(body.len() - 1);
    let mut pos: usize = 0;
    let r = OP_QUERY::parse(query_header(1, 0), &body, &mut pos);
    assert_eq!(r.unwrap_err(), WireError::TruncatedFrame);
    assert_eq!(pos, 0);
}

#[test]
fn parse_cut_query_document_is_malformed() {
    let mut body = fields(0, b"db", 0, 0);
    let query_bytes = bson::to_vec(&doc_with("x", 1)).unwrap();
    body.extend_from_slice(&query_bytes[..query_bytes.len() - 2]);
    let mut pos: usize = 0;
    let r = OP_QUERY::parse(query_header(1, 0), &body, &mut pos);
    assert_eq!(r.unwrap_err(), WireError::MalformedDocument);
    assert_eq!(pos, 0);
}

#[test]
fn parse_undecodable_query_document_is_malformed() {
    let mut body = fields(0, b"db", 0, 0);
    body.extend_from_slice(&[6, 0, 0, 0, 0x7F, 0]);
    let mut pos: usize = 0;
    let r = OP_QUERY::parse(query_header(1, 0), &body, &mut pos);
    assert_eq!(r.unwrap_err(), WireError::MalformedDocument);
}

#[test]
fn parse_bad_projection_is_absent() {
    let query = doc_with("x", 1);
    let mut body = fields(0, b"db", 0, 0);
    body.extend_from_slice(&bson::to_vec(&query).unwrap());
    let query_end = body.len();
    body.extend_from_slice(&[9, 0, 0]);
    let mut pos: usize = 0;
    let q = OP_QUERY::parse(query_header(1, 0), &body, &mut pos).unwrap();
    assert_eq!(q.query, query);
    assert!(q.return_fields.is_none());
    assert_eq!(pos, query_end);
}

fn empty_request(flags: u32) -> OP_QUERY {
    let body = fields(flags, b"db.coll", 0, 0);
    let mut pos: usize = 0;
    OP_QUERY::parse(query_header(7, 0), &body, &mut pos).unwrap()
}

#[test]
fn reply_to_request_seven() {
    let request = empty_request(0);
    let ok = doc_with("ok", 1);
    let res = Response { id: 7, op_code: OpCode::OpQuery(query_header(7, 0)), doc: ok.clone() };
    let bytes = request.reply(res).unwrap();
    assert_eq!(u32_at(&bytes, 8), 7);
    assert_eq!(u32_at(&bytes, 32), 1);
    let returned = Document::from_reader(&bytes[36..]).unwrap();
    assert_eq!(returned, ok);
    let encoded = bson::to_vec(&ok).unwrap();
    assert_eq!(bytes.len(), 36 + encoded.len());
}

#[test]
fn reply_frame_layout() {
    let request = empty_request(0x0000_0104);
    let doc = doc_with("n", 42);
    let encoded = bson::to_vec(&doc).unwrap();
    let res = Response { id: 11, op_code: OpCode::OpQuery(query_header(99, 0)), doc };
    let bytes = request.reply(res).unwrap();
    assert_eq!(u32_at(&bytes, 0) as usize, bytes.len());
    assert_eq!(u32_at(&bytes, 4), 11);
    assert_eq!(u32_at(&bytes, 8), 99);
    assert_eq!(u32_at(&bytes, 12), OP_REPLY_CODE);
    assert_eq!(u32_at(&bytes, 16), 0x0000_0104);
    assert_eq!(&bytes[20..28], &[0u8; 8]);
    assert_eq!(u32_at(&bytes, 28), 0);
    assert_eq!(u32_at(&bytes, 32), 1);
    assert_eq!(&bytes[36..], &encoded[..]);
}

#[test]
fn reply_to_other_kind_fails() {
    let request = empty_request(0);
    let res = Response { id: 1, op_code: OpCode::Other(query_header(1, 0)), doc: doc_with("ok", 1) };
    assert_eq!(request.reply(res).unwrap_err(), WireError::UnknownMessageKind);
}

#[test]
fn reply_to_vec_with_two_documents() {
    let header = MsgHeader { message_length: 0, request_id: 2, response_to: 3, op_code: OP_REPLY_CODE };
    let a = doc_with("a", 1);
    let b = doc_with("b", 2);
    let mut expected: Vec<u8> = Vec::new();
    for x in [0u32, 2, 3, OP_REPLY_CODE, 8] {
        expected.extend_from_slice(&x.to_le_bytes());
    }
    expected.extend_from_slice(&0x0102_0304_0506_0708u64.to_le_bytes());
    expected.extend_from_slice(&5u32.to_le_bytes());
    expected.extend_from_slice(&2u32.to_le_bytes());
    expected.extend_from_slice(&bson::to_vec(&a).unwrap());
    expected.extend_from_slice(&bson::to_vec(&b).unwrap());
    let reply = OP_REPLY::new(header, 8, 0x0102_0304_0506_0708, 5, 2, vec![a, b]);
    assert_eq!(reply.to_vec().unwrap(), expected);
}

#[test]
fn reply_to_vec_without_documents() {
    let header = MsgHeader { message_length: 36, request_id: 1, response_to: 1, op_code: OP_REPLY_CODE };
    let reply = OP_REPLY::new(header, 0, 0, 0, 0, Vec::new());
    let bytes = reply.to_vec().unwrap();
    assert_eq!(bytes.len(), 36);
    assert_eq!(u32_at(&bytes, 0), 36);
}

#[test]
fn response_header_answers_request() {
    let h = query_header(21, 60);
    let r = h.get_response_with_op_code(4, 50, OP_REPLY_CODE);
    assert_eq!(r, MsgHeader { message_length: 50, request_id: 4, response_to: 21, op_code: OP_REPLY_CODE });
}
