use bytes::BytesMut;
use sip_codec::codec::{DecodeError, EncodeError, SIPCodec};
use sip_codec::headers::HeaderMap;
use sip_codec::{Message, Request, Response};

fn request_headers(pairs: &[(&[u8], &[u8])]) -> HeaderMap {
    let mut headers = HeaderMap::new();
    for (name, value) in pairs {
        headers.insert(name, value.to_vec());
    }
    headers
}

#[test]
fn codec_test() {
    let mut bytes = BytesMut::new();
    let mut codec = SIPCodec::default();
    let initial = b"GET sip:user@server:port SIP/2.0\r\na:b\r\nContent-length: 7\r\n\r\nabcdef";
    bytes.extend_from_slice(initial);
    assert_eq!(None, codec.decode(&mut bytes).unwrap());
    bytes.extend_from_slice(b"g");
    let expected = {
        let headers = request_headers(&[(b"a", b"b"), (b"content-length", b"7")]);
        Some(Message::Request(Request {
            method: b"GET".to_vec(),
            uri: b"sip:user@server:port".to_vec(),
            sip_version: Default::default(),
            headers,
            body: b"abcdefg".to_vec(),
        }))
    };
    assert_eq!(expected, codec.decode(&mut bytes).unwrap());
    assert_eq!(0, bytes.len());
}

#[test]
fn split_feed_inside_header_name() {
    // The same bytes as one feed and as two feeds broken inside the word
    // `content-length` yield the identical message and an empty buffer.
    let whole: &[u8] = b"GET sip:a@b SIP/2.0\r\na:b\r\ncontent-length: 3\r\n\r\nabc";
    let mut one = BytesMut::new();
    let mut codec = SIPCodec::default();
    one.extend_from_slice(whole);
    let single = codec.decode(&mut one).unwrap();
    assert!(single.is_some());
    assert_eq!(0, one.len());

    let mut split = BytesMut::new();
    split.extend_from_slice(&whole[..30]); // ends inside `content-length`
    assert_eq!(None, codec.decode(&mut split).unwrap());
    assert_eq!(30, split.len());
    split.extend_from_slice(&whole[30..]);
    let rejoined = codec.decode(&mut split).unwrap();
    assert_eq!(single, rejoined);
    assert_eq!(0, split.len());
}

#[test]
fn scenario_one_complete_request() {
    let mut bytes = BytesMut::new();
    let mut codec = SIPCodec::default();
    bytes.extend_from_slice(b"GET sip:a@b SIP/2.0\r\na:b\r\ncontent-length: 3\r\n\r\nabc");
    let msg = codec.decode(&mut bytes).unwrap().unwrap();
    let expected = Message::Request(Request {
        method: b"GET".to_vec(),
        uri: b"sip:a@b".to_vec(),
        sip_version: Default::default(),
        headers: request_headers(&[(b"a", b"b"), (b"content-length", b"3")]),
        body: b"abc".to_vec(),
    });
    assert_eq!(expected, msg);
    assert_eq!(0, bytes.len());
}

#[test]
fn short_body_needs_more_data_then_completes() {
    let mut bytes = BytesMut::new();
    let mut codec = SIPCodec::default();
    bytes.extend_from_slice(b"GET sip:a@b SIP/2.0\r\ncontent-length: 5\r\n\r\nab");
    assert_eq!(None, codec.decode(&mut bytes).unwrap());
    bytes.extend_from_slice(b"cde");
    let msg = codec.decode(&mut bytes).unwrap().unwrap();
    match msg {
        Message::Request(req) => assert_eq!(b"abcde".to_vec(), req.body),
        _ => panic!("expected a request"),
    }
}

#[test]
fn pipelined_leftover_stays_buffered() {
    let mut bytes = BytesMut::new();
    let mut codec = SIPCodec::default();
    bytes.extend_from_slice(b"GET sip:a@b SIP/2.0\r\ncontent-length: 0\r\n\r\nGET more");
    let msg = codec.decode(&mut bytes).unwrap().unwrap();
    match msg {
        Message::Request(req) => assert_eq!(Vec::<u8>::new(), req.body),
        _ => panic!("expected a request"),
    }
    assert_eq!(&b"GET more"[..], &bytes[..]);
}

#[test]
fn oversized_buffer_is_fatal() {
    let mut bytes = BytesMut::new();
    let mut codec = SIPCodec::with_max_size(Some(8));
    bytes.extend_from_slice(b"GET sip:a@b SIP/2.0\r\n");
    assert_eq!(Err(DecodeError::Oversized), codec.decode(&mut bytes));
}

#[test]
fn incomplete_under_bound_is_not_fatal() {
    let mut bytes = BytesMut::new();
    let mut codec = SIPCodec::with_max_size(Some(64));
    bytes.extend_from_slice(b"GET sip:a@b SIP/2.0\r\n");
    assert_eq!(Ok(None), codec.decode(&mut bytes));
    assert_eq!(21, bytes.len());
}

#[test]
fn encode_response() {
    let mut codec = SIPCodec::default();
    let mut res = Response::new(200);
    res.body = b"hi".to_vec();
    let mut buf = BytesMut::new();
    assert_eq!(Ok(()), codec.encode(Message::Response(res), &mut buf));
    assert_eq!(&b"SIP/2.0 200 OK\r\ncontent-length: 2\r\n\r\nhi"[..], &buf[..]);
}

#[test]
fn encode_request_is_unsupported() {
    let mut codec = SIPCodec::default();
    let req = Request {
        method: b"GET".to_vec(),
        uri: b"sip:a@b".to_vec(),
        sip_version: Default::default(),
        headers: HeaderMap::new(),
        body: Vec::new(),
    };
    let mut buf = BytesMut::new();
    assert_eq!(
        Err(EncodeError::UnsupportedRequest),
        codec.encode(Message::Request(req), &mut buf)
    );
    assert_eq!(0, buf.len());
}

#[test]
fn response_test() {
    let mut res = Response::new(200);
    res.headers.insert(b"a", b"b".to_vec());
    res.headers.insert(b"content-length", b"7".to_vec());
    res.body = b"abcdefg".to_vec();
    let mut buf = BytesMut::new();
    res.write_buf(&mut buf);
    let expected = b"SIP/2.0 200 OK\r\na: b\r\ncontent-length: 7\r\n\r\nabcdefg";
    assert_eq!(&expected[..], &buf[..]);
}

#[test]
fn default_response_renders_exactly() {
    let mut res = Response::new(404);
    let mut out: Vec<u8> = Vec::new();
    res.write(&mut out);
    assert_eq!(b"SIP/2.0 404 Not Found\r\ncontent-length: 0\r\n\r\n".to_vec(), out);
    res.body = Vec::new();
    assert_eq!(b"SIP/2.0 404 Not Found\r\ncontent-length: 0\r\n\r\n".to_vec(), res.to_bytes());
}

#[test]
fn stored_content_length_is_overridden() {
    let mut res = Response::new(200);
    res.headers.insert(b"content-length", b"999".to_vec());
    res.body = b"12345".to_vec();
    let out = res.to_bytes();
    assert_eq!(b"SIP/2.0 200 OK\r\ncontent-length: 5\r\n\r\n12345".to_vec(), out);
}

#[test]
fn unknown_code_has_no_trailing_space() {
    let res = Response::new(998);
    let out = res.to_bytes();
    assert_eq!(b"SIP/2.0 998\r\ncontent-length: 0\r\n\r\n".to_vec(), out);
}
