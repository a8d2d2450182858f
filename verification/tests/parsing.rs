use sip_codec::headers::HeaderMap;
use sip_codec::parser::header::{header, HeaderResult};
use sip_codec::parser::{parse_request, parse_u8, slice_to_string, ParseResult};
use sip_codec::Request;

fn request_headers(pairs: &[(&[u8], &[u8])]) -> HeaderMap {
    let mut headers = HeaderMap::new();
    for (name, value) in pairs {
        headers.insert(name, value.to_vec());
    }
    headers
}

#[test]
fn no_space() {
    let input: &[u8] = b"GET sip:user@server:port SIP/2.0\r\na:b\r\nContent-length: 7\r\n\r\nabcdefg";
    let expected = ParseResult::Complete(
        Request {
            method: b"GET".to_vec(),
            uri: b"sip:user@server:port".to_vec(),
            sip_version: Default::default(),
            headers: request_headers(&[(b"a", b"b"), (b"content-length", b"7")]),
            body: b"abcdefg".to_vec(),
        },
        input.len(),
    );
    assert_eq!(expected, parse_request(input));
}

#[test]
fn shorthand() {
    let input: &[u8] = b"GET sip:user@server:port SIP/2.0\r\na:b\r\nl: 7\r\n\r\nabcdefgh";
    let expected = ParseResult::Complete(
        Request {
            method: b"GET".to_vec(),
            uri: b"sip:user@server:port".to_vec(),
            sip_version: Default::default(),
            headers: request_headers(&[(b"a", b"b"), (b"l", b"7")]),
            body: b"abcdefg".to_vec(),
        },
        input.len() - 1,
    );
    assert_eq!(expected, parse_request(input));
}

#[test]
fn header_no_space() {
    let input: &[u8] = b"Content-Type:application/sdp\r\n";
    let expected = HeaderResult::Header {
        end: input.len() - 2,
        name: b"content-type".to_vec(),
        value: b"application/sdp".to_vec(),
    };
    assert_eq!(expected, header(input));
}

#[test]
fn single_space() {
    let input: &[u8] = b"Content-length: 57\r\n";
    let expected = HeaderResult::Header {
        end: input.len() - 2,
        name: b"content-length".to_vec(),
        value: b"57".to_vec(),
    };
    assert_eq!(expected, header(input));
}

#[test]
fn double_space() {
    let input: &[u8] = b"CSeq  :  314159 INVITE\r\n";
    let expected = HeaderResult::Header {
        end: input.len() - 2,
        name: b"cseq".to_vec(),
        value: b"314159 INVITE".to_vec(),
    };
    assert_eq!(expected, header(input));
}

#[test]
fn truncated_body_is_incomplete() {
    let input: &[u8] = b"GET sip:a@b SIP/2.0\r\ncontent-length: 9\r\n\r\nabc";
    assert_eq!(ParseResult::Incomplete, parse_request(input));
}

#[test]
fn no_content_length_takes_rest() {
    let input: &[u8] = b"GET sip:a@b SIP/2.0\r\na:b\r\n\r\nrest of the buffer";
    match parse_request(input) {
        ParseResult::Complete(req, n) => {
            assert_eq!(input.len(), n);
            assert_eq!(b"rest of the buffer".to_vec(), req.body);
        },
        other => panic!("expected a complete parse, got {:?}", other),
    }
}

#[test]
fn unparsable_content_length_takes_rest() {
    let input: &[u8] = b"GET sip:a@b SIP/2.0\r\ncontent-length: ten\r\n\r\nxy";
    match parse_request(input) {
        ParseResult::Complete(req, n) => {
            assert_eq!(input.len(), n);
            assert_eq!(b"xy".to_vec(), req.body);
        },
        other => panic!("expected a complete parse, got {:?}", other),
    }
}

#[test]
fn empty_input_is_incomplete() {
    assert_eq!(ParseResult::Incomplete, parse_request(b""));
}

#[test]
fn bare_lf_line_endings() {
    let input: &[u8] = b"GET sip:a@b SIP/2.0\na:b\ncontent-length: 1\n\nZ";
    match parse_request(input) {
        ParseResult::Complete(req, n) => {
            assert_eq!(input.len(), n);
            assert_eq!(b"Z".to_vec(), req.body);
        },
        other => panic!("expected a complete parse, got {:?}", other),
    }
}

#[test]
fn version_out_of_range_is_malformed() {
    let input: &[u8] = b"GET sip:a@b SIP/999.0\r\n\r\nx";
    assert_eq!(ParseResult::Malformed, parse_request(input));
}

#[test]
fn parse_u8_accepts_digits_and_plus() {
    assert_eq!(Some(255), parse_u8(b"255"));
    assert_eq!(Some(7), parse_u8(b"+7"));
    assert_eq!(Some(7), parse_u8(b"007"));
    assert_eq!(None, parse_u8(b"256"));
    assert_eq!(None, parse_u8(b""));
    assert_eq!(None, parse_u8(b"12a"));
    assert_eq!(None, parse_u8(b" 7"));
}

#[test]
fn slice_to_string_on_ascii() {
    assert_eq!(Some(String::from("GET")), slice_to_string(b"GET"));
    assert_eq!(None, slice_to_string(&[0xff, 0xfe]));
}
