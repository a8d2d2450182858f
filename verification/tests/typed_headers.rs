use sip_codec::headers::allow::Allow;
use sip_codec::headers::content_length::ContentLength;
use sip_codec::headers::max_forwards::MaxForwards;
use sip_codec::headers::user_agent::UserAgent;
use sip_codec::headers::{HeaderMap, HeaderMapParse, ParseHeader};

#[test]
fn allow_splits_and_trims() {
    let values = vec![b" INVITE ,BYE".to_vec()];
    let allow: Allow = Allow::decode(&values).unwrap();
    assert_eq!(vec![b"INVITE".to_vec(), b"BYE".to_vec()], allow.0);
}

#[test]
fn allow_empty_value_is_absent() {
    assert_eq!(None, Allow::decode(&vec![b"".to_vec()]));
    assert_eq!(None, Allow::decode(&Vec::new()));
}

#[test]
fn allow_non_text_value_is_absent() {
    assert_eq!(None, Allow::decode(&vec![vec![0x80, b'A']]));
}

#[test]
fn content_length_lookup_is_case_insensitive() {
    let mut upper = HeaderMap::new();
    upper.insert(b"Content-Length", b"42".to_vec());
    let mut lower = HeaderMap::new();
    lower.insert(b"content-length", b"42".to_vec());
    let a: Option<ContentLength> = upper.typed_get();
    let b: Option<ContentLength> = lower.typed_get();
    assert_eq!(Some(ContentLength(42)), a);
    assert_eq!(a, b);
}

#[test]
fn content_length_shorthand_alias() {
    let mut shorthand = HeaderMap::new();
    shorthand.insert(b"l", b"42".to_vec());
    let c: Option<ContentLength> = shorthand.typed_get();
    assert_eq!(Some(ContentLength(42)), c);
}

#[test]
fn content_length_canonical_name_wins_over_alias() {
    let mut both = HeaderMap::new();
    both.insert(b"l", b"1".to_vec());
    both.insert(b"content-length", b"2".to_vec());
    let c: Option<ContentLength> = both.typed_get();
    assert_eq!(Some(ContentLength(2)), c);
}

#[test]
fn content_length_unparsable_is_absent() {
    let mut m = HeaderMap::new();
    m.insert(b"content-length", b"ten".to_vec());
    let c: Option<ContentLength> = m.typed_get();
    assert_eq!(None, c);
}

#[test]
fn max_forwards_decodes() {
    let mut m = HeaderMap::new();
    m.insert(b"Max-Forwards", b"70".to_vec());
    let f: Option<MaxForwards> = m.typed_get();
    assert_eq!(Some(MaxForwards(70)), f);
    let mut over = HeaderMap::new();
    over.insert(b"max-forwards", b"4294967296".to_vec());
    let g: Option<MaxForwards> = over.typed_get();
    assert_eq!(None, g);
}

#[test]
fn user_agent_verbatim() {
    let mut m = HeaderMap::new();
    m.insert(b"User-Agent", b"softphone 1.0".to_vec());
    let ua: Option<UserAgent> = m.typed_get();
    assert_eq!(Some(UserAgent(b"softphone 1.0".to_vec())), ua);
}

#[test]
fn user_agent_non_text_is_absent() {
    let mut m = HeaderMap::new();
    m.insert(b"user-agent", vec![0x80]);
    let ua: Option<UserAgent> = m.typed_get();
    assert_eq!(None, ua);
}

#[test]
fn insert_replaces_in_place() {
    let mut m = HeaderMap::new();
    m.insert(b"a", b"1".to_vec());
    m.insert(b"b", b"2".to_vec());
    m.insert(b"A", b"3".to_vec());
    assert_eq!(2, m.len());
    assert_eq!(b"a".to_vec(), m.name_at(0).clone());
    assert_eq!(b"3".to_vec(), m.value_at(0).clone());
    assert_eq!(b"b".to_vec(), m.name_at(1).clone());
}

#[test]
fn get_all_is_case_insensitive() {
    let mut m = HeaderMap::new();
    m.insert(b"Warning", b"w1".to_vec());
    assert_eq!(vec![b"w1".to_vec()], m.get_all(b"warning"));
    assert_eq!(vec![b"w1".to_vec()], m.get_all(b"WARNING"));
    assert_eq!(Vec::<Vec<u8>>::new(), m.get_all(b"other"));
}
