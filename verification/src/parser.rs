//! The message grammar: a byte slice is parsed into a structured request, or
//! classified as incomplete (more bytes could complete it) or malformed (the
//! bytes present violate the grammar).
use vstd::prelude::*;

use crate::ascii::{
    is_newline_b, is_space_b, scan, spec_parse_uint, stop_fn, ScanStop, CR, LF, SP,
};
use crate::headers::{map_insert, values_for, HeaderMap, HeaderMapParse, ParseHeader};
use crate::headers::content_length::{spec_decode_content_length, ContentLength};
use crate::request::{Request, SpecRequest};
use crate::Version;

pub mod header;

verus! {

/// Whether a byte is a line-terminator byte.
pub fn is_newline(ch: u8) -> (r: bool)
    ensures
        r == is_newline_b(ch),
{
    ch == CR || ch == LF
}

/// Relies on std's `String::from_utf8`: ASCII bytes are valid UTF-8 and
/// decode to exactly the code points the bytes denote; non-UTF-8 input is
/// reported as an error, mapped to `None` here.
#[verifier::external_body]
pub fn slice_to_string(slice: &[u8]) -> (r: Option<String>)
    ensures
        match r {
            Some(t) => (forall|i: int| 0 <= i < slice@.len() ==> slice@[i] < 128) ==> t@
                == slice@.map_values(|b: u8| b as char),
            None => !(forall|i: int| 0 <= i < slice@.len() ==> slice@[i] < 128),
        },
{
    String::from_utf8(Vec::from(slice)).ok()
}

/// The result of parsing a byte sequence as a base-10 `u8`.
pub open spec fn spec_parse_u8(s: Seq<u8>) -> Option<u8> {
    match spec_parse_uint(s) {
        Some(v) => if v <= u8::MAX {
            Some(v as u8)
        } else {
            None
        },
        None => None,
    }
}

/// Parse a byte slice as a base-10 `u8`; `None` when it is not a number or
/// does not fit.
pub fn parse_u8(slice: &[u8]) -> (r: Option<u8>)
    ensures
        r == spec_parse_u8(slice@),
{
    match crate::ascii::parse_uint_up_to(slice, u8::MAX as u64) {
        Some(v) => Some(v as u8),
        None => None,
    }
}

/// The outcome of one grammar step at a position: more bytes are needed, the
/// bytes present do not fit, or the step ends at a position.
pub enum SpecStep {
    Incomplete,
    Fail,
    At(int),
}

/// One line terminator at `i`: CR+LF, lone CR, or lone LF. A lone CR at the
/// very end of input is incomplete, since one more byte could make it CR+LF.
pub open spec fn lf_at(s: Seq<u8>, i: int) -> SpecStep {
    if i >= s.len() {
        SpecStep::Incomplete
    } else if s[i] == CR {
        if i + 1 >= s.len() {
            SpecStep::Incomplete
        } else if s[i + 1] == LF {
            SpecStep::At(i + 2)
        } else {
            SpecStep::At(i + 1)
        }
    } else if s[i] == LF {
        SpecStep::At(i + 1)
    } else {
        SpecStep::Fail
    }
}

pub proof fn lemma_lf_pos(s: Seq<u8>, i: int)
    requires
        0 <= i <= s.len(),
    ensures
        lf_at(s, i) matches SpecStep::At(j) ==> i < j <= s.len(),
{
}

/// Zero or more line terminators starting at `i`; never fails, but is
/// incomplete when the input ends where a terminator could continue.
pub open spec fn skip_lfs(s: Seq<u8>, i: int) -> SpecStep
    decreases s.len() - i,
{
    match lf_at(s, i) {
        SpecStep::Incomplete => SpecStep::Incomplete,
        SpecStep::Fail => SpecStep::At(i),
        SpecStep::At(j) => if i < j <= s.len() {
            skip_lfs(s, j)
        } else {
            SpecStep::At(i)
        },
    }
}

/// A token of one or more bytes at `i`, up to the first byte in the `stop`
/// class; incomplete when no stop byte arrives before the end of input.
pub open spec fn till1_at(s: Seq<u8>, i: int, stop: spec_fn(u8) -> bool) -> SpecStep {
    let j = scan(s, i, stop);
    if j >= s.len() {
        SpecStep::Incomplete
    } else if j == i {
        SpecStep::Fail
    } else {
        SpecStep::At(j)
    }
}

pub proof fn lemma_till1_pos(s: Seq<u8>, i: int, stop: spec_fn(u8) -> bool)
    requires
        0 <= i <= s.len(),
    ensures
        till1_at(s, i, stop) matches SpecStep::At(j) ==> i < j <= s.len(),
{
    crate::ascii::lemma_scan(s, i, stop);
}

/// A possibly empty run at `i`, up to the first byte in the `stop` class.
pub open spec fn till0_at(s: Seq<u8>, i: int, stop: spec_fn(u8) -> bool) -> SpecStep {
    let j = scan(s, i, stop);
    if j >= s.len() {
        SpecStep::Incomplete
    } else {
        SpecStep::At(j)
    }
}

pub proof fn lemma_till0_pos(s: Seq<u8>, i: int, stop: spec_fn(u8) -> bool)
    requires
        0 <= i <= s.len(),
    ensures
        till0_at(s, i, stop) matches SpecStep::At(j) ==> i <= j <= s.len(),
{
    crate::ascii::lemma_scan(s, i, stop);
}

/// Exactly the byte `c` at `i`.
pub open spec fn char_at(s: Seq<u8>, i: int, c: u8) -> SpecStep {
    if i >= s.len() {
        SpecStep::Incomplete
    } else if s[i] == c {
        SpecStep::At(i + 1)
    } else {
        SpecStep::Fail
    }
}

/// An optional run of spaces and tabs at `i`; incomplete when the run (even
/// an empty one) reaches the end of input, since it could continue.
pub open spec fn opt_ws_at(s: Seq<u8>, i: int) -> SpecStep {
    if i >= s.len() {
        SpecStep::Incomplete
    } else if !is_space_b(s[i]) {
        SpecStep::At(i)
    } else {
        let j = scan(s, i, stop_fn(ScanStop::NonSpace));
        if j >= s.len() {
            SpecStep::Incomplete
        } else {
            SpecStep::At(j)
        }
    }
}

pub proof fn lemma_opt_ws_pos(s: Seq<u8>, i: int)
    requires
        0 <= i <= s.len(),
    ensures
        opt_ws_at(s, i) matches SpecStep::At(j) ==> i <= j <= s.len(),
{
    crate::ascii::lemma_scan(s, i, stop_fn(ScanStop::NonSpace));
}

/// The literal protocol marker `SIP/` at `i`.
pub open spec fn sip_tag_at(s: Seq<u8>, i: int) -> SpecStep {
    if i >= s.len() {
        SpecStep::Incomplete
    } else if s[i] != 83 {
        SpecStep::Fail
    } else if i + 1 >= s.len() {
        SpecStep::Incomplete
    } else if s[i + 1] != 73 {
        SpecStep::Fail
    } else if i + 2 >= s.len() {
        SpecStep::Incomplete
    } else if s[i + 2] != 80 {
        SpecStep::Fail
    } else if i + 3 >= s.len() {
        SpecStep::Incomplete
    } else if s[i + 3] != 47 {
        SpecStep::Fail
    } else {
        SpecStep::At(i + 4)
    }
}

/// The outcome of parsing the version marker: the position past it and the
/// major and minor numbers.
pub enum SpecVersionStep {
    Incomplete,
    Fail,
    Ver(int, u8, u8),
}

/// The version at `i`: the protocol marker, a digit run for the major
/// number, a dot, and a digit run for the minor number; a digit run that
/// does not fit in eight bits is a failure.
pub open spec fn version_at(s: Seq<u8>, i: int) -> SpecVersionStep {
    match sip_tag_at(s, i) {
        SpecStep::Incomplete => SpecVersionStep::Incomplete,
        SpecStep::Fail => SpecVersionStep::Fail,
        SpecStep::At(j) => match till1_at(s, j, stop_fn(ScanStop::NonDigit)) {
            SpecStep::Incomplete => SpecVersionStep::Incomplete,
            SpecStep::Fail => SpecVersionStep::Fail,
            SpecStep::At(k) => match spec_parse_u8(s.subrange(j, k)) {
                None => SpecVersionStep::Fail,
                Some(major) => match char_at(s, k, 46) {
                    SpecStep::Incomplete => SpecVersionStep::Incomplete,
                    SpecStep::Fail => SpecVersionStep::Fail,
                    SpecStep::At(p) => match till1_at(s, p, stop_fn(ScanStop::NonDigit)) {
                        SpecStep::Incomplete => SpecVersionStep::Incomplete,
                        SpecStep::Fail => SpecVersionStep::Fail,
                        SpecStep::At(q) => match spec_parse_u8(s.subrange(p, q)) {
                            None => SpecVersionStep::Fail,
                            Some(minor) => SpecVersionStep::Ver(q, major, minor),
                        },
                    },
                },
            },
        },
    }
}

pub proof fn lemma_version_pos(s: Seq<u8>, i: int)
    requires
        0 <= i <= s.len(),
    ensures
        version_at(s, i) matches SpecVersionStep::Ver(q, ma, mi) ==> i < q <= s.len(),
{
    match sip_tag_at(s, i) {
        SpecStep::At(j) => {
            lemma_till1_pos(s, j, stop_fn(ScanStop::NonDigit));
            match till1_at(s, j, stop_fn(ScanStop::NonDigit)) {
                SpecStep::At(k) => {
                    match char_at(s, k, 46) {
                        SpecStep::At(p) => {
                            lemma_till1_pos(s, p, stop_fn(ScanStop::NonDigit));
                        },
                        _ => {},
                    }
                },
                _ => {},
            }
        },
        _ => {},
    }
}

/// The header section at `i`: header lines each followed by one line
/// terminator, ending at the first line that is not a complete header line.
/// Returns the position where the section ends and the (name, value) pairs
/// read, names lower-cased.
pub open spec fn headers_at(s: Seq<u8>, i: int) -> (int, Seq<(Seq<u8>, Seq<u8>)>)
    decreases s.len() - i,
{
    match header::header_at(s, i) {
        header::SpecHeaderStep::Header(j, n, v) => match lf_at(s, j) {
            SpecStep::At(k) => if i < k <= s.len() {
                let r = headers_at(s, k);
                (r.0, seq![(n, v)] + r.1)
            } else {
                (i, Seq::empty())
            },
            _ => (i, Seq::empty()),
        },
        _ => (i, Seq::empty()),
    }
}

pub proof fn lemma_headers_at_pos(s: Seq<u8>, i: int)
    requires
        0 <= i <= s.len(),
    ensures
        i <= headers_at(s, i).0 <= s.len(),
    decreases s.len() - i,
{
    match header::header_at(s, i) {
        header::SpecHeaderStep::Header(j, n, v) => {
            match lf_at(s, j) {
                SpecStep::At(k) => {
                    if i < k <= s.len() {
                        lemma_headers_at_pos(s, k);
                    }
                },
                _ => {},
            }
        },
        _ => {},
    }
}

/// The header map the parsed header lines build: each line inserted in
/// order, so a repeated name keeps its first position and its last value.
pub open spec fn build_map(hs: Seq<(Seq<u8>, Seq<u8>)>) -> Seq<(Seq<u8>, Seq<u8>)>
    decreases hs.len(),
{
    if hs.len() == 0 {
        Seq::empty()
    } else {
        map_insert(build_map(hs.drop_last()), hs.last().0, hs.last().1)
    }
}

/// The outcome of parsing a buffer: a complete request and the number of
/// bytes it consumed, or the need for more bytes, or a grammar violation.
pub enum SpecParse {
    Incomplete,
    Malformed,
    Complete(SpecRequest, int),
}

/// The whole message grammar, applied to a buffer.
///
/// Leading line terminators are skipped; then the method token, whitespace,
/// the target token, whitespace, the version, one line terminator, the
/// header section, and one empty line. The body is as many bytes as a
/// decodable content-length header declares — fewer available bytes make the
/// whole parse incomplete — or, with no such header, the entire remainder.
pub open spec fn spec_parse(s: Seq<u8>) -> SpecParse {
    match skip_lfs(s, 0) {
        SpecStep::Incomplete => SpecParse::Incomplete,
        SpecStep::Fail => SpecParse::Malformed,
        SpecStep::At(i0) => match till1_at(s, i0, stop_fn(ScanStop::Space)) {
            SpecStep::Incomplete => SpecParse::Incomplete,
            SpecStep::Fail => SpecParse::Malformed,
            SpecStep::At(m1) => match till1_at(s, m1, stop_fn(ScanStop::NonSpace)) {
                SpecStep::Incomplete => SpecParse::Incomplete,
                SpecStep::Fail => SpecParse::Malformed,
                SpecStep::At(u0) => match till1_at(s, u0, stop_fn(ScanStop::Space)) {
                    SpecStep::Incomplete => SpecParse::Incomplete,
                    SpecStep::Fail => SpecParse::Malformed,
                    SpecStep::At(u1) => match till1_at(s, u1, stop_fn(ScanStop::NonSpace)) {
                        SpecStep::Incomplete => SpecParse::Incomplete,
                        SpecStep::Fail => SpecParse::Malformed,
                        SpecStep::At(v0) => match version_at(s, v0) {
                            SpecVersionStep::Incomplete => SpecParse::Incomplete,
                            SpecVersionStep::Fail => SpecParse::Malformed,
                            SpecVersionStep::Ver(v1, major, minor) => match lf_at(s, v1) {
                                SpecStep::Incomplete => SpecParse::Incomplete,
                                SpecStep::Fail => SpecParse::Malformed,
                                SpecStep::At(h0) => {
                                    let hs = headers_at(s, h0);
                                    match lf_at(s, hs.0) {
                                        SpecStep::Incomplete => SpecParse::Incomplete,
                                        SpecStep::Fail => SpecParse::Malformed,
                                        SpecStep::At(b0) => {
                                            let map = build_map(hs.1);
                                            let cl = spec_decode_content_length(
                                                values_for(map, ContentLength::spec_aliases()),
                                            );
                                            let req = SpecRequest {
                                                method: s.subrange(i0, m1),
                                                uri: s.subrange(u0, u1),
                                                major,
                                                minor,
                                                headers: map,
                                                body: Seq::empty(),
                                            };
                                            match cl {
                                                Some(n) => if b0 + n <= s.len() {
                                                    SpecParse::Complete(
                                                        SpecRequest {
                                                            body: s.subrange(b0, b0 + n),
                                                            ..req
                                                        },
                                                        b0 + n,
                                                    )
                                                } else {
                                                    SpecParse::Incomplete
                                                },
                                                None => SpecParse::Complete(
                                                    SpecRequest { body: s.skip(b0), ..req },
                                                    s.len() as int,
                                                ),
                                            }
                                        },
                                    }
                                },
                            },
                        },
                    },
                },
            },
        },
    }
}

pub proof fn lemma_skip_lfs_pos(s: Seq<u8>, i: int)
    requires
        0 <= i <= s.len(),
    ensures
        skip_lfs(s, i) matches SpecStep::At(j) ==> i <= j <= s.len(),
    decreases s.len() - i,
{
    match lf_at(s, i) {
        SpecStep::At(j) => {
            if i < j <= s.len() {
                lemma_skip_lfs_pos(s, j);
            }
        },
        _ => {},
    }
}

/// A complete parse consumes no more bytes than the buffer holds.
pub proof fn lemma_spec_parse_consumed(s: Seq<u8>)
    ensures
        spec_parse(s) matches SpecParse::Complete(req, n) ==> 0 <= n <= s.len(),
{
    lemma_skip_lfs_pos(s, 0);
    match skip_lfs(s, 0) {
        SpecStep::At(i0) => {
            lemma_till1_pos(s, i0, stop_fn(ScanStop::Space));
            match till1_at(s, i0, stop_fn(ScanStop::Space)) {
                SpecStep::At(m1) => {
                    lemma_till1_pos(s, m1, stop_fn(ScanStop::NonSpace));
                    match till1_at(s, m1, stop_fn(ScanStop::NonSpace)) {
                        SpecStep::At(u0) => {
                            lemma_till1_pos(s, u0, stop_fn(ScanStop::Space));
                            match till1_at(s, u0, stop_fn(ScanStop::Space)) {
                                SpecStep::At(u1) => {
                                    lemma_till1_pos(s, u1, stop_fn(ScanStop::NonSpace));
                                    match till1_at(s, u1, stop_fn(ScanStop::NonSpace)) {
                                        SpecStep::At(v0) => {
                                            lemma_version_pos(s, v0);
                                            match version_at(s, v0) {
                                                SpecVersionStep::Ver(v1, ma, mi) => {
                                                    lemma_lf_pos(s, v1);
                                                    match lf_at(s, v1) {
                                                        SpecStep::At(h0) => {
                                                            lemma_headers_at_pos(s, h0);
                                                            lemma_lf_pos(s, headers_at(s, h0).0);
                                                        },
                                                        _ => {},
                                                    }
                                                },
                                                _ => {},
                                            }
                                        },
                                        _ => {},
                                    }
                                },
                                _ => {},
                            }
                        },
                        _ => {},
                    }
                },
                _ => {},
            }
        },
        _ => {},
    }
}

/// A request without a decodable content-length header consumes the entire
/// remaining buffer as its body: the parse ends exactly at the end of input,
/// and the body is the whole suffix after the header section.
pub proof fn lemma_no_content_length_consumes_all(s: Seq<u8>)
    ensures
        match spec_parse(s) {
            SpecParse::Complete(req, n) => spec_decode_content_length(
                values_for(req.headers, ContentLength::spec_aliases()),
            ) is None ==> n == s.len() && req.body == s.skip(s.len() - req.body.len()),
            _ => true,
        },
{
    lemma_spec_parse_consumed(s);
    match spec_parse(s) {
        SpecParse::Complete(req, n) => {
            if spec_decode_content_length(values_for(req.headers, ContentLength::spec_aliases()))
                is None {
                assert(n == s.len());
                lemma_skip_lfs_pos(s, 0);
                match skip_lfs(s, 0) {
                    SpecStep::At(i0) => {
                        lemma_till1_pos(s, i0, stop_fn(ScanStop::Space));
                        match till1_at(s, i0, stop_fn(ScanStop::Space)) {
                            SpecStep::At(m1) => {
                                lemma_till1_pos(s, m1, stop_fn(ScanStop::NonSpace));
                                match till1_at(s, m1, stop_fn(ScanStop::NonSpace)) {
                                    SpecStep::At(u0) => {
                                        lemma_till1_pos(s, u0, stop_fn(ScanStop::Space));
                                        match till1_at(s, u0, stop_fn(ScanStop::Space)) {
                                            SpecStep::At(u1) => {
                                                lemma_till1_pos(s, u1, stop_fn(ScanStop::NonSpace));
                                                match till1_at(s, u1, stop_fn(ScanStop::NonSpace)) {
                                                    SpecStep::At(v0) => {
                                                        lemma_version_pos(s, v0);
                                                        match version_at(s, v0) {
                                                            SpecVersionStep::Ver(v1, ma, mi) => {
                                                                lemma_lf_pos(s, v1);
                                                                match lf_at(s, v1) {
                                                                    SpecStep::At(h0) => {
                                                                        lemma_headers_at_pos(s, h0);
                                                                        lemma_lf_pos(
                                                                            s,
                                                                            headers_at(s, h0).0,
                                                                        );
                                                                    },
                                                                    _ => {},
                                                                }
                                                            },
                                                            _ => {},
                                                        }
                                                    },
                                                    _ => {},
                                                }
                                            },
                                            _ => {},
                                        }
                                    },
                                    _ => {},
                                }
                            },
                            _ => {},
                        }
                    },
                    _ => {},
                }
            }
        },
        _ => {},
    }
}

// What follows shows that parsing is prefix-stable: every grammar step that
// does not report "incomplete" on a prefix of the buffer gives the same
// answer on the whole buffer, because it only ever read bytes the prefix
// already held.

pub proof fn lemma_scan_transfer(s: Seq<u8>, k: int, i: int, stop: spec_fn(u8) -> bool)
    requires
        0 <= i <= k <= s.len(),
        scan(s.take(k), i, stop) < k,
    ensures
        scan(s, i, stop) == scan(s.take(k), i, stop),
{
    let t = s.take(k);
    crate::ascii::lemma_scan(t, i, stop);
    crate::ascii::lemma_scan(s, i, stop);
    let c = scan(t, i, stop);
    let c2 = scan(s, i, stop);
    assert(stop(t[c]));
    assert(t[c] == s[c]);
    if c2 < c {
        assert(!stop(t[c2]));
        assert(t[c2] == s[c2]);
        assert(stop(s[c2]));
    }
    if c2 > c {
        assert(!stop(s[c]));
    }
}

pub proof fn lemma_till1_transfer(s: Seq<u8>, k: int, i: int, stop: spec_fn(u8) -> bool)
    requires
        0 <= i <= k <= s.len(),
        !(till1_at(s.take(k), i, stop) is Incomplete),
    ensures
        till1_at(s, i, stop) == till1_at(s.take(k), i, stop),
{
    lemma_scan_transfer(s, k, i, stop);
}

pub proof fn lemma_till0_transfer(s: Seq<u8>, k: int, i: int, stop: spec_fn(u8) -> bool)
    requires
        0 <= i <= k <= s.len(),
        !(till0_at(s.take(k), i, stop) is Incomplete),
    ensures
        till0_at(s, i, stop) == till0_at(s.take(k), i, stop),
{
    lemma_scan_transfer(s, k, i, stop);
}

pub proof fn lemma_char_transfer(s: Seq<u8>, k: int, i: int, c: u8)
    requires
        0 <= i <= k <= s.len(),
        !(char_at(s.take(k), i, c) is Incomplete),
    ensures
        char_at(s, i, c) == char_at(s.take(k), i, c),
{
}

pub proof fn lemma_lf_transfer(s: Seq<u8>, k: int, i: int)
    requires
        0 <= i <= k <= s.len(),
        !(lf_at(s.take(k), i) is Incomplete),
    ensures
        lf_at(s, i) == lf_at(s.take(k), i),
{
}

pub proof fn lemma_opt_ws_transfer(s: Seq<u8>, k: int, i: int)
    requires
        0 <= i <= k <= s.len(),
        !(opt_ws_at(s.take(k), i) is Incomplete),
    ensures
        opt_ws_at(s, i) == opt_ws_at(s.take(k), i),
{
    let t = s.take(k);
    if i < t.len() && is_space_b(t[i]) {
        lemma_scan_transfer(s, k, i, stop_fn(ScanStop::NonSpace));
    }
}

pub proof fn lemma_sip_tag_transfer(s: Seq<u8>, k: int, i: int)
    requires
        0 <= i <= k <= s.len(),
        !(sip_tag_at(s.take(k), i) is Incomplete),
    ensures
        sip_tag_at(s, i) == sip_tag_at(s.take(k), i),
{
}

pub proof fn lemma_skip_lfs_transfer(s: Seq<u8>, k: int, i: int)
    requires
        0 <= i <= k <= s.len(),
        skip_lfs(s.take(k), i) is At,
    ensures
        skip_lfs(s, i) == skip_lfs(s.take(k), i),
    decreases k - i,
{
    let t = s.take(k);
    match lf_at(t, i) {
        SpecStep::Fail => {
            lemma_lf_transfer(s, k, i);
        },
        SpecStep::At(j) => {
            lemma_lf_transfer(s, k, i);
            lemma_lf_pos(t, i);
            if i < j <= t.len() {
                lemma_skip_lfs_transfer(s, k, j);
            }
        },
        SpecStep::Incomplete => {},
    }
}

pub proof fn lemma_version_transfer(s: Seq<u8>, k: int, i: int)
    requires
        0 <= i <= k <= s.len(),
        !(version_at(s.take(k), i) is Incomplete),
    ensures
        version_at(s, i) == version_at(s.take(k), i),
{
    let t = s.take(k);
    match sip_tag_at(t, i) {
        SpecStep::At(j) => {
            lemma_sip_tag_transfer(s, k, i);
            match till1_at(t, j, stop_fn(ScanStop::NonDigit)) {
                SpecStep::At(k0) => {
                    lemma_till1_transfer(s, k, j, stop_fn(ScanStop::NonDigit));
                    lemma_till1_pos(t, j, stop_fn(ScanStop::NonDigit));
                    assert(t.subrange(j, k0) =~= s.subrange(j, k0));
                    match char_at(t, k0, 46) {
                        SpecStep::At(p) => {
                            lemma_char_transfer(s, k, k0, 46);
                            match till1_at(t, p, stop_fn(ScanStop::NonDigit)) {
                                SpecStep::At(q) => {
                                    lemma_till1_transfer(s, k, p, stop_fn(ScanStop::NonDigit));
                                    lemma_till1_pos(t, p, stop_fn(ScanStop::NonDigit));
                                    assert(t.subrange(p, q) =~= s.subrange(p, q));
                                },
                                SpecStep::Fail => {
                                    lemma_till1_transfer(s, k, p, stop_fn(ScanStop::NonDigit));
                                },
                                SpecStep::Incomplete => {},
                            }
                        },
                        SpecStep::Fail => {
                            lemma_char_transfer(s, k, k0, 46);
                        },
                        SpecStep::Incomplete => {},
                    }
                },
                SpecStep::Fail => {
                    lemma_till1_transfer(s, k, j, stop_fn(ScanStop::NonDigit));
                },
                SpecStep::Incomplete => {},
            }
        },
        SpecStep::Fail => {
            lemma_sip_tag_transfer(s, k, i);
        },
        SpecStep::Incomplete => {},
    }
}

pub proof fn lemma_headers_transfer(s: Seq<u8>, k: int, i: int)
    requires
        0 <= i <= k <= s.len(),
        lf_at(s.take(k), headers_at(s.take(k), i).0) is At,
    ensures
        headers_at(s, i) == headers_at(s.take(k), i),
    decreases k - i,
{
    let t = s.take(k);
    let h1 = headers_at(t, i).0;
    match header::header_at(t, i) {
        header::SpecHeaderStep::Incomplete => {
            // The section on the prefix ends right at `i`, and a line
            // terminator sits there; a terminator byte can never start a
            // legal header name, so the whole buffer's section ends at `i`
            // too.
            assert(h1 == i);
            assert(i < t.len());
            assert(s[i] == CR || s[i] == LF);
            match header::header_at(s, i) {
                header::SpecHeaderStep::Header(r, n, v) => {
                    lemma_till1_pos(s, i, stop_fn(ScanStop::ColonOrSpace));
                    match till1_at(s, i, stop_fn(ScanStop::ColonOrSpace)) {
                        SpecStep::At(j) => {
                            assert(header::valid_name(s.subrange(i, j)));
                            assert(s.subrange(i, j)[0] == s[i]);
                            assert(!header::valid_name_byte(s[i]));
                            assert(false);
                        },
                        _ => {
                            assert(false);
                        },
                    }
                },
                _ => {},
            }
            assert(headers_at(s, i).1 =~= headers_at(t, i).1);
        },
        header::SpecHeaderStep::Fail => {
            header::lemma_header_transfer(s, k, i);
            assert(headers_at(s, i).1 =~= headers_at(t, i).1);
        },
        header::SpecHeaderStep::Header(e, n, v) => {
            header::lemma_header_transfer(s, k, i);
            header::lemma_header_at_pos(t, i);
            match lf_at(t, e) {
                SpecStep::At(k2) => {
                    lemma_lf_transfer(s, k, e);
                    lemma_lf_pos(t, e);
                    if i < k2 <= t.len() {
                        assert(headers_at(t, i).0 == headers_at(t, k2).0);
                        lemma_headers_transfer(s, k, k2);
                    }
                },
                SpecStep::Fail => {
                    lemma_lf_transfer(s, k, e);
                    assert(headers_at(s, i).1 =~= headers_at(t, i).1);
                },
                SpecStep::Incomplete => {
                    // Impossible: the section would end at `i` with a line
                    // terminator there, yet a header line with a legal name
                    // starts at `i`.
                    assert(h1 == i);
                    assert(i < t.len());
                    assert(t[i] == CR || t[i] == LF);
                    lemma_till1_pos(t, i, stop_fn(ScanStop::ColonOrSpace));
                    match till1_at(t, i, stop_fn(ScanStop::ColonOrSpace)) {
                        SpecStep::At(j) => {
                            assert(header::valid_name(t.subrange(i, j)));
                            assert(t.subrange(i, j)[0] == t[i]);
                            assert(!header::valid_name_byte(t[i]));
                            assert(false);
                        },
                        _ => {
                            assert(false);
                        },
                    }
                },
            }
        },
    }
}

// A prefix that parses as a complete message pins down the whole buffer's
// parse: the request line and header map agree, and when the prefix's map
// declares a body length, the two parses agree entirely.
proof fn lemma_prefix_complete_aligns(s: Seq<u8>, k: int)
    requires
        0 <= k <= s.len(),
        spec_parse(s.take(k)) is Complete,
    ensures
        match spec_parse(s.take(k)) {
            SpecParse::Complete(rq, c) => match spec_parse(s) {
                SpecParse::Complete(rq2, c2) => rq2.headers == rq.headers
                    && (spec_decode_content_length(
                    values_for(rq.headers, ContentLength::spec_aliases()),
                ) is Some ==> (rq2 == rq && c2 == c)),
                _ => false,
            },
            _ => true,
        },
{
    let t = s.take(k);
    lemma_skip_lfs_transfer(s, k, 0);
    lemma_skip_lfs_pos(t, 0);
    match skip_lfs(t, 0) {
        SpecStep::At(i0) => {
            lemma_till1_transfer(s, k, i0, stop_fn(ScanStop::Space));
            lemma_till1_pos(t, i0, stop_fn(ScanStop::Space));
            match till1_at(t, i0, stop_fn(ScanStop::Space)) {
                SpecStep::At(m1) => {
                    assert(t.subrange(i0, m1) =~= s.subrange(i0, m1));
                    lemma_till1_transfer(s, k, m1, stop_fn(ScanStop::NonSpace));
                    lemma_till1_pos(t, m1, stop_fn(ScanStop::NonSpace));
                    match till1_at(t, m1, stop_fn(ScanStop::NonSpace)) {
                        SpecStep::At(u0) => {
                            lemma_till1_transfer(s, k, u0, stop_fn(ScanStop::Space));
                            lemma_till1_pos(t, u0, stop_fn(ScanStop::Space));
                            match till1_at(t, u0, stop_fn(ScanStop::Space)) {
                                SpecStep::At(u1) => {
                                    assert(t.subrange(u0, u1) =~= s.subrange(u0, u1));
                                    lemma_till1_transfer(s, k, u1, stop_fn(ScanStop::NonSpace));
                                    lemma_till1_pos(t, u1, stop_fn(ScanStop::NonSpace));
                                    match till1_at(t, u1, stop_fn(ScanStop::NonSpace)) {
                                        SpecStep::At(v0) => {
                                            lemma_version_transfer(s, k, v0);
                                            lemma_version_pos(t, v0);
                                            match version_at(t, v0) {
                                                SpecVersionStep::Ver(v1, ma, mi) => {
                                                    lemma_lf_transfer(s, k, v1);
                                                    lemma_lf_pos(t, v1);
                                                    match lf_at(t, v1) {
                                                        SpecStep::At(h0) => {
                                                            lemma_headers_at_pos(t, h0);
                                                            lemma_headers_transfer(s, k, h0);
                                                            let h1 = headers_at(t, h0).0;
                                                            lemma_lf_transfer(s, k, h1);
                                                            lemma_lf_pos(t, h1);
                                                            match lf_at(t, h1) {
                                                                SpecStep::At(b0) => {
                                                                    let map = build_map(
                                                                        headers_at(t, h0).1,
                                                                    );
                                                                    let cl =
                                                                        spec_decode_content_length(
                                                                        values_for(
                                                                            map,
                                                                            ContentLength::spec_aliases(),
                                                                        ),
                                                                    );
                                                                    match cl {
                                                                        Some(n) => {
                                                                            assert(b0 + n
                                                                                <= t.len());
                                                                            assert(t.subrange(
                                                                                b0,
                                                                                b0 + n,
                                                                            ) =~= s.subrange(
                                                                                b0,
                                                                                b0 + n,
                                                                            ));
                                                                        },
                                                                        None => {},
                                                                    }
                                                                },
                                                                _ => {},
                                                            }
                                                        },
                                                        _ => {},
                                                    }
                                                },
                                                _ => {},
                                            }
                                        },
                                        _ => {},
                                    }
                                },
                                _ => {},
                            }
                        },
                        _ => {},
                    }
                },
                _ => {},
            }
        },
        _ => {},
    }
}

// The converse direction: a step of the whole buffer's parse that finished
// reading within the first `k` bytes gives the same answer on the prefix of
// those `k` bytes.

proof fn lemma_scan_restrict(s: Seq<u8>, k: int, i: int, stop: spec_fn(u8) -> bool)
    requires
        0 <= i <= k <= s.len(),
        scan(s, i, stop) < k,
    ensures
        scan(s.take(k), i, stop) == scan(s, i, stop),
{
    let t = s.take(k);
    crate::ascii::lemma_scan(t, i, stop);
    crate::ascii::lemma_scan(s, i, stop);
    let c = scan(s, i, stop);
    let c2 = scan(t, i, stop);
    assert(stop(s[c]));
    assert(t[c] == s[c]);
    if c2 < c {
        assert(!stop(s[c2]));
        assert(t[c2] == s[c2]);
        assert(stop(t[c2]));
    }
    if c2 > c {
        assert(!stop(t[c]));
    }
}

proof fn lemma_till1_restrict(s: Seq<u8>, k: int, i: int, stop: spec_fn(u8) -> bool)
    requires
        0 <= i <= k <= s.len(),
        match till1_at(s, i, stop) {
            SpecStep::At(j) => j < k,
            _ => false,
        },
    ensures
        till1_at(s.take(k), i, stop) == till1_at(s, i, stop),
{
    lemma_scan_restrict(s, k, i, stop);
}

proof fn lemma_till0_restrict(s: Seq<u8>, k: int, i: int, stop: spec_fn(u8) -> bool)
    requires
        0 <= i <= k <= s.len(),
        match till0_at(s, i, stop) {
            SpecStep::At(j) => j < k,
            _ => false,
        },
    ensures
        till0_at(s.take(k), i, stop) == till0_at(s, i, stop),
{
    lemma_scan_restrict(s, k, i, stop);
}

proof fn lemma_char_restrict(s: Seq<u8>, k: int, i: int, c: u8)
    requires
        0 <= i <= k <= s.len(),
        i < k,
        char_at(s, i, c) is At,
    ensures
        char_at(s.take(k), i, c) == char_at(s, i, c),
{
}

proof fn lemma_lf_restrict(s: Seq<u8>, k: int, i: int)
    requires
        0 <= i <= k <= s.len(),
        match lf_at(s, i) {
            SpecStep::At(j) => (if s[i] == CR && j == i + 1 {
                j + 1
            } else {
                j
            }) <= k,
            _ => false,
        },
    ensures
        lf_at(s.take(k), i) == lf_at(s, i),
{
}

proof fn lemma_opt_ws_restrict(s: Seq<u8>, k: int, i: int)
    requires
        0 <= i <= k <= s.len(),
        match opt_ws_at(s, i) {
            SpecStep::At(j) => j < k,
            _ => false,
        },
    ensures
        opt_ws_at(s.take(k), i) == opt_ws_at(s, i),
{
    let t = s.take(k);
    if i < s.len() && is_space_b(s[i]) {
        lemma_scan_restrict(s, k, i, stop_fn(ScanStop::NonSpace));
    }
}

proof fn lemma_sip_tag_restrict(s: Seq<u8>, k: int, i: int)
    requires
        0 <= i <= k <= s.len(),
        match sip_tag_at(s, i) {
            SpecStep::At(j) => j <= k,
            _ => false,
        },
    ensures
        sip_tag_at(s.take(k), i) == sip_tag_at(s, i),
{
}

proof fn lemma_skip_lfs_restrict(s: Seq<u8>, k: int, i: int)
    requires
        0 <= i <= k <= s.len(),
        match skip_lfs(s, i) {
            SpecStep::At(j) => j < k,
            _ => false,
        },
    ensures
        skip_lfs(s.take(k), i) == skip_lfs(s, i),
    decreases k - i,
{
    let t = s.take(k);
    lemma_skip_lfs_pos(s, i);
    match lf_at(s, i) {
        SpecStep::Fail => {
            assert(lf_at(t, i) == lf_at(s, i));
        },
        SpecStep::At(j2) => {
            lemma_lf_pos(s, i);
            match skip_lfs(s, i) {
                SpecStep::At(j) => {
                    if i < j2 <= s.len() {
                        assert(skip_lfs(s, j2) == skip_lfs(s, i));
                        lemma_skip_lfs_pos(s, j2);
                        assert(j2 <= j);
                        lemma_lf_restrict(s, k, i);
                        lemma_skip_lfs_restrict(s, k, j2);
                    }
                },
                _ => {},
            }
        },
        SpecStep::Incomplete => {},
    }
}

proof fn lemma_version_restrict(s: Seq<u8>, k: int, i: int)
    requires
        0 <= i <= k <= s.len(),
        match version_at(s, i) {
            SpecVersionStep::Ver(q, ma, mi) => q < k,
            _ => false,
        },
    ensures
        version_at(s.take(k), i) == version_at(s, i),
{
    let t = s.take(k);
    match sip_tag_at(s, i) {
        SpecStep::At(j) => {
            match till1_at(s, j, stop_fn(ScanStop::NonDigit)) {
                SpecStep::At(k0) => {
                    lemma_till1_pos(s, j, stop_fn(ScanStop::NonDigit));
                    match char_at(s, k0, 46) {
                        SpecStep::At(p) => {
                            match till1_at(s, p, stop_fn(ScanStop::NonDigit)) {
                                SpecStep::At(q) => {
                                    lemma_till1_pos(s, p, stop_fn(ScanStop::NonDigit));
                                    lemma_sip_tag_restrict(s, k, i);
                                    lemma_till1_restrict(s, k, j, stop_fn(ScanStop::NonDigit));
                                    lemma_char_restrict(s, k, k0, 46);
                                    lemma_till1_restrict(s, k, p, stop_fn(ScanStop::NonDigit));
                                    assert(t.subrange(j, k0) =~= s.subrange(j, k0));
                                    assert(t.subrange(p, q) =~= s.subrange(p, q));
                                },
                                _ => {},
                            }
                        },
                        _ => {},
                    }
                },
                _ => {},
            }
        },
        _ => {},
    }
}

proof fn lemma_header_restrict(s: Seq<u8>, k: int, i: int)
    requires
        0 <= i <= k <= s.len(),
        match header::header_at(s, i) {
            header::SpecHeaderStep::Header(r, n, v) => r < k,
            _ => false,
        },
    ensures
        header::header_at(s.take(k), i) == header::header_at(s, i),
{
    let t = s.take(k);
    match till1_at(s, i, stop_fn(ScanStop::ColonOrSpace)) {
        SpecStep::At(j) => {
            lemma_till1_pos(s, i, stop_fn(ScanStop::ColonOrSpace));
            match opt_ws_at(s, j) {
                SpecStep::At(k0) => {
                    lemma_opt_ws_pos(s, j);
                    match char_at(s, k0, crate::ascii::COLON) {
                        SpecStep::At(p) => {
                            match opt_ws_at(s, p) {
                                SpecStep::At(q) => {
                                    lemma_opt_ws_pos(s, p);
                                    match till0_at(s, q, stop_fn(ScanStop::Newline)) {
                                        SpecStep::At(r) => {
                                            lemma_till0_pos(s, q, stop_fn(ScanStop::Newline));
                                            lemma_till1_restrict(
                                                s,
                                                k,
                                                i,
                                                stop_fn(ScanStop::ColonOrSpace),
                                            );
                                            lemma_opt_ws_restrict(s, k, j);
                                            lemma_char_restrict(s, k, k0, crate::ascii::COLON);
                                            lemma_opt_ws_restrict(s, k, p);
                                            lemma_till0_restrict(
                                                s,
                                                k,
                                                q,
                                                stop_fn(ScanStop::Newline),
                                            );
                                            assert(t.subrange(i, j) =~= s.subrange(i, j));
                                            assert(t.subrange(q, r) =~= s.subrange(q, r));
                                        },
                                        _ => {},
                                    }
                                },
                                _ => {},
                            }
                        },
                        _ => {},
                    }
                },
                _ => {},
            }
        },
        _ => {},
    }
}

proof fn lemma_headers_restrict(s: Seq<u8>, k: int, i: int)
    requires
        0 <= i <= k <= s.len(),
        headers_at(s, i).0 < k,
        i <= headers_at(s, i).0,
        s[headers_at(s, i).0] == CR || s[headers_at(s, i).0] == LF,
    ensures
        headers_at(s.take(k), i) == headers_at(s, i),
    decreases k - i,
{
    let t = s.take(k);
    let h1 = headers_at(s, i).0;
    match header::header_at(s, i) {
        header::SpecHeaderStep::Header(e, n, v) => {
            header::lemma_header_at_pos(s, i);
            match lf_at(s, e) {
                SpecStep::At(k2) => {
                    lemma_lf_pos(s, e);
                    if i < k2 <= s.len() {
                        assert(headers_at(s, k2).0 == h1);
                        lemma_headers_at_pos(s, k2);
                        assert(k2 <= h1);
                        lemma_header_restrict(s, k, i);
                        lemma_lf_restrict(s, k, e);
                        lemma_headers_restrict(s, k, k2);
                        assert(headers_at(t, i).1 =~= headers_at(s, i).1);
                    }
                },
                SpecStep::Fail => {
                    // The section stops at its entry: `h1 == i`, yet the
                    // line there starts with a terminator byte, which can
                    // never begin a legal header name.
                    assert(h1 == i);
                    lemma_till1_pos(s, i, stop_fn(ScanStop::ColonOrSpace));
                    match till1_at(s, i, stop_fn(ScanStop::ColonOrSpace)) {
                        SpecStep::At(j) => {
                            assert(header::valid_name(s.subrange(i, j)));
                            assert(s.subrange(i, j)[0] == s[i]);
                            assert(false);
                        },
                        _ => {
                            assert(false);
                        },
                    }
                },
                SpecStep::Incomplete => {
                    assert(h1 == i);
                    lemma_till1_pos(s, i, stop_fn(ScanStop::ColonOrSpace));
                    match till1_at(s, i, stop_fn(ScanStop::ColonOrSpace)) {
                        SpecStep::At(j) => {
                            assert(header::valid_name(s.subrange(i, j)));
                            assert(s.subrange(i, j)[0] == s[i]);
                            assert(false);
                        },
                        _ => {
                            assert(false);
                        },
                    }
                },
            }
        },
        _ => {
            // The section stops at `i == h1`, where a terminator byte sits.
            // On the prefix the line there is read the same way: whatever
            // name token a scan finds would start with that terminator byte
            // and be illegal, so the prefix's section also stops at `i`.
            assert(h1 == i);
            match header::header_at(t, i) {
                header::SpecHeaderStep::Header(r, n, v) => {
                    lemma_till1_pos(t, i, stop_fn(ScanStop::ColonOrSpace));
                    match till1_at(t, i, stop_fn(ScanStop::ColonOrSpace)) {
                        SpecStep::At(j) => {
                            assert(header::valid_name(t.subrange(i, j)));
                            assert(t.subrange(i, j)[0] == t[i]);
                            assert(t[i] == s[i]);
                            assert(false);
                        },
                        _ => {
                            assert(false);
                        },
                    }
                },
                _ => {},
            }
            assert(headers_at(t, i).1 =~= headers_at(s, i).1);
        },
    }
}

/// Once any prefix of a buffer parses as one complete message that declares
/// its body length, the whole buffer parses identically: the same request
/// and the same consumed count. Feeding the same bytes in one call or split
/// across calls at any points therefore yields the identical message and
/// leaves the identical remainder buffered.
pub proof fn lemma_prefix_complete_transfers(s: Seq<u8>, k: int)
    requires
        0 <= k <= s.len(),
        match spec_parse(s.take(k)) {
            SpecParse::Complete(req, c) => spec_decode_content_length(
                values_for(req.headers, ContentLength::spec_aliases()),
            ) is Some,
            _ => false,
        },
    ensures
        spec_parse(s) == spec_parse(s.take(k)),
{
    lemma_prefix_complete_aligns(s, k);
}

/// A buffer that parses as one complete message with a declared body length
/// never yields a message early: no strict prefix of the consumed bytes
/// parses as complete, so feeding the bytes in pieces can only answer "need
/// more data" until the whole message is present, and then yields it.
pub proof fn lemma_no_early_message(s: Seq<u8>, k: int)
    requires
        0 <= k <= s.len(),
        match spec_parse(s) {
            SpecParse::Complete(req, c) => spec_decode_content_length(
                values_for(req.headers, ContentLength::spec_aliases()),
            ) is Some && k < c,
            _ => false,
        },
    ensures
        !(spec_parse(s.take(k)) is Complete),
{
    let t = s.take(k);
    if spec_parse(t) is Complete {
        lemma_prefix_complete_aligns(s, k);
        lemma_spec_parse_consumed(t);
        match spec_parse(t) {
            SpecParse::Complete(rq, c1) => {
                match spec_parse(s) {
                    SpecParse::Complete(rq2, c2) => {
                        assert(rq2.headers == rq.headers);
                        assert(c2 == c1);
                        assert(c1 <= t.len());
                        assert(false);
                    },
                    _ => {},
                }
            },
            _ => {},
        }
    }
}

/// A buffer whose parse succeeds and whose declared content-length covers
/// its body, cut anywhere inside the body region, is need-more-data — never
/// malformed — and, by `lemma_prefix_complete_transfers`, completing the
/// missing bytes later yields exactly the original message.
pub proof fn lemma_short_body_needs_more(s: Seq<u8>, k: int)
    requires
        0 <= k <= s.len(),
        match spec_parse(s) {
            SpecParse::Complete(req, c) => spec_decode_content_length(
                values_for(req.headers, ContentLength::spec_aliases()),
            ) is Some && c - req.body.len() <= k < c,
            _ => false,
        },
    ensures
        spec_parse(s.take(k)) == SpecParse::Incomplete,
{
    let t = s.take(k);
    lemma_skip_lfs_pos(s, 0);
    match skip_lfs(s, 0) {
        SpecStep::At(i0) => {
            lemma_till1_pos(s, i0, stop_fn(ScanStop::Space));
            match till1_at(s, i0, stop_fn(ScanStop::Space)) {
                SpecStep::At(m1) => {
                    lemma_till1_pos(s, m1, stop_fn(ScanStop::NonSpace));
                    match till1_at(s, m1, stop_fn(ScanStop::NonSpace)) {
                        SpecStep::At(u0) => {
                            lemma_till1_pos(s, u0, stop_fn(ScanStop::Space));
                            match till1_at(s, u0, stop_fn(ScanStop::Space)) {
                                SpecStep::At(u1) => {
                                    lemma_till1_pos(s, u1, stop_fn(ScanStop::NonSpace));
                                    match till1_at(s, u1, stop_fn(ScanStop::NonSpace)) {
                                        SpecStep::At(v0) => {
                                            lemma_version_pos(s, v0);
                                            match version_at(s, v0) {
                                                SpecVersionStep::Ver(v1, ma, mi) => {
                                                    lemma_lf_pos(s, v1);
                                                    match lf_at(s, v1) {
                                                        SpecStep::At(h0) => {
                                                            lemma_headers_at_pos(s, h0);
                                                            let h1 = headers_at(s, h0).0;
                                                            lemma_lf_pos(s, h1);
                                                            match lf_at(s, h1) {
                                                                SpecStep::At(b0) => {
                                                                    lemma_short_body_tail(
                                                                        s,
                                                                        k,
                                                                        i0,
                                                                        m1,
                                                                        u0,
                                                                        u1,
                                                                        v0,
                                                                        v1,
                                                                        h0,
                                                                        h1,
                                                                        b0,
                                                                    );
                                                                },
                                                                _ => {},
                                                            }
                                                        },
                                                        _ => {},
                                                    }
                                                },
                                                _ => {},
                                            }
                                        },
                                        _ => {},
                                    }
                                },
                                _ => {},
                            }
                        },
                        _ => {},
                    }
                },
                _ => {},
            }
        },
        _ => {},
    }
}

#[verifier::rlimit(50)]
proof fn lemma_short_body_tail(
    s: Seq<u8>,
    k: int,
    i0: int,
    m1: int,
    u0: int,
    u1: int,
    v0: int,
    v1: int,
    h0: int,
    h1: int,
    b0: int,
)
    requires
        0 <= k <= s.len(),
        match spec_parse(s) {
            SpecParse::Complete(req, c) => spec_decode_content_length(
                values_for(req.headers, ContentLength::spec_aliases()),
            ) is Some && c - req.body.len() <= k < c,
            _ => false,
        },
        skip_lfs(s, 0) == SpecStep::At(i0),
        0 <= i0 <= s.len(),
        till1_at(s, i0, stop_fn(ScanStop::Space)) == SpecStep::At(m1),
        i0 < m1 <= s.len(),
        till1_at(s, m1, stop_fn(ScanStop::NonSpace)) == SpecStep::At(u0),
        m1 < u0 <= s.len(),
        till1_at(s, u0, stop_fn(ScanStop::Space)) == SpecStep::At(u1),
        u0 < u1 <= s.len(),
        till1_at(s, u1, stop_fn(ScanStop::NonSpace)) == SpecStep::At(v0),
        u1 < v0 <= s.len(),
        version_at(s, v0) matches SpecVersionStep::Ver(q, ma, mi) && q == v1,
        v0 < v1 <= s.len(),
        lf_at(s, v1) == SpecStep::At(h0),
        v1 < h0 <= s.len(),
        headers_at(s, h0).0 == h1,
        h0 <= h1 <= s.len(),
        lf_at(s, h1) == SpecStep::At(b0),
        h1 < b0 <= s.len(),
    ensures
        spec_parse(s.take(k)) == SpecParse::Incomplete,
{
    let t = s.take(k);
    match spec_parse(s) {
        SpecParse::Complete(req, c) => {
            let map = build_map(headers_at(s, h0).1);
            let cl = spec_decode_content_length(values_for(map, ContentLength::spec_aliases()));
            assert(b0 <= k);
            assert(c > k);
            lemma_skip_lfs_restrict(s, k, 0);
            lemma_till1_restrict(s, k, i0, stop_fn(ScanStop::Space));
            lemma_till1_restrict(s, k, m1, stop_fn(ScanStop::NonSpace));
            lemma_till1_restrict(s, k, u0, stop_fn(ScanStop::Space));
            lemma_till1_restrict(s, k, u1, stop_fn(ScanStop::NonSpace));
            lemma_version_restrict(s, k, v0);
            lemma_lf_restrict(s, k, v1);
            assert(s[h1] == CR || s[h1] == LF);
            lemma_headers_restrict(s, k, h0);
            if s[h1] == CR && b0 == h1 + 1 && b0 == k {
                // The blank line is a lone carriage return and the cut falls
                // right after it: the prefix cannot yet tell whether a line
                // feed follows, so it is incomplete at the blank line itself.
                assert(lf_at(t, h1) is Incomplete);
                assert(spec_parse(t) == SpecParse::Incomplete);
            } else {
                lemma_lf_restrict(s, k, h1);
                assert(b0 + spec_decode_content_length(
                    values_for(map, ContentLength::spec_aliases()),
                ).unwrap() > t.len());
                assert(spec_parse(t) == SpecParse::Incomplete);
            }
        },
        _ => {},
    }
}

/// The outcome of one executable grammar step.
pub enum Step {
    Incomplete,
    Fail,
    At(usize),
}

pub open spec fn step_of(r: Step) -> SpecStep {
    match r {
        Step::Incomplete => SpecStep::Incomplete,
        Step::Fail => SpecStep::Fail,
        Step::At(j) => SpecStep::At(j as int),
    }
}

fn lf_from(s: &[u8], i: usize) -> (r: Step)
    requires
        i <= s@.len(),
    ensures
        step_of(r) == lf_at(s@, i as int),
{
    if i >= s.len() {
        Step::Incomplete
    } else if *vstd::slice::slice_index_get(s, i) == CR {
        if i + 1 >= s.len() {
            Step::Incomplete
        } else if *vstd::slice::slice_index_get(s, i + 1) == LF {
            Step::At(i + 2)
        } else {
            Step::At(i + 1)
        }
    } else if *vstd::slice::slice_index_get(s, i) == LF {
        Step::At(i + 1)
    } else {
        Step::Fail
    }
}

fn skip_lfs_from(s: &[u8]) -> (r: Option<usize>)
    ensures
        match r {
            Some(j) => skip_lfs(s@, 0) == SpecStep::At(j as int) && j <= s@.len(),
            None => skip_lfs(s@, 0) == SpecStep::Incomplete,
        },
{
    let mut i: usize = 0;
    loop
        invariant
            0 <= i <= s@.len(),
            skip_lfs(s@, 0) == skip_lfs(s@, i as int),
        ensures
            skip_lfs(s@, i as int) == lf_at_outcome_stop(s@, i as int),
        decreases s@.len() - i,
    {
        match lf_from(s, i) {
            Step::At(j) => {
                proof {
                    lemma_lf_pos(s@, i as int);
                }
                i = j;
            },
            _ => {
                break ;
            },
        }
    }
    match lf_from(s, i) {
        Step::Incomplete => None,
        _ => Some(i),
    }
}

/// What `skip_lfs` yields once the terminator at `i` no longer advances.
spec fn lf_at_outcome_stop(s: Seq<u8>, i: int) -> SpecStep {
    match lf_at(s, i) {
        SpecStep::Incomplete => SpecStep::Incomplete,
        _ => SpecStep::At(i),
    }
}

pub(crate) fn till1_from(s: &[u8], i: usize, k: ScanStop) -> (r: Step)
    requires
        i <= s@.len(),
    ensures
        step_of(r) == till1_at(s@, i as int, stop_fn(k)),
{
    let j = crate::ascii::scan_from(s, i, k);
    proof {
        crate::ascii::lemma_scan(s@, i as int, stop_fn(k));
    }
    if j >= s.len() {
        Step::Incomplete
    } else if j == i {
        Step::Fail
    } else {
        Step::At(j)
    }
}

pub(crate) fn till0_from(s: &[u8], i: usize, k: ScanStop) -> (r: Step)
    requires
        i <= s@.len(),
    ensures
        step_of(r) == till0_at(s@, i as int, stop_fn(k)),
{
    let j = crate::ascii::scan_from(s, i, k);
    proof {
        crate::ascii::lemma_scan(s@, i as int, stop_fn(k));
    }
    if j >= s.len() {
        Step::Incomplete
    } else {
        Step::At(j)
    }
}

pub(crate) fn char_from(s: &[u8], i: usize, c: u8) -> (r: Step)
    requires
        i <= s@.len(),
    ensures
        step_of(r) == char_at(s@, i as int, c),
{
    if i >= s.len() {
        Step::Incomplete
    } else if *vstd::slice::slice_index_get(s, i) == c {
        Step::At(i + 1)
    } else {
        Step::Fail
    }
}

pub(crate) fn opt_ws_from(s: &[u8], i: usize) -> (r: Step)
    requires
        i <= s@.len(),
    ensures
        step_of(r) == opt_ws_at(s@, i as int),
{
    if i >= s.len() {
        return Step::Incomplete;
    }
    let b = *vstd::slice::slice_index_get(s, i);
    if !(b == SP || b == crate::ascii::HT) {
        return Step::At(i);
    }
    let j = crate::ascii::scan_from(s, i, ScanStop::NonSpace);
    proof {
        crate::ascii::lemma_scan(s@, i as int, stop_fn(ScanStop::NonSpace));
    }
    if j >= s.len() {
        Step::Incomplete
    } else {
        Step::At(j)
    }
}

fn sip_tag_from(s: &[u8], i: usize) -> (r: Step)
    requires
        i <= s@.len(),
    ensures
        step_of(r) == sip_tag_at(s@, i as int),
{
    if i >= s.len() {
        Step::Incomplete
    } else if *vstd::slice::slice_index_get(s, i) != 83 {
        Step::Fail
    } else if i + 1 >= s.len() {
        Step::Incomplete
    } else if *vstd::slice::slice_index_get(s, i + 1) != 73 {
        Step::Fail
    } else if i + 2 >= s.len() {
        Step::Incomplete
    } else if *vstd::slice::slice_index_get(s, i + 2) != 80 {
        Step::Fail
    } else if i + 3 >= s.len() {
        Step::Incomplete
    } else if *vstd::slice::slice_index_get(s, i + 3) != 47 {
        Step::Fail
    } else {
        Step::At(i + 4)
    }
}

enum VersionResult {
    Incomplete,
    Fail,
    Ver(usize, u8, u8),
}

spec fn vstep_of(r: VersionResult) -> SpecVersionStep {
    match r {
        VersionResult::Incomplete => SpecVersionStep::Incomplete,
        VersionResult::Fail => SpecVersionStep::Fail,
        VersionResult::Ver(q, ma, mi) => SpecVersionStep::Ver(q as int, ma, mi),
    }
}

fn version_from(s: &[u8], i: usize) -> (r: VersionResult)
    requires
        i <= s@.len(),
    ensures
        vstep_of(r) == version_at(s@, i as int),
{
    let j = match sip_tag_from(s, i) {
        Step::Incomplete => {
            return VersionResult::Incomplete;
        },
        Step::Fail => {
            return VersionResult::Fail;
        },
        Step::At(j) => j,
    };
    let k = match till1_from(s, j, ScanStop::NonDigit) {
        Step::Incomplete => {
            return VersionResult::Incomplete;
        },
        Step::Fail => {
            return VersionResult::Fail;
        },
        Step::At(k) => k,
    };
    proof {
        lemma_till1_pos(s@, j as int, stop_fn(ScanStop::NonDigit));
    }
    let major = match parse_u8(vstd::slice::slice_subrange(s, j, k)) {
        None => {
            return VersionResult::Fail;
        },
        Some(v) => v,
    };
    let p = match char_from(s, k, 46) {
        Step::Incomplete => {
            return VersionResult::Incomplete;
        },
        Step::Fail => {
            return VersionResult::Fail;
        },
        Step::At(p) => p,
    };
    let q = match till1_from(s, p, ScanStop::NonDigit) {
        Step::Incomplete => {
            return VersionResult::Incomplete;
        },
        Step::Fail => {
            return VersionResult::Fail;
        },
        Step::At(q) => q,
    };
    proof {
        lemma_till1_pos(s@, p as int, stop_fn(ScanStop::NonDigit));
    }
    match parse_u8(vstd::slice::slice_subrange(s, p, q)) {
        None => VersionResult::Fail,
        Some(minor) => VersionResult::Ver(q, major, minor),
    }
}

/// The result of parsing a buffer: a complete request and the count of bytes
/// consumed from the front of the buffer, or a request for more bytes, or a
/// grammar violation.
#[derive(Debug, Clone, PartialEq, Eq)]
pub enum ParseResult {
    Incomplete,
    Malformed,
    Complete(Request, usize),
}

pub open spec fn presult_of(r: ParseResult) -> SpecParse {
    match r {
        ParseResult::Incomplete => SpecParse::Incomplete,
        ParseResult::Malformed => SpecParse::Malformed,
        ParseResult::Complete(req, n) => SpecParse::Complete(req@, n as int),
    }
}

/// Parse one request from the front of `input`, exactly as `spec_parse`
/// describes.
pub fn parse_request(input: &[u8]) -> (r: ParseResult)
    ensures
        presult_of(r) == spec_parse(input@),
{
    let i0 = match skip_lfs_from(input) {
        None => {
            return ParseResult::Incomplete;
        },
        Some(i0) => i0,
    };
    let m1 = match till1_from(input, i0, ScanStop::Space) {
        Step::Incomplete => {
            return ParseResult::Incomplete;
        },
        Step::Fail => {
            return ParseResult::Malformed;
        },
        Step::At(m1) => m1,
    };
    proof {
        lemma_till1_pos(input@, i0 as int, stop_fn(ScanStop::Space));
    }
    let u0 = match till1_from(input, m1, ScanStop::NonSpace) {
        Step::Incomplete => {
            return ParseResult::Incomplete;
        },
        Step::Fail => {
            return ParseResult::Malformed;
        },
        Step::At(u0) => u0,
    };
    proof {
        lemma_till1_pos(input@, m1 as int, stop_fn(ScanStop::NonSpace));
    }
    let u1 = match till1_from(input, u0, ScanStop::Space) {
        Step::Incomplete => {
            return ParseResult::Incomplete;
        },
        Step::Fail => {
            return ParseResult::Malformed;
        },
        Step::At(u1) => u1,
    };
    proof {
        lemma_till1_pos(input@, u0 as int, stop_fn(ScanStop::Space));
    }
    let v0 = match till1_from(input, u1, ScanStop::NonSpace) {
        Step::Incomplete => {
            return ParseResult::Incomplete;
        },
        Step::Fail => {
            return ParseResult::Malformed;
        },
        Step::At(v0) => v0,
    };
    proof {
        lemma_till1_pos(input@, u1 as int, stop_fn(ScanStop::NonSpace));
    }
    let (v1, major, minor) = match version_from(input, v0) {
        VersionResult::Incomplete => {
            return ParseResult::Incomplete;
        },
        VersionResult::Fail => {
            return ParseResult::Malformed;
        },
        VersionResult::Ver(v1, ma, mi) => (v1, ma, mi),
    };
    proof {
        lemma_version_pos(input@, v0 as int);
    }
    let h0 = match lf_from(input, v1) {
        Step::Incomplete => {
            return ParseResult::Incomplete;
        },
        Step::Fail => {
            return ParseResult::Malformed;
        },
        Step::At(h0) => h0,
    };
    proof {
        lemma_lf_pos(input@, v1 as int);
    }
    let mut hm = HeaderMap::new();
    let ghost mut raw: Seq<(Seq<u8>, Seq<u8>)> = Seq::empty();
    let mut i: usize = h0;
    proof {
        assert(raw + headers_at(input@, h0 as int).1 =~= headers_at(input@, h0 as int).1);
        assert(hm@ =~= build_map(raw));
    }
    loop
        invariant
            0 <= i <= input@.len(),
            hm@ == build_map(raw),
            headers_at(input@, h0 as int).0 == headers_at(input@, i as int).0,
            headers_at(input@, h0 as int).1 == raw + headers_at(input@, i as int).1,
        ensures
            i as int == headers_at(input@, h0 as int).0,
            hm@ == build_map(headers_at(input@, h0 as int).1),
        decreases input@.len() - i,
    {
        let ghost pre = raw;
        match header::header_from(input, i) {
            header::HeaderResult::Header { end: j, name, value } => {
                proof {
                    header::lemma_header_at_pos(input@, i as int);
                }
                match lf_from(input, j) {
                    Step::At(k) => {
                        proof {
                            lemma_lf_pos(input@, j as int);
                        }
                        hm.insert(name.as_slice(), value);
                        proof {
                            raw = raw.push((name@, value@));
                            assert(raw.drop_last() =~= pre);
                            assert(raw.last() == (name@, value@));
                            assert(hm@ == build_map(raw));
                            let r2 = headers_at(input@, k as int);
                            assert(headers_at(input@, i as int).1 == seq![(name@, value@)]
                                + r2.1);
                            assert(pre + (seq![(name@, value@)] + r2.1) =~= raw + r2.1);
                        }
                        i = k;
                    },
                    _ => {
                        proof {
                            assert(headers_at(input@, i as int).1 =~= Seq::<(Seq<u8>, Seq<u8>)>::empty());
                            assert(raw + headers_at(input@, i as int).1 =~= raw);
                        }
                        break ;
                    },
                }
            },
            _ => {
                proof {
                    assert(headers_at(input@, i as int).1 =~= Seq::<(Seq<u8>, Seq<u8>)>::empty());
                    assert(raw + headers_at(input@, i as int).1 =~= raw);
                }
                break ;
            },
        }
    }
    let h1 = i;
    let b0 = match lf_from(input, h1) {
        Step::Incomplete => {
            return ParseResult::Incomplete;
        },
        Step::Fail => {
            return ParseResult::Malformed;
        },
        Step::At(b0) => b0,
    };
    proof {
        lemma_lf_pos(input@, h1 as int);
    }
    let cl: Option<ContentLength> = hm.typed_get();
    let method = vstd::slice::slice_to_vec(vstd::slice::slice_subrange(input, i0, m1));
    let uri = vstd::slice::slice_to_vec(vstd::slice::slice_subrange(input, u0, u1));
    let sip_version = Version { major, minor };
    match cl {
        Some(c) => {
            let n = c.0;
            if input.len() - b0 >= n {
                let body = vstd::slice::slice_to_vec(
                    vstd::slice::slice_subrange(input, b0, b0 + n),
                );
                let req = Request { method, uri, sip_version, headers: hm, body };
                ParseResult::Complete(req, b0 + n)
            } else {
                ParseResult::Incomplete
            }
        },
        None => {
            let body = vstd::slice::slice_to_vec(
                vstd::slice::slice_subrange(input, b0, input.len()),
            );
            proof {
                assert(input@.subrange(b0 as int, input@.len() as int) =~= input@.skip(b0 as int));
            }
            let req = Request { method, uri, sip_version, headers: hm, body };
            ParseResult::Complete(req, input.len())
        },
    }
}

} // verus!
