//! The response message: construction, the static reason-phrase table, and
//! the serializer that renders a response to wire bytes.
use vstd::prelude::*;

use crate::ascii::{dec_digits, lower, COLON, CR, LF, SP};
use crate::headers::HeaderMap;
use crate::Version;

verus! {

use vstd::string::StringSliceAdditionalSpecFns;

/// The static reason phrase for a status code, when one is known.
pub open spec fn spec_reason(code: u16) -> Option<Seq<char>> {
    match code {
        100 => Some("Trying"@),
        180 => Some("Ringing"@),
        181 => Some("Call is Being Forwarded"@),
        182 => Some("Queued"@),
        183 => Some("Session Progress"@),
        199 => Some("Early Dialog Terminated"@),
        200 => Some("OK"@),
        202 => Some("Accepted"@),
        204 => Some("No Notification"@),
        300 => Some("Multiple Choices"@),
        301 => Some("Moved Permanently"@),
        302 => Some("Moved Temporarily"@),
        305 => Some("Use Proxy"@),
        380 => Some("Alternative Service"@),
        400 => Some("Bad Request"@),
        401 => Some("Unauthorized"@),
        402 => Some("Payment Required"@),
        403 => Some("Forbidden"@),
        404 => Some("Not Found"@),
        405 => Some("Method Not Allowed"@),
        406 => Some("Not Acceptable"@),
        407 => Some("Proxy Authentication Required"@),
        408 => Some("Request Timeout"@),
        409 => Some("Conflict"@),
        410 => Some("Gone"@),
        411 => Some("Length Required"@),
        412 => Some("Conditional Request Failed"@),
        413 => Some("Request Entity Too Large"@),
        414 => Some("Request-URI Too Long"@),
        415 => Some("Unsupported Media Type"@),
        416 => Some("Unsupported URI Scheme"@),
        417 => Some("Unknown Resource-Priority"@),
        420 => Some("Bad Extension"@),
        421 => Some("Extension Required"@),
        422 => Some("Session Interval Too Small"@),
        423 => Some("Interval Too Brief"@),
        424 => Some("Bad Location Information"@),
        428 => Some("Use Identity Header"@),
        429 => Some("Provide Referrer Identity"@),
        433 => Some("Anonymity Disallowed"@),
        436 => Some("Bad Identity-Info"@),
        437 => Some("Unsupported Certificate"@),
        438 => Some("Invalid Identity Header"@),
        439 => Some("First Hop Lacks Outbound Support"@),
        440 => Some("Max-Breadth Exceeded"@),
        469 => Some("Bad Info Package"@),
        470 => Some("Consent Needed"@),
        480 => Some("Temporarily Unavailable"@),
        481 => Some("Call/Transaction Does Not Exist"@),
        482 => Some("Loop Detected"@),
        483 => Some("Too Many Hops"@),
        484 => Some("Address Incomplete"@),
        485 => Some("Ambiguous"@),
        486 => Some("Busy Here"@),
        487 => Some("Request Terminated"@),
        488 => Some("Not Acceptable Here"@),
        489 => Some("Bad Event"@),
        491 => Some("Request Pending"@),
        493 => Some("Undecipherable"@),
        494 => Some("Security Agreement Required"@),
        500 => Some("Server Internal Error"@),
        501 => Some("Not Implemented"@),
        502 => Some("Bad Gateway"@),
        503 => Some("Service Unavailable"@),
        504 => Some("Server Time-out"@),
        505 => Some("Version Not Supported"@),
        513 => Some("Message Too Large"@),
        580 => Some("Precondition Failure"@),
        600 => Some("Busy Everywhere"@),
        603 => Some("Decline"@),
        604 => Some("Does Not Exist Anywhere"@),
        606 => Some("Not Acceptable"@),
        607 => Some("Unwanted"@),
        _ => None,
    }
}

/// The static human-readable reason phrase for a status code; immutable
/// lookup, `None` for a code the table does not know.
pub fn code_str(code: u16) -> (r: Option<&'static str>)
    ensures
        match r {
            Some(t) => spec_reason(code) == Some(t@),
            None => spec_reason(code) is None,
        },
{
    match code {
        100 => Some("Trying"),
        180 => Some("Ringing"),
        181 => Some("Call is Being Forwarded"),
        182 => Some("Queued"),
        183 => Some("Session Progress"),
        199 => Some("Early Dialog Terminated"),
        200 => Some("OK"),
        202 => Some("Accepted"),
        204 => Some("No Notification"),
        300 => Some("Multiple Choices"),
        301 => Some("Moved Permanently"),
        302 => Some("Moved Temporarily"),
        305 => Some("Use Proxy"),
        380 => Some("Alternative Service"),
        400 => Some("Bad Request"),
        401 => Some("Unauthorized"),
        402 => Some("Payment Required"),
        403 => Some("Forbidden"),
        404 => Some("Not Found"),
        405 => Some("Method Not Allowed"),
        406 => Some("Not Acceptable"),
        407 => Some("Proxy Authentication Required"),
        408 => Some("Request Timeout"),
        409 => Some("Conflict"),
        410 => Some("Gone"),
        411 => Some("Length Required"),
        412 => Some("Conditional Request Failed"),
        413 => Some("Request Entity Too Large"),
        414 => Some("Request-URI Too Long"),
        415 => Some("Unsupported Media Type"),
        416 => Some("Unsupported URI Scheme"),
        417 => Some("Unknown Resource-Priority"),
        420 => Some("Bad Extension"),
        421 => Some("Extension Required"),
        422 => Some("Session Interval Too Small"),
        423 => Some("Interval Too Brief"),
        424 => Some("Bad Location Information"),
        428 => Some("Use Identity Header"),
        429 => Some("Provide Referrer Identity"),
        433 => Some("Anonymity Disallowed"),
        436 => Some("Bad Identity-Info"),
        437 => Some("Unsupported Certificate"),
        438 => Some("Invalid Identity Header"),
        439 => Some("First Hop Lacks Outbound Support"),
        440 => Some("Max-Breadth Exceeded"),
        469 => Some("Bad Info Package"),
        470 => Some("Consent Needed"),
        480 => Some("Temporarily Unavailable"),
        481 => Some("Call/Transaction Does Not Exist"),
        482 => Some("Loop Detected"),
        483 => Some("Too Many Hops"),
        484 => Some("Address Incomplete"),
        485 => Some("Ambiguous"),
        486 => Some("Busy Here"),
        487 => Some("Request Terminated"),
        488 => Some("Not Acceptable Here"),
        489 => Some("Bad Event"),
        491 => Some("Request Pending"),
        493 => Some("Undecipherable"),
        494 => Some("Security Agreement Required"),
        500 => Some("Server Internal Error"),
        501 => Some("Not Implemented"),
        502 => Some("Bad Gateway"),
        503 => Some("Service Unavailable"),
        504 => Some("Server Time-out"),
        505 => Some("Version Not Supported"),
        513 => Some("Message Too Large"),
        580 => Some("Precondition Failure"),
        600 => Some("Busy Everywhere"),
        603 => Some("Decline"),
        604 => Some("Does Not Exist Anywhere"),
        606 => Some("Not Acceptable"),
        607 => Some("Unwanted"),
        _ => None,
    }
}

/// A response message: version, status code, headers and body. Built with
/// `new`, filled in by the caller, and rendered once by the serializer.
#[derive(Debug, Clone, PartialEq, Eq)]
pub struct Response {
    pub version: Version,
    pub code: u16,
    pub headers: HeaderMap,
    pub body: Vec<u8>,
}

/// The mathematical model of a response.
pub struct SpecResponse {
    pub major: u8,
    pub minor: u8,
    pub code: u16,
    pub headers: Seq<(Seq<u8>, Seq<u8>)>,
    pub body: Seq<u8>,
}

impl View for Response {
    type V = SpecResponse;

    open spec fn view(&self) -> SpecResponse {
        SpecResponse {
            major: self.version.major,
            minor: self.version.minor,
            code: self.code,
            headers: self.headers@,
            body: self.body@,
        }
    }
}

pub open spec fn crlf() -> Seq<u8> {
    seq![CR, LF]
}

/// The rendered status line: the protocol marker, the version, the status
/// code and, only for a known code, a single space and its reason phrase.
/// An unknown code gets neither phrase nor trailing space.
pub open spec fn spec_status_line(major: u8, minor: u8, code: u16) -> Seq<u8> {
    seq![83u8, 73u8, 80u8, 47u8] + dec_digits(major as nat) + seq![46u8] + dec_digits(minor as nat)
        + seq![SP] + dec_digits(code as nat) + (match spec_reason(code) {
        Some(p) => seq![SP] + vstd::utf8::encode_utf8(p),
        None => Seq::empty(),
    }) + crlf()
}

/// One rendered header line, except that a stored content-length header is
/// skipped entirely: the serializer recomputes it from the body.
pub open spec fn spec_header_line(name: Seq<u8>, value: Seq<u8>) -> Seq<u8> {
    if lower(name) == "content-length".spec_bytes() {
        Seq::empty()
    } else {
        name + seq![COLON, SP] + value + crlf()
    }
}

/// The rendered header section, in map order.
pub open spec fn spec_render_headers(hs: Seq<(Seq<u8>, Seq<u8>)>) -> Seq<u8>
    decreases hs.len(),
{
    if hs.len() == 0 {
        Seq::empty()
    } else {
        spec_render_headers(hs.drop_last()) + spec_header_line(hs.last().0, hs.last().1)
    }
}

/// The freshly computed content-length line: always the exact byte length of
/// the body, whatever the header map stored.
pub open spec fn spec_content_length_line(body_len: nat) -> Seq<u8> {
    "content-length".spec_bytes() + seq![COLON, SP] + dec_digits(body_len) + crlf()
}

/// The full rendering of a response: status line, every header but a stored
/// content-length, the recomputed content-length, an empty line, and the
/// body bytes verbatim.
pub open spec fn spec_render(r: SpecResponse) -> Seq<u8> {
    spec_status_line(r.major, r.minor, r.code) + spec_render_headers(r.headers)
        + spec_content_length_line(r.body.len()) + crlf() + r.body
}

/// An unknown status code renders with no reason phrase and no stray
/// trailing space: the status line is the marker, version, and code digits,
/// directly followed by the line terminator.
pub proof fn lemma_unknown_code_status_line(major: u8, minor: u8, code: u16)
    requires
        spec_reason(code) is None,
    ensures
        spec_status_line(major, minor, code) == seq![83u8, 73u8, 80u8, 47u8] + dec_digits(
            major as nat,
        ) + seq![46u8] + dec_digits(minor as nat) + seq![SP] + dec_digits(code as nat) + crlf(),
{
    assert(spec_status_line(major, minor, code) =~= seq![83u8, 73u8, 80u8, 47u8] + dec_digits(
        major as nat,
    ) + seq![46u8] + dec_digits(minor as nat) + seq![SP] + dec_digits(code as nat) + crlf());
}

/// The header map without any stored content-length entries.
pub open spec fn strip_content_length(hs: Seq<(Seq<u8>, Seq<u8>)>) -> Seq<(Seq<u8>, Seq<u8>)> {
    hs.filter(|e: (Seq<u8>, Seq<u8>)| lower(e.0) != "content-length".spec_bytes())
}

proof fn lemma_render_headers_strip(hs: Seq<(Seq<u8>, Seq<u8>)>)
    ensures
        spec_render_headers(strip_content_length(hs)) == spec_render_headers(hs),
    decreases hs.len(),
{
    reveal(Seq::filter);
    if hs.len() == 0 {
        assert(strip_content_length(hs) =~= hs);
    } else {
        let t = hs.drop_last();
        lemma_render_headers_strip(t);
        let e = hs.last();
        if lower(e.0) != "content-length".spec_bytes() {
            assert(strip_content_length(hs) == strip_content_length(t).push(e));
            assert(strip_content_length(hs).drop_last() =~= strip_content_length(t));
            assert(strip_content_length(hs).last() == e);
        } else {
            assert(strip_content_length(hs) == strip_content_length(t));
            assert(spec_header_line(e.0, e.1) =~= Seq::<u8>::empty());
            assert(spec_render_headers(t) + Seq::<u8>::empty() =~= spec_render_headers(t));
        }
    }
}

/// A stored content-length header never reaches the output: a response
/// renders exactly as it would with every such entry removed, and the
/// emitted content-length line always carries the true body length.
pub proof fn lemma_stored_content_length_ignored(r: SpecResponse)
    ensures
        spec_render(r) == spec_render(
            SpecResponse { headers: strip_content_length(r.headers), ..r },
        ),
{
    lemma_render_headers_strip(r.headers);
}

fn append_bytes(f: &mut Vec<u8>, s: &[u8])
    ensures
        final(f)@ == old(f)@ + s@,
{
    f.extend_from_slice(s);
}

impl Response {
    /// A fresh response with the given status code, the default version, no
    /// headers and an empty body.
    pub fn new(code: u16) -> (r: Self)
        ensures
            r@.major == 2,
            r@.minor == 0,
            r@.code == code,
            r@.headers == Seq::<(Seq<u8>, Seq<u8>)>::empty(),
            r@.body == Seq::<u8>::empty(),
    {
        Response { version: Version::default(), code, headers: HeaderMap::new(), body: Vec::new() }
    }

    /// Render this response onto the end of `f`, exactly as `spec_render`
    /// describes.
    #[verifier::rlimit(50)]
    pub fn write(&self, f: &mut Vec<u8>)
        ensures
            final(f)@ == old(f)@ + spec_render(self@),
    {
        let ghost base = f@;
        f.push(83);
        f.push(73);
        f.push(80);
        f.push(47);
        let major_d = crate::ascii::u64_to_dec(self.version.major as u64);
        append_bytes(f, major_d.as_slice());
        f.push(46);
        let minor_d = crate::ascii::u64_to_dec(self.version.minor as u64);
        append_bytes(f, minor_d.as_slice());
        f.push(SP);
        let code_d = crate::ascii::u64_to_dec(self.code as u64);
        append_bytes(f, code_d.as_slice());
        match code_str(self.code) {
            Some(t) => {
                f.push(SP);
                append_bytes(f, t.as_bytes());
            },
            None => {},
        }
        f.push(CR);
        f.push(LF);
        proof {
            assert(f@ =~= base + spec_status_line(self@.major, self@.minor, self@.code));
        }
        let ghost head = f@;
        let cl_lit = crate::ascii::str_bytes("content-length");
        let mut i: usize = 0;
        while i < self.headers.len()
            invariant
                cl_lit@ == "content-length".spec_bytes(),
                0 <= i <= self@.headers.len(),
                self@.headers.len() == self.headers@.len(),
                f@ == head + spec_render_headers(self@.headers.take(i as int)),
            decreases self@.headers.len() - i,
        {
            let ghost pre = f@;
            let name = self.headers.name_at(i);
            let low = crate::ascii::lower_bytes(name.as_slice());
            if !crate::ascii::bytes_eq(low.as_slice(), cl_lit.as_slice()) {
                append_bytes(f, self.headers.name_at(i).as_slice());
                f.push(COLON);
                f.push(SP);
                append_bytes(f, self.headers.value_at(i).as_slice());
                f.push(CR);
                f.push(LF);
                proof {
                    assert(f@ =~= pre + spec_header_line(
                        self@.headers[i as int].0,
                        self@.headers[i as int].1,
                    ));
                }
            } else {
                proof {
                    assert(f@ =~= pre + spec_header_line(
                        self@.headers[i as int].0,
                        self@.headers[i as int].1,
                    ));
                }
            }
            proof {
                assert(self@.headers.take(i + 1).drop_last() =~= self@.headers.take(i as int));
            }
            i = i + 1;
        }
        proof {
            assert(self@.headers.take(self@.headers.len() as int) =~= self@.headers);
        }
        let ghost mid = f@;
        append_bytes(f, cl_lit.as_slice());
        f.push(COLON);
        f.push(SP);
        let len_d = crate::ascii::u64_to_dec(self.body.len() as u64);
        append_bytes(f, len_d.as_slice());
        f.push(CR);
        f.push(LF);
        f.push(CR);
        f.push(LF);
        append_bytes(f, self.body.as_slice());
        proof {
            assert(f@ =~= mid + spec_content_length_line(self@.body.len()) + crlf() + self@.body);
            assert(f@ =~= base + spec_render(self@));
        }
    }

    /// Render this response into a fresh byte buffer.
    pub fn to_bytes(&self) -> (r: Vec<u8>)
        ensures
            r@ == spec_render(self@),
    {
        let mut out: Vec<u8> = Vec::new();
        self.write(&mut out);
        proof {
            assert(Seq::<u8>::empty() + spec_render(self@) =~= spec_render(self@));
        }
        out
    }
}

} // verus!
