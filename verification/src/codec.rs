//! The incremental framer: drives the grammar parser against a growing byte
//! buffer, consumes exactly one message per successful parse, leaves the
//! buffer untouched when more bytes are needed, and enforces a bound on how
//! large the buffer may grow without yielding a message.
use vstd::prelude::*;

use crate::parser::{parse_request, spec_parse, ParseResult, SpecParse};
use crate::response::{spec_render, Response};
use crate::Message;

verus! {

#[verifier::external_type_specification]
#[verifier::external_body]
pub struct ExBytesMut(bytes::BytesMut);

/// What a byte buffer holds, front to back.
pub uninterp spec fn bytes_view(b: bytes::BytesMut) -> Seq<u8>;

/// Relies on bytes::BytesMut::len: the number of bytes the buffer holds.
#[verifier::external_body]
fn buf_len(b: &bytes::BytesMut) -> (r: usize)
    ensures
        r == bytes_view(*b).len(),
{
    b.len()
}

/// Relies on bytes::BytesMut's Deref to `[u8]`: a slice of the buffer's
/// contents, front to back.
#[verifier::external_body]
fn buf_slice(b: &bytes::BytesMut) -> (r: &[u8])
    ensures
        r@ == bytes_view(*b),
{
    &b[..]
}

/// Relies on bytes::BytesMut::split_to: removes the first `n` bytes from the
/// buffer and keeps the rest; it panics when `n` is past the end, which the
/// precondition rules out.
#[verifier::external_body]
fn buf_split_to(b: &mut bytes::BytesMut, n: usize)
    requires
        n <= bytes_view(*old(b)).len(),
    ensures
        bytes_view(*final(b)) == bytes_view(*old(b)).skip(n as int),
{
    b.split_to(n);
}

/// Relies on bytes::BytesMut::extend_from_slice: appends the given bytes at
/// the back, growing the buffer as needed.
#[verifier::external_body]
fn buf_extend(b: &mut bytes::BytesMut, src: &[u8])
    ensures
        bytes_view(*final(b)) == bytes_view(*old(b)) + src@,
{
    b.extend_from_slice(src);
}

/// A fatal framing error: the connection should be closed.
#[derive(Debug, Clone, Copy, PartialEq, Eq, Structural)]
pub enum DecodeError {
    /// The buffer grew past the configured bound without holding one
    /// complete message.
    Oversized,
}

/// A serialization error.
#[derive(Debug, Clone, Copy, PartialEq, Eq, Structural)]
pub enum EncodeError {
    /// Encoding request messages is unsupported; only responses serialize.
    UnsupportedRequest,
}

/// The incremental framer. One instance serves one connection's buffer:
/// `decode` yields at most one message per call and never touches the buffer
/// until a whole message is present.
#[derive(Copy, Clone, Eq, PartialEq, Debug, Hash)]
pub struct SIPCodec {
    max_size: Option<usize>,
}

impl SIPCodec {
    /// The configured bound on how many bytes may sit buffered without
    /// forming a complete message; `None` means unbounded.
    pub closed spec fn spec_max_size(self) -> Option<usize> {
        self.max_size
    }

    /// A framer with the given buffered-size bound.
    pub fn with_max_size(max_size: Option<usize>) -> (r: Self)
        ensures
            r.spec_max_size() == max_size,
    {
        SIPCodec { max_size }
    }

    /// Whether a buffer of `len` bytes that holds no complete message must
    /// be rejected.
    pub open spec fn spec_over(self, len: nat) -> bool {
        match self.spec_max_size() {
            Some(m) => len > m,
            None => false,
        }
    }

    /// Try to frame one message out of the front of `src`.
    ///
    /// On a complete parse the consumed bytes are dropped from the front and
    /// the message is returned; pipelined leftovers stay buffered. When more
    /// bytes are needed — which, per this design's conservative
    /// classification, includes input the grammar can never accept — the
    /// buffer is left untouched and no message is returned, unless it has
    /// already grown past the configured bound, which is a fatal error.
    pub fn decode(&mut self, src: &mut bytes::BytesMut) -> (r: Result<
        Option<Message>,
        DecodeError,
    >)
        ensures
            *final(self) == *old(self),
            match spec_parse(bytes_view(*old(src))) {
                SpecParse::Complete(req, n) => bytes_view(*final(src)) == bytes_view(
                    *old(src),
                ).skip(n) && (r matches Ok(m) && m matches Some(msg) && msg matches
                    Message::Request(rq) && rq@ == req),
                _ => bytes_view(*final(src)) == bytes_view(*old(src)) && r == (if old(
                    self,
                ).spec_over(bytes_view(*old(src)).len()) {
                    Err::<Option<Message>, DecodeError>(DecodeError::Oversized)
                } else {
                    Ok::<Option<Message>, DecodeError>(None)
                }),
            },
    {
        proof {
            crate::parser::lemma_spec_parse_consumed(bytes_view(*src));
        }
        let outcome = parse_request(buf_slice(src));
        match outcome {
            ParseResult::Complete(req, n) => {
                buf_split_to(src, n);
                Ok(Some(Message::Request(req)))
            },
            _ => {
                match self.max_size {
                    Some(m) => {
                        if buf_len(src) > m {
                            Err(DecodeError::Oversized)
                        } else {
                            Ok(None)
                        }
                    },
                    None => Ok(None),
                }
            },
        }
    }

    /// Serialize one message onto the back of `buf`. Only responses encode;
    /// a request is reported as unsupported and the buffer is untouched.
    pub fn encode(&mut self, item: Message, buf: &mut bytes::BytesMut) -> (r: Result<
        (),
        EncodeError,
    >)
        ensures
            *final(self) == *old(self),
            match item {
                Message::Response(res) => bytes_view(*final(buf)) == bytes_view(*old(buf))
                    + spec_render(res@) && r == Ok::<(), EncodeError>(()),
                Message::Request(_) => bytes_view(*final(buf)) == bytes_view(*old(buf)) && r
                    == Err::<(), EncodeError>(EncodeError::UnsupportedRequest),
            },
    {
        match item {
            Message::Response(res) => {
                let rendered = res.to_bytes();
                buf_extend(buf, rendered.as_slice());
                Ok(())
            },
            Message::Request(_) => Err(EncodeError::UnsupportedRequest),
        }
    }
}

impl Default for SIPCodec {
    /// The default framer allows two million buffered bytes before it
    /// rejects the connection.
    fn default() -> (r: Self)
        ensures
            r.spec_max_size() == Some(2_000_000usize),
    {
        SIPCodec { max_size: Some(2_000_000) }
    }
}

impl Response {
    /// Render this response onto the back of a byte buffer.
    pub fn write_buf(&self, buf: &mut bytes::BytesMut)
        ensures
            bytes_view(*final(buf)) == bytes_view(*old(buf)) + spec_render(self@),
    {
        let rendered = self.to_bytes();
        buf_extend(buf, rendered.as_slice());
    }
}

} // verus!
