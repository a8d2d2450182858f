//! A verified codec for a text-based session-control protocol: an incremental
//! framer that turns a growing byte buffer into structured request messages,
//! a typed-header decoding layer, and a serializer for response messages.
use vstd::prelude::*;

pub mod ascii;
pub mod codec;
pub mod headers;
pub mod parser;
pub mod request;
pub mod response;

pub use codec::SIPCodec;
pub use request::Request;
pub use response::Response;

verus! {

/// Protocol version, rendered as `major.minor` on the wire.
#[derive(Copy, Clone, Eq, PartialEq, Structural, Debug, Hash)]
pub struct Version {
    pub major: u8,
    pub minor: u8,
}

impl Default for Version {
    /// The default protocol version is 2.0.
    fn default() -> (r: Self)
        ensures
            r.major == 2,
            r.minor == 0,
    {
        Version { major: 2, minor: 0 }
    }
}

/// One protocol message: a parsed request or a response to serialize.
#[derive(Clone, Eq, PartialEq, Debug)]
pub enum Message {
    Request(request::Request),
    Response(response::Response),
}

} // verus!
