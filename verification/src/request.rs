//! The structured request message and the mathematical model the parser's
//! contract speaks of.
use vstd::prelude::*;

use crate::headers::HeaderMap;
use crate::Version;

verus! {

/// A host inside a request target, for later structured parsing of targets;
/// the parser itself keeps the target opaque.
#[derive(Clone, Eq, PartialEq, Debug, Hash)]
pub enum Host {
    V4([u8; 4]),
    V6([u8; 16]),
    Hostname(Vec<u8>),
}

/// A structured request target, reserved for future use; the parser stores
/// targets as opaque bytes.
#[derive(Debug, Clone, PartialEq, Eq, Hash)]
pub struct URI {
    pub user: Option<Vec<u8>>,
    pub password: Option<Vec<u8>>,
    pub host: Host,
    pub port: Option<u16>,
}

/// A parsed request: method, opaque target, protocol version, headers, body.
#[derive(Eq, PartialEq, Clone, Debug)]
pub struct Request {
    pub method: Vec<u8>,
    pub uri: Vec<u8>,
    pub sip_version: Version,
    pub headers: HeaderMap,
    pub body: Vec<u8>,
}

/// The mathematical model of a request: every field as a plain sequence.
pub struct SpecRequest {
    pub method: Seq<u8>,
    pub uri: Seq<u8>,
    pub major: u8,
    pub minor: u8,
    pub headers: Seq<(Seq<u8>, Seq<u8>)>,
    pub body: Seq<u8>,
}

impl View for Request {
    type V = SpecRequest;

    open spec fn view(&self) -> SpecRequest {
        SpecRequest {
            method: self.method@,
            uri: self.uri@,
            major: self.sip_version.major,
            minor: self.sip_version.minor,
            headers: self.headers@,
            body: self.body@,
        }
    }
}

} // verus!
