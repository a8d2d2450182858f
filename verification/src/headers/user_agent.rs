//! The user-agent typed header: the raw value, taken verbatim.
use vstd::prelude::*;

use crate::ascii::is_text_value;
use crate::headers::ParseHeader;

verus! {

use vstd::string::StringSliceAdditionalSpecFns;

/// The software identity carried in the `user-agent` header, kept as the raw
/// value bytes.
#[derive(Debug, Clone, PartialEq, Eq, Hash)]
pub struct UserAgent(pub Vec<u8>);

impl View for UserAgent {
    type V = Seq<u8>;

    open spec fn view(&self) -> Seq<u8> {
        self.0@
    }
}

/// What decoding a user-agent value yields: the first raw value verbatim,
/// provided it is readable as text; none when the header is absent.
pub open spec fn spec_decode_user_agent(values: Seq<Seq<u8>>) -> Option<Seq<u8>> {
    if values.len() > 0 && is_text_value(values[0]) {
        Some(values[0])
    } else {
        None
    }
}

impl ParseHeader for UserAgent {
    open spec fn spec_aliases() -> Seq<Seq<u8>> {
        seq!["user-agent".spec_bytes()]
    }

    open spec fn spec_decode(values: Seq<Seq<u8>>) -> Option<Seq<u8>> {
        spec_decode_user_agent(values)
    }

    /// Recognised only as `user-agent`; it has no alias.
    fn header_name() -> (r: Vec<Vec<u8>>) {
        let mut r: Vec<Vec<u8>> = Vec::new();
        r.push(crate::ascii::str_bytes("user-agent"));
        assert(r@.map_values(|v: Vec<u8>| v@) =~= Self::spec_aliases());
        r
    }

    fn decode(values: &Vec<Vec<u8>>) -> (r: Option<Self>) {
        if values.len() == 0 {
            return None;
        }
        if crate::ascii::text_value(values[0].as_slice()) {
            Some(UserAgent(values[0].clone()))
        } else {
            None
        }
    }
}

} // verus!
