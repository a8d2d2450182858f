//! The max-forwards typed header: a hop-count bound.
use vstd::prelude::*;

use crate::ascii::spec_parse_uint;
use crate::headers::ParseHeader;

verus! {

use vstd::string::StringSliceAdditionalSpecFns;

/// A hop-count bound carried in the `max-forwards` header.
#[derive(Debug, Clone, Copy, PartialEq, Eq, PartialOrd, Ord, Hash)]
pub struct MaxForwards(pub u32);

impl View for MaxForwards {
    type V = u32;

    open spec fn view(&self) -> u32 {
        self.0
    }
}

/// What decoding a max-forwards value yields: the first raw value parsed as a
/// base-10 unsigned integer; none when absent, unparsable or out of range.
pub open spec fn spec_decode_max_forwards(values: Seq<Seq<u8>>) -> Option<u32> {
    if values.len() == 0 {
        None
    } else {
        match spec_parse_uint(values[0]) {
            Some(v) => if v <= u32::MAX {
                Some(v as u32)
            } else {
                None
            },
            None => None,
        }
    }
}

impl ParseHeader for MaxForwards {
    open spec fn spec_aliases() -> Seq<Seq<u8>> {
        seq!["max-forwards".spec_bytes()]
    }

    open spec fn spec_decode(values: Seq<Seq<u8>>) -> Option<u32> {
        spec_decode_max_forwards(values)
    }

    /// Recognised only as `max-forwards`; it has no alias.
    fn header_name() -> (r: Vec<Vec<u8>>) {
        let mut r: Vec<Vec<u8>> = Vec::new();
        r.push(crate::ascii::str_bytes("max-forwards"));
        assert(r@.map_values(|v: Vec<u8>| v@) =~= Self::spec_aliases());
        r
    }

    fn decode(values: &Vec<Vec<u8>>) -> (r: Option<Self>) {
        if values.len() == 0 {
            return None;
        }
        match crate::ascii::parse_uint_up_to(values[0].as_slice(), u32::MAX as u64) {
            Some(v) => Some(MaxForwards(v as u32)),
            None => None,
        }
    }
}

} // verus!
