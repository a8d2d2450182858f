//! The content-length typed header: the byte length of a message body.
use vstd::prelude::*;

use crate::ascii::spec_parse_uint;
use crate::headers::ParseHeader;

verus! {

use vstd::string::StringSliceAdditionalSpecFns;

/// The declared length of a message body, in bytes.
#[derive(Debug, Clone, Copy, PartialEq, Eq, PartialOrd, Ord, Hash)]
pub struct ContentLength(pub usize);

impl View for ContentLength {
    type V = usize;

    open spec fn view(&self) -> usize {
        self.0
    }
}

/// What decoding a content-length value yields: the first raw value parsed as
/// a base-10 unsigned integer; none when absent, unparsable or out of range.
pub open spec fn spec_decode_content_length(values: Seq<Seq<u8>>) -> Option<usize> {
    if values.len() == 0 {
        None
    } else {
        match spec_parse_uint(values[0]) {
            Some(v) => if v <= usize::MAX {
                Some(v as usize)
            } else {
                None
            },
            None => None,
        }
    }
}

/// Content-length lookup is alias-tolerant: the decoder reads the values
/// stored under `content-length` and those stored under its shorthand alias
/// `l`, the canonical name first; together with case-insensitive lookup, a
/// header stored under either name, in any case, reaches the same decoder.
pub proof fn lemma_content_length_alias(m: Seq<(Seq<u8>, Seq<u8>)>)
    ensures
        crate::headers::values_for(m, ContentLength::spec_aliases())
            == crate::headers::map_get_all(m, "content-length".spec_bytes())
            + crate::headers::map_get_all(m, "l".spec_bytes()),
{
    let al = ContentLength::spec_aliases();
    let tail = seq!["l".spec_bytes()];
    assert(al.drop_first() =~= tail);
    assert(tail.drop_first() =~= Seq::<Seq<u8>>::empty());
    assert(crate::headers::values_for(m, Seq::<Seq<u8>>::empty()) =~= Seq::<Seq<u8>>::empty());
    assert(crate::headers::values_for(m, tail) =~= crate::headers::map_get_all(
        m,
        "l".spec_bytes(),
    ));
    assert(crate::headers::values_for(m, al) =~= crate::headers::map_get_all(
        m,
        "content-length".spec_bytes(),
    ) + crate::headers::map_get_all(m, "l".spec_bytes()));
}

impl ParseHeader for ContentLength {
    open spec fn spec_aliases() -> Seq<Seq<u8>> {
        seq!["content-length".spec_bytes(), "l".spec_bytes()]
    }

    open spec fn spec_decode(values: Seq<Seq<u8>>) -> Option<usize> {
        spec_decode_content_length(values)
    }

    /// Recognised as `content-length` and under the shorthand alias `l`.
    fn header_name() -> (r: Vec<Vec<u8>>) {
        let mut r: Vec<Vec<u8>> = Vec::new();
        r.push(crate::ascii::str_bytes("content-length"));
        r.push(crate::ascii::str_bytes("l"));
        assert(r@.map_values(|v: Vec<u8>| v@) =~= Self::spec_aliases());
        r
    }

    fn decode(values: &Vec<Vec<u8>>) -> (r: Option<Self>) {
        if values.len() == 0 {
            return None;
        }
        match crate::ascii::parse_uint_up_to(values[0].as_slice(), usize::MAX as u64) {
            Some(v) => Some(ContentLength(v as usize)),
            None => None,
        }
    }
}

} // verus!
