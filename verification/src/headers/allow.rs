//! The allow typed header: a comma-separated list of method names.
use vstd::prelude::*;

use crate::ascii::{is_text_value, scan, stop_fn, trim, ScanStop};
use crate::headers::ParseHeader;

verus! {

use vstd::string::StringSliceAdditionalSpecFns;

/// The method names a peer is willing to accept, one entry per
/// comma-separated segment of the header value.
#[derive(Debug, Clone, PartialEq, Eq, Hash)]
pub struct Allow(pub Vec<Vec<u8>>);

impl View for Allow {
    type V = Seq<Seq<u8>>;

    open spec fn view(&self) -> Seq<Seq<u8>> {
        self.0@.map_values(|v: Vec<u8>| v@)
    }
}

/// The comma-separated segments of a value, split but not yet trimmed.
pub open spec fn split_commas(v: Seq<u8>) -> Seq<Seq<u8>>
    decreases v.len(),
{
    let c = scan(v, 0, stop_fn(ScanStop::Comma));
    if 0 <= c && c < v.len() {
        seq![v.take(c)] + split_commas(v.skip(c + 1))
    } else {
        seq![v]
    }
}

/// The list a value denotes: its comma-separated segments, each trimmed of
/// surrounding spaces and tabs.
pub open spec fn allow_list(v: Seq<u8>) -> Seq<Seq<u8>> {
    split_commas(v).map_values(|s: Seq<u8>| trim(s))
}

/// What decoding an allow value yields: the trimmed comma-separated segments
/// of the first raw value; none when the header is absent, unreadable as
/// text, or empty.
pub open spec fn spec_decode_allow(values: Seq<Seq<u8>>) -> Option<Seq<Seq<u8>>> {
    if values.len() == 0 || !is_text_value(values[0]) || values[0].len() == 0 {
        None
    } else {
        Some(allow_list(values[0]))
    }
}

impl ParseHeader for Allow {
    open spec fn spec_aliases() -> Seq<Seq<u8>> {
        seq!["allow".spec_bytes()]
    }

    open spec fn spec_decode(values: Seq<Seq<u8>>) -> Option<Seq<Seq<u8>>> {
        spec_decode_allow(values)
    }

    /// Recognised only as `allow`; it has no alias.
    fn header_name() -> (r: Vec<Vec<u8>>) {
        let mut r: Vec<Vec<u8>> = Vec::new();
        r.push(crate::ascii::str_bytes("allow"));
        assert(r@.map_values(|v: Vec<u8>| v@) =~= Self::spec_aliases());
        r
    }

    fn decode(values: &Vec<Vec<u8>>) -> (r: Option<Self>) {
        if values.len() == 0 {
            return None;
        }
        let v = values[0].as_slice();
        if !crate::ascii::text_value(v) || v.len() == 0 {
            return None;
        }
        let mut out: Vec<Vec<u8>> = Vec::new();
        let mut start: usize = 0;
        proof {
            assert(v@.skip(0) =~= v@);
            assert(out@.map_values(|x: Vec<u8>| x@) =~= Seq::<Seq<u8>>::empty());
            assert(Seq::<Seq<u8>>::empty() + allow_list(v@) =~= allow_list(v@));
        }
        loop
            invariant_except_break
                allow_list(v@) == out@.map_values(|x: Vec<u8>| x@) + allow_list(
                    v@.skip(start as int),
                ),
            invariant
                0 <= start <= v@.len(),
            ensures
                out@.map_values(|x: Vec<u8>| x@) == allow_list(v@),
            decreases v@.len() - start,
        {
            let ghost pre = out@.map_values(|x: Vec<u8>| x@);
            let ghost rest = v@.skip(start as int);
            let c = crate::ascii::scan_from(v, start, ScanStop::Comma);
            proof {
                crate::ascii::lemma_scan_skip(v@, start as int, stop_fn(ScanStop::Comma));
                crate::ascii::lemma_scan(v@, start as int, stop_fn(ScanStop::Comma));
                assert(rest.take(c - start) =~= v@.subrange(start as int, c as int));
            }
            let seg = crate::ascii::trim_bytes(vstd::slice::slice_subrange(v, start, c));
            out.push(seg);
            proof {
                assert(out@.map_values(|x: Vec<u8>| x@) =~= pre.push(
                    trim(v@.subrange(start as int, c as int)),
                ));
            }
            if c >= v.len() {
                proof {
                    assert(allow_list(rest) =~= seq![trim(rest)]);
                    assert(rest =~= v@.subrange(start as int, c as int));
                    assert(pre.push(trim(rest)) =~= pre + allow_list(rest));
                }
                break ;
            }
            proof {
                assert(rest.skip(c - start + 1) =~= v@.skip(c + 1));
                assert(allow_list(rest) =~= seq![trim(rest.take(c - start))] + allow_list(
                    v@.skip(c + 1),
                ));
                assert(pre.push(trim(rest.take(c - start))) =~= pre + seq![
                    trim(rest.take(c - start)),
                ]);
            }
            start = c + 1;
        }
        proof {
            assert(values@.map_values(|x: Vec<u8>| x@)[0] == v@);
        }
        Some(Allow(out))
    }
}

} // verus!
