//! One header line: `name [ws] : [ws] value`, the name checked against the
//! token alphabet and stored lower-cased, the value checked for legal bytes.
use vstd::prelude::*;

use crate::ascii::{
    is_digit_b, lower, stop_fn, ScanStop, COLON, DEL, HT, SP,
};
use super::{char_at, opt_ws_at, till0_at, till1_at, SpecStep};

verus! {

/// Whether a byte is a colon.
pub fn is_colon(ch: u8) -> (r: bool)
    ensures
        r == (ch == COLON),
{
    ch == COLON
}

/// The bytes allowed in a header name: letters, digits, and the token
/// punctuation `! # $ % & ' * + - . ^ _ \x60 | ~`.
pub open spec fn valid_name_byte(b: u8) -> bool {
    ||| is_digit_b(b)
    ||| (97 <= b && b <= 122)
    ||| (65 <= b && b <= 90)
    ||| b == 33
    ||| (35 <= b && b <= 39)
    ||| b == 42
    ||| b == 43
    ||| b == 45
    ||| b == 46
    ||| (94 <= b && b <= 96)
    ||| b == 124
    ||| b == 126
}

/// A legal header name: non-empty, all bytes from the token alphabet.
pub open spec fn valid_name(s: Seq<u8>) -> bool {
    s.len() > 0 && forall|i: int| 0 <= i < s.len() ==> valid_name_byte(#[trigger] s[i])
}

/// The bytes allowed in a header value: anything but control characters,
/// except that horizontal tab is allowed.
pub open spec fn valid_value_byte(b: u8) -> bool {
    b == HT || (b >= SP && b != DEL)
}

pub open spec fn valid_value(s: Seq<u8>) -> bool {
    forall|i: int| 0 <= i < s.len() ==> valid_value_byte(#[trigger] s[i])
}

fn name_byte_ok(b: u8) -> (r: bool)
    ensures
        r == valid_name_byte(b),
{
    (48 <= b && b <= 57) || (97 <= b && b <= 122) || (65 <= b && b <= 90) || b == 33 || (35 <= b
        && b <= 39) || b == 42 || b == 43 || b == 45 || b == 46 || (94 <= b && b <= 96) || b == 124
        || b == 126
}

fn check_name(s: &[u8]) -> (r: bool)
    ensures
        r == valid_name(s@),
{
    if s.len() == 0 {
        return false;
    }
    let mut i: usize = 0;
    while i < s.len()
        invariant
            0 <= i <= s@.len(),
            forall|j: int| 0 <= j < i ==> valid_name_byte(#[trigger] s@[j]),
        decreases s@.len() - i,
    {
        if !name_byte_ok(*vstd::slice::slice_index_get(s, i)) {
            return false;
        }
        i = i + 1;
    }
    true
}

fn check_value(s: &[u8]) -> (r: bool)
    ensures
        r == valid_value(s@),
{
    let mut i: usize = 0;
    while i < s.len()
        invariant
            0 <= i <= s@.len(),
            forall|j: int| 0 <= j < i ==> valid_value_byte(#[trigger] s@[j]),
        decreases s@.len() - i,
    {
        let b = *vstd::slice::slice_index_get(s, i);
        if !(b == HT || (b >= SP && b != DEL)) {
            return false;
        }
        i = i + 1;
    }
    true
}

/// The outcome of parsing one header line at position `i`: the position past
/// the value (the line terminator is not consumed), the lower-cased name, and
/// the raw value.
pub enum SpecHeaderStep {
    Incomplete,
    Fail,
    Header(int, Seq<u8>, Seq<u8>),
}

/// Grammar of one header line at position `i` of `s`: a name token up to the
/// first colon or whitespace, optional whitespace, a colon, optional
/// whitespace, then the value up to the next line-terminator byte.
pub open spec fn header_at(s: Seq<u8>, i: int) -> SpecHeaderStep {
    match till1_at(s, i, stop_fn(ScanStop::ColonOrSpace)) {
        SpecStep::Incomplete => SpecHeaderStep::Incomplete,
        SpecStep::Fail => SpecHeaderStep::Fail,
        SpecStep::At(j) => {
            let raw = s.subrange(i, j);
            if !valid_name(raw) {
                SpecHeaderStep::Fail
            } else {
                match opt_ws_at(s, j) {
                    SpecStep::Incomplete => SpecHeaderStep::Incomplete,
                    SpecStep::Fail => SpecHeaderStep::Fail,
                    SpecStep::At(k) => match char_at(s, k, COLON) {
                        SpecStep::Incomplete => SpecHeaderStep::Incomplete,
                        SpecStep::Fail => SpecHeaderStep::Fail,
                        SpecStep::At(p) => match opt_ws_at(s, p) {
                            SpecStep::Incomplete => SpecHeaderStep::Incomplete,
                            SpecStep::Fail => SpecHeaderStep::Fail,
                            SpecStep::At(q) => match till0_at(s, q, stop_fn(ScanStop::Newline)) {
                                SpecStep::Incomplete => SpecHeaderStep::Incomplete,
                                SpecStep::Fail => SpecHeaderStep::Fail,
                                SpecStep::At(r) => {
                                    let value = s.subrange(q, r);
                                    if !valid_value(value) {
                                        SpecHeaderStep::Fail
                                    } else {
                                        SpecHeaderStep::Header(r, lower(raw), value)
                                    }
                                },
                            },
                        },
                    },
                }
            }
        },
    }
}

/// A header line is parsed within `s`: its end lies after its start and
/// within bounds.
pub proof fn lemma_header_at_pos(s: Seq<u8>, i: int)
    requires
        0 <= i <= s.len(),
    ensures
        header_at(s, i) matches SpecHeaderStep::Header(r, n, v) ==> i < r <= s.len(),
{
    super::lemma_till1_pos(s, i, stop_fn(ScanStop::ColonOrSpace));
    match till1_at(s, i, stop_fn(ScanStop::ColonOrSpace)) {
        SpecStep::At(j) => {
            super::lemma_opt_ws_pos(s, j);
            match opt_ws_at(s, j) {
                SpecStep::At(k) => {
                    match char_at(s, k, COLON) {
                        SpecStep::At(p) => {
                            super::lemma_opt_ws_pos(s, p);
                            match opt_ws_at(s, p) {
                                SpecStep::At(q) => {
                                    super::lemma_till0_pos(s, q, stop_fn(ScanStop::Newline));
                                },
                                _ => {},
                            }
                        },
                        _ => {},
                    }
                },
                _ => {},
            }
        },
        _ => {},
    }
}

/// A header line that does not report "incomplete" on a prefix of the
/// buffer parses the same on the whole buffer: it only read bytes the
/// prefix already held.
pub proof fn lemma_header_transfer(s: Seq<u8>, k: int, i: int)
    requires
        0 <= i <= k <= s.len(),
        !(header_at(s.take(k), i) is Incomplete),
    ensures
        header_at(s, i) == header_at(s.take(k), i),
{
    let t = s.take(k);
    match till1_at(t, i, stop_fn(ScanStop::ColonOrSpace)) {
        SpecStep::At(j) => {
            super::lemma_till1_transfer(s, k, i, stop_fn(ScanStop::ColonOrSpace));
            super::lemma_till1_pos(t, i, stop_fn(ScanStop::ColonOrSpace));
            assert(t.subrange(i, j) =~= s.subrange(i, j));
            if valid_name(t.subrange(i, j)) {
                match opt_ws_at(t, j) {
                    SpecStep::At(k0) => {
                        super::lemma_opt_ws_transfer(s, k, j);
                        super::lemma_opt_ws_pos(t, j);
                        match char_at(t, k0, COLON) {
                            SpecStep::At(p) => {
                                super::lemma_char_transfer(s, k, k0, COLON);
                                match opt_ws_at(t, p) {
                                    SpecStep::At(q) => {
                                        super::lemma_opt_ws_transfer(s, k, p);
                                        super::lemma_opt_ws_pos(t, p);
                                        match till0_at(t, q, stop_fn(ScanStop::Newline)) {
                                            SpecStep::At(r) => {
                                                super::lemma_till0_transfer(
                                                    s,
                                                    k,
                                                    q,
                                                    stop_fn(ScanStop::Newline),
                                                );
                                                super::lemma_till0_pos(
                                                    t,
                                                    q,
                                                    stop_fn(ScanStop::Newline),
                                                );
                                                assert(t.subrange(q, r) =~= s.subrange(q, r));
                                            },
                                            SpecStep::Fail => {
                                                super::lemma_till0_transfer(
                                                    s,
                                                    k,
                                                    q,
                                                    stop_fn(ScanStop::Newline),
                                                );
                                            },
                                            SpecStep::Incomplete => {},
                                        }
                                    },
                                    SpecStep::Fail => {
                                        super::lemma_opt_ws_transfer(s, k, p);
                                    },
                                    SpecStep::Incomplete => {},
                                }
                            },
                            SpecStep::Fail => {
                                super::lemma_char_transfer(s, k, k0, COLON);
                            },
                            SpecStep::Incomplete => {},
                        }
                    },
                    SpecStep::Fail => {
                        super::lemma_opt_ws_transfer(s, k, j);
                    },
                    SpecStep::Incomplete => {},
                }
            }
        },
        SpecStep::Fail => {
            super::lemma_till1_transfer(s, k, i, stop_fn(ScanStop::ColonOrSpace));
        },
        SpecStep::Incomplete => {},
    }
}

/// The result of parsing one header line of `input`.
#[derive(Debug, Clone, PartialEq, Eq)]
pub enum HeaderResult {
    Incomplete,
    Fail,
    Header { end: usize, name: Vec<u8>, value: Vec<u8> },
}

/// The model a `HeaderResult` denotes.
pub open spec fn hstep_of(r: HeaderResult) -> SpecHeaderStep {
    match r {
        HeaderResult::Incomplete => SpecHeaderStep::Incomplete,
        HeaderResult::Fail => SpecHeaderStep::Fail,
        HeaderResult::Header { end, name, value } => SpecHeaderStep::Header(
            end as int,
            name@,
            value@,
        ),
    }
}

/// Parse one header line beginning at position `i` of `s`.
pub fn header_from(s: &[u8], i: usize) -> (r: HeaderResult)
    requires
        i <= s@.len(),
    ensures
        hstep_of(r) == header_at(s@, i as int),
{
    let j = match super::till1_from(s, i, ScanStop::ColonOrSpace) {
        super::Step::Incomplete => {
            return HeaderResult::Incomplete;
        },
        super::Step::Fail => {
            return HeaderResult::Fail;
        },
        super::Step::At(j) => j,
    };
    proof {
        super::lemma_till1_pos(s@, i as int, stop_fn(ScanStop::ColonOrSpace));
    }
    let raw = vstd::slice::slice_subrange(s, i, j);
    if !check_name(raw) {
        return HeaderResult::Fail;
    }
    let k = match super::opt_ws_from(s, j) {
        super::Step::Incomplete => {
            return HeaderResult::Incomplete;
        },
        super::Step::Fail => {
            return HeaderResult::Fail;
        },
        super::Step::At(k) => k,
    };
    proof {
        super::lemma_opt_ws_pos(s@, j as int);
    }
    let p = match super::char_from(s, k, COLON) {
        super::Step::Incomplete => {
            return HeaderResult::Incomplete;
        },
        super::Step::Fail => {
            return HeaderResult::Fail;
        },
        super::Step::At(p) => p,
    };
    let q = match super::opt_ws_from(s, p) {
        super::Step::Incomplete => {
            return HeaderResult::Incomplete;
        },
        super::Step::Fail => {
            return HeaderResult::Fail;
        },
        super::Step::At(q) => q,
    };
    proof {
        super::lemma_opt_ws_pos(s@, p as int);
    }
    let r = match super::till0_from(s, q, ScanStop::Newline) {
        super::Step::Incomplete => {
            return HeaderResult::Incomplete;
        },
        super::Step::Fail => {
            return HeaderResult::Fail;
        },
        super::Step::At(r) => r,
    };
    proof {
        super::lemma_till0_pos(s@, q as int, stop_fn(ScanStop::Newline));
    }
    let value = vstd::slice::slice_subrange(s, q, r);
    if !check_value(value) {
        return HeaderResult::Fail;
    }
    HeaderResult::Header { end: r, name: crate::ascii::lower_bytes(raw), value: vstd::slice::slice_to_vec(value) }
}

/// Parse one header line at the start of `input`; on success `end` is the
/// number of bytes consumed (the line terminator is left unconsumed).
pub fn header(input: &[u8]) -> (r: HeaderResult)
    ensures
        hstep_of(r) == header_at(input@, 0),
{
    header_from(input, 0)
}

} // verus!
