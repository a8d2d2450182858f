//! Byte-level helpers shared by the parser, the header registry and the
//! serializer: character classes, case folding, decimal parsing and rendering.
use vstd::prelude::*;

verus! {

use vstd::string::StringSliceAdditionalSpecFns;

pub const CR: u8 = 13;
pub const LF: u8 = 10;
pub const SP: u8 = 32;
pub const HT: u8 = 9;
pub const COLON: u8 = 58;
pub const COMMA: u8 = 44;
pub const PLUS: u8 = 43;
pub const ZERO: u8 = 48;
pub const DEL: u8 = 127;

/// Whitespace inside a line: space or horizontal tab.
pub open spec fn is_space_b(b: u8) -> bool {
    b == SP || b == HT
}

/// A line-terminator byte: carriage return or line feed.
pub open spec fn is_newline_b(b: u8) -> bool {
    b == CR || b == LF
}

pub open spec fn is_digit_b(b: u8) -> bool {
    ZERO <= b && b <= 57
}

/// ASCII lower-casing of one byte.
pub open spec fn lower_b(b: u8) -> u8 {
    if 65 <= b && b <= 90 {
        (b + 32) as u8
    } else {
        b
    }
}

/// ASCII lower-casing of a byte sequence.
pub open spec fn lower(s: Seq<u8>) -> Seq<u8> {
    s.map_values(|b: u8| lower_b(b))
}

/// Lower-case a byte sequence, as an executable function.
pub fn lower_bytes(s: &[u8]) -> (r: Vec<u8>)
    ensures
        r@ == lower(s@),
{
    let mut out: Vec<u8> = Vec::new();
    let mut i: usize = 0;
    while i < s.len()
        invariant
            0 <= i <= s@.len(),
            out@ == lower(s@.take(i as int)),
        decreases s@.len() - i,
    {
        let b = *vstd::slice::slice_index_get(s, i);
        let lb = if 65 <= b && b <= 90 { b + 32 } else { b };
        out.push(lb);
        assert(lower(s@.take(i + 1)) =~= lower(s@.take(i as int)).push(lower_b(s@[i as int])));
        i = i + 1;
    }
    assert(s@.take(s@.len() as int) =~= s@);
    out
}

/// Byte-for-byte equality of two slices.
pub fn bytes_eq(a: &[u8], b: &[u8]) -> (r: bool)
    ensures
        r <==> a@ == b@,
{
    if a.len() != b.len() {
        assert(a@ != b@);
        return false;
    }
    let mut i: usize = 0;
    while i < a.len()
        invariant
            0 <= i <= a@.len(),
            a@.len() == b@.len(),
            forall|j: int| 0 <= j < i ==> a@[j] == b@[j],
        decreases a@.len() - i,
    {
        if *vstd::slice::slice_index_get(a, i) != *vstd::slice::slice_index_get(b, i) {
            assert(a@ != b@);
            return false;
        }
        i = i + 1;
    }
    assert(a@ =~= b@);
    true
}

/// The number denoted by a sequence of decimal digit bytes.
pub open spec fn dec_val(s: Seq<u8>) -> nat
    decreases s.len(),
{
    if s.len() == 0 {
        0
    } else {
        dec_val(s.drop_last()) * 10 + (if s.last() >= ZERO {
            (s.last() - ZERO) as nat
        } else {
            0
        })
    }
}

pub open spec fn all_digits(s: Seq<u8>) -> bool {
    forall|i: int| 0 <= i < s.len() ==> is_digit_b(s[i])
}

/// The result of parsing a byte sequence as a base-10 unsigned integer, the
/// way the standard library's string-to-unsigned parse does: an optional
/// leading plus sign, then one or more digits, with no bound on the value.
pub open spec fn spec_parse_uint(s: Seq<u8>) -> Option<nat> {
    let d = if s.len() > 0 && s[0] == PLUS {
        s.skip(1)
    } else {
        s
    };
    if d.len() > 0 && all_digits(d) {
        Some(dec_val(d))
    } else {
        None
    }
}

/// Extending a digit string on the right never decreases its value.
proof fn lemma_dec_val_prefix(s: Seq<u8>, k: int)
    requires
        0 <= k <= s.len(),
    ensures
        dec_val(s) >= dec_val(s.take(k)),
    decreases s.len() - k,
{
    if k < s.len() {
        lemma_dec_val_prefix(s, k + 1);
        assert(s.take(k + 1).drop_last() =~= s.take(k));
        assert(dec_val(s.take(k + 1)) >= dec_val(s.take(k)));
    } else {
        assert(s.take(k) =~= s);
    }
}

/// Parse a run of decimal digit bytes as a `u64`; `None` when the run is
/// empty, holds a non-digit, or does not fit.
pub fn parse_digits_u64(s: &[u8]) -> (r: Option<u64>)
    ensures
        match r {
            Some(v) => all_digits(s@) && s@.len() > 0 && dec_val(s@) == v,
            None => s@.len() == 0 || !all_digits(s@) || dec_val(s@) > u64::MAX,
        },
{
    if s.len() == 0 {
        return None;
    }
    let mut acc: u64 = 0;
    let mut i: usize = 0;
    while i < s.len()
        invariant
            0 <= i <= s@.len(),
            all_digits(s@.take(i as int)),
            acc == dec_val(s@.take(i as int)),
        decreases s@.len() - i,
    {
        let b = *vstd::slice::slice_index_get(s, i);
        if b < ZERO || b > 57 {
            assert(!is_digit_b(s@[i as int]));
            return None;
        }
        let d = b - ZERO;
        if acc > (u64::MAX - (d as u64)) / 10 {
            proof {
                assert(s@.take(i + 1).drop_last() =~= s@.take(i as int));
                assert(dec_val(s@.take(i + 1)) == acc * 10 + d);
                assert(acc * 10 + d > u64::MAX);
                lemma_dec_val_prefix(s@, i + 1);
            }
            return None;
        }
        assert(acc * 10 + d <= u64::MAX) by {
            assert(acc <= (u64::MAX - (d as u64)) / 10);
        };
        acc = acc * 10 + (d as u64);
        proof {
            assert(s@.take(i + 1).drop_last() =~= s@.take(i as int));
        }
        i = i + 1;
    }
    assert(s@.take(s@.len() as int) =~= s@);
    Some(acc)
}

/// Parse a byte sequence as a base-10 unsigned integer no larger than `max`,
/// accepting an optional leading plus sign, exactly as `spec_parse_uint`
/// bounded by `max` says.
pub fn parse_uint_up_to(s: &[u8], max: u64) -> (r: Option<u64>)
    ensures
        match r {
            Some(v) => spec_parse_uint(s@) == Some(v as nat) && v <= max,
            None => spec_parse_uint(s@) is None || spec_parse_uint(s@).unwrap() > max,
        },
{
    let d: &[u8] = if s.len() > 0 && *vstd::slice::slice_index_get(s, 0) == PLUS {
        vstd::slice::slice_subrange(s, 1, s.len())
    } else {
        s
    };
    match parse_digits_u64(d) {
        Some(v) => {
            if v <= max {
                Some(v)
            } else {
                None
            }
        },
        None => None,
    }
}

/// Whether a value's bytes are all visible ASCII (or horizontal tab), the
/// precondition for reading a header value as text.
pub open spec fn is_text_value(s: Seq<u8>) -> bool {
    forall|i: int| 0 <= i < s.len() ==> (SP <= #[trigger] s[i] < DEL || s[i] == HT)
}

/// Check that a value's bytes are all visible ASCII or tab.
pub fn text_value(s: &[u8]) -> (r: bool)
    ensures
        r <==> is_text_value(s@),
{
    let mut i: usize = 0;
    while i < s.len()
        invariant
            0 <= i <= s@.len(),
            forall|j: int| 0 <= j < i ==> (SP <= #[trigger] s@[j] < DEL || s@[j] == HT),
        decreases s@.len() - i,
    {
        let b = *vstd::slice::slice_index_get(s, i);
        if !(SP <= b && b < DEL || b == HT) {
            return false;
        }
        i = i + 1;
    }
    true
}

/// The bytes of a string literal, for comparing wire text against the
/// protocol's fixed tokens.
pub fn str_bytes(s: &str) -> (r: Vec<u8>)
    ensures
        r@ == s.spec_bytes(),
{
    vstd::slice::slice_to_vec(s.as_bytes())
}

/// A byte sequence without its leading spaces and tabs.
pub open spec fn trim_start(s: Seq<u8>) -> Seq<u8>
    decreases s.len(),
{
    if s.len() > 0 && is_space_b(s[0]) {
        trim_start(s.drop_first())
    } else {
        s
    }
}

/// A byte sequence without its trailing spaces and tabs.
pub open spec fn trim_end(s: Seq<u8>) -> Seq<u8>
    decreases s.len(),
{
    if s.len() > 0 && is_space_b(s.last()) {
        trim_end(s.drop_last())
    } else {
        s
    }
}

/// A byte sequence without surrounding spaces and tabs.
pub open spec fn trim(s: Seq<u8>) -> Seq<u8> {
    trim_end(trim_start(s))
}

proof fn lemma_trim_start_skip(s: Seq<u8>, a: int)
    requires
        0 <= a <= s.len(),
        forall|j: int| 0 <= j < a ==> is_space_b(#[trigger] s[j]),
        a < s.len() ==> !is_space_b(s[a]),
    ensures
        trim_start(s) == s.skip(a),
    decreases a,
{
    if a == 0 {
        assert(s.skip(0) =~= s);
    } else {
        assert(s.drop_first() =~= s.skip(1));
        lemma_trim_start_skip(s.skip(1), a - 1);
        assert(s.skip(1).skip(a - 1) =~= s.skip(a));
    }
}

proof fn lemma_trim_end_take(s: Seq<u8>, b: int)
    requires
        0 <= b <= s.len(),
        forall|j: int| b <= j < s.len() ==> is_space_b(#[trigger] s[j]),
        b > 0 ==> !is_space_b(s[b - 1]),
    ensures
        trim_end(s) == s.take(b),
    decreases s.len() - b,
{
    if b == s.len() {
        assert(s.take(b) =~= s);
    } else {
        lemma_trim_end_take(s.drop_last(), b);
        assert(s.drop_last().take(b) =~= s.take(b));
    }
}

/// Trim surrounding spaces and tabs from a byte slice.
pub fn trim_bytes(s: &[u8]) -> (r: Vec<u8>)
    ensures
        r@ == trim(s@),
{
    let mut a: usize = 0;
    loop
        invariant
            0 <= a <= s@.len(),
            forall|j: int| 0 <= j < a ==> is_space_b(#[trigger] s@[j]),
        ensures
            0 <= a <= s@.len(),
            forall|j: int| 0 <= j < a ==> is_space_b(#[trigger] s@[j]),
            a < s@.len() ==> !is_space_b(s@[a as int]),
        decreases s@.len() - a,
    {
        if a >= s.len() {
            break ;
        }
        let c = *vstd::slice::slice_index_get(s, a);
        if !(c == SP || c == HT) {
            break ;
        }
        a = a + 1;
    }
    proof {
        lemma_trim_start_skip(s@, a as int);
    }
    let mut b: usize = s.len();
    loop
        invariant
            a <= b <= s@.len(),
            forall|j: int| b <= j < s@.len() ==> is_space_b(#[trigger] s@[j]),
        ensures
            a <= b <= s@.len(),
            forall|j: int| b <= j < s@.len() ==> is_space_b(#[trigger] s@[j]),
            b > a ==> !is_space_b(s@[b - 1]),
        decreases b,
    {
        if b <= a {
            break ;
        }
        let c = *vstd::slice::slice_index_get(s, b - 1);
        if !(c == SP || c == HT) {
            break ;
        }
        b = b - 1;
    }
    proof {
        if b == a {
            assert(forall|j: int| 0 <= j < s@.skip(a as int).len() ==> is_space_b(
                #[trigger] s@.skip(a as int)[j],
            ));
            lemma_trim_end_take(s@.skip(a as int), 0);
        } else {
            assert(s@.skip(a as int)[b - a - 1] == s@[b - 1]);
            assert(!is_space_b(s@.skip(a as int)[b - a - 1]));
            lemma_trim_end_take(s@.skip(a as int), b - a);
        }
        assert(s@.skip(a as int).take(b - a) =~= s@.subrange(a as int, b as int));
    }
    vstd::slice::slice_to_vec(vstd::slice::slice_subrange(s, a, b))
}

/// The first position at or after `i` whose byte satisfies `stop`, or the
/// length of `s` when no byte from `i` on does.
pub open spec fn scan(s: Seq<u8>, i: int, stop: spec_fn(u8) -> bool) -> int
    decreases s.len() - i,
{
    if 0 <= i < s.len() {
        if stop(s[i]) {
            i
        } else {
            scan(s, i + 1, stop)
        }
    } else {
        s.len() as int
    }
}

pub proof fn lemma_scan(s: Seq<u8>, i: int, stop: spec_fn(u8) -> bool)
    requires
        0 <= i <= s.len(),
    ensures
        i <= scan(s, i, stop) <= s.len(),
        forall|j: int| i <= j < scan(s, i, stop) ==> !stop(#[trigger] s[j]),
        scan(s, i, stop) < s.len() ==> stop(s[scan(s, i, stop)]),
    decreases s.len() - i,
{
    if i < s.len() && !stop(s[i]) {
        lemma_scan(s, i + 1, stop);
    }
}

/// Scanning a suffix finds the same position, shifted.
pub proof fn lemma_scan_skip(s: Seq<u8>, i: int, stop: spec_fn(u8) -> bool)
    requires
        0 <= i <= s.len(),
    ensures
        scan(s.skip(i), 0, stop) == scan(s, i, stop) - i,
{
    lemma_scan(s, i, stop);
    lemma_scan(s.skip(i), 0, stop);
    let r = scan(s, i, stop);
    let q = scan(s.skip(i), 0, stop);
    assert(forall|j: int| 0 <= j < s.skip(i).len() ==> s.skip(i)[j] == s[i + j]);
    if q + i < r {
        assert(!stop(s[i + q]));
    }
    if r - i < q {
        assert(!stop(s.skip(i)[r - i]));
    }
}

/// The byte classes the scanners stop at.
pub enum ScanStop {
    Space,
    NonSpace,
    NonDigit,
    ColonOrSpace,
    Newline,
    Comma,
}

pub open spec fn stop_fn(k: ScanStop) -> spec_fn(u8) -> bool {
    match k {
        ScanStop::Space => |b: u8| is_space_b(b),
        ScanStop::NonSpace => |b: u8| !is_space_b(b),
        ScanStop::NonDigit => |b: u8| !is_digit_b(b),
        ScanStop::ColonOrSpace => |b: u8| b == COLON || is_space_b(b),
        ScanStop::Newline => |b: u8| is_newline_b(b),
        ScanStop::Comma => |b: u8| b == COMMA,
    }
}

fn stop_hit(k: &ScanStop, b: u8) -> (r: bool)
    ensures
        r == stop_fn(*k)(b),
{
    match k {
        ScanStop::Space => b == SP || b == HT,
        ScanStop::NonSpace => !(b == SP || b == HT),
        ScanStop::NonDigit => !(ZERO <= b && b <= 57),
        ScanStop::ColonOrSpace => b == COLON || b == SP || b == HT,
        ScanStop::Newline => b == CR || b == LF,
        ScanStop::Comma => b == COMMA,
    }
}

/// Find the first position at or after `i` whose byte is in the class `k`.
pub fn scan_from(s: &[u8], i: usize, k: ScanStop) -> (r: usize)
    requires
        i <= s@.len(),
    ensures
        r == scan(s@, i as int, stop_fn(k)),
{
    let mut j = i;
    loop
        invariant
            i <= j <= s@.len(),
            scan(s@, i as int, stop_fn(k)) == scan(s@, j as int, stop_fn(k)),
        ensures
            j == scan(s@, i as int, stop_fn(k)),
        decreases s@.len() - j,
    {
        if j >= s.len() {
            break ;
        }
        if stop_hit(&k, *vstd::slice::slice_index_get(s, j)) {
            break ;
        }
        j = j + 1;
    }
    j
}

/// The decimal rendering of a number, most significant digit first.
pub open spec fn dec_digits(n: nat) -> Seq<u8>
    decreases n,
{
    if n < 10 {
        seq![(ZERO + n) as u8]
    } else {
        dec_digits(n / 10).push((ZERO + n % 10) as u8)
    }
}

/// Render a number in decimal, as the digits `dec_digits` describes.
pub fn u64_to_dec(n: u64) -> (r: Vec<u8>)
    ensures
        r@ == dec_digits(n as nat),
    decreases n,
{
    if n < 10 {
        let mut out: Vec<u8> = Vec::new();
        out.push(ZERO + (n as u8));
        assert(out@ =~= dec_digits(n as nat));
        out
    } else {
        let mut out = u64_to_dec(n / 10);
        out.push(ZERO + ((n % 10) as u8));
        out
    }
}

} // verus!
