//! Byte-level text helpers: substring search, line splitting, white-space
//! trimming and decimal parsing, following the semantics of the `str`
//! methods they stand for on UTF-8 text.

use vstd::prelude::*;
use vstd::string::StringSliceAdditionalSpecFns;
use vstd::utf8::{
    is_char_boundary, length_of_first_scalar, pop_first_scalar, valid_first_scalar, valid_utf8,
};

verus! {

/// `marker` occurs in `buf` starting at index `i`.
pub open spec fn matches_at(buf: Seq<u8>, marker: Seq<u8>, i: int) -> bool {
    &&& 0 <= i
    &&& i + marker.len() <= buf.len()
    &&& buf.subrange(i, i + marker.len()) == marker
}

/// `i` is the first index at which `marker` occurs in `buf`.
pub open spec fn is_first_match(buf: Seq<u8>, marker: Seq<u8>, i: int) -> bool {
    &&& matches_at(buf, marker, i)
    &&& forall|j: int| 0 <= j < i ==> !matches_at(buf, marker, j)
}

/// The first index at which `marker` occurs in `buf`, if any.
pub open spec fn first_match(buf: Seq<u8>, marker: Seq<u8>) -> Option<int> {
    if exists|i: int| is_first_match(buf, marker, i) {
        Some(choose|i: int| is_first_match(buf, marker, i))
    } else {
        None
    }
}

/// The first match is unique.
pub proof fn lemma_first_match_unique(buf: Seq<u8>, marker: Seq<u8>, i: int)
    requires
        is_first_match(buf, marker, i),
    ensures
        first_match(buf, marker) == Some(i),
{
    let c = choose|c: int| is_first_match(buf, marker, c);
    assert(is_first_match(buf, marker, c));
    if c < i {
        assert(!matches_at(buf, marker, c));
    } else if i < c {
        assert(!matches_at(buf, marker, i));
    }
}

/// No occurrence at all.
pub proof fn lemma_first_match_none(buf: Seq<u8>, marker: Seq<u8>)
    requires
        forall|j: int| !matches_at(buf, marker, j),
    ensures
        first_match(buf, marker) is None,
{
}

/// Whether `marker` occurs at `i` (`i + marker.len() <= buf.len()` is required).
pub fn bytes_match_at(buf: &[u8], marker: &[u8], i: usize) -> (r: bool)
    requires
        i + marker@.len() <= buf@.len(),
    ensures
        r == matches_at(buf@, marker@, i as int),
{
    let m = marker.len();
    let mut k: usize = 0;
    while k < m
        invariant
            i + m <= buf@.len(),
            i + m <= buf.len(),
            m == marker@.len(),
            k <= m,
            forall|t: int| 0 <= t < k ==> buf@[i + t] == marker@[t],
        decreases m - k,
    {
        if buf[i + k] != marker[k] {
            assert(buf@.subrange(i as int, i + m)[k as int] != marker@[k as int]);
            return false;
        }
        k = k + 1;
    }
    assert(buf@.subrange(i as int, i + m) =~= marker@);
    true
}

/// Index of the first occurrence of `marker` in `buffer`.
pub fn find_marker(buffer: &[u8], marker: &[u8]) -> (r: Option<usize>)
    ensures
        match r {
            Some(i) => is_first_match(buffer@, marker@, i as int),
            None => first_match(buffer@, marker@) is None,
        },
        r matches Some(i) ==> first_match(buffer@, marker@) == Some(i as int),
{
    if buffer.len() < marker.len() {
        assert forall|j: int| !matches_at(buffer@, marker@, j) by {}
        return None;
    }
    let last = buffer.len() - marker.len();
    let mut i: usize = 0;
    while i <= last
        invariant
            last + marker@.len() == buffer@.len(),
            i <= last,
            forall|j: int| 0 <= j < i ==> !matches_at(buffer@, marker@, j),
        decreases last - i,
    {
        if bytes_match_at(buffer, marker, i) {
            proof {
                lemma_first_match_unique(buffer@, marker@, i as int);
            }
            return Some(i);
        }
        if i == last {
            assert forall|j: int| !matches_at(buffer@, marker@, j) by {
                if 0 <= j && j < i {
                } else if j == i {
                }
            }
            return None;
        }
        i = i + 1;
    }
    None
}


/// The first occurrence of `marker` in the part of `buf` from `pos` on.
pub fn find_marker_from(buf: &[u8], pos: usize, marker: &[u8]) -> (r: Option<usize>)
    requires
        pos <= buf@.len(),
    ensures
        match r {
            Some(i) => pos <= i && first_match(buf@.skip(pos as int), marker@) == Some(i - pos),
            None => first_match(buf@.skip(pos as int), marker@) is None,
        },
{
    let ghost t = buf@.skip(pos as int);
    let m = marker.len();
    if buf.len() - pos < m {
        assert forall|j: int| !matches_at(t, marker@, j) by {}
        return None;
    }
    let last = buf.len() - m;
    let mut i: usize = pos;
    while i <= last
        invariant
            last + m == buf@.len(),
            m == marker@.len(),
            pos <= i <= last,
            t == buf@.skip(pos as int),
            forall|j: int| 0 <= j < i - pos ==> !matches_at(t, marker@, j),
        decreases last - i,
    {
        let hit = bytes_match_at(buf, marker, i);
        assert(buf@.subrange(i as int, i + m) =~= t.subrange(i - pos, i - pos + m));
        if hit {
            proof {
                lemma_first_match_unique(t, marker@, i - pos);
            }
            return Some(i);
        }
        if i == last {
            assert forall|j: int| !matches_at(t, marker@, j) by {
                if 0 <= j && j < i - pos {
                } else if j == i - pos {
                }
            }
            return None;
        }
        i = i + 1;
    }
    None
}

// ---------------------------------------------------------------------------
// Lines
// ---------------------------------------------------------------------------

/// The line feed byte as a one-byte pattern.
pub open spec fn nl() -> Seq<u8> {
    seq![10u8]
}

/// A line without its terminating carriage return.
pub open spec fn strip_cr(l: Seq<u8>) -> Seq<u8> {
    if l.len() > 0 && l.last() == 13 {
        l.drop_last()
    } else {
        l
    }
}

/// The lines of a text as `str::lines` yields them: split at `\n`, one
/// `\r` before each `\n` dropped, and no empty line after a final `\n`.
pub open spec fn text_lines(s: Seq<u8>) -> Seq<Seq<u8>>
    decreases s.len(),
{
    if s.len() == 0 {
        Seq::empty()
    } else {
        match first_match(s, nl()) {
            Some(k) => if 0 <= k < s.len() {
                seq![strip_cr(s.take(k))] + text_lines(s.skip(k + 1))
            } else {
                seq![s]
            },
            None => seq![s],
        }
    }
}

/// Where the line starting at `pos` ends: the end of its content (without
/// the `\r\n` or `\n`) and the start of the next line, if there is one.
pub fn line_at(s: &[u8], pos: usize) -> (r: (usize, Option<usize>))
    requires
        pos < s@.len(),
    ensures
        pos <= r.0 <= s@.len(),
        text_lines(s@.skip(pos as int)) == seq![s@.subrange(pos as int, r.0 as int)] + match r.1 {
            Some(n) => text_lines(s@.skip(n as int)),
            None => Seq::<Seq<u8>>::empty(),
        },
        r.1 matches Some(n) ==> r.0 < n <= s@.len(),
{
    let ghost t = s@.skip(pos as int);
    let nlb: [u8; 1] = [10u8];
    let found = find_marker_from(s, pos, &nlb);
    assert(nlb@ =~= nl());
    match found {
        Some(i) => {
            proof {
                assert(is_first_match(t, nl(), i - pos));
                assert(matches_at(t, nl(), i - pos));
                assert(t.subrange(i - pos, i - pos + 1)[0] == 10u8);
                assert(t.skip(i - pos + 1) =~= s@.skip(i + 1));
            }
            assert(i < s.len());
            if i > pos && s[i - 1] == 13u8 {
                assert(strip_cr(t.take(i - pos)) =~= s@.subrange(pos as int, i - 1));
                (i - 1, Some(i + 1))
            } else {
                assert(strip_cr(t.take(i - pos)) =~= s@.subrange(pos as int, i as int));
                (i, Some(i + 1))
            }
        },
        None => {
            assert(t =~= s@.subrange(pos as int, s@.len() as int));
            (s.len(), None)
        },
    }
}

// ---------------------------------------------------------------------------
// Prefixes
// ---------------------------------------------------------------------------

/// `s` starts with `p`.
pub open spec fn starts_with(s: Seq<u8>, p: Seq<u8>) -> bool {
    p.len() <= s.len() && s.take(p.len() as int) == p
}

/// ASCII lower-casing of one byte.
pub open spec fn ascii_lower(b: u8) -> u8 {
    if 65 <= b <= 90 {
        (b + 32) as u8
    } else {
        b
    }
}

/// `s` starts with `p` when ASCII letters are compared without case.
pub open spec fn starts_with_ignore_case(s: Seq<u8>, p: Seq<u8>) -> bool {
    &&& p.len() <= s.len()
    &&& forall|i: int| 0 <= i < p.len() ==> ascii_lower(#[trigger] s[i]) == ascii_lower(p[i])
}

/// Whether the part of `s` from `pos` to `end` starts with `p`.
pub fn has_prefix_at(s: &[u8], pos: usize, end: usize, p: &[u8]) -> (r: bool)
    requires
        pos <= end <= s@.len(),
    ensures
        r == starts_with(s@.subrange(pos as int, end as int), p@),
{
    if end - pos < p.len() {
        return false;
    }
    let r = bytes_match_at(s, p, pos);
    assert(s@.subrange(pos as int, end as int).take(p@.len() as int) =~= s@.subrange(
        pos as int,
        pos + p@.len(),
    ));
    r
}

/// Lower-cases one ASCII letter.
pub fn to_ascii_lower(b: u8) -> (r: u8)
    ensures
        r == ascii_lower(b),
{
    if 65 <= b && b <= 90 {
        b + 32
    } else {
        b
    }
}

/// Whether the part of `s` from `pos` to `end` starts with `p`, ignoring
/// ASCII case.
pub fn has_prefix_ignore_case_at(s: &[u8], pos: usize, end: usize, p: &[u8]) -> (r: bool)
    requires
        pos <= end <= s@.len(),
    ensures
        r == starts_with_ignore_case(s@.subrange(pos as int, end as int), p@),
{
    let ghost t = s@.subrange(pos as int, end as int);
    if end - pos < p.len() {
        return false;
    }
    let mut k: usize = 0;
    while k < p.len()
        invariant
            pos + p@.len() <= end <= s@.len(),
            t == s@.subrange(pos as int, end as int),
            k <= p@.len(),
            forall|i: int| 0 <= i < k ==> ascii_lower(#[trigger] t[i]) == ascii_lower(p@[i]),
        decreases p@.len() - k,
    {
        if to_ascii_lower(s[pos + k]) != to_ascii_lower(p[k]) {
            assert(t[k as int] == s@[pos + k]);
            return false;
        }
        assert(t[k as int] == s@[pos + k]);
        k = k + 1;
    }
    true
}

// ---------------------------------------------------------------------------
// White space
// ---------------------------------------------------------------------------

/// ASCII white space as `char::is_whitespace` sees it.
pub open spec fn is_ascii_ws(b: u8) -> bool {
    b == 9 || b == 10 || b == 11 || b == 12 || b == 13 || b == 32
}

/// The three-byte UTF-8 encodings of the white-space characters
/// U+1680, U+2000..=U+200A, U+2028, U+2029, U+202F, U+205F and U+3000.
pub open spec fn is_ws3(a: u8, b: u8, c: u8) -> bool {
    ||| a == 0xE1 && b == 0x9A && c == 0x80
    ||| a == 0xE2 && b == 0x80 && ((0x80 <= c <= 0x8A) || c == 0xA8 || c == 0xA9 || c == 0xAF)
    ||| a == 0xE2 && b == 0x81 && c == 0x9F
    ||| a == 0xE3 && b == 0x80 && c == 0x80
}

/// The two-byte UTF-8 encodings of the white-space characters U+0085 and
/// U+00A0.
pub open spec fn is_ws2(a: u8, b: u8) -> bool {
    a == 0xC2 && (b == 0x85 || b == 0xA0)
}

/// The length of the encoded white-space character that `s` starts with,
/// or 0.
pub open spec fn leading_ws_len(s: Seq<u8>) -> int {
    if s.len() >= 1 && is_ascii_ws(s[0]) {
        1
    } else if s.len() >= 2 && is_ws2(s[0], s[1]) {
        2
    } else if s.len() >= 3 && is_ws3(s[0], s[1], s[2]) {
        3
    } else {
        0
    }
}

/// The length of the encoded white-space character that `s` ends with, or 0.
pub open spec fn trailing_ws_len(s: Seq<u8>) -> int {
    let n = s.len() as int;
    if n >= 1 && is_ascii_ws(s[n - 1]) {
        1
    } else if n >= 2 && is_ws2(s[n - 2], s[n - 1]) {
        2
    } else if n >= 3 && is_ws3(s[n - 3], s[n - 2], s[n - 1]) {
        3
    } else {
        0
    }
}

/// `s` without its leading white space.
pub open spec fn trim_start(s: Seq<u8>) -> Seq<u8>
    decreases s.len(),
{
    let n = leading_ws_len(s);
    if n == 0 {
        s
    } else {
        trim_start(s.skip(n))
    }
}

/// `s` without its trailing white space.
pub open spec fn trim_end(s: Seq<u8>) -> Seq<u8>
    decreases s.len(),
{
    let n = trailing_ws_len(s);
    if n == 0 {
        s
    } else {
        trim_end(s.take(s.len() - n))
    }
}

/// `s` without leading and trailing white space, as `str::trim` gives it.
pub open spec fn trim(s: Seq<u8>) -> Seq<u8> {
    trim_end(trim_start(s))
}

fn leading_ws_len_at(s: &[u8], pos: usize, end: usize) -> (r: usize)
    requires
        pos <= end <= s@.len(),
    ensures
        r == leading_ws_len(s@.subrange(pos as int, end as int)),
{
    let ghost t = s@.subrange(pos as int, end as int);
    let n = end - pos;
    if n >= 1 {
        let a = s[pos];
        assert(t[0] == a);
        if a == 9 || a == 10 || a == 11 || a == 12 || a == 13 || a == 32 {
            return 1;
        }
        if n >= 2 {
            let b = s[pos + 1];
            assert(t[1] == b);
            if a == 0xC2 && (b == 0x85 || b == 0xA0) {
                return 2;
            }
            if n >= 3 {
                let c = s[pos + 2];
                assert(t[2] == c);
                if (a == 0xE1 && b == 0x9A && c == 0x80) || (a == 0xE2 && b == 0x80 && ((0x80
                    <= c && c <= 0x8A) || c == 0xA8 || c == 0xA9 || c == 0xAF)) || (a == 0xE2
                    && b == 0x81 && c == 0x9F) || (a == 0xE3 && b == 0x80 && c == 0x80) {
                    return 3;
                }
            }
        }
    }
    0
}

fn trailing_ws_len_at(s: &[u8], pos: usize, end: usize) -> (r: usize)
    requires
        pos <= end <= s@.len(),
    ensures
        r == trailing_ws_len(s@.subrange(pos as int, end as int)),
        r <= end - pos,
{
    let ghost t = s@.subrange(pos as int, end as int);
    let n = end - pos;
    if n >= 1 {
        let c = s[end - 1];
        assert(t[n - 1] == c);
        if c == 9 || c == 10 || c == 11 || c == 12 || c == 13 || c == 32 {
            return 1;
        }
        if n >= 2 {
            let b = s[end - 2];
            assert(t[n - 2] == b);
            if b == 0xC2 && (c == 0x85 || c == 0xA0) {
                return 2;
            }
            if n >= 3 {
                let a = s[end - 3];
                assert(t[n - 3] == a);
                if (a == 0xE1 && b == 0x9A && c == 0x80) || (a == 0xE2 && b == 0x80 && ((0x80
                    <= c && c <= 0x8A) || c == 0xA8 || c == 0xA9 || c == 0xAF)) || (a == 0xE2
                    && b == 0x81 && c == 0x9F) || (a == 0xE3 && b == 0x80 && c == 0x80) {
                    return 3;
                }
            }
        }
    }
    0
}

/// After an encoded white-space character that starts at a character
/// boundary of valid UTF-8 text comes another character boundary.
proof fn lemma_boundary_after_leading_ws(b: Seq<u8>, i: int, e: int)
    requires
        valid_utf8(b),
        0 <= i <= e <= b.len(),
        is_char_boundary(b, i),
        leading_ws_len(b.subrange(i, e)) > 0,
    ensures
        is_char_boundary(b, i + leading_ws_len(b.subrange(i, e))),
{
    let n = leading_ws_len(b.subrange(i, e));
    let t = b.subrange(i, b.len() as int);
    vstd::utf8::valid_utf8_split(b, i);
    assert(valid_utf8(t));
    assert(b.subrange(i, e)[0] == t[0]);
    assert(n >= 2 ==> b.subrange(i, e)[1] == t[1]);
    assert(n >= 3 ==> b.subrange(i, e)[2] == t[2]);
    assert(t.len() > 0);
    assert(valid_first_scalar(t) && valid_utf8(pop_first_scalar(t)));
    assert(length_of_first_scalar(t) == n);
    if i + n == b.len() {
        vstd::utf8::is_char_boundary_start_end_of_seq(b);
    } else {
        let p = pop_first_scalar(t);
        assert(p.len() > 0);
        assert(valid_first_scalar(p));
        assert(p[0] == b[i + n]);
        vstd::utf8::is_char_boundary_iff_not_is_continuation_byte(b, i + n);
    }
}

/// An encoded white-space character at the end of a stretch of valid UTF-8
/// text starts at a character boundary.
proof fn lemma_boundary_before_trailing_ws(b: Seq<u8>, a: int, e: int)
    requires
        valid_utf8(b),
        0 <= a <= e <= b.len(),
        trailing_ws_len(b.subrange(a, e)) > 0,
    ensures
        is_char_boundary(b, e - trailing_ws_len(b.subrange(a, e))),
{
    let n = trailing_ws_len(b.subrange(a, e));
    let k = e - n;
    assert(b.subrange(a, e)[k - a] == b[k]);
    vstd::utf8::is_char_boundary_iff_not_is_continuation_byte(b, k);
}

/// The bounds of the trimmed part of `s[pos..end]`; in valid UTF-8 text
/// they are character boundaries when `pos` and `end` are.
pub fn trim_bounds(s: &[u8], pos: usize, end: usize) -> (r: (usize, usize))
    requires
        pos <= end <= s@.len(),
    ensures
        pos <= r.0 <= r.1 <= end,
        s@.subrange(r.0 as int, r.1 as int) == trim(s@.subrange(pos as int, end as int)),
        valid_utf8(s@) && is_char_boundary(s@, pos as int) && is_char_boundary(s@, end as int)
            ==> is_char_boundary(s@, r.0 as int) && is_char_boundary(s@, r.1 as int),
{
    let mut a: usize = pos;
    loop
        invariant
            pos <= a <= end <= s@.len(),
            trim_start(s@.subrange(pos as int, end as int)) == trim_start(
                s@.subrange(a as int, end as int),
            ),
            valid_utf8(s@) && is_char_boundary(s@, pos as int) ==> is_char_boundary(
                s@,
                a as int,
            ),
        ensures
            pos <= a <= end,
            trim_start(s@.subrange(pos as int, end as int)) == s@.subrange(a as int, end as int),
            valid_utf8(s@) && is_char_boundary(s@, pos as int) ==> is_char_boundary(
                s@,
                a as int,
            ),
        decreases end - a,
    {
        let n = leading_ws_len_at(s, a, end);
        if n == 0 {
            break;
        }
        proof {
            if valid_utf8(s@) && is_char_boundary(s@, pos as int) {
                lemma_boundary_after_leading_ws(s@, a as int, end as int);
            }
        }
        assert(s@.subrange(a as int, end as int).skip(n as int) =~= s@.subrange(
            a + n,
            end as int,
        ));
        a = a + n;
    }
    let mut b: usize = end;
    loop
        invariant
            pos <= a <= b <= end <= s@.len(),
            trim(s@.subrange(pos as int, end as int)) == trim_end(
                s@.subrange(a as int, b as int),
            ),
            valid_utf8(s@) && is_char_boundary(s@, pos as int) && is_char_boundary(
                s@,
                end as int,
            ) ==> is_char_boundary(s@, a as int) && is_char_boundary(s@, b as int),
        ensures
            pos <= a <= b <= end,
            trim(s@.subrange(pos as int, end as int)) == s@.subrange(a as int, b as int),
            valid_utf8(s@) && is_char_boundary(s@, pos as int) && is_char_boundary(
                s@,
                end as int,
            ) ==> is_char_boundary(s@, a as int) && is_char_boundary(s@, b as int),
        decreases b - a,
    {
        let n = trailing_ws_len_at(s, a, b);
        if n == 0 {
            break;
        }
        proof {
            if valid_utf8(s@) {
                lemma_boundary_before_trailing_ws(s@, a as int, b as int);
            }
        }
        assert(s@.subrange(a as int, b as int).take(b - a - n) =~= s@.subrange(
            a as int,
            b - n,
        ));
        b = b - n;
    }
    (a, b)
}

/// `s` without leading and trailing white space, as `str::trim` gives it.
pub fn trim_str(s: &str) -> (r: &str)
    ensures
        r.spec_bytes() == trim(s.spec_bytes()),
{
    let bytes = s.as_bytes();
    proof {
        vstd::utf8::encode_utf8_valid_utf8(s@);
        vstd::utf8::is_char_boundary_start_end_of_seq(bytes@);
    }
    assert(bytes@.subrange(0, bytes@.len() as int) =~= bytes@);
    let (a, b) = trim_bounds(bytes, 0, bytes.len());
    let (head, _tail) = s.split_at(b);
    proof {
        vstd::utf8::encode_utf8_valid_utf8(head@);
        if a < b {
            vstd::utf8::is_char_boundary_iff_not_is_continuation_byte(bytes@, a as int);
            vstd::utf8::is_char_boundary_iff_not_is_continuation_byte(head.spec_bytes(), a as int);
            assert(head.spec_bytes()[a as int] == bytes@[a as int]);
        } else {
            vstd::utf8::is_char_boundary_start_end_of_seq(head.spec_bytes());
        }
    }
    let (_lead, mid) = head.split_at(a);
    assert(mid.spec_bytes() =~= bytes@.subrange(a as int, b as int));
    mid
}

// ---------------------------------------------------------------------------
// Decimal numbers
// ---------------------------------------------------------------------------

/// An ASCII decimal digit.
pub open spec fn is_digit(b: u8) -> bool {
    48 <= b <= 57
}

/// Every byte of `s` is a decimal digit.
pub open spec fn all_digits(s: Seq<u8>) -> bool {
    forall|i: int| 0 <= i < s.len() ==> is_digit(#[trigger] s[i])
}

/// The value of a string of decimal digits.
pub open spec fn digits_value(s: Seq<u8>) -> nat
    decreases s.len(),
{
    if s.len() == 0 {
        0
    } else {
        digits_value(s.drop_last()) * 10 + (s.last() - 48) as nat
    }
}

/// The digits of an unsigned number: the text after an optional `+`.
pub open spec fn unsigned_digits(s: Seq<u8>) -> Seq<u8> {
    if s.len() > 0 && s[0] == 43 {
        s.skip(1)
    } else {
        s
    }
}

/// `s` parsed as an unsigned integer no greater than `max`, as the
/// `FromStr` impls of Rust's unsigned integer types parse it: an optional
/// `+`, then one or more decimal digits.
pub open spec fn parse_unsigned(s: Seq<u8>, max: nat) -> Option<nat> {
    parse_digits(unsigned_digits(s), max)
}

/// A non-empty string of decimal digits read as a number no greater than
/// `max`.
pub open spec fn parse_digits(d: Seq<u8>, max: nat) -> Option<nat> {
    if d.len() > 0 && all_digits(d) && digits_value(d) <= max {
        Some(digits_value(d))
    } else {
        None
    }
}

/// A longer string of digits has at least the value of its prefix.
pub proof fn lemma_digits_value_monotone(s: Seq<u8>, k: int, j: int)
    requires
        0 <= k <= j <= s.len(),
        all_digits(s),
    ensures
        digits_value(s.take(k)) <= digits_value(s.take(j)),
    decreases j - k,
{
    if k < j {
        lemma_digits_value_monotone(s, k, j - 1);
        assert(s.take(j).drop_last() =~= s.take(j - 1));
    }
}

/// `s[pos..end]` parsed as an unsigned integer no greater than `max`.
pub fn parse_unsigned_at(s: &[u8], pos: usize, end: usize, max: u64) -> (r: Option<u64>)
    requires
        pos <= end <= s@.len(),
    ensures
        match r {
            Some(v) => parse_unsigned(s@.subrange(pos as int, end as int), max as nat) == Some(
                v as nat,
            ),
            None => parse_unsigned(s@.subrange(pos as int, end as int), max as nat) is None,
        },
{
    let ghost t = s@.subrange(pos as int, end as int);
    let mut start: usize = pos;
    if end > pos && s[pos] == 43u8 {
        start = pos + 1;
    }
    assert(unsigned_digits(t) =~= s@.subrange(start as int, end as int));
    parse_digits_at(s, start, end, max)
}

/// `s[start..end]`, digits only, read as a number no greater than `max`.
pub fn parse_digits_at(s: &[u8], start: usize, end: usize, max: u64) -> (r: Option<u64>)
    requires
        start <= end <= s@.len(),
    ensures
        match r {
            Some(v) => parse_digits(s@.subrange(start as int, end as int), max as nat) == Some(
                v as nat,
            ),
            None => parse_digits(s@.subrange(start as int, end as int), max as nat) is None,
        },
{
    let ghost d = s@.subrange(start as int, end as int);
    if start == end {
        return None;
    }
    let mut v: u64 = 0;
    let mut i: usize = start;
    while i < end
        invariant
            start <= i <= end <= s@.len(),
            d == s@.subrange(start as int, end as int),
            v <= max,
            all_digits(d.take(i - start)),
            v as nat == digits_value(d.take(i - start)),
        decreases end - i,
    {
        let c = s[i];
        assert(d[i - start] == c);
        if c < 48 || c > 57 {
            assert(!all_digits(d));
            return None;
        }
        let digit: u64 = (c - 48) as u64;
        assert(d.take(i - start + 1).drop_last() =~= d.take(i - start));
        assert(all_digits(d.take(i - start + 1)));
        if digit > max || v > (max - digit) / 10 {
            proof {
                if digit <= max {
                    assert(v * 10 + digit > max) by (nonlinear_arith)
                        requires
                            v > (max - digit) / 10,
                            digit <= max,
                    ;
                }
                assert(digits_value(d.take(i - start + 1)) > max);
                if all_digits(d) {
                    lemma_digits_value_monotone(d, i - start + 1, d.len() as int);
                    assert(d.take(d.len() as int) =~= d);
                }
            }
            return None;
        }
        assert(v * 10 + digit <= max) by (nonlinear_arith)
            requires
                v <= (max - digit) / 10,
                digit <= max,
        ;
        v = v * 10 + digit;
        i = i + 1;
    }
    assert(d.take(d.len() as int) =~= d);
    Some(v)
}

/// The decimal text of `n`, as `Display` writes an integer.
pub open spec fn decimal_text(n: nat) -> Seq<u8>
    decreases n,
{
    if n < 10 {
        seq![(48 + n) as u8]
    } else {
        decimal_text(n / 10).push((48 + n % 10) as u8)
    }
}

/// Appends the decimal text of `n` to `out`.
pub fn push_decimal(out: &mut Vec<u8>, n: u64)
    ensures
        final(out)@ == old(out)@ + decimal_text(n as nat),
    decreases n,
{
    if n < 10 {
        out.push(48 + n as u8);
        assert(out@ =~= old(out)@ + decimal_text(n as nat));
    } else {
        push_decimal(out, n / 10);
        out.push(48 + (n % 10) as u8);
        assert(out@ =~= old(out)@ + decimal_text(n as nat));
    }
}

/// The decimal text of a signed number, as `Display` writes it: a `-`
/// before the digits of a negative number.
pub open spec fn signed_decimal_text(n: int) -> Seq<u8> {
    if n < 0 {
        seq![45u8] + decimal_text((-n) as nat)
    } else {
        decimal_text(n as nat)
    }
}

/// Appends the decimal text of `n` to `out`.
pub fn push_signed_decimal(out: &mut Vec<u8>, n: i64)
    ensures
        final(out)@ == old(out)@ + signed_decimal_text(n as int),
{
    if n < 0 {
        out.push(45u8);
        let mag: u64 = ((-(n + 1)) as u64) + 1;
        push_decimal(out, mag);
        assert(out@ =~= old(out)@ + signed_decimal_text(n as int));
    } else {
        push_decimal(out, n as u64);
    }
}

/// `s` contains `p`.
pub open spec fn contains(s: Seq<u8>, p: Seq<u8>) -> bool {
    first_match(s, p) is Some
}

/// Whether `s` contains `p`.
pub fn bytes_contain(s: &[u8], p: &[u8]) -> (r: bool)
    ensures
        r == contains(s@, p@),
{
    find_marker(s, p).is_some()
}

/// The part of `s` before its first `b` (all of `s` when there is none),
/// as `str::split(b).next()` gives it.
pub open spec fn before_byte(s: Seq<u8>, b: u8) -> Seq<u8> {
    match first_match(s, seq![b]) {
        Some(k) => s.take(k),
        None => s,
    }
}

/// The pieces of `s` between occurrences of `b`, as `str::split(b)` yields
/// them (an empty `s` gives one empty piece).
pub open spec fn split_by(s: Seq<u8>, b: u8) -> Seq<Seq<u8>>
    decreases s.len(),
{
    match first_match(s, seq![b]) {
        Some(k) => if 0 <= k < s.len() {
            seq![s.take(k)] + split_by(s.skip(k + 1), b)
        } else {
            seq![s]
        },
        None => seq![s],
    }
}

/// The first occurrence of byte `b` in `s[pos..end]`, as an index into `s`.
pub fn find_byte(s: &[u8], pos: usize, end: usize, b: u8) -> (r: Option<usize>)
    requires
        pos <= end <= s@.len(),
    ensures
        match r {
            Some(i) => pos <= i < end && first_match(s@.subrange(pos as int, end as int), seq![b])
                == Some(i - pos),
            None => first_match(s@.subrange(pos as int, end as int), seq![b]) is None,
        },
{
    let ghost t = s@.subrange(pos as int, end as int);
    let mut i: usize = pos;
    while i < end
        invariant
            pos <= i <= end <= s@.len(),
            t == s@.subrange(pos as int, end as int),
            forall|j: int| 0 <= j < i - pos ==> !matches_at(t, seq![b], j),
        decreases end - i,
    {
        assert(t.subrange(i - pos, i - pos + 1) =~= seq![s@[i as int]]);
        if s[i] == b {
            assert(matches_at(t, seq![b], i - pos));
            proof {
                lemma_first_match_unique(t, seq![b], i - pos);
            }
            return Some(i);
        }
        assert(!matches_at(t, seq![b], i - pos)) by {
            if matches_at(t, seq![b], i - pos) {
                assert(t.subrange(i - pos, i - pos + 1)[0] == seq![b][0]);
            }
        }
        i = i + 1;
    }
    assert forall|j: int| !matches_at(t, seq![b], j) by {
        if 0 <= j && j + 1 <= t.len() {
            assert(j < i - pos);
        }
    }
    None
}

/// Whether two byte strings are equal.
pub fn bytes_equal(a: &[u8], b: &[u8]) -> (r: bool)
    ensures
        r == (a@ == b@),
{
    if a.len() != b.len() {
        return false;
    }
    let r = bytes_match_at(a, b, 0);
    assert(a@.subrange(0, b@.len() as int) =~= a@);
    r
}

/// `s` parsed as an `i64` as `i64::from_str` parses it: an optional sign
/// (not alone), then one or more decimal digits, within the type's range.
pub open spec fn parse_i64_spec(s: Seq<u8>) -> Option<int> {
    if s.len() > 1 && s[0] == 45 {
        match parse_digits(s.skip(1), 0x8000_0000_0000_0000) {
            Some(v) => Some(-(v as int)),
            None => None,
        }
    } else if s.len() > 1 && s[0] == 43 {
        match parse_digits(s.skip(1), 0x7FFF_FFFF_FFFF_FFFF) {
            Some(v) => Some(v as int),
            None => None,
        }
    } else {
        match parse_digits(s, 0x7FFF_FFFF_FFFF_FFFF) {
            Some(v) => Some(v as int),
            None => None,
        }
    }
}

/// `s[pos..end]` parsed as an `i64`.
pub fn parse_i64_at(s: &[u8], pos: usize, end: usize) -> (r: Option<i64>)
    requires
        pos <= end <= s@.len(),
    ensures
        match r {
            Some(v) => parse_i64_spec(s@.subrange(pos as int, end as int)) == Some(v as int),
            None => parse_i64_spec(s@.subrange(pos as int, end as int)) is None,
        },
{
    let ghost t = s@.subrange(pos as int, end as int);
    if end - pos > 1 && s[pos] == 45u8 {
        assert(t.skip(1) =~= s@.subrange(pos + 1, end as int));
        match parse_digits_at(s, pos + 1, end, 0x8000_0000_0000_0000u64) {
            Some(v) => {
                if v == 0x8000_0000_0000_0000u64 {
                    Some(i64::MIN)
                } else {
                    Some(-(v as i64))
                }
            },
            None => None,
        }
    } else if end - pos > 1 && s[pos] == 43u8 {
        assert(t.skip(1) =~= s@.subrange(pos + 1, end as int));
        match parse_digits_at(s, pos + 1, end, 0x7FFF_FFFF_FFFF_FFFFu64) {
            Some(v) => Some(v as i64),
            None => None,
        }
    } else {
        match parse_digits_at(s, pos, end, 0x7FFF_FFFF_FFFF_FFFFu64) {
            Some(v) => Some(v as i64),
            None => None,
        }
    }
}

/// The decimal text of a number is a non-empty run of digits that reads
/// back as that number.
pub proof fn lemma_decimal_text_digits(n: nat)
    ensures
        decimal_text(n).len() > 0,
        all_digits(decimal_text(n)),
        digits_value(decimal_text(n)) == n,
    decreases n,
{
    let t = decimal_text(n);
    if n >= 10 {
        lemma_decimal_text_digits(n / 10);
        assert(t.drop_last() =~= decimal_text(n / 10));
        assert(t.last() == (48 + n % 10) as u8);
        assert(n == (n / 10) * 10 + n % 10);
        assert(digits_value(t) == digits_value(t.drop_last()) * 10 + (t.last() - 48) as nat);
    } else {
        assert(t.drop_last() =~= Seq::<u8>::empty());
        assert(digits_value(t.drop_last()) == 0);
        assert(digits_value(t) == digits_value(t.drop_last()) * 10 + (t.last() - 48) as nat);
    }
}

/// Reading back the decimal text of a number gives the number.
pub proof fn lemma_parse_decimal_text(n: nat, max: nat)
    requires
        n <= max,
    ensures
        parse_unsigned(decimal_text(n), max) == Some(n),
{
    lemma_decimal_text_digits(n);
    let t = decimal_text(n);
    assert(t[0] != 43);
}

/// Reading back the decimal text of a signed number in the range of `i64`
/// gives the number.
pub proof fn lemma_parse_signed_decimal_text(n: int)
    requires
        i64::MIN <= n <= i64::MAX,
    ensures
        parse_i64_spec(signed_decimal_text(n)) == Some(n),
{
    if n < 0 {
        let d = decimal_text((-n) as nat);
        lemma_decimal_text_digits((-n) as nat);
        let t = signed_decimal_text(n);
        assert(t.skip(1) =~= d);
        assert(t.len() > 1);
    } else {
        lemma_decimal_text_digits(n as nat);
        let d = decimal_text(n as nat);
        assert(d[0] != 45 && d[0] != 43);
    }
}

} // verus!
