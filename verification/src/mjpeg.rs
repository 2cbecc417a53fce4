//! Extraction of JPEG frames from an MJPEG-over-HTTP byte stream.
//!
//! The stream is a sequence of parts, each a block of header lines ended by
//! an empty line, followed by a JPEG image. A part whose header carries a
//! `Content-Length` is cut by that length; one without is cut at the JPEG
//! end-of-image marker.

use vstd::prelude::*;
use crate::text::{
    all_digits, decimal_text, find_marker, find_marker_from, first_match, has_prefix_at,
    is_digit, is_first_match, leading_ws_len, lemma_decimal_text_digits, lemma_first_match_none,
    lemma_first_match_unique, lemma_parse_decimal_text, line_at, matches_at, nl, parse_unsigned,
    parse_unsigned_at, starts_with, strip_cr, text_lines, trailing_ws_len, trim, trim_bounds,
    trim_end, trim_start,
};

verus! {

/// `\r\n\r\n`: the end of a part's header block.
pub open spec fn header_terminator() -> Seq<u8> {
    seq![13u8, 10u8, 13u8, 10u8]
}

/// The JPEG start-of-image marker.
pub open spec fn soi_marker() -> Seq<u8> {
    seq![0xFFu8, 0xD8u8]
}

/// The JPEG end-of-image marker.
pub open spec fn eoi_marker() -> Seq<u8> {
    seq![0xFFu8, 0xD9u8]
}

/// `Content-Length: `, the header key (with its separator) that sizes a part.
pub open spec fn content_length_key() -> Seq<u8> {
    seq![67u8, 111, 110, 116, 101, 110, 116, 45, 76, 101, 110, 103, 116, 104, 58, 32]
}

/// `i` is the first line of `ls` that starts with `p`.
pub open spec fn is_first_line_with_prefix(ls: Seq<Seq<u8>>, p: Seq<u8>, i: int) -> bool {
    &&& 0 <= i < ls.len()
    &&& starts_with(ls[i], p)
    &&& forall|j: int| 0 <= j < i ==> !starts_with(#[trigger] ls[j], p)
}

/// The content length a part header declares: the text after the key on the
/// first line that starts with `Content-Length: `, trimmed and read as a
/// `usize`. A header with no such line, or whose first such line does not
/// hold a number, declares none.
pub open spec fn header_content_length(header: Seq<u8>) -> Option<nat> {
    let ls = text_lines(header);
    let key = content_length_key();
    if exists|i: int| is_first_line_with_prefix(ls, key, i) {
        let i = choose|i: int| is_first_line_with_prefix(ls, key, i);
        parse_unsigned(trim(ls[i].skip(key.len() as int)), usize::MAX as nat)
    } else {
        None
    }
}

/// What the MJPEG reader does with the bytes buffered so far: the buffer it
/// leaves behind and the frame it delivers, if the buffer holds a complete
/// one. Parts whose declared payload holds no start-of-image marker, and
/// parts without a declared length and without a start-of-image marker, are
/// discarded and the search goes on after them.
pub open spec fn mjpeg_poll(buf: Seq<u8>) -> (Seq<u8>, Option<Seq<u8>>)
    decreases buf.len(),
{
    match first_match(buf, header_terminator()) {
        None => (buf, None),
        Some(header_end) => {
            let payload_start = header_end + 4;
            match header_content_length(buf.take(header_end)) {
                Some(len) => {
                    let frame_end = payload_start + len;
                    if buf.len() < frame_end {
                        (buf, None)
                    } else {
                        match first_match(buf.subrange(payload_start, frame_end), soi_marker()) {
                            Some(soi) => (
                                buf.skip(frame_end),
                                Some(buf.subrange(payload_start + soi, frame_end)),
                            ),
                            None => mjpeg_poll(buf.skip(frame_end)),
                        }
                    }
                },
                None => {
                    match first_match(buf.skip(payload_start), soi_marker()) {
                        Some(soi) => {
                            let start = payload_start + soi;
                            match first_match(buf.skip(start), eoi_marker()) {
                                Some(eoi) => {
                                    let end = start + eoi + 2;
                                    (buf.skip(end), Some(buf.subrange(start, end)))
                                },
                                None => (buf, None),
                            }
                        },
                        None => mjpeg_poll(buf.skip(payload_start)),
                    }
                },
            }
        },
    }
}

fn content_length_key_bytes() -> (r: [u8; 16])
    ensures
        r@ == content_length_key(),
{
    let r: [u8; 16] = [67, 111, 110, 116, 101, 110, 116, 45, 76, 101, 110, 103, 116, 104, 58, 32];
    assert(r@ =~= content_length_key());
    r
}

/// The content length declared by the header block `buf[..header_end]`.
pub fn parse_content_length(buf: &[u8], header_end: usize) -> (r: Option<usize>)
    requires
        header_end <= buf@.len(),
    ensures
        match r {
            Some(n) => header_content_length(buf@.take(header_end as int)) == Some(n as nat),
            None => header_content_length(buf@.take(header_end as int)) is None,
        },
{
    let header = &buf[0..header_end];
    let key = content_length_key_bytes();
    let ghost ls = text_lines(header@);
    assert(header@ =~= buf@.take(header_end as int));
    assert(header@.skip(0) =~= header@);
    assert(content_length_key().len() == 16);
    let mut pos: usize = 0;
    let ghost mut seen: Seq<Seq<u8>> = Seq::empty();
    while pos < header.len()
        invariant
            pos <= header@.len(),
            header@ == buf@.take(header_end as int),
            content_length_key().len() == 16,
            ls == text_lines(header@),
            ls == seen + text_lines(header@.skip(pos as int)),
            key@ == content_length_key(),
            forall|j: int| 0 <= j < seen.len() ==> !starts_with(#[trigger] seen[j], key@),
        decreases header@.len() - pos,
    {
        let (end, next) = line_at(header, pos);
        let ghost line = header@.subrange(pos as int, end as int);
        if has_prefix_at(header, pos, end, &key) {
            let (a, b) = trim_bounds(header, pos + 16, end);
            proof {
                let i = seen.len() as int;
                assert(ls[i] == line);
                assert(is_first_line_with_prefix(ls, key@, i));
                let c = choose|c: int| is_first_line_with_prefix(ls, key@, c);
                if c < i {
                    assert(!starts_with(seen[c], key@));
                } else if i < c {
                }
                assert(c == i);
                assert(line.skip(16) =~= header@.subrange(pos + 16, end as int));
            }
            let v = parse_unsigned_at(header, a, b, usize::MAX as u64);
            return match v {
                Some(n) => Some(n as usize),
                None => None,
            };
        }
        proof {
            seen = seen.push(line);
            assert(ls == seen + match next {
                Some(n) => text_lines(header@.skip(n as int)),
                None => Seq::<Seq<u8>>::empty(),
            });
        }
        match next {
            Some(n) => {
                pos = n;
            },
            None => {
                assert(header@.skip(header@.len() as int) =~= Seq::<u8>::empty());
                pos = header.len();
            },
        }
    }
    proof {
        assert(header@.skip(pos as int) =~= Seq::<u8>::empty());
        assert(ls == seen);
        assert(!exists|i: int| is_first_line_with_prefix(ls, content_length_key(), i));
    }
    None
}

/// Takes the bytes `buffer[start..end]` out as a frame and leaves
/// `buffer[end..]` behind.
fn cut_frame(buffer: &mut Vec<u8>, start: usize, end: usize) -> (r: Vec<u8>)
    requires
        start <= end <= old(buffer)@.len(),
    ensures
        r@ == old(buffer)@.subrange(start as int, end as int),
        final(buffer)@ == old(buffer)@.skip(end as int),
{
    let tail = buffer.split_off(end);
    let frame = buffer.split_off(start);
    *buffer = tail;
    frame
}

/// Drops the first `n` bytes of `buffer`.
fn discard_front(buffer: &mut Vec<u8>, n: usize)
    requires
        n <= old(buffer)@.len(),
    ensures
        final(buffer)@ == old(buffer)@.skip(n as int),
{
    let tail = buffer.split_off(n);
    *buffer = tail;
}

/// Takes the next complete JPEG frame out of the bytes buffered from an
/// MJPEG stream. Returns `None`, leaving the (possibly shortened) buffer for
/// more bytes to be appended, when the buffer holds no complete frame yet.
pub fn read_next_jpeg(buffer: &mut Vec<u8>) -> (r: Option<Vec<u8>>)
    ensures
        (final(buffer)@, match r {
            Some(v) => Some(v@),
            None => None,
        }) == mjpeg_poll(old(buffer)@),
{
    let hdr: [u8; 4] = [13, 10, 13, 10];
    let soi: [u8; 2] = [0xFF, 0xD8];
    let eoi: [u8; 2] = [0xFF, 0xD9];
    assert(hdr@ =~= header_terminator());
    assert(soi@ =~= soi_marker());
    assert(eoi@ =~= eoi_marker());
    loop
        invariant
            mjpeg_poll(old(buffer)@) == mjpeg_poll(buffer@),
            hdr@ == header_terminator(),
            soi@ == soi_marker(),
            eoi@ == eoi_marker(),
        decreases buffer@.len(),
    {
        let ghost b = buffer@;
        let header_end = match find_marker(buffer.as_slice(), &hdr) {
            Some(p) => p,
            None => {
                return None;
            },
        };
        assert(matches_at(b, header_terminator(), header_end as int));
        assert(header_terminator().len() == 4);
        assert(header_end + 4 <= buffer.len());
        let payload_start = header_end + 4;
        match parse_content_length(buffer.as_slice(), header_end) {
            Some(len) => {
                if buffer.len() - payload_start < len {
                    return None;
                }
                let frame_end = payload_start + len;
                let slice = &buffer.as_slice()[payload_start..frame_end];
                match find_marker(slice, &soi) {
                    Some(o) => {
                        let jpeg = cut_frame(buffer, payload_start + o, frame_end);
                        return Some(jpeg);
                    },
                    None => {
                        discard_front(buffer, frame_end);
                    },
                }
            },
            None => {
                match find_marker_from(buffer.as_slice(), payload_start, &soi) {
                    Some(start) => {
                        match find_marker_from(buffer.as_slice(), start, &eoi) {
                            Some(e) => {
                                let ghost t = b.skip(start as int);
                                assert(matches_at(t, eoi_marker(), e - start));
                                assert(eoi_marker().len() == 2);
                                assert(e + 2 <= buffer.len());
                                let jpeg = cut_frame(buffer, start, e + 2);
                                return Some(jpeg);
                            },
                            None => {
                                return None;
                            },
                        }
                    },
                    None => {
                        discard_front(buffer, payload_start);
                    },
                }
            },
        }
    }
}

/// The reader only ever consumes the buffer from the front, and a frame it
/// delivers is the stretch of the buffer just before what it leaves
/// behind, starting with the start-of-image marker.
#[verifier::rlimit(40)]
pub proof fn lemma_mjpeg_poll_takes_from_front(buf: Seq<u8>)
    ensures
        ({
            let (rest, frame) = mjpeg_poll(buf);
            exists|k: int|
                #![trigger buf.skip(k)]
                0 <= k <= buf.len() && rest == buf.skip(k) && (frame matches Some(f) ==> exists|
                    a: int,
                | #![trigger buf.subrange(a, k)]
                0 <= a <= k && f == buf.subrange(a, k) && starts_with(f, soi_marker()))
        }),
    decreases buf.len(),
{
    assert(buf.skip(0) =~= buf);
    match first_match(buf, header_terminator()) {
        None => {},
        Some(header_end) => {
            assert(is_first_match(buf, header_terminator(), header_end));
            let payload_start = header_end + 4;
            match header_content_length(buf.take(header_end)) {
                Some(len) => {
                    let frame_end = payload_start + len;
                    if buf.len() < frame_end {
                    } else {
                        let p = buf.subrange(payload_start, frame_end);
                        match first_match(p, soi_marker()) {
                            Some(soi) => {
                                assert(is_first_match(p, soi_marker(), soi));
                                let f = buf.subrange(payload_start + soi, frame_end);
                                assert(f.take(2) =~= p.subrange(soi, soi + 2));
                            },
                            None => {
                                let tail = buf.skip(frame_end);
                                lemma_mjpeg_poll_takes_from_front(tail);
                                let (rest, frame) = mjpeg_poll(tail);
                                let k = choose|k: int|
                                    #![trigger tail.skip(k)]
                                    0 <= k <= tail.len() && rest == tail.skip(k) && (frame matches Some(
                                        f,
                                    ) ==> exists|a: int|
                                        #![trigger tail.subrange(a, k)]
                                        0 <= a <= k && f == tail.subrange(a, k) && starts_with(
                                            f,
                                            soi_marker(),
                                        ));
                                assert(tail.skip(k) =~= buf.skip(frame_end + k));
                                if let Some(f) = frame {
                                    let a = choose|a: int|
                                        #![trigger tail.subrange(a, k)]
                                        0 <= a <= k && f == tail.subrange(a, k) && starts_with(
                                            f,
                                            soi_marker(),
                                        );
                                    assert(tail.subrange(a, k) =~= buf.subrange(
                                        frame_end + a,
                                        frame_end + k,
                                    ));
                                }
                            },
                        }
                    }
                },
                None => {
                    let after = buf.skip(payload_start);
                    match first_match(after, soi_marker()) {
                        Some(soi) => {
                            assert(is_first_match(after, soi_marker(), soi));
                            let start = payload_start + soi;
                            let from = buf.skip(start);
                            match first_match(from, eoi_marker()) {
                                Some(eoi) => {
                                    assert(is_first_match(from, eoi_marker(), eoi));
                                    let end = start + eoi + 2;
                                    let f = buf.subrange(start, end);
                                    assert(f.take(2) =~= after.subrange(soi, soi + 2));
                                },
                                None => {},
                            }
                        },
                        None => {
                            let tail = buf.skip(payload_start);
                            lemma_mjpeg_poll_takes_from_front(tail);
                            let (rest, frame) = mjpeg_poll(tail);
                            let k = choose|k: int|
                                #![trigger tail.skip(k)]
                                0 <= k <= tail.len() && rest == tail.skip(k) && (frame matches Some(
                                    f,
                                ) ==> exists|a: int|
                                    #![trigger tail.subrange(a, k)]
                                    0 <= a <= k && f == tail.subrange(a, k) && starts_with(
                                        f,
                                        soi_marker(),
                                    ));
                            assert(tail.skip(k) =~= buf.skip(payload_start + k));
                            if let Some(f) = frame {
                                let a = choose|a: int|
                                    #![trigger tail.subrange(a, k)]
                                    0 <= a <= k && f == tail.subrange(a, k) && starts_with(
                                        f,
                                        soi_marker(),
                                    );
                                assert(tail.subrange(a, k) =~= buf.subrange(
                                    payload_start + a,
                                    payload_start + k,
                                ));
                            }
                        },
                    }
                },
            }
        },
    }
}

// ---------------------------------------------------------------------------
// Reading back a part
// ---------------------------------------------------------------------------

/// A line break, `\r\n`.
pub open spec fn crlf() -> Seq<u8> {
    seq![13u8, 10u8]
}

/// Neither `\r` nor `\n` occurs in `s`.
pub open spec fn is_single_line(s: Seq<u8>) -> bool {
    forall|i: int| 0 <= i < s.len() ==> s[i] != 13 && s[i] != 10
}

/// One part of an MJPEG stream as a server writes it: a boundary line, a
/// content-type line, the `Content-Length` line, an empty line, and the
/// JPEG image.
pub open spec fn mjpeg_part(boundary: Seq<u8>, content_type: Seq<u8>, jpeg: Seq<u8>) -> Seq<u8> {
    boundary + crlf() + content_type + crlf() + content_length_key() + decimal_text(jpeg.len())
        + header_terminator() + jpeg
}

/// The lines of a text that opens with a line ended by `\r\n`.
proof fn lemma_lines_after_crlf(a: Seq<u8>, b: Seq<u8>)
    requires
        is_single_line(a),
    ensures
        text_lines(a + crlf() + b) == seq![a] + text_lines(b),
{
    let s = a + crlf() + b;
    let k = a.len() as int + 1;
    assert(s.subrange(k, k + 1) =~= nl());
    assert forall|j: int| 0 <= j < k implies !matches_at(s, nl(), j) by {
        assert(s.subrange(j, j + 1)[0] == s[j]);
        if j < a.len() {
            assert(s[j] == a[j]);
        }
    }
    lemma_first_match_unique(s, nl(), k);
    assert(s.take(k) =~= a.push(13));
    assert(strip_cr(a.push(13)) =~= a);
    assert(s.skip(k + 1) =~= b);
}

/// A non-empty text without a line break is one line.
proof fn lemma_single_line(a: Seq<u8>)
    requires
        is_single_line(a),
        a.len() > 0,
    ensures
        text_lines(a) == seq![a],
{
    assert forall|j: int| !matches_at(a, nl(), j) by {
        if 0 <= j < a.len() {
            assert(a.subrange(j, j + 1)[0] == a[j]);
        }
    }
    lemma_first_match_none(a, nl());
}

/// Trimming leaves a run of digits as it is.
proof fn lemma_trim_digits(d: Seq<u8>)
    requires
        d.len() > 0,
        all_digits(d),
    ensures
        trim(d) == d,
{
    assert(is_digit(d[0]));
    assert(is_digit(d[d.len() - 1]));
    assert(leading_ws_len(d) == 0);
    assert(trim_start(d) == d);
    assert(trailing_ws_len(d) == 0);
    assert(trim_end(d) == d);
}

/// The header block of a part ends at the empty line right after the
/// length digits.
proof fn lemma_part_header_end(head: Seq<u8>, tail: Seq<u8>, nb: int, nt: int, d: Seq<u8>)
    requires
        0 <= nb,
        0 < nt,
        head.len() == nb + 2 + nt + 2 + 16 + d.len(),
        forall|j: int| 0 <= j < nb ==> head[j] != 13,
        head[nb] == 13,
        head[nb + 1] == 10,
        forall|j: int| nb + 2 <= j < nb + 2 + nt ==> head[j] != 13,
        head[nb + 2] != 13,
        head[nb + 2 + nt] == 13,
        head[nb + 3 + nt] == 10,
        head[nb + 4 + nt] == 67,
        forall|j: int| nb + 4 + nt <= j < nb + 4 + nt + 16 ==> head[j] != 13,
        forall|j: int| nb + 4 + nt + 16 <= j < head.len() ==> head[j] != 13,
    ensures
        first_match(head + header_terminator() + tail, header_terminator()) == Some(head.len() as int),
{
    let buf = head + header_terminator() + tail;
    let h = head.len() as int;
    assert(buf.subrange(h, h + 4) =~= header_terminator());
    assert forall|j: int| 0 <= j < h implies !matches_at(buf, header_terminator(), j) by {
        if j + 4 <= buf.len() {
            let w = buf.subrange(j, j + 4);
            assert(w[0] == buf[j] && w[1] == buf[j + 1] && w[2] == buf[j + 2]);
            assert(buf[j] == head[j]);
            if j == nb {
                assert(buf[j + 2] == head[nb + 2]);
            } else if j == nb + 2 + nt {
                assert(buf[j + 2] == head[nb + 4 + nt]);
            }
        }
    }
    lemma_first_match_unique(buf, header_terminator(), h);
}

/// The `Content-Length` value the header block of a part declares.
proof fn lemma_part_header_length(boundary: Seq<u8>, content_type: Seq<u8>, n: nat)
    requires
        is_single_line(boundary),
        is_single_line(content_type),
        !starts_with(boundary, content_length_key()),
        !starts_with(content_type, content_length_key()),
        n <= usize::MAX,
    ensures
        header_content_length(
            boundary + crlf() + (content_type + crlf() + (content_length_key() + decimal_text(n))),
        ) == Some(n),
{
    let d = decimal_text(n);
    lemma_decimal_text_digits(n);
    let key = content_length_key();
    let kd = key + d;
    let x = content_type + crlf() + kd;
    let head = boundary + crlf() + x;
    assert(is_single_line(kd)) by {
        assert forall|i: int| 0 <= i < kd.len() implies kd[i] != 13 && kd[i] != 10 by {
            if i >= 16 {
                assert(kd[i] == d[i - 16]);
                assert(is_digit(d[i - 16]));
            }
        }
    }
    lemma_lines_after_crlf(boundary, x);
    lemma_lines_after_crlf(content_type, kd);
    lemma_single_line(kd);
    let ls = text_lines(head);
    assert(ls =~= seq![boundary, content_type, kd]);
    assert(kd.take(16) =~= key);
    assert(is_first_line_with_prefix(ls, key, 2));
    let c = choose|c: int| is_first_line_with_prefix(ls, key, c);
    assert(c == 2);
    assert(kd.skip(16) =~= d);
    lemma_trim_digits(d);
    lemma_parse_decimal_text(n, usize::MAX as nat);
}

/// A complete part, as a server writes it, reads back as exactly its
/// image, with what follows the part left in the buffer. (The boundary and
/// content-type lines are single lines that are not themselves a
/// `Content-Length` line, the content-type line not empty.)
pub proof fn lemma_mjpeg_part_read_back(
    boundary: Seq<u8>,
    content_type: Seq<u8>,
    jpeg: Seq<u8>,
    rest: Seq<u8>,
)
    requires
        is_single_line(boundary),
        is_single_line(content_type),
        content_type.len() > 0,
        !starts_with(boundary, content_length_key()),
        !starts_with(content_type, content_length_key()),
        starts_with(jpeg, soi_marker()),
        jpeg.len() <= usize::MAX,
    ensures
        mjpeg_poll(mjpeg_part(boundary, content_type, jpeg) + rest) == (rest, Some(jpeg)),
{
    let n = jpeg.len();
    let d = decimal_text(n);
    let key = content_length_key();
    let head = boundary + crlf() + (content_type + crlf() + (key + d));
    let tail = jpeg + rest;
    let buf = mjpeg_part(boundary, content_type, jpeg) + rest;
    let h = head.len() as int;
    let ps = h + 4;
    assert(buf =~= head + header_terminator() + tail);
    assert(first_match(buf, header_terminator()) == Some(h)) by {
        lemma_decimal_text_digits(n);
        let nb = boundary.len() as int;
        let nt = content_type.len() as int;
        assert forall|j: int| nb + 4 + nt + 16 <= j < head.len() implies head[j] != 13 by {
            assert(head[j] == d[j - nb - 4 - nt - 16]);
            assert(is_digit(d[j - nb - 4 - nt - 16]));
        }
        assert forall|j: int| nb + 4 + nt <= j < nb + 4 + nt + 16 implies head[j] != 13 by {
            assert(head[j] == key[j - nb - 4 - nt]);
        }
        assert forall|j: int| nb + 2 <= j < nb + 2 + nt implies head[j] != 13 by {
            assert(head[j] == content_type[j - nb - 2]);
        }
        assert forall|j: int| 0 <= j < nb implies head[j] != 13 by {
            assert(head[j] == boundary[j]);
        }
        assert(head[nb + 2] == content_type[0]);
        assert(head[nb + 4 + nt] == key[0]);
        lemma_part_header_end(head, tail, nb, nt, d);
    }
    assert(header_content_length(buf.take(h)) == Some(n)) by {
        assert(buf.take(h) =~= head);
        lemma_part_header_length(boundary, content_type, n);
    }
    assert(buf.subrange(ps, ps + n) =~= jpeg);
    assert(first_match(buf.subrange(ps, ps + n), soi_marker()) == Some(0int)) by {
        assert(jpeg.subrange(0, 2) =~= soi_marker());
        lemma_first_match_unique(jpeg, soi_marker(), 0);
    }
    assert(buf.subrange(ps + 0, ps + n) =~= jpeg);
    assert(buf.skip(ps + n) =~= rest);
}

} // verus!
