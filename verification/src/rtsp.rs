//! The RTSP side of the H.264 stream: the handshake (OPTIONS, DESCRIBE,
//! SETUP over interleaved TCP, PLAY), the parts of the responses it reads,
//! and the SPS/PPS parameter sets carried in the SDP.

use vstd::prelude::*;
use vstd::string::StringSliceAdditionalSpecFns;
use crate::base64::{base64_decoded, decode_base64_bytes};
use crate::bytes::append_bytes;
use crate::rtp::start_code;
use crate::text::{
    before_byte, bytes_contain, contains, decimal_text, find_byte, find_marker, first_match,
    has_prefix_at, has_prefix_ignore_case_at, line_at, parse_unsigned, parse_unsigned_at,
    push_decimal, split_by, starts_with, starts_with_ignore_case, text_lines, trim, trim_bounds,
};

verus! {

// ---------------------------------------------------------------------------
// Requests
// ---------------------------------------------------------------------------

/// `rtsp://ip:port/`.
pub open spec fn base_url_spec(ip: Seq<u8>, port: u16) -> Seq<u8> {
    "rtsp://".spec_bytes() + ip + ":".spec_bytes() + decimal_text(port as nat) + "/".spec_bytes()
}

/// The OPTIONS request.
pub open spec fn options_request(base: Seq<u8>) -> Seq<u8> {
    "OPTIONS ".spec_bytes() + base
        + " RTSP/1.0\r\nCSeq: 1\r\nUser-Agent: AWC-Native\r\n\r\n".spec_bytes()
}

/// The DESCRIBE request.
pub open spec fn describe_request(base: Seq<u8>) -> Seq<u8> {
    "DESCRIBE ".spec_bytes() + base
        + " RTSP/1.0\r\nCSeq: 2\r\nAccept: application/sdp\r\nUser-Agent: AWC-Native\r\n\r\n".spec_bytes()
}

/// The SETUP request, asking for RTP interleaved on the RTSP connection.
pub open spec fn setup_request(control: Seq<u8>) -> Seq<u8> {
    "SETUP ".spec_bytes() + control
        + " RTSP/1.0\r\nCSeq: 3\r\nTransport: RTP/AVP/TCP;unicast;interleaved=0-1\r\nUser-Agent: AWC-Native\r\n\r\n".spec_bytes()
}

/// The PLAY request, with the session header line (possibly empty).
pub open spec fn play_request(base: Seq<u8>, session: Seq<u8>) -> Seq<u8> {
    "PLAY ".spec_bytes() + base + " RTSP/1.0\r\nCSeq: 4\r\n".spec_bytes() + session
        + "Range: npt=0.000-\r\nUser-Agent: AWC-Native\r\n\r\n".spec_bytes()
}

/// Builds `rtsp://ip:port/`.
pub fn base_url(ip: &str, port: u16) -> (r: Vec<u8>)
    ensures
        r@ == base_url_spec(ip.spec_bytes(), port),
{
    let mut r: Vec<u8> = Vec::new();
    append_bytes(&mut r, "rtsp://".as_bytes());
    append_bytes(&mut r, ip.as_bytes());
    append_bytes(&mut r, ":".as_bytes());
    push_decimal(&mut r, port as u64);
    append_bytes(&mut r, "/".as_bytes());
    r
}

// ---------------------------------------------------------------------------
// Responses
// ---------------------------------------------------------------------------

/// A response counts as a success when it contains `200 OK`.
pub open spec fn response_ok_spec(resp: Seq<u8>) -> bool {
    contains(resp, "200 OK".spec_bytes())
}

/// Whether a response counts as a success.
pub fn response_ok(resp: &[u8]) -> (r: bool)
    ensures
        r == response_ok_spec(resp@),
{
    bytes_contain(resp, "200 OK".as_bytes())
}

/// A header line, as read with its line ending, that ends the header block.
pub open spec fn is_blank_line_spec(line: Seq<u8>) -> bool {
    line == "\r\n".spec_bytes() || line == "\n".spec_bytes()
}

/// Whether a header line, as read with its line ending, ends the header
/// block.
pub fn is_blank_line(line: &[u8]) -> (r: bool)
    ensures
        r == is_blank_line_spec(line@),
{
    let crlf = "\r\n".as_bytes();
    let lf = "\n".as_bytes();
    let a = line.len() == crlf.len() && find_marker(line, crlf) == Some(0usize);
    let b = line.len() == lf.len() && find_marker(line, lf) == Some(0usize);
    proof {
        if line@.len() == crlf@.len() {
            if a {
                assert(line@.subrange(0, crlf@.len() as int) =~= line@);
            } else if line@ == crlf@ {
                assert(line@.subrange(0, crlf@.len() as int) =~= line@);
                crate::text::lemma_first_match_unique(line@, crlf@, 0);
            }
        }
        if line@.len() == lf@.len() {
            if b {
                assert(line@.subrange(0, lf@.len() as int) =~= line@);
            } else if line@ == lf@ {
                assert(line@.subrange(0, lf@.len() as int) =~= line@);
                crate::text::lemma_first_match_unique(line@, lf@, 0);
            }
        }
    }
    a || b
}

/// What a response header line (as read, line ending included) does to the
/// body length: a line starting with `content-length:` in any case sets it
/// to the number up to the next `:`, trimmed, or to 0 when that is no
/// number; other lines leave it (`None`).
pub open spec fn content_length_line(line: Seq<u8>) -> Option<nat> {
    if starts_with_ignore_case(line, "content-length:".spec_bytes()) {
        Some(
            match parse_unsigned(trim(before_byte(line.skip(15), 58)), usize::MAX as nat) {
                Some(v) => v,
                None => 0,
            },
        )
    } else {
        None
    }
}

/// The body length after reading header `line`, starting from `current`.
pub fn update_content_length(line: &[u8], current: usize) -> (r: usize)
    ensures
        r as nat == match content_length_line(line@) {
            Some(v) => v,
            None => current as nat,
        },
{
    let key = "content-length:".as_bytes();
    assert(key@.len() == 15) by {
        reveal_strlit("content-length:");
        vstd::string::is_ascii_spec_bytes("content-length:");
    }
    if !has_prefix_ignore_case_at(line, 0, line.len(), key) {
        assert(line@.subrange(0, line@.len() as int) =~= line@);
        return current;
    }
    assert(line@.subrange(0, line@.len() as int) =~= line@);
    let end = match find_byte(line, 15, line.len(), 58) {
        Some(i) => i,
        None => line.len(),
    };
    assert(line@.subrange(15, line@.len() as int) =~= line@.skip(15));
    assert(before_byte(line@.skip(15), 58) =~= line@.subrange(15, end as int));
    let (a, b) = trim_bounds(line, 15, end);
    match parse_unsigned_at(line, a, b, usize::MAX as u64) {
        Some(v) => v as usize,
        None => 0,
    }
}

// ---------------------------------------------------------------------------
// SDP and SETUP response content
// ---------------------------------------------------------------------------

/// The track named on an `a=control:` line, trimmed.
pub open spec fn control_track(line: Seq<u8>) -> Seq<u8> {
    trim(line.skip(10))
}

/// An `a=control:` line naming a track (not empty, not `*`).
pub open spec fn sets_control(line: Seq<u8>) -> bool {
    &&& starts_with(line, "a=control:".spec_bytes())
    &&& control_track(line).len() > 0
    &&& control_track(line) != "*".spec_bytes()
}

/// The control URL a track gives: an absolute `rtsp://` URL as is,
/// otherwise the track appended to the base URL (with a `/` between when
/// the base does not end in one).
pub open spec fn joined_control(base: Seq<u8>, track: Seq<u8>) -> Seq<u8> {
    if starts_with(track, "rtsp://".spec_bytes()) {
        track
    } else if base.len() > 0 && base.last() == 47 {
        base + track
    } else {
        base + "/".spec_bytes() + track
    }
}

/// The control URL of the SDP lines `ls`: that of the last line naming a
/// track, or the base URL when none does.
pub open spec fn control_url_of_lines(base: Seq<u8>, ls: Seq<Seq<u8>>) -> Seq<u8>
    decreases ls.len(),
{
    if ls.len() == 0 {
        base
    } else if sets_control(ls.last()) {
        joined_control(base, control_track(ls.last()))
    } else {
        control_url_of_lines(base, ls.drop_last())
    }
}

/// The id on a `Session:` line: the text after the key up to the first
/// `;`, trimmed.
pub open spec fn session_id(line: Seq<u8>) -> Seq<u8> {
    trim(before_byte(line.skip(8), 59))
}

/// The session header line to send with PLAY: built from the first line
/// of `ls` starting with `session:` in any case, or empty when none does.
pub open spec fn session_header_of_lines(ls: Seq<Seq<u8>>) -> Seq<u8>
    decreases ls.len(),
{
    if ls.len() == 0 {
        Seq::empty()
    } else if starts_with_ignore_case(ls[0], "session:".spec_bytes()) {
        "Session: ".spec_bytes() + session_id(ls[0]) + "\r\n".spec_bytes()
    } else {
        session_header_of_lines(ls.skip(1))
    }
}

/// The key of the SDP format parameter that carries the parameter sets.
pub open spec fn sprop_key() -> Seq<u8> {
    "sprop-parameter-sets=".spec_bytes()
}

/// The parameter sets on an SDP line holding the key: the text after the
/// key up to the first `;`, trimmed, split at `,`; each piece trimmed and
/// base64-decoded, with a start code before it.
pub open spec fn line_parameter_sets(line: Seq<u8>) -> Seq<Seq<u8>> {
    let idx = first_match(line, sprop_key())->0;
    let sets = trim(before_byte(line.skip(idx + 21), 59));
    split_by(sets, 44).map_values(|part: Seq<u8>| start_code() + base64_decoded(trim(part)))
}

/// The parameter sets of all SDP lines `ls` that hold the key, in order.
pub open spec fn parameter_sets_of_lines(ls: Seq<Seq<u8>>) -> Seq<Seq<u8>>
    decreases ls.len(),
{
    if ls.len() == 0 {
        Seq::empty()
    } else {
        (if contains(ls[0], sprop_key()) {
            line_parameter_sets(ls[0])
        } else {
            Seq::empty()
        }) + parameter_sets_of_lines(ls.skip(1))
    }
}

proof fn lemma_control_url_push(base: Seq<u8>, ls: Seq<Seq<u8>>, l: Seq<u8>)
    ensures
        control_url_of_lines(base, ls.push(l)) == if sets_control(l) {
            joined_control(base, control_track(l))
        } else {
            control_url_of_lines(base, ls)
        },
{
    assert(ls.push(l).drop_last() =~= ls);
    assert(ls.push(l).last() == l);
}

/// The control URL for SETUP, from the DESCRIBE response.
pub fn control_url(base: &[u8], sdp: &[u8]) -> (r: Vec<u8>)
    ensures
        r@ == control_url_of_lines(base@, text_lines(sdp@)),
{
    let key = "a=control:".as_bytes();
    let abs = "rtsp://".as_bytes();
    let star = "*".as_bytes();
    assert(key@.len() == 10) by {
        reveal_strlit("a=control:");
        vstd::string::is_ascii_spec_bytes("a=control:");
    }
    let mut url: Vec<u8> = Vec::new();
    append_bytes(&mut url, base);
    let ghost ls = text_lines(sdp@);
    let ghost mut seen: Seq<Seq<u8>> = Seq::empty();
    assert(sdp@.skip(0) =~= sdp@);
    assert(url@ =~= base@);
    let mut pos: usize = 0;
    while pos < sdp.len()
        invariant
            pos <= sdp@.len(),
            key@ == "a=control:".spec_bytes(),
            key@.len() == 10,
            abs@ == "rtsp://".spec_bytes(),
            star@ == "*".spec_bytes(),
            ls == text_lines(sdp@),
            ls == seen + text_lines(sdp@.skip(pos as int)),
            url@ == control_url_of_lines(base@, seen),
        decreases sdp@.len() - pos,
    {
        let (end, next) = line_at(sdp, pos);
        let ghost line = sdp@.subrange(pos as int, end as int);
        proof {
            lemma_control_url_push(base@, seen, line);
        }
        if has_prefix_at(sdp, pos, end, key) {
            let (a, b) = trim_bounds(sdp, pos + 10, end);
            assert(line.skip(10) =~= sdp@.subrange(pos + 10, end as int));
            let track = &sdp[a..b];
            let is_star = b - a == 1 && sdp[a] == 42u8;
            assert(is_star == (track@ == star@)) by {
                reveal_strlit("*");
                vstd::string::is_ascii_spec_bytes("*");
                if track@ == star@ {
                    assert(track@[0] == star@[0]);
                }
                if is_star {
                    assert(track@ =~= star@);
                }
            }
            if b > a && !is_star {
                let mut next_url: Vec<u8> = Vec::new();
                if has_prefix_at(sdp, a, b, abs) {
                    append_bytes(&mut next_url, track);
                } else if base.len() > 0 && base[base.len() - 1] == 47u8 {
                    append_bytes(&mut next_url, base);
                    append_bytes(&mut next_url, track);
                } else {
                    append_bytes(&mut next_url, base);
                    append_bytes(&mut next_url, "/".as_bytes());
                    append_bytes(&mut next_url, track);
                }
                assert(track@ =~= sdp@.subrange(a as int, b as int));
                url = next_url;
            }
        }
        proof {
            seen = seen.push(line);
            assert(ls == seen + match next {
                Some(n) => text_lines(sdp@.skip(n as int)),
                None => Seq::<Seq<u8>>::empty(),
            });
        }
        match next {
            Some(n) => {
                pos = n;
            },
            None => {
                assert(sdp@.skip(sdp@.len() as int) =~= Seq::<u8>::empty());
                pos = sdp.len();
            },
        }
    }
    proof {
        assert(sdp@.skip(pos as int) =~= Seq::<u8>::empty());
        assert(ls =~= seen);
    }
    url
}

/// The session header line for PLAY, from the SETUP response.
pub fn session_header(resp: &[u8]) -> (r: Vec<u8>)
    ensures
        r@ == session_header_of_lines(text_lines(resp@)),
{
    let key = "session:".as_bytes();
    assert(key@.len() == 8) by {
        reveal_strlit("session:");
        vstd::string::is_ascii_spec_bytes("session:");
    }
    let ghost ls = text_lines(resp@);
    assert(resp@.skip(0) =~= resp@);
    let mut pos: usize = 0;
    while pos < resp.len()
        invariant
            pos <= resp@.len(),
            key@ == "session:".spec_bytes(),
            key@.len() == 8,
            ls == text_lines(resp@),
            session_header_of_lines(ls) == session_header_of_lines(text_lines(resp@.skip(pos as int))),
        decreases resp@.len() - pos,
    {
        let (end, next) = line_at(resp, pos);
        let ghost line = resp@.subrange(pos as int, end as int);
        let ghost rest = text_lines(resp@.skip(pos as int));
        assert(rest[0] == line);
        if has_prefix_ignore_case_at(resp, pos, end, key) {
            let stop = match find_byte(resp, pos + 8, end, 59) {
                Some(i) => i,
                None => end,
            };
            assert(line.skip(8) =~= resp@.subrange(pos + 8, end as int));
            assert(before_byte(line.skip(8), 59) =~= resp@.subrange(pos + 8, stop as int));
            let (a, b) = trim_bounds(resp, pos + 8, stop);
            let mut r: Vec<u8> = Vec::new();
            append_bytes(&mut r, "Session: ".as_bytes());
            append_bytes(&mut r, &resp[a..b]);
            append_bytes(&mut r, "\r\n".as_bytes());
            return r;
        }
        match next {
            Some(n) => {
                assert(rest.skip(1) =~= text_lines(resp@.skip(n as int)));
                pos = n;
            },
            None => {
                assert(rest.skip(1) =~= Seq::<Seq<u8>>::empty());
                assert(resp@.skip(resp@.len() as int) =~= Seq::<u8>::empty());
                assert(text_lines(Seq::<u8>::empty()) =~= Seq::<Seq<u8>>::empty());
                pos = resp.len();
            },
        }
    }
    assert(resp@.skip(pos as int) =~= Seq::<u8>::empty());
    Vec::new()
}

/// A parameter set piece of an SDP line as the stream decoder takes it.
pub open spec fn parameter_set_nalu(part: Seq<u8>) -> Seq<u8> {
    start_code() + base64_decoded(trim(part))
}

proof fn lemma_map_concat(a: Seq<Seq<u8>>, b: Seq<Seq<u8>>)
    ensures
        (a + b).map_values(|part: Seq<u8>| parameter_set_nalu(part)) == a.map_values(
            |part: Seq<u8>| parameter_set_nalu(part),
        ) + b.map_values(|part: Seq<u8>| parameter_set_nalu(part)),
{
    assert((a + b).map_values(|part: Seq<u8>| parameter_set_nalu(part)) =~= a.map_values(
        |part: Seq<u8>| parameter_set_nalu(part),
    ) + b.map_values(|part: Seq<u8>| parameter_set_nalu(part)));
}

/// Appends the parameter sets of one SDP line holding the key to `out`.
fn push_line_parameter_sets(line: &[u8], out: &mut Vec<Vec<u8>>)
    requires
        contains(line@, sprop_key()),
    ensures
        final(out)@.map_values(|v: Vec<u8>| v@) == old(out)@.map_values(|v: Vec<u8>| v@) + line_parameter_sets(line@),
{
    let key = "sprop-parameter-sets=".as_bytes();
    proof {
        reveal_strlit("sprop-parameter-sets=");
        vstd::string::is_ascii_spec_bytes("sprop-parameter-sets=");
    }
    assert(key@.len() == 21);
    assert(line@.len() == line.len());
    let idx = match find_marker(line, key) {
        Some(i) => i,
        None => {
            return;
        },
    };
    assert(crate::text::matches_at(line@, key@, idx as int));
    let start = idx + 21;
    let stop = match find_byte(line, start, line.len(), 59) {
        Some(i) => i,
        None => line.len(),
    };
    assert(line@.subrange(start as int, line@.len() as int) =~= line@.skip(start as int));
    assert(before_byte(line@.skip(start as int), 59) =~= line@.subrange(start as int, stop as int));
    let (a, b) = trim_bounds(line, start, stop);
    let ghost sets = line@.subrange(a as int, b as int);
    let ghost all = split_by(sets, 44).map_values(|part: Seq<u8>| parameter_set_nalu(part));
    assert(line_parameter_sets(line@) == all);
    let ghost o = out@.map_values(|v: Vec<u8>| v@);
    let mut ps: usize = a;
    let ghost mut done: Seq<Seq<u8>> = Seq::empty();
    assert(line@.subrange(ps as int, b as int) =~= sets);
    assert(done + split_by(sets, 44).map_values(|part: Seq<u8>| parameter_set_nalu(part)) =~= all);
    loop
        invariant_except_break
            out@.map_values(|v: Vec<u8>| v@) == o + done,
            done + split_by(line@.subrange(ps as int, b as int), 44).map_values(
                |part: Seq<u8>| parameter_set_nalu(part),
            ) == all,
        invariant
            a <= ps <= b <= line@.len(),
            sets == line@.subrange(a as int, b as int),
            all == split_by(sets, 44).map_values(|part: Seq<u8>| parameter_set_nalu(part)),
        ensures
            out@.map_values(|v: Vec<u8>| v@) == o + all,
        decreases b - ps,
    {
        let ghost rest = line@.subrange(ps as int, b as int);
        let found = find_byte(line, ps, b, 44);
        let pe = match found {
            Some(i) => i,
            None => b,
        };
        let (pa, pb) = trim_bounds(line, ps, pe);
        let decoded = decode_base64_bytes(&line[pa..pb]);
        let mut nalu: Vec<u8> = Vec::new();
        nalu.push(0);
        nalu.push(0);
        nalu.push(0);
        nalu.push(1);
        append_bytes(&mut nalu, decoded.as_slice());
        let ghost piece = line@.subrange(ps as int, pe as int);
        assert(nalu@ =~= parameter_set_nalu(piece));
        let ghost before = out@.map_values(|v: Vec<u8>| v@);
        out.push(nalu);
        assert(out@.map_values(|v: Vec<u8>| v@) =~= before.push(parameter_set_nalu(piece)));
        match found {
            Some(i) => {
                proof {
                    assert(rest.take(i - ps) =~= piece);
                    assert(rest.skip(i - ps + 1) =~= line@.subrange(i + 1, b as int));
                    assert(split_by(rest, 44) =~= seq![piece] + split_by(
                        line@.subrange(i + 1, b as int),
                        44,
                    ));
                    lemma_map_concat(seq![piece], split_by(line@.subrange(i + 1, b as int), 44));
                    done = done.push(parameter_set_nalu(piece));
                    assert(seq![piece].map_values(|part: Seq<u8>| parameter_set_nalu(part))
                        =~= seq![parameter_set_nalu(piece)]);
                    assert(done + split_by(line@.subrange(i + 1, b as int), 44).map_values(
                        |part: Seq<u8>| parameter_set_nalu(part),
                    ) =~= all);
                }
                ps = i + 1;
            },
            None => {
                proof {
                    assert(piece =~= rest);
                    assert(split_by(rest, 44) =~= seq![piece]);
                    assert(seq![piece].map_values(|part: Seq<u8>| parameter_set_nalu(part))
                        =~= seq![parameter_set_nalu(piece)]);
                    done = done.push(parameter_set_nalu(piece));
                    assert(done =~= all);
                    assert(out@.map_values(|v: Vec<u8>| v@) =~= o + all);
                }
                break;
            },
        }
    }
}

/// The SPS/PPS parameter sets announced in a DESCRIBE response, in order,
/// each as an Annex-B NAL unit.
pub fn parameter_sets(sdp: &[u8]) -> (r: Vec<Vec<u8>>)
    ensures
        r@.map_values(|v: Vec<u8>| v@) == parameter_sets_of_lines(text_lines(sdp@)),
{
    let key = "sprop-parameter-sets=".as_bytes();
    let mut out: Vec<Vec<u8>> = Vec::new();
    let ghost ls = text_lines(sdp@);
    assert(sdp@.skip(0) =~= sdp@);
    assert(out@.map_values(|v: Vec<u8>| v@) =~= Seq::<Seq<u8>>::empty());
    let mut pos: usize = 0;
    while pos < sdp.len()
        invariant
            pos <= sdp@.len(),
            key@ == sprop_key(),
            ls == text_lines(sdp@),
            parameter_sets_of_lines(ls) == out@.map_values(|v: Vec<u8>| v@) + parameter_sets_of_lines(
                text_lines(sdp@.skip(pos as int)),
            ),
        decreases sdp@.len() - pos,
    {
        let (end, next) = line_at(sdp, pos);
        let line = &sdp[pos..end];
        let ghost rest = text_lines(sdp@.skip(pos as int));
        let ghost after = match next {
            Some(n) => text_lines(sdp@.skip(n as int)),
            None => Seq::<Seq<u8>>::empty(),
        };
        assert(rest[0] == line@);
        assert(rest.skip(1) =~= after);
        let ghost before = out@.map_values(|v: Vec<u8>| v@);
        if bytes_contain(line, key) {
            push_line_parameter_sets(line, &mut out);
            assert(before + parameter_sets_of_lines(rest) =~= out@.map_values(|v: Vec<u8>| v@)
                + parameter_sets_of_lines(after));
        } else {
            assert(before + parameter_sets_of_lines(rest) =~= out@.map_values(|v: Vec<u8>| v@)
                + parameter_sets_of_lines(after));
        }
        match next {
            Some(n) => {
                pos = n;
            },
            None => {
                assert(sdp@.skip(sdp@.len() as int) =~= Seq::<u8>::empty());
                pos = sdp.len();
            },
        }
    }
    assert(sdp@.skip(pos as int) =~= Seq::<u8>::empty());
    assert(out@.map_values(|v: Vec<u8>| v@) + Seq::<Seq<u8>>::empty() =~= out@.map_values(|v: Vec<u8>| v@));
    out
}

// ---------------------------------------------------------------------------
// Handshake
// ---------------------------------------------------------------------------

/// Where the RTSP handshake stands: the request to send next.
#[derive(Clone, Copy, Debug, PartialEq, Eq, Structural)]
pub enum HandshakeStep {
    Options,
    Describe,
    Setup,
    Play,
    Done,
}

/// The RTSP handshake with the phone, driven by the caller: send
/// `request()`, hand the response to `on_response`, until `request()` is
/// `None`.
pub struct RtspHandshake {
    pub step: HandshakeStep,
    pub base_url: Vec<u8>,
    pub control_url: Vec<u8>,
    pub session_header: Vec<u8>,
    pub sps_pps: Vec<Vec<u8>>,
}

/// The method name of each step, as it opens the error message when the
/// step's response is refused.
pub open spec fn step_name(step: HandshakeStep) -> Seq<u8> {
    match step {
        HandshakeStep::Options => "OPTIONS".spec_bytes(),
        HandshakeStep::Describe => "DESCRIBE".spec_bytes(),
        HandshakeStep::Setup => "SETUP".spec_bytes(),
        HandshakeStep::Play => "PLAY".spec_bytes(),
        HandshakeStep::Done => Seq::empty(),
    }
}

/// The byte contents of a list of byte vectors.
pub open spec fn byte_vecs(v: Seq<Vec<u8>>) -> Seq<Seq<u8>> {
    v.map_values(|x: Vec<u8>| x@)
}

impl RtspHandshake {
    /// A handshake with the RTSP server at `ip:port`.
    pub fn new(ip: &str, port: u16) -> (r: Self)
        ensures
            r.step == HandshakeStep::Options,
            r.base_url@ == base_url_spec(ip.spec_bytes(), port),
            r.control_url@ == r.base_url@,
            r.session_header@ == Seq::<u8>::empty(),
            r.sps_pps@ == Seq::<Vec<u8>>::empty(),
    {
        let base = base_url(ip, port);
        let mut control: Vec<u8> = Vec::new();
        append_bytes(&mut control, base.as_slice());
        assert(control@ =~= base@);
        RtspHandshake {
            step: HandshakeStep::Options,
            base_url: base,
            control_url: control,
            session_header: Vec::new(),
            sps_pps: Vec::new(),
        }
    }

    /// The request to send next, or `None` once the handshake is complete.
    pub fn request(&self) -> (r: Option<Vec<u8>>)
        ensures
            match self.step {
                HandshakeStep::Options => r matches Some(q) && q@ == options_request(self.base_url@),
                HandshakeStep::Describe => r matches Some(q) && q@ == describe_request(
                    self.base_url@,
                ),
                HandshakeStep::Setup => r matches Some(q) && q@ == setup_request(self.control_url@),
                HandshakeStep::Play => r matches Some(q) && q@ == play_request(
                    self.base_url@,
                    self.session_header@,
                ),
                HandshakeStep::Done => r is None,
            },
    {
        let mut q: Vec<u8> = Vec::new();
        match self.step {
            HandshakeStep::Options => {
                append_bytes(&mut q, "OPTIONS ".as_bytes());
                append_bytes(&mut q, self.base_url.as_slice());
                append_bytes(&mut q, " RTSP/1.0\r\nCSeq: 1\r\nUser-Agent: AWC-Native\r\n\r\n".as_bytes());
            },
            HandshakeStep::Describe => {
                append_bytes(&mut q, "DESCRIBE ".as_bytes());
                append_bytes(&mut q, self.base_url.as_slice());
                append_bytes(
                    &mut q,
                    " RTSP/1.0\r\nCSeq: 2\r\nAccept: application/sdp\r\nUser-Agent: AWC-Native\r\n\r\n".as_bytes(),
                );
            },
            HandshakeStep::Setup => {
                append_bytes(&mut q, "SETUP ".as_bytes());
                append_bytes(&mut q, self.control_url.as_slice());
                append_bytes(
                    &mut q,
                    " RTSP/1.0\r\nCSeq: 3\r\nTransport: RTP/AVP/TCP;unicast;interleaved=0-1\r\nUser-Agent: AWC-Native\r\n\r\n".as_bytes(),
                );
            },
            HandshakeStep::Play => {
                append_bytes(&mut q, "PLAY ".as_bytes());
                append_bytes(&mut q, self.base_url.as_slice());
                append_bytes(&mut q, " RTSP/1.0\r\nCSeq: 4\r\n".as_bytes());
                append_bytes(&mut q, self.session_header.as_slice());
                append_bytes(&mut q, "Range: npt=0.000-\r\nUser-Agent: AWC-Native\r\n\r\n".as_bytes());
            },
            HandshakeStep::Done => {
                return None;
            },
        }
        Some(q)
    }

    /// Takes the response to the request of the current step. A response
    /// without `200 OK` is refused with `<METHOD> failed: <response>` and
    /// changes nothing. An accepted DESCRIBE response gives the parameter
    /// sets and the control URL, an accepted SETUP response the session
    /// header; each accepted response moves to the next step.
    pub fn on_response(&mut self, resp: &[u8]) -> (r: Result<(), Vec<u8>>)
        requires
            old(self).step != HandshakeStep::Done,
        ensures
            !response_ok_spec(resp@) ==> *final(self) == *old(self) && (r matches Err(msg) && msg@
                == step_name(old(self).step) + " failed: ".spec_bytes() + resp@),
            response_ok_spec(resp@) ==> r is Ok && final(self).base_url == old(self).base_url
                && match old(self).step {
                HandshakeStep::Options => final(self).step == HandshakeStep::Describe
                    && final(self).control_url == old(self).control_url
                    && final(self).session_header == old(self).session_header
                    && final(self).sps_pps == old(self).sps_pps,
                HandshakeStep::Describe => final(self).step == HandshakeStep::Setup
                    && byte_vecs(final(self).sps_pps@) == byte_vecs(old(self).sps_pps@)
                    + parameter_sets_of_lines(text_lines(resp@)) && final(self).control_url@
                    == control_url_of_lines(old(self).base_url@, text_lines(resp@))
                    && final(self).session_header == old(self).session_header,
                HandshakeStep::Setup => final(self).step == HandshakeStep::Play
                    && final(self).session_header@ == session_header_of_lines(text_lines(resp@))
                    && final(self).control_url == old(self).control_url
                    && final(self).sps_pps == old(self).sps_pps,
                _ => final(self).step == HandshakeStep::Done
                    && final(self).control_url == old(self).control_url
                    && final(self).session_header == old(self).session_header
                    && final(self).sps_pps == old(self).sps_pps,
            },
    {
        if !response_ok(resp) {
            let mut msg: Vec<u8> = Vec::new();
            match self.step {
                HandshakeStep::Options => append_bytes(&mut msg, "OPTIONS".as_bytes()),
                HandshakeStep::Describe => append_bytes(&mut msg, "DESCRIBE".as_bytes()),
                HandshakeStep::Setup => append_bytes(&mut msg, "SETUP".as_bytes()),
                _ => append_bytes(&mut msg, "PLAY".as_bytes()),
            }
            append_bytes(&mut msg, " failed: ".as_bytes());
            append_bytes(&mut msg, resp);
            return Err(msg);
        }
        match self.step {
            HandshakeStep::Options => {
                self.step = HandshakeStep::Describe;
            },
            HandshakeStep::Describe => {
                let sets = parameter_sets(resp);
                let ghost before = self.sps_pps@;
                let mut i: usize = 0;
                while i < sets.len()
                    invariant
                        i <= sets@.len(),
                        self.base_url == old(self).base_url,
                        self.session_header == old(self).session_header,
                        self.step == HandshakeStep::Describe,
                        byte_vecs(self.sps_pps@) == byte_vecs(before) + byte_vecs(sets@).take(
                            i as int,
                        ),
                    decreases sets@.len() - i,
                {
                    let mut copy: Vec<u8> = Vec::new();
                    append_bytes(&mut copy, sets[i].as_slice());
                    let ghost prev = self.sps_pps@;
                    self.sps_pps.push(copy);
                    assert(byte_vecs(self.sps_pps@) =~= byte_vecs(prev).push(sets@[i as int]@));
                    assert(byte_vecs(sets@).take(i + 1) =~= byte_vecs(sets@).take(i as int).push(
                        sets@[i as int]@,
                    ));
                    assert(byte_vecs(self.sps_pps@) =~= byte_vecs(before) + byte_vecs(sets@).take(
                        i + 1,
                    ));
                    i = i + 1;
                }
                assert(byte_vecs(sets@).take(sets@.len() as int) =~= byte_vecs(sets@));
                self.control_url = control_url(self.base_url.as_slice(), resp);
                self.step = HandshakeStep::Setup;
            },
            HandshakeStep::Setup => {
                self.session_header = session_header(resp);
                self.step = HandshakeStep::Play;
            },
            _ => {
                self.step = HandshakeStep::Done;
            },
        }
        Ok(())
    }
}

} // verus!
