//! WebSocket framing (RFC 6455) for the control channel to the phone: the
//! upgrade request, client frames (always masked), and reading incoming
//! frames part by part.

use vstd::prelude::*;
use vstd::string::StringSliceAdditionalSpecFns;
use crate::bytes::{append_bytes, copy_range};
use crate::text::{decimal_text, push_decimal};

verus! {

/// The masking key of the text frames the client sends.
pub const TEXT_MASK_KEY: [u8; 4] = [0x1B, 0x3F, 0x7A, 0x9C];

/// The masking key of the pong frames the client sends.
pub const PONG_MASK_KEY: [u8; 4] = [0x5A, 0x3B, 0x1C, 0x7E];

/// First byte of a final text frame.
pub const TEXT_FRAME_START: u8 = 0x81;

/// First byte of a final pong frame.
pub const PONG_FRAME_START: u8 = 0x8A;

/// The opcode of a text frame.
pub const OPCODE_TEXT: u8 = 0x1;

/// The opcode of a close frame.
pub const OPCODE_CLOSE: u8 = 0x8;

/// The opcode of a ping frame.
pub const OPCODE_PING: u8 = 0x9;

/// The payload length field of a masked frame: the length itself up to
/// 125, else 126 and a 16-bit big-endian length up to 65535, else 127 and a
/// 64-bit big-endian length; the mask bit is set in the first byte.
pub open spec fn masked_length_field(n: u64) -> Seq<u8> {
    if n <= 125 {
        seq![(0x80u8 | n as u8)]
    } else if n <= 65535 {
        seq![0xFEu8, (n >> 8u64) as u8, n as u8]
    } else {
        seq![
            0xFFu8,
            (n >> 56u64) as u8,
            (n >> 48u64) as u8,
            (n >> 40u64) as u8,
            (n >> 32u64) as u8,
            (n >> 24u64) as u8,
            (n >> 16u64) as u8,
            (n >> 8u64) as u8,
            n as u8,
        ]
    }
}

/// `payload` masked with `key`: each byte XORed with the key byte at its
/// position modulo four.
pub open spec fn masked(payload: Seq<u8>, key: Seq<u8>) -> Seq<u8> {
    Seq::new(payload.len(), |i: int| payload[i] ^ key[i % 4])
}

/// A client frame: the first byte, the length field, the masking key and
/// the masked payload.
pub open spec fn client_frame(first: u8, payload: Seq<u8>, key: Seq<u8>) -> Seq<u8> {
    seq![first] + masked_length_field(payload.len() as u64) + key + masked(payload, key)
}

/// Builds a masked client frame.
pub fn encode_client_frame(first: u8, payload: &[u8], key: [u8; 4]) -> (r: Vec<u8>)
    ensures
        r@ == client_frame(first, payload@, key@),
{
    let n = payload.len() as u64;
    let mut frame: Vec<u8> = Vec::new();
    frame.push(first);
    if n <= 125 {
        frame.push(0x80u8 | n as u8);
    } else if n <= 65535 {
        frame.push(0xFE);
        frame.push((n >> 8u64) as u8);
        frame.push(n as u8);
    } else {
        frame.push(0xFF);
        frame.push((n >> 56u64) as u8);
        frame.push((n >> 48u64) as u8);
        frame.push((n >> 40u64) as u8);
        frame.push((n >> 32u64) as u8);
        frame.push((n >> 24u64) as u8);
        frame.push((n >> 16u64) as u8);
        frame.push((n >> 8u64) as u8);
        frame.push(n as u8);
    }
    assert(frame@ =~= seq![first] + masked_length_field(n));
    append_bytes(&mut frame, &key);
    let ghost head = frame@;
    let mut i: usize = 0;
    while i < payload.len()
        invariant
            i <= payload@.len(),
            frame@ == head + masked(payload@.take(i as int), key@),
        decreases payload@.len() - i,
    {
        frame.push(payload[i] ^ key[i % 4]);
        assert(masked(payload@.take(i + 1), key@) =~= masked(payload@.take(i as int), key@).push(
            payload@[i as int] ^ key@[i as int % 4],
        ));
        assert(frame@ =~= head + masked(payload@.take(i + 1), key@));
        i = i + 1;
    }
    assert(payload@.take(payload@.len() as int) =~= payload@);
    frame
}

/// The frame that sends `text` to the phone.
pub fn text_frame(text: &[u8]) -> (r: Vec<u8>)
    ensures
        r@ == client_frame(TEXT_FRAME_START, text@, TEXT_MASK_KEY@),
{
    encode_client_frame(TEXT_FRAME_START, text, TEXT_MASK_KEY)
}

/// The frame that answers a ping carrying `payload`.
pub fn pong_frame(payload: &[u8]) -> (r: Vec<u8>)
    ensures
        r@ == client_frame(PONG_FRAME_START, payload@, PONG_MASK_KEY@),
{
    encode_client_frame(PONG_FRAME_START, payload, PONG_MASK_KEY)
}

/// The two leading bytes of a frame, read: opcode, mask bit, and the
/// 7-bit length code.
#[derive(Clone, Copy, Debug, PartialEq, Eq, Structural)]
pub struct FrameHeader {
    pub opcode: u8,
    pub masked: bool,
    pub len_code: u8,
}

/// The fields of a frame's two leading bytes.
pub open spec fn frame_header_spec(b0: u8, b1: u8) -> FrameHeader {
    FrameHeader { opcode: b0 & 0x0F, masked: b1 & 0x80 != 0, len_code: b1 & 0x7F }
}

/// Reads a frame's two leading bytes.
pub fn parse_frame_header(b0: u8, b1: u8) -> (r: FrameHeader)
    ensures
        r == frame_header_spec(b0, b1),
{
    FrameHeader { opcode: b0 & 0x0F, masked: b1 & 0x80 != 0, len_code: b1 & 0x7F }
}

/// How many extended length bytes follow a length code.
pub open spec fn extended_length_size(len_code: u8) -> nat {
    if len_code == 126 {
        2
    } else if len_code == 127 {
        8
    } else {
        0
    }
}

/// How many extended length bytes follow a length code.
pub fn extended_length_bytes(len_code: u8) -> (r: usize)
    ensures
        r == extended_length_size(len_code),
{
    if len_code == 126 {
        2
    } else if len_code == 127 {
        8
    } else {
        0
    }
}

/// The payload length a length code and its extended bytes give: the code
/// itself, or the extended bytes read big-endian.
pub open spec fn payload_length_spec(len_code: u8, ext: Seq<u8>) -> u64 {
    if len_code == 126 {
        ((ext[0] as u64) << 8u64) | (ext[1] as u64)
    } else if len_code == 127 {
        ((ext[0] as u64) << 56u64) | ((ext[1] as u64) << 48u64) | ((ext[2] as u64) << 40u64) | ((
        ext[3] as u64) << 32u64) | ((ext[4] as u64) << 24u64) | ((ext[5] as u64) << 16u64) | ((
        ext[6] as u64) << 8u64) | (ext[7] as u64)
    } else {
        len_code as u64
    }
}

/// Reads the payload length from a length code and its extended bytes.
pub fn payload_length(len_code: u8, ext: &[u8]) -> (r: u64)
    requires
        ext@.len() == extended_length_size(len_code),
    ensures
        r == payload_length_spec(len_code, ext@),
{
    if len_code == 126 {
        ((ext[0] as u64) << 8u64) | (ext[1] as u64)
    } else if len_code == 127 {
        ((ext[0] as u64) << 56u64) | ((ext[1] as u64) << 48u64) | ((ext[2] as u64) << 40u64) | ((
        ext[3] as u64) << 32u64) | ((ext[4] as u64) << 24u64) | ((ext[5] as u64) << 16u64) | ((
        ext[6] as u64) << 8u64) | (ext[7] as u64)
    } else {
        len_code as u64
    }
}

/// Unmasks a received payload in place.
pub fn unmask(data: &mut Vec<u8>, key: [u8; 4])
    ensures
        final(data)@ == masked(old(data)@, key@),
{
    let ghost o = data@;
    let mut i: usize = 0;
    while i < data.len()
        invariant
            o.len() == data@.len(),
            i <= data@.len(),
            forall|j: int| 0 <= j < i ==> #[trigger] data@[j] == o[j] ^ key@[j % 4],
            forall|j: int| i <= j < data@.len() ==> #[trigger] data@[j] == o[j],
        decreases data@.len() - i,
    {
        let b = data[i] ^ key[i % 4];
        data.set(i, b);
        i = i + 1;
    }
    assert(data@ =~= masked(o, key@));
}

/// What the client does with a complete incoming frame.
#[derive(Clone, Copy, Debug, PartialEq, Eq, Structural)]
pub enum FrameKind {
    /// The server closes the connection.
    Close,
    /// A ping, to be answered with a pong carrying the same payload.
    Ping,
    /// A text message for the client.
    Text,
    /// Anything else, ignored.
    Other,
}

/// The kind of a frame by its opcode.
pub open spec fn frame_kind_spec(opcode: u8) -> FrameKind {
    if opcode == OPCODE_CLOSE {
        FrameKind::Close
    } else if opcode == OPCODE_PING {
        FrameKind::Ping
    } else if opcode == OPCODE_TEXT {
        FrameKind::Text
    } else {
        FrameKind::Other
    }
}

/// The kind of a frame by its opcode.
pub fn frame_kind(opcode: u8) -> (r: FrameKind)
    ensures
        r == frame_kind_spec(opcode),
{
    if opcode == OPCODE_CLOSE {
        FrameKind::Close
    } else if opcode == OPCODE_PING {
        FrameKind::Ping
    } else if opcode == OPCODE_TEXT {
        FrameKind::Text
    } else {
        FrameKind::Other
    }
}

/// What the client does with the payload of a complete incoming frame.
/// (A close frame ends the connection as soon as its header is read.)
pub enum FrameAction {
    /// Send these bytes back.
    Reply(Vec<u8>),
    /// A text message for the client.
    Deliver(Vec<u8>),
    /// Nothing.
    Ignore,
}

/// Whether `a` is what the client does with `payload` of a frame with
/// `opcode`: a ping is answered with a pong carrying the same payload, a
/// text frame's payload is handed on, anything else is ignored.
pub open spec fn is_action_for(a: FrameAction, opcode: u8, payload: Seq<u8>) -> bool {
    match frame_kind_spec(opcode) {
        FrameKind::Ping => a matches FrameAction::Reply(f) && f@ == client_frame(
            PONG_FRAME_START,
            payload,
            PONG_MASK_KEY@,
        ),
        FrameKind::Text => a matches FrameAction::Deliver(t) && t@ == payload,
        _ => a is Ignore,
    }
}

/// Decides what to do with a received (unmasked) payload by the frame's
/// opcode: a ping is answered with a pong carrying the same payload, a
/// text frame's payload is handed on, anything else is ignored.
pub fn frame_action(opcode: u8, payload: Vec<u8>) -> (r: FrameAction)
    ensures
        is_action_for(r, opcode, payload@),
{
    match frame_kind(opcode) {
        FrameKind::Ping => FrameAction::Reply(pong_frame(payload.as_slice())),
        FrameKind::Text => FrameAction::Deliver(payload),
        _ => FrameAction::Ignore,
    }
}

/// The upgrade request for the phone's `/ws` endpoint.
pub open spec fn upgrade_request_spec(host: Seq<u8>, port: u16) -> Seq<u8> {
    "GET /ws HTTP/1.1\r\nHost: ".spec_bytes() + host + ":".spec_bytes() + decimal_text(port as nat)
        + "\r\nUpgrade: websocket\r\nConnection: Upgrade\r\nSec-WebSocket-Key: dGhlIHNhbXBsZSBub25jZQ==\r\nSec-WebSocket-Version: 13\r\n\r\n".spec_bytes()
}

/// Builds the upgrade request for `host:port`.
pub fn upgrade_request(host: &str, port: u16) -> (r: Vec<u8>)
    ensures
        r@ == upgrade_request_spec(host.spec_bytes(), port),
{
    let mut r: Vec<u8> = Vec::new();
    append_bytes(&mut r, "GET /ws HTTP/1.1\r\nHost: ".as_bytes());
    append_bytes(&mut r, host.as_bytes());
    append_bytes(&mut r, ":".as_bytes());
    push_decimal(&mut r, port as u64);
    append_bytes(
        &mut r,
        "\r\nUpgrade: websocket\r\nConnection: Upgrade\r\nSec-WebSocket-Key: dGhlIHNhbXBsZSBub25jZQ==\r\nSec-WebSocket-Version: 13\r\n\r\n".as_bytes(),
    );
    r
}

/// Masking twice with the same key gives the payload back.
pub proof fn lemma_unmask_masked(payload: Seq<u8>, key: Seq<u8>)
    ensures
        masked(masked(payload, key), key) == payload,
{
    assert forall|i: int| 0 <= i < payload.len() implies #[trigger] masked(
        masked(payload, key),
        key,
    )[i] == payload[i] by {
        let a = payload[i];
        let k = key[i % 4];
        assert((a ^ k) ^ k == a) by (bit_vector);
    }
    assert(masked(masked(payload, key), key) =~= payload);
}

/// A client frame reads back as what was sent: its header gives the
/// opcode of the first byte and the mask bit, its length code and extended
/// length bytes give the payload length, the masking key follows, and
/// unmasking the rest gives the payload.
pub proof fn lemma_client_frame_roundtrip(first: u8, payload: Seq<u8>, key: Seq<u8>)
    requires
        key.len() == 4,
        payload.len() <= u64::MAX,
    ensures
        ({
            let frame = client_frame(first, payload, key);
            let hdr = frame_header_spec(frame[0], frame[1]);
            let e = extended_length_size(hdr.len_code) as int;
            &&& hdr.opcode == first & 0x0F
            &&& hdr.masked
            &&& frame.len() == 6 + e + payload.len()
            &&& payload_length_spec(hdr.len_code, frame.subrange(2, 2 + e)) == payload.len()
            &&& frame.subrange(2 + e, 6 + e) == key
            &&& masked(frame.skip(6 + e), key) == payload
        }),
{
    let n = payload.len() as u64;
    let frame = client_frame(first, payload, key);
    let field = masked_length_field(n);
    lemma_unmask_masked(payload, key);
    if n <= 125 {
        let b1 = (0x80u8 | n as u8);
        assert(b1 & 0x80 != 0 && b1 & 0x7F == n as u8 && (n as u8) as u64 == n) by (bit_vector)
            requires
                b1 == (0x80u8 | n as u8),
                n <= 125,
        ;
        assert(frame[1] == b1);
        let hdr = frame_header_spec(frame[0], frame[1]);
        assert(hdr.len_code == n as u8);
        assert(frame.subrange(2, 6) =~= key);
        assert(frame.skip(6) =~= masked(payload, key));
    } else if n <= 65535 {
        let h = (n >> 8u64) as u8;
        let l = n as u8;
        assert(0xFEu8 & 0x80 != 0 && 0xFEu8 & 0x7F == 126) by (bit_vector);
        assert((((h as u64) << 8u64) | (l as u64)) == n) by (bit_vector)
            requires
                h == (n >> 8u64) as u8,
                l == n as u8,
                n <= 65535,
        ;
        assert(frame[1] == 0xFEu8);
        assert(frame.subrange(2, 4) =~= seq![h, l]);
        assert(frame.subrange(4, 8) =~= key);
        assert(frame.skip(8) =~= masked(payload, key));
    } else {
        assert(0xFFu8 & 0x80 != 0 && 0xFFu8 & 0x7F == 127) by (bit_vector);
        let b0 = (n >> 56u64) as u8;
        let b1 = (n >> 48u64) as u8;
        let b2 = (n >> 40u64) as u8;
        let b3 = (n >> 32u64) as u8;
        let b4 = (n >> 24u64) as u8;
        let b5 = (n >> 16u64) as u8;
        let b6 = (n >> 8u64) as u8;
        let b7 = n as u8;
        assert(((b0 as u64) << 56u64) | ((b1 as u64) << 48u64) | ((b2 as u64) << 40u64) | ((
        b3 as u64) << 32u64) | ((b4 as u64) << 24u64) | ((b5 as u64) << 16u64) | ((b6 as u64)
            << 8u64) | (b7 as u64) == n) by (bit_vector)
            requires
                b0 == (n >> 56u64) as u8,
                b1 == (n >> 48u64) as u8,
                b2 == (n >> 40u64) as u8,
                b3 == (n >> 32u64) as u8,
                b4 == (n >> 24u64) as u8,
                b5 == (n >> 16u64) as u8,
                b6 == (n >> 8u64) as u8,
                b7 == n as u8,
        ;
        assert(frame[1] == 0xFFu8);
        assert(frame.subrange(2, 10) =~= seq![b0, b1, b2, b3, b4, b5, b6, b7]);
        assert(frame.subrange(10, 14) =~= key);
        assert(frame.skip(14) =~= masked(payload, key));
    }
}

/// The part of an incoming frame the client reads next.
#[derive(Clone, Copy, Debug, PartialEq, Eq, Structural)]
pub enum ReadStage {
    /// The two leading bytes.
    Header,
    /// The 16-bit extended payload length.
    Length16,
    /// The 64-bit extended payload length.
    Length64,
    /// The masking key.
    Mask,
    /// The payload.
    Payload,
}

/// Where reading a frame stands once `bytes`, its leading bytes as read so
/// far, are in: how many more bytes to read next and for which part, or
/// that the server closed the connection (known from the header alone), or
/// the complete frame's opcode, unmasked payload and size.
pub enum FrameStep {
    Need(ReadStage, int),
    Closed,
    Complete(u8, Seq<u8>, nat),
}

/// Reading a frame part by part, in the client's order: the header, the
/// extended length bytes, the masking key when the mask bit is set, then
/// the payload.
pub open spec fn frame_step(bytes: Seq<u8>) -> FrameStep {
    if bytes.len() < 2 {
        FrameStep::Need(ReadStage::Header, 2 - bytes.len())
    } else {
        let h = frame_header_spec(bytes[0], bytes[1]);
        let e = extended_length_size(h.len_code) as int;
        if frame_kind_spec(h.opcode) == FrameKind::Close {
            FrameStep::Closed
        } else if bytes.len() < 2 + e {
            FrameStep::Need(
                if e == 2 {
                    ReadStage::Length16
                } else {
                    ReadStage::Length64
                },
                2 + e - bytes.len(),
            )
        } else {
            let n = payload_length_spec(h.len_code, bytes.subrange(2, 2 + e)) as int;
            let k = if h.masked {
                4int
            } else {
                0int
            };
            if bytes.len() < 2 + e + k {
                FrameStep::Need(ReadStage::Mask, 2 + e + k - bytes.len())
            } else if bytes.len() < 2 + e + k + n {
                FrameStep::Need(ReadStage::Payload, 2 + e + k + n - bytes.len())
            } else {
                let data = bytes.subrange(2 + e + k, 2 + e + k + n);
                let payload = if h.masked {
                    masked(data, bytes.subrange(2 + e, 6 + e))
                } else {
                    data
                };
                FrameStep::Complete(h.opcode, payload, (2 + e + k + n) as nat)
            }
        }
    }
}

/// The outcome of `read_frame`.
pub enum FrameRead {
    /// Read this many more bytes, for this part of the frame.
    Need(ReadStage, u64),
    /// The server closed the connection.
    Closed,
    /// The frame is complete: what to do with it, and its size.
    Complete(FrameAction, usize),
}

/// Takes the leading bytes of an incoming frame, as read so far, and says
/// how many more to read next, or that the server closed the connection,
/// or what to do with the complete frame.
pub fn read_frame(bytes: &[u8]) -> (r: FrameRead)
    ensures
        match frame_step(bytes@) {
            FrameStep::Need(stage, more) => r matches FrameRead::Need(s, m) && s == stage && m
                == more,
            FrameStep::Closed => r is Closed,
            FrameStep::Complete(opcode, payload, size) => r matches FrameRead::Complete(a, c)
                && c == size && is_action_for(a, opcode, payload),
        },
{
    let len = bytes.len();
    if len < 2 {
        return FrameRead::Need(ReadStage::Header, (2 - len) as u64);
    }
    let h = parse_frame_header(bytes[0], bytes[1]);
    let e = extended_length_bytes(h.len_code);
    if let FrameKind::Close = frame_kind(h.opcode) {
        return FrameRead::Closed;
    }
    if len < 2 + e {
        let stage = if e == 2 {
            ReadStage::Length16
        } else {
            ReadStage::Length64
        };
        return FrameRead::Need(stage, (2 + e - len) as u64);
    }
    let ext = copy_range(bytes, 2, 2 + e);
    let n = payload_length(h.len_code, ext.as_slice());
    let k: usize = if h.masked {
        4
    } else {
        0
    };
    let start = 2 + e + k;
    if len < start {
        return FrameRead::Need(ReadStage::Mask, (start - len) as u64);
    }
    let avail = (len - start) as u64;
    if avail < n {
        return FrameRead::Need(ReadStage::Payload, n - avail);
    }
    let end = start + n as usize;
    let mut data = copy_range(bytes, start, end);
    if h.masked {
        let key: [u8; 4] = [bytes[2 + e], bytes[3 + e], bytes[4 + e], bytes[5 + e]];
        assert(key@ =~= bytes@.subrange(2 + e, 6 + e));
        unmask(&mut data, key);
    }
    FrameRead::Complete(frame_action(h.opcode, data), end)
}

/// A text the client sends reads back as that text: while fewer than all
/// of its bytes are in, `read_frame` asks for more, and never for a byte
/// past its end, so that a reader whose next bytes are those sent takes
/// exactly them; once all are in, the frame is complete, takes exactly the
/// bytes sent, and its text is handed on.
pub proof fn lemma_sent_text_reads_back(text: Seq<u8>)
    requires
        text.len() <= u64::MAX,
    ensures
        ({
            let sent = client_frame(TEXT_FRAME_START, text, TEXT_MASK_KEY@);
            &&& forall|i: int|
                0 <= i < sent.len() ==> (#[trigger] frame_step(sent.take(i)) matches FrameStep::Need(
                    _,
                    more,
                ) && 0 < more && i + more <= sent.len())
            &&& frame_step(sent) == FrameStep::Complete(OPCODE_TEXT, text, sent.len())
            &&& frame_kind_spec(OPCODE_TEXT) == FrameKind::Text
        }),
{
    let key = TEXT_MASK_KEY@;
    assert(key.len() == 4);
    let f = client_frame(TEXT_FRAME_START, text, key);
    lemma_client_frame_roundtrip(TEXT_FRAME_START, text, key);
    let h = frame_header_spec(f[0], f[1]);
    let e = extended_length_size(h.len_code) as int;
    assert(0x81u8 & 0x0F == 1) by (bit_vector);
    assert(f[0] == TEXT_FRAME_START);
    assert(h.opcode == OPCODE_TEXT);
    assert forall|i: int| 0 <= i < f.len() implies (#[trigger] frame_step(f.take(i)) matches FrameStep::Need(
        _,
        more,
    ) && 0 < more && i + more <= f.len()) by {
        let b = f.take(i);
        if i >= 2 {
            assert(b[0] == f[0] && b[1] == f[1]);
            if i >= 2 + e {
                assert(b.subrange(2, 2 + e) =~= f.subrange(2, 2 + e));
            }
        }
    }
    assert(f.take(f.len() as int) =~= f);
    assert(f.subrange(6 + e, 6 + e + text.len()) =~= f.skip(6 + e));
}

} // verus!
