//! Reassembly of H.264 NAL units from RTP packets carried interleaved in an
//! RTSP/TCP connection (RFC 2326 section 10.12, RFC 6184).
//!
//! Each NAL unit handed out is in Annex-B form: prefixed with the start code
//! `00 00 00 01`.

use vstd::prelude::*;
use crate::bytes::append_bytes;
use crate::text::starts_with;

verus! {

/// The Annex-B start code.
pub open spec fn start_code() -> Seq<u8> {
    seq![0u8, 0u8, 0u8, 1u8]
}

/// The size of the fixed RTP header that precedes the payload.
pub const RTP_HEADER_LEN: usize = 12;

/// The byte (`$`) that opens an interleaved binary frame on an RTSP stream.
pub const INTERLEAVED_MAGIC: u8 = 36;

/// The aggregated units of a STAP-A payload after its type byte: each unit
/// is a 16-bit big-endian size followed by that many bytes; each complete
/// unit becomes a start code followed by the unit. A unit that does not fit
/// in what is left ends the list.
pub open spec fn stap_a_units(r: Seq<u8>) -> Seq<u8>
    decreases r.len(),
{
    if r.len() < 2 {
        Seq::empty()
    } else {
        let size = r[0] as int * 256 + r[1] as int;
        if 2 + size <= r.len() {
            start_code() + r.subrange(2, 2 + size) + stap_a_units(r.skip(2 + size))
        } else {
            Seq::empty()
        }
    }
}

/// The header of a NAL unit reassembled from FU-A fragments: the F and NRI
/// bits of the FU indicator with the type bits of the FU header.
pub open spec fn fu_a_header(indicator: u8, fu_header: u8) -> u8 {
    (indicator & 0xE0) | (fu_header & 0x1F)
}

/// What receiving one interleaved packet does: the pending FU-A buffer that
/// results and the NAL unit completed, if any.
///
/// Only channel 0 (RTP video) packets longer than the RTP header count. A
/// single NAL unit packet (types 1 to 23) is handed out as is; a STAP-A
/// (type 24) hands out all its units at once; an FU-A (type 28) fragment
/// starts, extends or completes the pending unit. Extending or completing
/// needs a started unit; other packets leave the pending unit as it is.
pub open spec fn receive_packet(pending: Seq<u8>, channel: u8, packet: Seq<u8>) -> (
    Seq<u8>,
    Option<Seq<u8>>,
) {
    let payload = packet.skip(RTP_HEADER_LEN as int);
    if channel != 0 || packet.len() <= RTP_HEADER_LEN {
        (pending, None)
    } else {
        let nal_type = payload[0] & 0x1F;
        if 1 <= nal_type <= 23 {
            (pending, Some(start_code() + payload))
        } else if nal_type == 24 {
            let units = stap_a_units(payload.skip(1));
            if units.len() > 0 {
                (pending, Some(units))
            } else {
                (pending, None)
            }
        } else if nal_type == 28 && payload.len() >= 2 {
            let is_start = payload[1] & 0x80 != 0;
            let is_end = payload[1] & 0x40 != 0;
            let data = payload.skip(2);
            let next = if is_start {
                start_code().push(fu_a_header(payload[0], payload[1])) + data
            } else if pending.len() > 0 {
                pending + data
            } else {
                pending
            };
            if is_end && next.len() > 0 {
                (Seq::empty(), Some(next))
            } else {
                (next, None)
            }
        } else {
            (pending, None)
        }
    }
}

/// A single NAL unit packet reads back whole: a channel 0 packet longer
/// than the RTP header whose payload opens with a NAL header of type 1 to
/// 23 hands out `00 00 00 01` followed by its payload, and leaves the
/// pending FU-A unit as it was.
pub proof fn lemma_single_nal_unit_read_back(pending: Seq<u8>, packet: Seq<u8>)
    requires
        packet.len() > 12,
        1 <= packet[12] & 0x1F <= 23,
    ensures
        receive_packet(pending, 0, packet) == (
            pending,
            Some(seq![0u8, 0u8, 0u8, 1u8] + packet.skip(12)),
        ),
{
    assert(packet.skip(12)[0] == packet[12]);
    assert(start_code() =~= seq![0u8, 0u8, 0u8, 1u8]);
}

/// Packets that carry no video NAL data change nothing and hand out
/// nothing: those on another channel than 0, those no longer than the RTP
/// header, and those whose payload's NAL type is 0 or one of 25, 26, 27,
/// 29, 30, 31 (types this client does not reassemble).
pub proof fn lemma_other_packets_ignored(pending: Seq<u8>, channel: u8, packet: Seq<u8>)
    requires
        channel != 0 || packet.len() <= 12 || {
            let t = packet[12] & 0x1F;
            t == 0 || t == 25 || t == 26 || t == 27 || t == 29 || t == 30 || t == 31
        },
    ensures
        receive_packet(pending, channel, packet) == (pending, None::<Seq<u8>>),
{
    if channel == 0 && packet.len() > 12 {
        assert(packet.skip(12)[0] == packet[12]);
    }
}

/// The channel and payload length an interleaved frame header announces:
/// its first byte, and its next two bytes read big-endian.
pub open spec fn interleaved_header_spec(header: Seq<u8>) -> (u8, nat) {
    (header[0], (header[1] as nat) * 256 + header[2] as nat)
}

/// Reads the three header bytes that follow `$` in an interleaved frame.
pub fn interleaved_header(header: [u8; 3]) -> (r: (u8, usize))
    ensures
        (r.0, r.1 as nat) == interleaved_header_spec(header@),
{
    (header[0], (header[1] as usize) * 256 + header[2] as usize)
}

/// Reassembles NAL units from RTP packets; holds the FU-A unit received so
/// far.
pub struct NaluAssembler {
    fu_buffer: Vec<u8>,
}

impl View for NaluAssembler {
    type V = Seq<u8>;

    /// The pending, not yet completed FU-A unit (empty when none).
    closed spec fn view(&self) -> Seq<u8> {
        self.fu_buffer@
    }
}

/// The STAP-A units of `p[pos..]`, appended to `out`.
fn collect_stap_a(p: &[u8], pos: usize, out: &mut Vec<u8>)
    requires
        pos <= p@.len(),
    ensures
        final(out)@ == old(out)@ + stap_a_units(p@.skip(pos as int)),
{
    let mut offset: usize = pos;
    let ghost o = out@;
    let sc: [u8; 4] = [0, 0, 0, 1];
    assert(sc@ =~= start_code());
    loop
        invariant
            pos <= offset <= p@.len(),
            sc@ == start_code(),
            o + stap_a_units(p@.skip(pos as int)) == out@ + stap_a_units(p@.skip(offset as int)),
        ensures
            final(out)@ == o + stap_a_units(p@.skip(pos as int)),
        decreases p@.len() - offset,
    {
        let ghost r = p@.skip(offset as int);
        if p.len() - offset < 2 {
            assert(stap_a_units(r) =~= Seq::<u8>::empty());
            assert(out@ + Seq::<u8>::empty() =~= out@);
            break;
        }
        let size = (p[offset] as usize) * 256 + p[offset + 1] as usize;
        assert(r[0] == p@[offset as int] && r[1] == p@[offset + 1]);
        if p.len() - offset - 2 < size {
            assert(stap_a_units(r) =~= Seq::<u8>::empty());
            assert(out@ + Seq::<u8>::empty() =~= out@);
            break;
        }
        let start = offset + 2;
        let ghost before = out@;
        append_bytes(out, &sc);
        append_bytes(out, &p[start..start + size]);
        assert(r.subrange(2, 2 + size as int) =~= p@.subrange(start as int, start + size));
        assert(r.skip(2 + size as int) =~= p@.skip(start + size));
        assert(out@ =~= before + start_code() + r.subrange(2, 2 + size as int));
        assert(before + stap_a_units(r) =~= out@ + stap_a_units(p@.skip(start + size)));
        offset = start + size;
    }
}

impl NaluAssembler {
    /// An assembler with no unit pending.
    pub fn new() -> (r: Self)
        ensures
            r@ == Seq::<u8>::empty(),
    {
        NaluAssembler { fu_buffer: Vec::new() }
    }

    /// Takes one interleaved packet (its channel and its bytes, RTP header
    /// included) and hands out the NAL unit it completes, if any.
    pub fn push_packet(&mut self, channel: u8, packet: &[u8]) -> (r: Option<Vec<u8>>)
        ensures
            (final(self)@, match r {
                Some(v) => Some(v@),
                None => None,
            }) == receive_packet(old(self)@, channel, packet@),
    {
        if channel != 0 || packet.len() <= RTP_HEADER_LEN {
            return None;
        }
        let ghost payload = packet@.skip(12);
        let first = packet[12];
        assert(payload[0] == first);
        let nal_type = first & 0x1F;
        let sc: [u8; 4] = [0, 0, 0, 1];
        assert(sc@ =~= start_code());
        if 1 <= nal_type && nal_type <= 23 {
            let mut nalu: Vec<u8> = Vec::new();
            append_bytes(&mut nalu, &sc);
            append_bytes(&mut nalu, &packet[12..packet.len()]);
            assert(packet@.subrange(12, packet@.len() as int) =~= payload);
            return Some(nalu);
        }
        if nal_type == 24 {
            let mut units: Vec<u8> = Vec::new();
            collect_stap_a(packet, 13, &mut units);
            assert(payload.skip(1) =~= packet@.skip(13));
            assert(Seq::<u8>::empty() + stap_a_units(packet@.skip(13)) =~= stap_a_units(
                packet@.skip(13),
            ));
            if units.len() > 0 {
                return Some(units);
            } else {
                return None;
            }
        }
        if nal_type == 28 && packet.len() >= 14 {
            let indicator = packet[12];
            let fu_header = packet[13];
            assert(payload[1] == fu_header);
            let is_start = fu_header & 0x80 != 0;
            let is_end = fu_header & 0x40 != 0;
            let data = &packet[14..packet.len()];
            assert(data@ =~= payload.skip(2));
            if is_start {
                let mut b: Vec<u8> = Vec::new();
                append_bytes(&mut b, &sc);
                b.push((indicator & 0xE0) | (fu_header & 0x1F));
                append_bytes(&mut b, data);
                self.fu_buffer = b;
            } else if self.fu_buffer.len() > 0 {
                append_bytes(&mut self.fu_buffer, data);
            }
            if is_end && self.fu_buffer.len() > 0 {
                let mut done: Vec<u8> = Vec::new();
                std::mem::swap(&mut done, &mut self.fu_buffer);
                return Some(done);
            }
            return None;
        }
        None
    }
}

/// A pending unit is empty or already opens with the start code.
pub open spec fn pending_well_formed(pending: Seq<u8>) -> bool {
    pending.len() == 0 || starts_with(pending, start_code())
}

proof fn lemma_stap_a_units_start(r: Seq<u8>)
    ensures
        stap_a_units(r).len() == 0 || starts_with(stap_a_units(r), start_code()),
    decreases r.len(),
{
    if r.len() >= 2 {
        let size = r[0] as int * 256 + r[1] as int;
        if 2 + size <= r.len() {
            let u = stap_a_units(r);
            assert(u.take(4) =~= start_code());
        }
    }
}

/// Every NAL unit handed out is in Annex-B form (opens with the start
/// code), and a pending unit stays empty or in that form: receiving a
/// packet keeps the assembler's invariant.
pub proof fn lemma_units_open_with_start_code(pending: Seq<u8>, channel: u8, packet: Seq<u8>)
    requires
        pending_well_formed(pending),
    ensures
        ({
            let (next, out) = receive_packet(pending, channel, packet);
            &&& pending_well_formed(next)
            &&& out matches Some(n) ==> n.len() > 0 && starts_with(n, start_code())
        }),
{
    let payload = packet.skip(RTP_HEADER_LEN as int);
    if channel != 0 || packet.len() <= RTP_HEADER_LEN {
    } else {
        let nal_type = payload[0] & 0x1F;
        if 1 <= nal_type <= 23 {
            assert((start_code() + payload).take(4) =~= start_code());
        } else if nal_type == 24 {
            lemma_stap_a_units_start(payload.skip(1));
        } else if nal_type == 28 && payload.len() >= 2 {
            let data = payload.skip(2);
            let h = fu_a_header(payload[0], payload[1]);
            assert((start_code().push(h) + data).take(4) =~= start_code());
            if pending.len() > 0 {
                assert((pending + data).take(4) =~= pending.take(4));
            }
        }
    }
}

/// An FU-A start fragment followed by an end fragment hands out the unit
/// they make together: the start code, the header rebuilt from the start
/// fragment's indicator and FU header, and both fragments' data.
pub proof fn lemma_fu_a_start_then_end(pending: Seq<u8>, first: Seq<u8>, last: Seq<u8>)
    requires
        first.len() >= 14,
        last.len() >= 14,
        first[12] & 0x1F == 28,
        last[12] & 0x1F == 28,
        first[13] & 0x80 != 0,
        first[13] & 0x40 == 0,
        last[13] & 0x80 == 0,
        last[13] & 0x40 != 0,
    ensures
        ({
            let (mid, out1) = receive_packet(pending, 0, first);
            let (end, out2) = receive_packet(mid, 0, last);
            &&& out1 is None
            &&& out2 == Some(
                start_code().push(fu_a_header(first[12], first[13])) + first.skip(14) + last.skip(
                    14,
                ),
            )
            &&& end.len() == 0
        }),
{
    let p1 = first.skip(12);
    let p2 = last.skip(12);
    assert(p1[0] == first[12] && p1[1] == first[13]);
    assert(p2[0] == last[12] && p2[1] == last[13]);
    assert(p1.skip(2) =~= first.skip(14));
    assert(p2.skip(2) =~= last.skip(14));
    let (mid, out1) = receive_packet(pending, 0, first);
    assert(mid == start_code().push(fu_a_header(first[12], first[13])) + first.skip(14));
    assert(mid.len() > 0);
}

/// A STAP-A payload after its type byte, made from `units`: each unit
/// preceded by its size as 16 bits big-endian.
pub open spec fn stap_a_body(units: Seq<Seq<u8>>) -> Seq<u8>
    decreases units.len(),
{
    if units.len() == 0 {
        Seq::empty()
    } else {
        seq![(units[0].len() / 256) as u8, (units[0].len() % 256) as u8] + units[0] + stap_a_body(
            units.skip(1),
        )
    }
}

/// `units` in Annex-B form, one after the other.
pub open spec fn annex_b(units: Seq<Seq<u8>>) -> Seq<u8>
    decreases units.len(),
{
    if units.len() == 0 {
        Seq::empty()
    } else {
        start_code() + units[0] + annex_b(units.skip(1))
    }
}

proof fn lemma_stap_a_body_units(units: Seq<Seq<u8>>)
    requires
        forall|i: int| 0 <= i < units.len() ==> #[trigger] units[i].len() <= 65535,
    ensures
        stap_a_units(stap_a_body(units)) == annex_b(units),
    decreases units.len(),
{
    if units.len() > 0 {
        let u = units[0];
        let tail = units.skip(1);
        assert forall|i: int| 0 <= i < tail.len() implies #[trigger] tail[i].len() <= 65535 by {
            assert(tail[i] == units[i + 1]);
        }
        lemma_stap_a_body_units(tail);
        let r = stap_a_body(units);
        let n = u.len() as int;
        assert(r[0] == (n / 256) as u8 && r[1] == (n % 256) as u8);
        assert((n / 256) as u8 as int * 256 + (n % 256) as u8 as int == n);
        assert(r.subrange(2, 2 + n) =~= u);
        assert(r.skip(2 + n) =~= stap_a_body(tail));
    }
}

/// A STAP-A packet built from units of at most 65535 bytes hands out all
/// of them, in order, each in Annex-B form, and leaves a pending FU-A unit
/// as it is.
pub proof fn lemma_stap_a_read_back(
    pending: Seq<u8>,
    rtp_header: Seq<u8>,
    indicator: u8,
    units: Seq<Seq<u8>>,
)
    requires
        rtp_header.len() == RTP_HEADER_LEN,
        indicator & 0x1F == 24,
        units.len() > 0,
        forall|i: int| 0 <= i < units.len() ==> #[trigger] units[i].len() <= 65535,
    ensures
        receive_packet(pending, 0, rtp_header + seq![indicator] + stap_a_body(units)) == (
            pending,
            Some(annex_b(units)),
        ),
{
    let packet = rtp_header + seq![indicator] + stap_a_body(units);
    let payload = packet.skip(RTP_HEADER_LEN as int);
    assert(payload[0] == indicator);
    assert(payload.skip(1) =~= stap_a_body(units));
    lemma_stap_a_body_units(units);
    assert(annex_b(units).len() >= 4);
}

/// Feeding channel-0 packets one after another: the pending unit left at
/// the end and what each packet handed out, in order.
pub open spec fn receive_all(pending: Seq<u8>, packets: Seq<Seq<u8>>) -> (
    Seq<u8>,
    Seq<Option<Seq<u8>>>,
)
    decreases packets.len(),
{
    if packets.len() == 0 {
        (pending, Seq::empty())
    } else {
        let (next, out) = receive_packet(pending, 0, packets[0]);
        let (last, outs) = receive_all(next, packets.skip(1));
        (last, seq![out] + outs)
    }
}

/// `f` is an FU-A fragment (an RTP packet of at least 14 bytes whose
/// payload type is 28) with the given start and end bits.
pub open spec fn is_fu_a_fragment(f: Seq<u8>, start: bool, end: bool) -> bool {
    &&& f.len() >= 14
    &&& f[12] & 0x1F == 28
    &&& (f[13] & 0x80 != 0) == start
    &&& (f[13] & 0x40 != 0) == end
}

/// The data of FU-A fragments after their two FU bytes, one after the
/// other.
pub open spec fn fu_a_data(frags: Seq<Seq<u8>>) -> Seq<u8>
    decreases frags.len(),
{
    if frags.len() == 0 {
        Seq::empty()
    } else {
        frags[0].skip(14) + fu_a_data(frags.skip(1))
    }
}

/// `n - 1` packets that hand out nothing.
pub open spec fn nothing_out(n: int) -> Seq<Option<Seq<u8>>> {
    Seq::new((n - 1) as nat, |i: int| None)
}

/// Middle fragments (neither start nor end) followed by an end fragment
/// extend a started unit and hand it out with the last one.
proof fn lemma_fu_a_continue(pending: Seq<u8>, frags: Seq<Seq<u8>>)
    requires
        pending.len() > 0,
        frags.len() > 0,
        forall|i: int| 0 <= i < frags.len() - 1 ==> is_fu_a_fragment(#[trigger] frags[i], false, false),
        is_fu_a_fragment(frags.last(), false, true),
    ensures
        receive_all(pending, frags) == (
            Seq::<u8>::empty(),
            nothing_out(frags.len() as int).push(Some(pending + fu_a_data(frags))),
        ),
    decreases frags.len(),
{
    let f = frags[0];
    let p = f.skip(12);
    assert(p[0] == f[12] && p[1] == f[13]);
    assert(p.skip(2) =~= f.skip(14));
    let rest = frags.skip(1);
    if frags.len() == 1 {
        assert(frags.last() == f);
        assert(rest =~= Seq::<Seq<u8>>::empty());
        assert(fu_a_data(rest) =~= Seq::<u8>::empty());
        assert(pending + f.skip(14) + Seq::<u8>::empty() =~= pending + f.skip(14));
        assert(receive_packet(pending, 0, f) == (Seq::<u8>::empty(), Some(pending + f.skip(14))));
        assert(receive_all(Seq::<u8>::empty(), rest) == (
            Seq::<u8>::empty(),
            Seq::<Option<Seq<u8>>>::empty(),
        ));
        assert(seq![Some(pending + f.skip(14))] + Seq::<Option<Seq<u8>>>::empty() =~= seq![
            Some(pending + f.skip(14)),
        ]);
        assert(seq![Some(pending + f.skip(14))] =~= nothing_out(1).push(
            Some(pending + fu_a_data(frags)),
        ));
    } else {
        assert(is_fu_a_fragment(f, false, false));
        let next = pending + f.skip(14);
        assert(receive_packet(pending, 0, f) == (next, None::<Seq<u8>>));
        assert forall|i: int| 0 <= i < rest.len() - 1 implies is_fu_a_fragment(
            #[trigger] rest[i],
            false,
            false,
        ) by {
            assert(rest[i] == frags[i + 1]);
        }
        assert(rest.last() == frags.last());
        lemma_fu_a_continue(next, rest);
        assert(receive_all(pending, frags) == (
            receive_all(next, rest).0,
            seq![None::<Seq<u8>>] + receive_all(next, rest).1,
        ));
        assert(next + fu_a_data(rest) =~= pending + fu_a_data(frags));
        assert(seq![None::<Seq<u8>>] + nothing_out(rest.len() as int).push(
            Some(next + fu_a_data(rest)),
        ) =~= nothing_out(frags.len() as int).push(Some(pending + fu_a_data(frags))));
    }
}

/// An FU-A unit split over fragments F1..Fn, received over as many calls
/// of `NaluAssembler::push_packet` (whose contract is `receive_packet`):
/// the start fragment, any middle fragments and the end fragment. Nothing
/// comes out until the end fragment, which hands out the start code, the
/// header rebuilt from the start fragment's indicator and FU header, and
/// the data of all fragments in order; no unit is left pending.
pub proof fn lemma_fu_a_fragments_read_back(pending: Seq<u8>, frags: Seq<Seq<u8>>)
    requires
        frags.len() >= 2,
        is_fu_a_fragment(frags[0], true, false),
        forall|i: int| 1 <= i < frags.len() - 1 ==> is_fu_a_fragment(#[trigger] frags[i], false, false),
        is_fu_a_fragment(frags.last(), false, true),
    ensures
        receive_all(pending, frags) == (
            Seq::<u8>::empty(),
            nothing_out(frags.len() as int).push(
                Some(start_code().push(fu_a_header(frags[0][12], frags[0][13])) + fu_a_data(frags)),
            ),
        ),
        receive_all(pending, frags).1.len() == frags.len(),
        forall|k: int| 0 <= k < frags.len() - 1 ==> #[trigger] receive_all(pending, frags).1[k] is None,
        receive_all(pending, frags).1[frags.len() - 1] == Some(
            start_code().push(fu_a_header(frags[0][12], frags[0][13])) + fu_a_data(frags),
        ),
{
    let f = frags[0];
    let p = f.skip(12);
    assert(p[0] == f[12] && p[1] == f[13]);
    assert(p.skip(2) =~= f.skip(14));
    let started = start_code().push(fu_a_header(f[12], f[13])) + f.skip(14);
    assert(receive_packet(pending, 0, f) == (started, None::<Seq<u8>>));
    let rest = frags.skip(1);
    assert forall|i: int| 0 <= i < rest.len() - 1 implies is_fu_a_fragment(
        #[trigger] rest[i],
        false,
        false,
    ) by {
        assert(rest[i] == frags[i + 1]);
    }
    assert(rest.last() == frags.last());
    lemma_fu_a_continue(started, rest);
    assert(receive_all(pending, frags) == (
        receive_all(started, rest).0,
        seq![None::<Seq<u8>>] + receive_all(started, rest).1,
    ));
    assert(started + fu_a_data(rest) =~= start_code().push(fu_a_header(f[12], f[13])) + fu_a_data(
        frags,
    ));
    assert(seq![None::<Seq<u8>>] + nothing_out(rest.len() as int).push(
        Some(started + fu_a_data(rest)),
    ) =~= nothing_out(frags.len() as int).push(
        Some(start_code().push(fu_a_header(f[12], f[13])) + fu_a_data(frags)),
    ));
}

/// An FU-A fragment that arrives with no unit started (not a start
/// fragment, nothing pending) is dropped: nothing comes out and nothing is
/// pending.
pub proof fn lemma_fu_a_without_start_dropped(f: Seq<u8>, end: bool)
    requires
        is_fu_a_fragment(f, false, end),
    ensures
        receive_packet(Seq::empty(), 0, f) == (Seq::<u8>::empty(), None::<Seq<u8>>),
{
    let p = f.skip(12);
    assert(p[0] == f[12] && p[1] == f[13]);
}

} // verus!
