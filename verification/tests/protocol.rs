use awc_gui::base64::{base64_value_of, decode_base64};
use awc_gui::rtp::{interleaved_header, NaluAssembler};
use awc_gui::rtsp::{
    base_url, control_url, is_blank_line, parameter_sets, response_ok, session_header,
    update_content_length, HandshakeStep, RtspHandshake,
};
use awc_gui::ws::{
    encode_client_frame, extended_length_bytes, frame_kind, parse_frame_header, payload_length,
    pong_frame, read_frame, text_frame, unmask, upgrade_request, FrameAction, FrameKind, FrameRead,
    ReadStage, TEXT_MASK_KEY,
};

fn rtp(payload: &[u8]) -> Vec<u8> {
    let mut p = vec![0x80u8, 96, 0, 1, 0, 0, 0, 0, 0, 0, 0, 1];
    p.extend_from_slice(payload);
    p
}

#[test]
fn base64_decodes_padded_text() {
    assert_eq!(decode_base64("aGVsbG8="), Some(b"hello".to_vec()));
    assert_eq!(decode_base64("AAECAw=="), Some(vec![0, 1, 2, 3]));
    assert_eq!(decode_base64("  QUJD\n"), Some(b"ABC".to_vec()));
}

#[test]
fn base64_skips_foreign_bytes_and_stops_at_padding() {
    assert_eq!(decode_base64("QU JD"), Some(b"ABC".to_vec()));
    assert_eq!(decode_base64("QQ=QUJD"), Some(b"A".to_vec()));
    assert_eq!(decode_base64("QQ"), Some(b"A".to_vec()));
    assert_eq!(decode_base64(""), Some(Vec::new()));
    assert_eq!(base64_value_of(b'+'), Some(62));
    assert_eq!(base64_value_of(b'/'), Some(63));
    assert_eq!(base64_value_of(b'z'), Some(51));
    assert_eq!(base64_value_of(b'-'), None);
}

#[test]
fn rtp_single_nal_unit() {
    let mut a = NaluAssembler::new();
    assert_eq!(a.push_packet(0, &rtp(&[0x65, 1, 2, 3])), Some(vec![0, 0, 0, 1, 0x65, 1, 2, 3]));
}

#[test]
fn rtp_ignores_other_channels_and_short_packets() {
    let mut a = NaluAssembler::new();
    assert_eq!(a.push_packet(1, &rtp(&[0x65, 1])), None);
    assert_eq!(a.push_packet(0, &rtp(&[])), None);
    assert_eq!(a.push_packet(0, &[1, 2, 3]), None);
    assert_eq!(a.push_packet(0, &rtp(&[0x00, 9])), None);
}

#[test]
fn rtp_stap_a_unpacks_complete_units() {
    let mut a = NaluAssembler::new();
    let payload = [0x18u8, 0x00, 0x02, 0x67, 0xAA, 0x00, 0x01, 0x68, 0x00, 0x05, 0x01];
    assert_eq!(
        a.push_packet(0, &rtp(&payload)),
        Some(vec![0, 0, 0, 1, 0x67, 0xAA, 0, 0, 0, 1, 0x68])
    );
    assert_eq!(a.push_packet(0, &rtp(&[0x18, 0x00, 0x09, 0x01])), None);
}

#[test]
fn rtp_fu_a_reassembles_fragments() {
    let mut a = NaluAssembler::new();
    assert_eq!(a.push_packet(0, &rtp(&[0x7C, 0x85, 1, 2])), None);
    assert_eq!(a.push_packet(0, &rtp(&[0x7C, 0x05, 3])), None);
    assert_eq!(a.push_packet(0, &rtp(&[0x7C, 0x45, 4])), Some(vec![0, 0, 0, 1, 0x65, 1, 2, 3, 4]));
    assert_eq!(a.push_packet(0, &rtp(&[0x7C, 0x45, 5])), None);
}

#[test]
fn rtp_fu_a_needs_a_start() {
    let mut a = NaluAssembler::new();
    assert_eq!(a.push_packet(0, &rtp(&[0x7C, 0x05, 3])), None);
    assert_eq!(a.push_packet(0, &rtp(&[0x7C, 0x45, 4])), None);
    assert_eq!(a.push_packet(0, &rtp(&[0x5C, 0xC1, 7])), Some(vec![0, 0, 0, 1, 0x41, 7]));
}

#[test]
fn interleaved_header_reads_channel_and_length() {
    assert_eq!(interleaved_header([0, 0x01, 0x02]), (0, 258));
    assert_eq!(interleaved_header([1, 0xFF, 0xFF]), (1, 65535));
}

#[test]
fn ws_text_frame_is_masked() {
    assert_eq!(text_frame(b"hi"), vec![0x81, 0x82, 0x1B, 0x3F, 0x7A, 0x9C, 0x73, 0x56]);
}

#[test]
fn ws_frame_length_encodings() {
    let mid = encode_client_frame(0x81, &[0u8; 200], TEXT_MASK_KEY);
    assert_eq!(&mid[0..4], &[0x81, 0xFE, 0x00, 0xC8]);
    assert_eq!(&mid[4..8], &TEXT_MASK_KEY);
    assert_eq!(mid.len(), 8 + 200);
    assert_eq!(&mid[8..12], &TEXT_MASK_KEY);
    let big = encode_client_frame(0x81, &vec![0u8; 70000], TEXT_MASK_KEY);
    assert_eq!(&big[0..10], &[0x81, 0xFF, 0, 0, 0, 0, 0, 0x01, 0x11, 0x70]);
    assert_eq!(big.len(), 14 + 70000);
}

#[test]
fn ws_pong_frame_echoes_payload() {
    assert_eq!(pong_frame(b""), vec![0x8A, 0x80, 0x5A, 0x3B, 0x1C, 0x7E]);
    assert_eq!(pong_frame(&[0x5A]), vec![0x8A, 0x81, 0x5A, 0x3B, 0x1C, 0x7E, 0x00]);
}

#[test]
fn ws_incoming_header_fields() {
    let h = parse_frame_header(0x81, 0x7E);
    assert_eq!(h.opcode, 1);
    assert!(!h.masked);
    assert_eq!(h.len_code, 126);
    let h2 = parse_frame_header(0x89, 0x85);
    assert_eq!(h2.opcode, 9);
    assert!(h2.masked);
    assert_eq!(h2.len_code, 5);
    assert_eq!(extended_length_bytes(126), 2);
    assert_eq!(extended_length_bytes(127), 8);
    assert_eq!(extended_length_bytes(125), 0);
    assert_eq!(payload_length(126, &[0x01, 0x00]), 256);
    assert_eq!(payload_length(127, &[0, 0, 0, 0, 0, 1, 0, 0]), 65536);
    assert_eq!(payload_length(5, &[]), 5);
}

#[test]
fn ws_unmask_restores_payload() {
    let key = [1u8, 2, 3, 4];
    let frame = encode_client_frame(0x81, b"hello", key);
    let mut data = frame[6..].to_vec();
    unmask(&mut data, key);
    assert_eq!(data, b"hello".to_vec());
}

#[test]
fn ws_frame_kinds() {
    assert_eq!(frame_kind(0x8), FrameKind::Close);
    assert_eq!(frame_kind(0x9), FrameKind::Ping);
    assert_eq!(frame_kind(0x1), FrameKind::Text);
    assert_eq!(frame_kind(0x2), FrameKind::Other);
    assert_eq!(frame_kind(0xA), FrameKind::Other);
}

#[test]
fn ws_upgrade_request_text() {
    let r = upgrade_request("127.0.0.1", 8080);
    let expected = "GET /ws HTTP/1.1\r\nHost: 127.0.0.1:8080\r\nUpgrade: websocket\r\nConnection: Upgrade\r\nSec-WebSocket-Key: dGhlIHNhbXBsZSBub25jZQ==\r\nSec-WebSocket-Version: 13\r\n\r\n";
    assert_eq!(r, expected.as_bytes().to_vec());
}

#[test]
fn rtsp_base_url_text() {
    assert_eq!(base_url("127.0.0.1", 8554), b"rtsp://127.0.0.1:8554/".to_vec());
    assert_eq!(base_url("10.0.0.2", 0), b"rtsp://10.0.0.2:0/".to_vec());
}

#[test]
fn rtsp_response_reading() {
    assert!(response_ok(b"RTSP/1.0 200 OK\r\n"));
    assert!(!response_ok(b"RTSP/1.0 404 Not Found\r\n"));
    assert!(is_blank_line(b"\r\n"));
    assert!(is_blank_line(b"\n"));
    assert!(!is_blank_line(b" \r\n"));
    assert_eq!(update_content_length(b"Content-Length: 42\r\n", 0), 42);
    assert_eq!(update_content_length(b"CONTENT-LENGTH:7\n", 3), 7);
    assert_eq!(update_content_length(b"content-length: abc\r\n", 7), 0);
    assert_eq!(update_content_length(b"CSeq: 2\r\n", 7), 7);
}

#[test]
fn rtsp_control_url_choices() {
    let base = b"rtsp://1.2.3.4:8554/";
    assert_eq!(control_url(base, b"v=0\r\na=control:track0\r\n"), b"rtsp://1.2.3.4:8554/track0".to_vec());
    assert_eq!(control_url(base, b"a=control:*\r\n"), base.to_vec());
    assert_eq!(control_url(base, b"a=control:rtsp://9.9.9.9/s1 \r\n"), b"rtsp://9.9.9.9/s1".to_vec());
    assert_eq!(control_url(b"rtsp://h", b"a=control:t1\na=control:t2\n"), b"rtsp://h/t2".to_vec());
    assert_eq!(control_url(base, b"m=video 0 RTP/AVP 96\r\n"), base.to_vec());
}

#[test]
fn rtsp_session_header_line() {
    assert_eq!(
        session_header(b"RTSP/1.0 200 OK\r\nSession: 12345678;timeout=60\r\n\r\n"),
        b"Session: 12345678\r\n".to_vec()
    );
    assert_eq!(session_header(b"session:  abc \r\n"), b"Session: abc\r\n".to_vec());
    assert_eq!(session_header(b"RTSP/1.0 200 OK\r\n\r\n"), Vec::<u8>::new());
}

#[test]
fn rtsp_parameter_sets_from_sdp() {
    let sdp = b"m=video 0 RTP/AVP 96\r\na=fmtp:96 packetization-mode=1;sprop-parameter-sets=AAEC,AwQF;profile-level-id=42\r\n";
    assert_eq!(parameter_sets(sdp), vec![vec![0, 0, 0, 1, 0, 1, 2], vec![0, 0, 0, 1, 3, 4, 5]]);
    assert!(parameter_sets(b"v=0\r\n").is_empty());
}

#[test]
fn rtsp_handshake_sequence() {
    let mut h = RtspHandshake::new("127.0.0.1", 8554);
    assert_eq!(
        h.request(),
        Some(b"OPTIONS rtsp://127.0.0.1:8554/ RTSP/1.0\r\nCSeq: 1\r\nUser-Agent: AWC-Native\r\n\r\n".to_vec())
    );
    assert!(h.on_response(b"RTSP/1.0 200 OK\r\nCSeq: 1\r\n\r\n").is_ok());
    assert_eq!(h.step, HandshakeStep::Describe);
    assert_eq!(
        h.request(),
        Some(b"DESCRIBE rtsp://127.0.0.1:8554/ RTSP/1.0\r\nCSeq: 2\r\nAccept: application/sdp\r\nUser-Agent: AWC-Native\r\n\r\n".to_vec())
    );
    let describe = b"RTSP/1.0 200 OK\r\nCSeq: 2\r\n\r\nv=0\r\na=fmtp:96 sprop-parameter-sets=AAEC,AwQF\r\na=control:trackID=1\r\n";
    assert!(h.on_response(describe).is_ok());
    assert_eq!(h.sps_pps, vec![vec![0, 0, 0, 1, 0, 1, 2], vec![0, 0, 0, 1, 3, 4, 5]]);
    assert_eq!(
        h.request(),
        Some(b"SETUP rtsp://127.0.0.1:8554/trackID=1 RTSP/1.0\r\nCSeq: 3\r\nTransport: RTP/AVP/TCP;unicast;interleaved=0-1\r\nUser-Agent: AWC-Native\r\n\r\n".to_vec())
    );
    assert!(h.on_response(b"RTSP/1.0 200 OK\r\nSession: 42;timeout=60\r\n\r\n").is_ok());
    assert_eq!(
        h.request(),
        Some(b"PLAY rtsp://127.0.0.1:8554/ RTSP/1.0\r\nCSeq: 4\r\nSession: 42\r\nRange: npt=0.000-\r\nUser-Agent: AWC-Native\r\n\r\n".to_vec())
    );
    assert!(h.on_response(b"RTSP/1.0 200 OK\r\n\r\n").is_ok());
    assert_eq!(h.step, HandshakeStep::Done);
    assert_eq!(h.request(), None);
}

#[test]
fn rtsp_refused_step_reports_method() {
    let mut h = RtspHandshake::new("127.0.0.1", 8554);
    let r = h.on_response(b"RTSP/1.0 404 Not Found\r\n\r\n");
    assert_eq!(r, Err(b"OPTIONS failed: RTSP/1.0 404 Not Found\r\n\r\n".to_vec()));
    assert_eq!(h.step, HandshakeStep::Options);
    assert!(h.on_response(b"RTSP/1.0 200 OK\r\n\r\n").is_ok());
    let r2 = h.on_response(b"RTSP/1.0 500 Internal\r\n");
    assert_eq!(r2, Err(b"DESCRIBE failed: RTSP/1.0 500 Internal\r\n".to_vec()));
}

#[test]
fn ws_client_frame_reads_back() {
    let payload: Vec<u8> = (0..200u32).map(|i| (i * 7 % 256) as u8).collect();
    let frame = text_frame(&payload);
    let h = parse_frame_header(frame[0], frame[1]);
    assert_eq!(h.opcode, 1);
    assert!(h.masked);
    let e = extended_length_bytes(h.len_code);
    assert_eq!(payload_length(h.len_code, &frame[2..2 + e]), 200);
    assert_eq!(&frame[2 + e..6 + e], &TEXT_MASK_KEY);
    let mut data = frame[6 + e..].to_vec();
    unmask(&mut data, TEXT_MASK_KEY);
    assert_eq!(data, payload);
}

#[test]
fn rtp_fu_a_start_then_end() {
    let mut a = NaluAssembler::new();
    assert_eq!(a.push_packet(0, &rtp(&[0x3C, 0x81, 9, 8])), None);
    assert_eq!(a.push_packet(0, &rtp(&[0x3C, 0x41, 7])), Some(vec![0, 0, 0, 1, 0x21, 9, 8, 7]));
}

#[test]
fn rtp_stap_a_units_read_back_in_order() {
    let mut a = NaluAssembler::new();
    assert_eq!(a.push_packet(0, &rtp(&[0x7C, 0x85, 1])), None);
    let payload = [0x78u8, 0x00, 0x03, 0x67, 1, 2, 0x00, 0x02, 0x68, 3];
    assert_eq!(
        a.push_packet(0, &rtp(&payload)),
        Some(vec![0, 0, 0, 1, 0x67, 1, 2, 0, 0, 0, 1, 0x68, 3])
    );
    assert_eq!(a.push_packet(0, &rtp(&[0x7C, 0x45, 2])), Some(vec![0, 0, 0, 1, 0x65, 1, 2]));
}

#[test]
fn base64_standard_encoding_reads_back() {
    assert_eq!(decode_base64("Z0IAH5WoFAFuQA=="), Some(vec![0x67, 0x42, 0x00, 0x1F, 0x95, 0xA8, 0x14, 0x01, 0x6E, 0x40]));
    assert_eq!(decode_base64("Z0IAH5WoFAFuQA"), Some(vec![0x67, 0x42, 0x00, 0x1F, 0x95, 0xA8, 0x14, 0x01, 0x6E, 0x40]));
    assert_eq!(decode_base64("aM48gA=="), Some(vec![0x68, 0xCE, 0x3C, 0x80]));
    assert_eq!(decode_base64("aM48gA==junk"), decode_base64("aM48gA"));
    assert_eq!(decode_base64("aM4\t8g-A"), decode_base64("aM48gA"));
    assert_eq!(decode_base64("aM48g").unwrap().len(), 6 * 5 / 8);
}

#[test]
fn rtp_fu_a_over_many_fragments() {
    let mut a = NaluAssembler::new();
    assert_eq!(a.push_packet(0, &rtp(&[0x7C, 0x85, 1, 2])), None);
    assert_eq!(a.push_packet(0, &rtp(&[0x7C, 0x05, 3])), None);
    assert_eq!(a.push_packet(0, &rtp(&[0x7C, 0x05])), None);
    assert_eq!(a.push_packet(0, &rtp(&[0x7C, 0x05, 4, 5])), None);
    assert_eq!(a.push_packet(0, &rtp(&[0x7C, 0x45, 6])), Some(vec![0, 0, 0, 1, 0x65, 1, 2, 3, 4, 5, 6]));
}

#[test]
fn ws_frame_actions() {
    assert_eq!(frame_action_kind(0x9, b"p"), ("reply", pong_frame(b"p")));
    assert_eq!(frame_action_kind(0x1, b"hi"), ("deliver", b"hi".to_vec()));
    assert_eq!(frame_action_kind(0x2, b"x"), ("ignore", Vec::new()));
    assert_eq!(frame_action_kind(0x8, b""), ("ignore", Vec::new()));
}

fn frame_action_kind(opcode: u8, payload: &[u8]) -> (&'static str, Vec<u8>) {
    match awc_gui::ws::frame_action(opcode, payload.to_vec()) {
        awc_gui::ws::FrameAction::Reply(f) => ("reply", f),
        awc_gui::ws::FrameAction::Deliver(t) => ("deliver", t),
        awc_gui::ws::FrameAction::Ignore => ("ignore", Vec::new()),
    }
}

#[test]
fn base64_foreign_bytes_anywhere() {
    assert_eq!(decode_base64(" a M-4\n8 g A = = x"), decode_base64("aM48gA=="));
    assert_eq!(decode_base64("a.M.4.8.g.A"), Some(vec![0x68, 0xCE, 0x3C, 0x80]));
}

#[test]
fn ws_sent_text_reads_back_from_stream() {
    let text = "{\"camera\":\"front\"}";
    let mut wire = text_frame(text.as_bytes());
    let sent = wire.len();
    wire.extend_from_slice(&[0x81, 0x00]);
    // Read as the client does: only as many bytes as read_frame asks for.
    let mut frame: Vec<u8> = Vec::new();
    let mut stages = Vec::new();
    loop {
        match read_frame(&frame) {
            FrameRead::Need(stage, more) => {
                stages.push(stage);
                let start = frame.len();
                frame.extend_from_slice(&wire[start..start + more as usize]);
            }
            FrameRead::Closed => panic!("text frame read as close"),
            FrameRead::Complete(action, size) => {
                assert_eq!(size, sent);
                assert_eq!(frame.len(), sent);
                match action {
                    FrameAction::Deliver(t) => assert_eq!(String::from_utf8(t).unwrap(), text),
                    _ => panic!("text frame not delivered"),
                }
                break;
            }
        }
    }
    assert_eq!(stages, vec![ReadStage::Header, ReadStage::Mask, ReadStage::Payload]);
}

#[test]
fn ws_read_frame_stages() {
    // A server text frame, unmasked, with a 16-bit length.
    let mut wire = vec![0x81, 126, 0x00, 0x80];
    wire.extend(std::iter::repeat(b'a').take(128));
    assert!(matches!(read_frame(&[]), FrameRead::Need(ReadStage::Header, 2)));
    assert!(matches!(read_frame(&wire[..1]), FrameRead::Need(ReadStage::Header, 1)));
    assert!(matches!(read_frame(&wire[..2]), FrameRead::Need(ReadStage::Length16, 2)));
    assert!(matches!(read_frame(&wire[..4]), FrameRead::Need(ReadStage::Payload, 128)));
    assert!(matches!(read_frame(&wire[..100]), FrameRead::Need(ReadStage::Payload, 32)));
    match read_frame(&wire) {
        FrameRead::Complete(FrameAction::Deliver(t), 132) => assert_eq!(t, vec![b'a'; 128]),
        _ => panic!("server text frame not read"),
    }
    // A 64-bit length asks for its eight bytes.
    assert!(matches!(read_frame(&[0x82, 127]), FrameRead::Need(ReadStage::Length64, 8)));
    // A close frame is known from its header.
    assert!(matches!(read_frame(&[0x88, 0x02]), FrameRead::Closed));
    // A masked ping is unmasked and answered with a pong.
    let ping = [0x89, 0x82, 1, 2, 3, 4, b'h' ^ 1, b'i' ^ 2];
    assert!(matches!(read_frame(&ping[..2]), FrameRead::Need(ReadStage::Mask, 4)));
    match read_frame(&ping) {
        FrameRead::Complete(FrameAction::Reply(pong), 8) => assert_eq!(pong, pong_frame(b"hi")),
        _ => panic!("ping not answered"),
    }
    // A binary frame is ignored.
    assert!(matches!(read_frame(&[0x82, 0x01, 7]), FrameRead::Complete(FrameAction::Ignore, 3)));
}
