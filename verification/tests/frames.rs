use awc_gui::decode::{camera_preview, decode_jpeg_to_rgb, store_decoded_jpeg, DecodedJpeg, InProcessRtspDecoder, CAM_HEIGHT, CAM_WIDTH};
use awc_gui::mjpeg::{parse_content_length, read_next_jpeg};
use awc_gui::pipeline::{fill_nv12_frame, i420_to_nv12, nv12_frame_fits, rgb_to_nv12, rgb_to_preview_rgba, I420Planes};
use awc_gui::text::find_marker;

/// A baseline JPEG of 8 x 8 mid-grey pixels: one block per component, DC
/// difference 0 and end-of-block only.
fn grey_jpeg() -> Vec<u8> {
    let mut j: Vec<u8> = vec![0xFF, 0xD8];
    j.extend_from_slice(&[0xFF, 0xDB, 0x00, 0x43, 0x00]);
    j.extend_from_slice(&[1u8; 64]);
    j.extend_from_slice(&[
        0xFF, 0xC0, 0x00, 0x11, 0x08, 0x00, 0x08, 0x00, 0x08, 0x03, 0x01, 0x11, 0x00, 0x02, 0x11,
        0x00, 0x03, 0x11, 0x00,
    ]);
    for class in [0x00u8, 0x10u8] {
        j.extend_from_slice(&[0xFF, 0xC4, 0x00, 0x14, class, 1]);
        j.extend_from_slice(&[0u8; 15]);
        j.push(0x00);
    }
    j.extend_from_slice(&[
        0xFF, 0xDA, 0x00, 0x0C, 0x03, 0x01, 0x00, 0x02, 0x00, 0x03, 0x00, 0x00, 0x3F, 0x00,
    ]);
    j.push(0x03);
    j.extend_from_slice(&[0xFF, 0xD9]);
    j
}

#[test]
fn find_marker_first_occurrence() {
    assert_eq!(find_marker(b"abcabc", b"bc"), Some(1));
    assert_eq!(find_marker(b"abc", b"abc"), Some(0));
    assert_eq!(find_marker(b"abc", b"x"), None);
    assert_eq!(find_marker(b"ab", b"abc"), None);
    assert_eq!(find_marker(b"abc", b""), Some(0));
    assert_eq!(find_marker(b"\r\n\r\n", &[13, 10, 13, 10]), Some(0));
}

#[test]
fn mjpeg_frame_cut_by_content_length() {
    let mut buf: Vec<u8> = Vec::new();
    buf.extend_from_slice(b"--frame\r\nContent-Type: image/jpeg\r\nContent-Length: 4\r\n\r\n");
    buf.extend_from_slice(&[0xFF, 0xD8, 0xAA, 0xBB]);
    buf.extend_from_slice(b"--next");
    let frame = read_next_jpeg(&mut buf);
    assert_eq!(frame, Some(vec![0xFF, 0xD8, 0xAA, 0xBB]));
    assert_eq!(buf, b"--next".to_vec());
}

#[test]
fn mjpeg_frame_starts_at_soi_inside_payload() {
    let mut buf: Vec<u8> = Vec::new();
    buf.extend_from_slice(b"Content-Length:   6 \r\n\r\n");
    buf.extend_from_slice(&[0x00, 0x11, 0xFF, 0xD8, 0x01, 0x02, 0x77]);
    let frame = read_next_jpeg(&mut buf);
    assert_eq!(frame, Some(vec![0xFF, 0xD8, 0x01, 0x02]));
    assert_eq!(buf, vec![0x77]);
}

#[test]
fn mjpeg_incomplete_frame_waits() {
    let mut buf: Vec<u8> = Vec::new();
    buf.extend_from_slice(b"Content-Length: 10\r\n\r\n");
    buf.extend_from_slice(&[0xFF, 0xD8, 0x01]);
    let before = buf.clone();
    assert_eq!(read_next_jpeg(&mut buf), None);
    assert_eq!(buf, before);
    buf.extend_from_slice(&[2, 3, 4, 5, 6, 7, 8]);
    assert_eq!(read_next_jpeg(&mut buf), Some(vec![0xFF, 0xD8, 1, 2, 3, 4, 5, 6, 7, 8]));
    assert!(buf.is_empty());
}

#[test]
fn mjpeg_no_header_end_waits() {
    let mut buf: Vec<u8> = b"--frame\r\nContent-Length: 4\r\n".to_vec();
    assert_eq!(read_next_jpeg(&mut buf), None);
    assert_eq!(buf, b"--frame\r\nContent-Length: 4\r\n".to_vec());
}

#[test]
fn mjpeg_desynced_part_is_skipped() {
    let mut buf: Vec<u8> = Vec::new();
    buf.extend_from_slice(b"Content-Length: 2\r\n\r\nxx");
    buf.extend_from_slice(b"Content-Length: 3\r\n\r\n");
    buf.extend_from_slice(&[0xFF, 0xD8, 0x09]);
    assert_eq!(read_next_jpeg(&mut buf), Some(vec![0xFF, 0xD8, 0x09]));
    assert!(buf.is_empty());
}

#[test]
fn mjpeg_frame_cut_at_eoi_without_length() {
    let mut buf: Vec<u8> = Vec::new();
    buf.extend_from_slice(b"--f\r\nContent-Type: image/jpeg\r\n\r\njunk");
    buf.extend_from_slice(&[0xFF, 0xD8, 0x01, 0x02, 0xFF, 0xD9]);
    buf.extend_from_slice(b"tail");
    assert_eq!(read_next_jpeg(&mut buf), Some(vec![0xFF, 0xD8, 0x01, 0x02, 0xFF, 0xD9]));
    assert_eq!(buf, b"tail".to_vec());
}

#[test]
fn mjpeg_without_length_waits_for_eoi() {
    let mut buf: Vec<u8> = Vec::new();
    buf.extend_from_slice(b"--f\r\n\r\n");
    buf.extend_from_slice(&[0xFF, 0xD8, 0x01]);
    let before = buf.clone();
    assert_eq!(read_next_jpeg(&mut buf), None);
    assert_eq!(buf, before);
}

#[test]
fn mjpeg_part_without_soi_is_dropped() {
    let mut buf: Vec<u8> = b"--f\r\n\r\nno image here".to_vec();
    assert_eq!(read_next_jpeg(&mut buf), None);
    assert_eq!(buf, b"no image here".to_vec());
}

#[test]
fn content_length_header_reading() {
    let h = b"--frame\r\nContent-Type: image/jpeg\r\nContent-Length: 1234\r\n\r\n";
    let end = find_marker(h, &[13, 10, 13, 10]).unwrap();
    assert_eq!(parse_content_length(h, end), Some(1234));
    let h2 = b"Content-Length: 12x\r\nContent-Length: 5\r\n\r\n";
    let end2 = find_marker(h2, &[13, 10, 13, 10]).unwrap();
    assert_eq!(parse_content_length(h2, end2), None);
    let h3 = b"content-length: 5\r\n\r\n";
    let end3 = find_marker(h3, &[13, 10, 13, 10]).unwrap();
    assert_eq!(parse_content_length(h3, end3), None);
}

#[test]
fn preview_frame_adds_opaque_alpha() {
    let rgb = [1u8, 2, 3, 4, 5, 6, 7];
    let f = rgb_to_preview_rgba(&rgb, 2, 1);
    assert_eq!(f.width, 2);
    assert_eq!(f.height, 1);
    assert_eq!(f.rgba, vec![1, 2, 3, 255, 4, 5, 6, 255]);
}

#[test]
fn rgb_to_nv12_known_values() {
    let rgb = [255u8, 0, 0, 0, 255, 0, 0, 0, 255, 255, 255, 255];
    let mut out = [0u8; 6];
    rgb_to_nv12(&rgb, 2, 2, &mut out);
    assert_eq!(out, [82, 144, 41, 235, 90, 240]);
}

#[test]
fn rgb_to_nv12_samples_even_pixels() {
    let mut rgb: Vec<u8> = Vec::new();
    for i in 0..8u8 {
        rgb.extend_from_slice(&[10 * i, 20 * i, 30 * i]);
    }
    let mut out = [9u8; 12];
    rgb_to_nv12(&rgb, 4, 2, &mut out);
    assert_eq!(out, [16, 32, 47, 63, 78, 94, 110, 125, 128, 128, 140, 118]);
}

#[test]
fn fill_nv12_frame_resizes_buffer() {
    let rgb = [0u8; 12];
    let mut buf: Vec<u8> = vec![7; 100];
    fill_nv12_frame(&rgb, 2, 2, &mut buf);
    assert_eq!(buf, vec![16, 16, 16, 16, 128, 128]);
}

#[test]
fn i420_to_nv12_skips_stride_padding() {
    let y = [1u8, 2, 3, 4, 0, 0, 5, 6, 7, 8, 0, 0];
    let u = [10u8, 11, 99];
    let v = [20u8, 21, 99];
    let planes = I420Planes { width: 4, height: 2, y: &y, u: &u, v: &v, y_stride: 6, u_stride: 3, v_stride: 3 };
    let mut out = [0u8; 12];
    i420_to_nv12(&planes, &mut out);
    assert_eq!(out, [1, 2, 3, 4, 5, 6, 7, 8, 10, 20, 11, 21]);
}

#[test]
fn decode_jpeg_rejects_garbage() {
    let mut rgb = vec![1u8, 2, 3];
    let mut dims = (5u32, 6u32);
    assert!(!decode_jpeg_to_rgb(b"not a jpeg", &mut rgb, &mut dims));
    assert_eq!(rgb, vec![1, 2, 3]);
    assert_eq!(dims, (5, 6));
}

#[test]
fn decode_jpeg_scales_to_camera_size() {
    let jpeg = grey_jpeg();
    let mut rgb: Vec<u8> = Vec::new();
    let mut dims = (0u32, 0u32);
    assert!(decode_jpeg_to_rgb(&jpeg, &mut rgb, &mut dims));
    assert_eq!(dims, (8, 8));
    assert_eq!(rgb.len(), (CAM_WIDTH * CAM_HEIGHT * 3) as usize);
    assert!(rgb.iter().all(|&b| b == 128));
}

#[test]
fn decoded_image_at_camera_size_is_kept() {
    let pixels = vec![5u8; (CAM_WIDTH * CAM_HEIGHT * 3) as usize];
    let d = DecodedJpeg { pixels: pixels.clone(), width: CAM_WIDTH as usize, height: CAM_HEIGHT as usize };
    let mut rgb: Vec<u8> = Vec::new();
    let mut dims = (0u32, 0u32);
    assert!(store_decoded_jpeg(d, &mut rgb, &mut dims));
    assert_eq!(rgb, pixels);
    assert_eq!(dims, (CAM_WIDTH, CAM_HEIGHT));
}

#[test]
fn decoded_image_is_resized_nearest() {
    let pixels = vec![10u8, 10, 10, 20, 20, 20, 30, 30, 30, 40, 40, 40];
    let d = DecodedJpeg { pixels, width: 2, height: 2 };
    let mut rgb: Vec<u8> = Vec::new();
    let mut dims = (0u32, 0u32);
    assert!(store_decoded_jpeg(d, &mut rgb, &mut dims));
    assert_eq!(dims, (2, 2));
    assert_eq!(rgb.len(), (CAM_WIDTH * CAM_HEIGHT * 3) as usize);
    assert_eq!(&rgb[0..3], &[10, 10, 10]);
    let last = rgb.len() - 3;
    assert_eq!(&rgb[last..], &[40, 40, 40]);
}

#[test]
fn decoded_image_too_short_is_refused() {
    let d = DecodedJpeg { pixels: vec![1, 2, 3], width: 2, height: 2 };
    let mut rgb = vec![9u8];
    let mut dims = (0u32, 0u32);
    assert!(!store_decoded_jpeg(d, &mut rgb, &mut dims));
    assert_eq!(rgb, vec![9]);
    assert_eq!(dims, (2, 2));
}

#[test]
fn h264_decoder_ignores_garbage() {
    let mut dec = InProcessRtspDecoder::new().expect("decoder");
    let mut nv12 = vec![1u8, 2];
    let mut rgba = vec![3u8];
    let r = dec.decode_into(&[0, 0, 0, 1, 0x09, 0x10], &mut nv12, &mut rgba);
    assert!(!matches!(r, Ok(Some(_))));
    if let Err(m) = &r {
        assert!(m.starts_with("OpenH264 decode error: "));
    }
    assert_eq!(nv12, vec![1, 2]);
    assert_eq!(rgba, vec![3]);
    dec.decode_nalu_ignore(&[0, 0, 0, 1, 0x09, 0x10]);
}

#[test]
fn h264_decoder_renders_an_encoded_picture() {
    // A flat grey 16x16 picture, encoded, decodes to a 16x16 picture whose
    // preview bytes are opaque and grey.
    let yuv = openh264::formats::YUVBuffer::from_vec(vec![128u8; 16 * 16 * 3 / 2], 16, 16);
    let mut encoder = openh264::encoder::Encoder::new().expect("encoder");
    let packet = encoder.encode(&yuv).expect("encode").to_vec();
    let mut dec = InProcessRtspDecoder::new().expect("decoder");
    let mut nv12 = Vec::new();
    let mut rgba = Vec::new();
    let r = dec.decode_into(&packet, &mut nv12, &mut rgba);
    assert_eq!(r, Ok(Some((16, 16))));
    assert_eq!(nv12.len(), 16 * 16 * 3 / 2);
    assert_eq!(rgba.len(), 16 * 16 * 4);
    for px in rgba.chunks(4) {
        assert_eq!(px[3], 255);
        for &c in &px[..3] {
            assert!((120..=136).contains(&c), "not grey: {:?}", px);
        }
    }
    for &b in &nv12 {
        assert!((120..=136).contains(&b));
    }
}

#[test]
fn nv12_frame_fit_checks() {
    assert!(nv12_frame_fits(1280 * 720 * 3, 1280, 720));
    assert!(!nv12_frame_fits(1280 * 720 * 3 - 1, 1280, 720));
    assert!(nv12_frame_fits(12, 2, 2));
    assert!(!nv12_frame_fits(9, 3, 1));
    assert!(!nv12_frame_fits(usize::MAX, 65536, 65536));
    assert!(nv12_frame_fits(0, 0, 0));
}

#[test]
fn mjpeg_server_part_reads_back() {
    let mut jpeg = vec![0xFFu8, 0xD8];
    jpeg.extend((0..298u32).map(|i| (i % 251) as u8));
    let mut buf: Vec<u8> = Vec::new();
    buf.extend_from_slice(b"--frame\r\nContent-Type: image/jpeg\r\nContent-Length: 300\r\n\r\n");
    buf.extend_from_slice(&jpeg);
    buf.extend_from_slice(b"\r\n--frame\r\n");
    assert_eq!(read_next_jpeg(&mut buf), Some(jpeg));
    assert_eq!(buf, b"\r\n--frame\r\n".to_vec());
}

#[test]
fn camera_preview_fills_its_size() {
    let rgb = vec![7u8; (CAM_WIDTH * CAM_HEIGHT * 3) as usize];
    let p = camera_preview(&rgb).expect("preview");
    assert_eq!((p.width, p.height), (1280, 720));
    assert_eq!(p.rgba.len(), p.width * p.height * 4);
    assert_eq!(&p.rgba[0..8], &[7, 7, 7, 255, 7, 7, 7, 255]);
    assert!(camera_preview(&rgb[1..]).is_none());
    let jpeg = grey_jpeg();
    let mut out: Vec<u8> = Vec::new();
    let mut dims = (0u32, 0u32);
    assert!(decode_jpeg_to_rgb(&jpeg, &mut out, &mut dims));
    let q = camera_preview(&out).expect("preview of a resized frame");
    assert_eq!(q.rgba.len(), 1280 * 720 * 4);
}
