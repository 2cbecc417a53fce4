//! Decoding of the camera stream: JPEG frames (MJPEG mode) to packed RGB at
//! the virtual camera's size, and H.264 NAL units (RTSP mode) to NV12 for
//! the virtual camera plus RGBA for the preview.
//!
//! The codecs themselves are outside crates (`zune-jpeg`, `image`,
//! `openh264`); what this module decides around them is verified.

use vstd::prelude::*;
use openh264::decoder::Decoder;
use openh264::formats::YUVSource;
use crate::bytes::{resize_bytes, resized};
use crate::pipeline::{
    i420_to_nv12, planes_fit, planes_to_nv12, rgb_to_preview_rgba, rgb_to_rgba_spec, I420Planes,
    PreviewFrame,
};

verus! {

broadcast use vstd::string::group_string_axioms;

/// Width of the frames the virtual camera takes.
pub const CAM_WIDTH: u32 = 1280;

/// Height of the frames the virtual camera takes.
pub const CAM_HEIGHT: u32 = 720;

// ---------------------------------------------------------------------------
// JPEG
// ---------------------------------------------------------------------------

/// What `zune_jpeg::JpegDecoder` makes of a JPEG file: its pixels in the
/// decoder's default output layout and the image's width and height, or
/// `None` where decoding fails.
pub uninterp spec fn jpeg_decoding(bytes: Seq<u8>) -> Option<(Seq<u8>, usize, usize)>;

/// What `image::imageops::resize` with `FilterType::Nearest` makes of a
/// packed RGB image of `width` x `height` pixels when resizing it to
/// `new_width` x `new_height`.
pub uninterp spec fn nearest_resized(
    pixels: Seq<u8>,
    width: u32,
    height: u32,
    new_width: u32,
    new_height: u32,
) -> Seq<u8>;

/// A decoded JPEG image.
pub struct DecodedJpeg {
    pub pixels: Vec<u8>,
    pub width: usize,
    pub height: usize,
}

/// Decodes a JPEG file with `zune_jpeg::JpegDecoder::new(bytes).decode()`
/// and reads the image size with `JpegDecoder::dimensions`. The contract
/// only ties the result to the input through `jpeg_decoding`.
#[verifier::external_body]
fn decode_jpeg(bytes: &[u8]) -> (r: Option<DecodedJpeg>)
    ensures
        match r {
            Some(d) => jpeg_decoding(bytes@) == Some((d.pixels@, d.width, d.height)),
            None => jpeg_decoding(bytes@) is None,
        },
{
    let mut decoder = zune_jpeg::JpegDecoder::new(bytes);
    let pixels = decoder.decode().ok()?;
    let (width, height) = decoder.dimensions()?;
    Some(DecodedJpeg { pixels, width, height })
}

/// Wraps packed RGB bytes as an image with `image::RgbImage::from_raw` and
/// resizes it with `image::imageops::resize` (nearest neighbour). As the
/// `image` source shows, `from_raw` refuses a buffer shorter than
/// `3 * width * height` bytes, and the resized buffer holds exactly
/// `3 * new_width * new_height` bytes; its content is only named.
#[verifier::external_body]
fn resize_rgb_nearest(
    pixels: Vec<u8>,
    width: u32,
    height: u32,
    new_width: u32,
    new_height: u32,
) -> (r: Option<Vec<u8>>)
    requires
        (new_width as int) * (new_height as int) * 3 <= usize::MAX,
    ensures
        r is Some <==> (width as int) * (height as int) * 3 <= pixels@.len(),
        r matches Some(v) ==> v@ == nearest_resized(pixels@, width, height, new_width, new_height)
            && v@.len() == (new_width as int) * (new_height as int) * 3,
{
    let img = image::RgbImage::from_raw(width, height, pixels)?;
    let resized = image::imageops::resize(&img, new_width, new_height, image::imageops::FilterType::Nearest);
    Some(resized.into_raw())
}

/// What `store_decoded_jpeg` leaves behind for a decoded image `d`: the
/// success flag, the RGB buffer and the recorded size. The size is always
/// recorded; an image already at the camera size is taken as is, any other
/// is resized to it, which fails when its buffer is too short.
pub open spec fn stored_jpeg(
    pixels: Seq<u8>,
    width: usize,
    height: usize,
    old_rgb: Seq<u8>,
) -> (bool, Seq<u8>, (u32, u32)) {
    let w = width as u32;
    let h = height as u32;
    if w == CAM_WIDTH && h == CAM_HEIGHT {
        (true, pixels, (w, h))
    } else if (w as int) * (h as int) * 3 <= pixels.len() {
        (true, nearest_resized(pixels, w, h, CAM_WIDTH, CAM_HEIGHT), (w, h))
    } else {
        (false, old_rgb, (w, h))
    }
}

/// Brings a decoded image to the virtual camera's size into `out_rgb` and
/// records its own size in `out_dims`.
pub fn store_decoded_jpeg(decoded: DecodedJpeg, out_rgb: &mut Vec<u8>, out_dims: &mut (u32, u32)) -> (ok: bool)
    ensures
        (ok, final(out_rgb)@, *final(out_dims)) == stored_jpeg(
            decoded.pixels@,
            decoded.width,
            decoded.height,
            old(out_rgb)@,
        ),
        ok && *final(out_dims) != (CAM_WIDTH, CAM_HEIGHT) ==> final(out_rgb)@.len() == (
        CAM_WIDTH as int) * (CAM_HEIGHT as int) * 3,
{
    let w = decoded.width as u32;
    let h = decoded.height as u32;
    *out_dims = (w, h);
    if w == CAM_WIDTH && h == CAM_HEIGHT {
        *out_rgb = decoded.pixels;
        return true;
    }
    match resize_rgb_nearest(decoded.pixels, w, h, CAM_WIDTH, CAM_HEIGHT) {
        Some(v) => {
            *out_rgb = v;
            true
        },
        None => false,
    }
}

/// Decodes a JPEG frame to packed RGB at the virtual camera's size.
/// Returns `false`, and changes nothing, when the frame does not decode;
/// see `stored_jpeg` for what a decoded frame gives. A frame decoded at
/// another size comes out resized to exactly the camera's frame size.
pub fn decode_jpeg_to_rgb(jpeg_bytes: &[u8], out_rgb: &mut Vec<u8>, out_dims: &mut (u32, u32)) -> (ok: bool)
    ensures
        match jpeg_decoding(jpeg_bytes@) {
            None => !ok && final(out_rgb)@ == old(out_rgb)@ && *final(out_dims) == *old(out_dims),
            Some((pixels, w, h)) => (ok, final(out_rgb)@, *final(out_dims)) == stored_jpeg(
                pixels,
                w,
                h,
                old(out_rgb)@,
            ),
        },
        ok && *final(out_dims) != (CAM_WIDTH, CAM_HEIGHT) ==> final(out_rgb)@.len() == (
        CAM_WIDTH as int) * (CAM_HEIGHT as int) * 3,
{
    match decode_jpeg(jpeg_bytes) {
        Some(d) => store_decoded_jpeg(d, out_rgb, out_dims),
        None => false,
    }
}

/// The preview of a camera frame: the RGB frame at the camera's size,
/// shown as RGBA at that size. A buffer that does not hold a full camera
/// frame gives no preview (a preview's RGBA bytes always fill its size).
pub fn camera_preview(rgb: &[u8]) -> (r: Option<PreviewFrame>)
    ensures
        r is Some <==> rgb@.len() == (CAM_WIDTH as int) * (CAM_HEIGHT as int) * 3,
        r matches Some(p) ==> {
            &&& p.width == CAM_WIDTH as usize
            &&& p.height == CAM_HEIGHT as usize
            &&& p.rgba@ == rgb_to_rgba_spec(rgb@)
            &&& p.rgba@.len() == (p.width as int) * (p.height as int) * 4
        },
{
    if rgb.len() != 1280 * 720 * 3 {
        return None;
    }
    let p = rgb_to_preview_rgba(rgb, CAM_WIDTH, CAM_HEIGHT);
    assert(p.rgba@.len() == (rgb@.len() / 3) * 4);
    Some(p)
}

// ---------------------------------------------------------------------------
// H.264
// ---------------------------------------------------------------------------

#[verifier::external_type_specification]
#[verifier::external_body]
pub struct ExH264Decoder(Decoder);

#[verifier::external_type_specification]
#[verifier::external_body]
pub struct ExH264Error(openh264::Error);

/// A picture taken out of the H.264 decoder: its I420 planes with their
/// strides, and its RGBA rendering for the preview.
pub struct DecodedPicture {
    pub width: usize,
    pub height: usize,
    pub y: Vec<u8>,
    pub u: Vec<u8>,
    pub v: Vec<u8>,
    pub y_stride: usize,
    pub u_stride: usize,
    pub v_stride: usize,
    pub rgba: Vec<u8>,
}

/// Creates an `openh264::decoder::Decoder` with `Decoder::new`.
#[verifier::external_body]
fn h264_decoder_new() -> (r: Result<Decoder, openh264::Error>) {
    Decoder::new()
}

/// What `DecodedYUV::write_rgba8` writes for an I420 picture of size
/// `w` x `h` with planes `y`, `u`, `v` and strides `sy`, `su`, `sv`: each
/// pixel converted from its luma and chroma samples with floating-point
/// arithmetic, four bytes per pixel.
pub uninterp spec fn i420_rgba(
    w: usize,
    h: usize,
    y: Seq<u8>,
    u: Seq<u8>,
    v: Seq<u8>,
    sy: usize,
    su: usize,
    sv: usize,
) -> Seq<u8>;

/// The RGBA bytes of a decoded picture are the rendering of its planes.
pub open spec fn rendered(p: DecodedPicture) -> bool {
    p.rgba@ == i420_rgba(
        p.width,
        p.height,
        p.y@,
        p.u@,
        p.v@,
        p.y_stride,
        p.u_stride,
        p.v_stride,
    )
}

/// Hands a NAL unit to `Decoder::decode` and records it in the decoder's
/// log of units fed. When a picture comes out, copies its size, strides
/// and planes (`YUVSource`) and renders it with `DecodedYUV::write_rgba8`
/// into a buffer of `YUVSource::estimate_rgba_u8_size` bytes: the rendering
/// is `i420_rgba` of the copied size, planes and strides, `width * height *
/// 4` bytes long, every fourth byte (alpha) 255. Whether a picture comes
/// out, and its planes, rest on the decoder's state and are not stated.
#[verifier::external_body]
fn h264_decode(dec: &mut InProcessRtspDecoder, nalu: &[u8]) -> (r: Result<Option<DecodedPicture>, openh264::Error>)
    ensures
        final(dec)@ == old(dec)@.push(nalu@),
        r matches Ok(Some(p)) ==> p.rgba@ == i420_rgba(
            p.width,
            p.height,
            p.y@,
            p.u@,
            p.v@,
            p.y_stride,
            p.u_stride,
            p.v_stride,
        ),
        r matches Ok(Some(p)) ==> ((p.width as int) * (p.height as int) * 4 <= usize::MAX
            ==> p.rgba@.len() == (p.width as int) * (p.height as int) * 4 && forall|i: int|
            0 <= i < (p.width as int) * (p.height as int) ==> #[trigger] p.rgba@[4 * i + 3] == 255u8),
{
    let Some(yuv) = dec.decoder.decode(nalu)? else { return Ok(None) };
    let (width, height) = yuv.dimensions();
    let (y_stride, u_stride, v_stride) = yuv.strides();
    let mut rgba = vec![0u8; yuv.estimate_rgba_u8_size()];
    yuv.write_rgba8(&mut rgba);
    let (y, u, v) = (yuv.y().to_vec(), yuv.u().to_vec(), yuv.v().to_vec());
    Ok(Some(DecodedPicture { width, height, y, u, v, y_stride, u_stride, v_stride, rgba }))
}

/// Formats an `openh264::Error` (its `Display` impl) after `prefix` with
/// `format!("{}{}", ..)`: the text opens with `prefix`; what the error's
/// own text is, is not stated.
#[verifier::external_body]
fn h264_error_message(prefix: &str, e: &openh264::Error) -> (r: String)
    ensures
        opens_with(r@, prefix@),
{
    format!("{}{}", prefix, e)
}

/// `t` opens with `p`.
pub open spec fn opens_with(t: Seq<char>, p: Seq<char>) -> bool {
    p.len() <= t.len() && t.take(p.len() as int) == p
}

/// The bytes of the NV12 buffer made for a decoded picture: `w * h * 3 / 2`.
pub open spec fn nv12_frame_len(w: int, h: int) -> int {
    w * h * 3 / 2
}

/// A decoded picture can be taken out: its NV12 size is computable and its
/// planes hold every sample the conversion reads.
pub open spec fn picture_fits(p: DecodedPicture) -> bool {
    let w = p.width as int;
    let h = p.height as int;
    &&& w * h * 3 <= usize::MAX
    &&& planes_fit(
        w,
        h,
        p.y@,
        p.u@,
        p.v@,
        p.y_stride as int,
        p.u_stride as int,
        p.v_stride as int,
        nv12_frame_len(w, h),
    )
}

/// Whether `w * h * 3` fits in a `usize` and `planes_fit` holds for the
/// NV12 size of the picture.
fn check_picture_fits(p: &DecodedPicture) -> (r: Option<usize>)
    ensures
        match r {
            Some(n) => picture_fits(*p) && n as int == nv12_frame_len(
                p.width as int,
                p.height as int,
            ),
            None => !picture_fits(*p),
        },
{
    let w = p.width;
    let h = p.height;
    assert(p.y@.len() == p.y.len() && p.u@.len() == p.u.len() && p.v@.len() == p.v.len());
    let wh = match w.checked_mul(h) {
        Some(x) => x,
        None => {
            assert((w as int) * (h as int) * 3 >= (w as int) * (h as int)) by (nonlinear_arith)
                requires
                    w >= 0,
                    h >= 0,
            ;
            return None;
        },
    };
    let wh3 = match wh.checked_mul(3) {
        Some(x) => x,
        None => {
            return None;
        },
    };
    let n = wh3 / 2;
    let uw = w / 2;
    let uh = h / 2;
    assert(2 * uw * uh <= wh / 2) by (nonlinear_arith)
        requires
            uw == w / 2,
            uh == h / 2,
            wh == w * h,
            w >= 0,
            h >= 0,
    ;
    if h > 0 {
        let rows = h - 1;
        match rows.checked_mul(p.y_stride) {
            Some(x) => {
                if x > p.y.len() || p.y.len() - x < w {
                    return None;
                }
            },
            None => {
                return None;
            },
        }
    }
    if uh > 0 {
        let rows = uh - 1;
        match rows.checked_mul(p.u_stride) {
            Some(x) => {
                if x > p.u.len() || p.u.len() - x < uw {
                    return None;
                }
            },
            None => {
                return None;
            },
        }
        match rows.checked_mul(p.v_stride) {
            Some(x) => {
                if x > p.v.len() || p.v.len() - x < uw {
                    return None;
                }
            },
            None => {
                return None;
            },
        }
    }
    Some(n)
}

/// A decoded picture `p` taken out with size `dims`: `nv12` is the NV12
/// conversion of its planes into the old buffer resized to the picture's
/// NV12 size, and `rgba` is its RGBA rendering.
pub open spec fn picture_taken_out(
    p: DecodedPicture,
    dims: (u32, u32),
    old_nv12: Seq<u8>,
    nv12: Seq<u8>,
    rgba: Seq<u8>,
) -> bool {
    &&& dims == (p.width as u32, p.height as u32)
    &&& planes_to_nv12(
        p.width as int,
        p.height as int,
        p.y@,
        p.u@,
        p.v@,
        p.y_stride as int,
        p.u_stride as int,
        p.v_stride as int,
        resized(old_nv12, nv12_frame_len(p.width as int, p.height as int)),
        nv12,
    )
    &&& rgba == p.rgba@
}

/// The message of a decoded picture refused for its planes.
pub open spec fn planes_mismatch_message() -> Seq<char> {
    "decoded picture planes do not match its size"@
}

/// Takes a decoded picture out into the caller's buffers: `out_nv12` is
/// resized to the picture's NV12 size and filled by `i420_to_nv12`, and
/// `out_rgba` becomes the picture's RGBA rendering. A picture whose planes
/// do not hold what its size and strides call for is refused, with the
/// buffers left alone.
pub fn store_decoded_picture(
    pic: DecodedPicture,
    out_nv12: &mut Vec<u8>,
    out_rgba: &mut Vec<u8>,
) -> (r: Result<(u32, u32), String>)
    ensures
        r is Ok <==> picture_fits(pic),
        r matches Ok(dims) ==> picture_taken_out(
            pic,
            dims,
            old(out_nv12)@,
            final(out_nv12)@,
            final(out_rgba)@,
        ),
        r matches Err(m) ==> m@ == planes_mismatch_message(),
        r is Err ==> final(out_nv12)@ == old(out_nv12)@ && final(out_rgba)@ == old(out_rgba)@,
{
    let n = match check_picture_fits(&pic) {
        Some(n) => n,
        None => {
            return Err("decoded picture planes do not match its size".to_string());
        },
    };
    resize_bytes(out_nv12, n);
    let planes = I420Planes {
        width: pic.width,
        height: pic.height,
        y: pic.y.as_slice(),
        u: pic.u.as_slice(),
        v: pic.v.as_slice(),
        y_stride: pic.y_stride,
        u_stride: pic.u_stride,
        v_stride: pic.v_stride,
    };
    i420_to_nv12(&planes, out_nv12.as_mut_slice());
    let dims = (pic.width as u32, pic.height as u32);
    *out_rgba = pic.rgba;
    Ok(dims)
}

/// An H.264 decoder feeding the virtual camera and the preview. Its view is
/// the NAL units fed to it so far, in order.
pub struct InProcessRtspDecoder {
    decoder: Decoder,
    fed: Ghost<Seq<Seq<u8>>>,
}

impl View for InProcessRtspDecoder {
    type V = Seq<Seq<u8>>;

    closed spec fn view(&self) -> Seq<Seq<u8>> {
        self.fed@
    }
}

impl InProcessRtspDecoder {
    /// Creates the decoder, fed nothing yet; fails with `Failed to create
    /// OpenH264 decoder: ` followed by the decoder library's message.
    pub fn new() -> (r: Result<Self, String>)
        ensures
            r matches Ok(d) ==> d@ == Seq::<Seq<u8>>::empty(),
            r matches Err(m) ==> opens_with(m@, "Failed to create OpenH264 decoder: "@),
    {
        match h264_decoder_new() {
            Ok(decoder) => Ok(InProcessRtspDecoder { decoder, fed: Ghost(Seq::empty()) }),
            Err(e) => Err(h264_error_message("Failed to create OpenH264 decoder: ", &e)),
        }
    }

    /// Decodes one NAL unit, which is fed to the decoder; when a picture
    /// comes out, stores it as `store_decoded_picture` does (its RGBA bytes
    /// being the rendering of its planes) and returns its size. When no
    /// picture comes out, or decoding fails, the buffers are left alone. A
    /// failure of the decoder is reported as `OpenH264 decode error: `
    /// followed by its message; a picture whose planes do not match its
    /// size, with `planes_mismatch_message`.
    pub fn decode_into(&mut self, nalu: &[u8], out_nv12: &mut Vec<u8>, out_rgba: &mut Vec<u8>) -> (r:
        Result<Option<(u32, u32)>, String>)
        ensures
            final(self)@ == old(self)@.push(nalu@),
            !(r matches Ok(Some(_))) ==> final(out_nv12)@ == old(out_nv12)@ && final(out_rgba)@
                == old(out_rgba)@,
            r matches Ok(Some(dims)) ==> exists|p: DecodedPicture|
                #[trigger] picture_fits(p) && rendered(p) && picture_taken_out(
                    p,
                    dims,
                    old(out_nv12)@,
                    final(out_nv12)@,
                    final(out_rgba)@,
                ) && ((p.width as int) * (p.height as int) * 4 <= usize::MAX ==> (
                final(out_rgba)@.len() == (p.width as int) * (p.height as int) * 4
                    && forall|i: int| 0 <= i < (p.width as int) * (p.height as int)
                    ==> #[trigger] final(out_rgba)@[4 * i + 3] == 255u8)),
            r matches Err(m) ==> m@ == planes_mismatch_message() || opens_with(
                m@,
                "OpenH264 decode error: "@,
            ),
    {
        match h264_decode(self, nalu) {
            Ok(Some(pic)) => {
                let ghost g = pic;
                match store_decoded_picture(pic, out_nv12, out_rgba) {
                    Ok(dims) => {
                        assert(picture_fits(g) && rendered(g));
                        Ok(Some(dims))
                    },
                    Err(e) => Err(e),
                }
            },
            Ok(None) => Ok(None),
            Err(e) => Err(h264_error_message("OpenH264 decode error: ", &e)),
        }
    }

    /// Feeds a NAL unit (such as a parameter set) to the decoder, ignoring
    /// any picture or error.
    pub fn decode_nalu_ignore(&mut self, nalu: &[u8])
        ensures
            final(self)@ == old(self)@.push(nalu@),
    {
        let _ = h264_decode(self, nalu);
    }
}

} // verus!
