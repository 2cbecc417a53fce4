//! Pixel format conversions on the path from the decoders to the virtual
//! camera (NV12) and to the desktop preview (RGBA).

use vstd::prelude::*;
use vstd::arithmetic::div_mod::{lemma_fundamental_div_mod, lemma_fundamental_div_mod_converse};
use crate::bytes::{resize_bytes, resized};

verus! {

/// A frame for the desktop preview: `width` x `height` pixels, four bytes
/// (R, G, B, A) each.
#[derive(Clone, Debug)]
pub struct PreviewFrame {
    pub width: usize,
    pub height: usize,
    pub rgba: Vec<u8>,
}

/// The RGBA bytes made from packed RGB bytes: one opaque pixel for each
/// complete group of three bytes; a trailing incomplete group is dropped.
pub open spec fn rgb_to_rgba_spec(rgb: Seq<u8>) -> Seq<u8> {
    Seq::new(
        ((rgb.len() / 3) * 4) as nat,
        |j: int|
            if j % 4 == 3 {
                255u8
            } else {
                rgb[(j / 4) * 3 + j % 4]
            },
    )
}

/// Converts packed RGB to a preview frame of the given size.
pub fn rgb_to_preview_rgba(rgb: &[u8], width: u32, height: u32) -> (r: PreviewFrame)
    ensures
        r.width == width as usize,
        r.height == height as usize,
        r.rgba@ == rgb_to_rgba_spec(rgb@),
{
    let mut rgba: Vec<u8> = Vec::new();
    assert(rgb@.len() == rgb.len());
    let n = rgb.len() / 3;
    let mut i: usize = 0;
    while i < n
        invariant
            n == rgb@.len() / 3,
            rgb@.len() <= usize::MAX,
            i <= n,
            rgba@.len() == i * 4,
            forall|j: int|
                0 <= j < i * 4 ==> #[trigger] rgba@[j] == rgb_to_rgba_spec(rgb@)[j],
        decreases n - i,
    {
        assert(i * 3 + 2 < rgb@.len()) by (nonlinear_arith)
            requires
                i < n,
                n == rgb@.len() / 3,
        ;
        let ghost old_rgba = rgba@;
        rgba.push(rgb[i * 3]);
        rgba.push(rgb[i * 3 + 1]);
        rgba.push(rgb[i * 3 + 2]);
        rgba.push(255);
        assert forall|j: int| 0 <= j < (i + 1) * 4 implies #[trigger] rgba@[j]
            == rgb_to_rgba_spec(rgb@)[j] by {
            if j >= i * 4 {
                let k = j - i * 4;
                lemma_fundamental_div_mod_converse(j, 4, i as int, k);
            } else {
                assert(rgba@[j] == old_rgba[j]);
            }
        }
        i = i + 1;
    }
    assert(rgba@ =~= rgb_to_rgba_spec(rgb@));
    PreviewFrame { width: width as usize, height: height as usize, rgba }
}

// ---------------------------------------------------------------------------
// RGB to NV12
// ---------------------------------------------------------------------------

/// `x` limited to the byte range.
pub open spec fn clamp_byte(x: int) -> u8 {
    if x < 0 {
        0
    } else if x > 255 {
        255
    } else {
        x as u8
    }
}

/// BT.601 studio-range luma of one RGB pixel, with arithmetic shifts
/// (floor division by 256).
pub open spec fn luma(r: int, g: int, b: int) -> u8 {
    clamp_byte((66 * r + 129 * g + 25 * b + 128) / 256 + 16)
}

/// BT.601 blue-difference chroma of one RGB pixel.
pub open spec fn chroma_u(r: int, g: int, b: int) -> u8 {
    clamp_byte((-38 * r - 74 * g + 112 * b + 128) / 256 + 128)
}

/// BT.601 red-difference chroma of one RGB pixel.
pub open spec fn chroma_v(r: int, g: int, b: int) -> u8 {
    clamp_byte((112 * r - 94 * g - 18 * b + 128) / 256 + 128)
}

/// Luma of pixel `p` of packed RGB.
pub open spec fn pixel_luma(rgb: Seq<u8>, p: int) -> u8 {
    luma(rgb[3 * p] as int, rgb[3 * p + 1] as int, rgb[3 * p + 2] as int)
}

/// Blue-difference chroma of pixel `p` of packed RGB.
pub open spec fn pixel_u(rgb: Seq<u8>, p: int) -> u8 {
    chroma_u(rgb[3 * p] as int, rgb[3 * p + 1] as int, rgb[3 * p + 2] as int)
}

/// Red-difference chroma of pixel `p` of packed RGB.
pub open spec fn pixel_v(rgb: Seq<u8>, p: int) -> u8 {
    chroma_v(rgb[3 * p] as int, rgb[3 * p + 1] as int, rgb[3 * p + 2] as int)
}

/// The number of chroma rows `rgb_to_nv12` writes: one per pair of image
/// rows, a last odd row counting as a pair.
pub open spec fn chroma_rows(h: int) -> int {
    (h + 1) / 2
}

/// What `rgb_to_nv12` leaves at byte `q` of the chroma plane (which starts
/// after the `w * h` luma bytes and has rows of `w` bytes), or `None` where
/// it writes nothing.
///
/// Every pixel at an even row and even column writes its U at
/// `(row / 2) * w + col` and its V right after; the image is walked row by
/// row, so where a V lands on the first byte of the next chroma row (odd
/// `w`), that row's first U, if there is one, overwrites it.
pub open spec fn nv12_chroma_byte(rgb: Seq<u8>, w: int, h: int, q: int) -> Option<u8> {
    let k = q / w;
    let c = q % w;
    if w <= 0 || q < 0 {
        None
    } else if 2 * k < h && c % 2 == 0 {
        Some(pixel_u(rgb, 2 * k * w + c))
    } else if 2 * k < h {
        Some(pixel_v(rgb, 2 * k * w + c - 1))
    } else if c == 0 && k >= 1 && 2 * (k - 1) < h && w % 2 == 1 {
        Some(pixel_v(rgb, 2 * (k - 1) * w + w - 1))
    } else {
        None
    }
}

/// The bytes of the NV12 buffer `rgb_to_nv12` needs: the luma plane and
/// the chroma bytes up to the last one it writes.
pub open spec fn nv12_needed_len(w: int, h: int) -> int {
    if w > 0 && h > 0 {
        w * h + chroma_rows(h) * w + w % 2
    } else {
        w * h
    }
}

/// What `rgb_to_nv12` makes of `out` (before: `old`).
pub open spec fn rgb_to_nv12_result(rgb: Seq<u8>, w: int, h: int, old: Seq<u8>, new: Seq<u8>) -> bool {
    &&& new.len() == old.len()
    &&& forall|p: int| 0 <= p < w * h ==> #[trigger] new[p] == pixel_luma(rgb, p)
    &&& forall|q: int|
        0 <= q && w * h + q < old.len() ==> #[trigger] new[w * h + q] == match nv12_chroma_byte(
            rgb,
            w,
            h,
            q,
        ) {
            Some(b) => b,
            None => old[w * h + q],
        }
}

proof fn lemma_chroma_ranges(r: int, g: int, b: int)
    requires
        0 <= r < 256,
        0 <= g < 256,
        0 <= b < 256,
    ensures
        (66 * r + 129 * g + 25 * b + 128) / 256 + 16 <= 255,
        (-38 * r - 74 * g + 112 * b + 128) / 256 + 128 == (112 * b + 32896 - 38 * r - 74 * g)
            / 256,
        (112 * r - 94 * g - 18 * b + 128) / 256 + 128 == (112 * r + 32896 - 94 * g - 18 * b)
            / 256,
        0 <= (112 * b + 32896 - 38 * r - 74 * g) / 256 <= 255,
        0 <= (112 * r + 32896 - 94 * g - 18 * b) / 256 <= 255,
{
    let x = -38 * r - 74 * g + 112 * b + 128;
    let y = 112 * r - 94 * g - 18 * b + 128;
    assert((x + 128 * 256) / 256 == x / 256 + 128) by (nonlinear_arith);
    assert((y + 128 * 256) / 256 == y / 256 + 128) by (nonlinear_arith);
    assert((66 * r + 129 * g + 25 * b + 128) / 256 <= 219) by (nonlinear_arith)
        requires
            0 <= r < 256,
            0 <= g < 256,
            0 <= b < 256,
    ;
    assert(0 <= (112 * b + 32896 - 38 * r - 74 * g) / 256 <= 255) by (nonlinear_arith)
        requires
            0 <= r < 256,
            0 <= g < 256,
            0 <= b < 256,
    ;
    assert(0 <= (112 * r + 32896 - 94 * g - 18 * b) / 256 <= 255) by (nonlinear_arith)
        requires
            0 <= r < 256,
            0 <= g < 256,
            0 <= b < 256,
    ;
}

fn luma_of(r: u8, g: u8, b: u8) -> (y: u8)
    ensures
        y == luma(r as int, g as int, b as int),
{
    proof {
        lemma_chroma_ranges(r as int, g as int, b as int);
    }
    let s: u32 = 66 * (r as u32) + 129 * (g as u32) + 25 * (b as u32) + 128;
    (s / 256 + 16) as u8
}

fn chroma_u_of(r: u8, g: u8, b: u8) -> (u: u8)
    ensures
        u == chroma_u(r as int, g as int, b as int),
{
    proof {
        lemma_chroma_ranges(r as int, g as int, b as int);
    }
    let s: u32 = 112 * (b as u32) + 32896 - 38 * (r as u32) - 74 * (g as u32);
    (s / 256) as u8
}

fn chroma_v_of(r: u8, g: u8, b: u8) -> (v: u8)
    ensures
        v == chroma_v(r as int, g as int, b as int),
{
    proof {
        lemma_chroma_ranges(r as int, g as int, b as int);
    }
    let s: u32 = 112 * (r as u32) + 32896 - 94 * (g as u32) - 18 * (b as u32);
    (s / 256) as u8
}

/// Converts packed RGB (`width` x `height`) to NV12 in `out_nv12`: a full
/// resolution luma plane followed by interleaved U/V samples taken from the
/// pixel at the top-left of each 2x2 block.
pub fn rgb_to_nv12(rgb: &[u8], width: u32, height: u32, out_nv12: &mut [u8])
    requires
        (width as int) * (height as int) * 3 <= rgb@.len(),
        nv12_needed_len(width as int, height as int) <= old(out_nv12)@.len(),
    ensures
        rgb_to_nv12_result(rgb@, width as int, height as int, old(out_nv12)@, final(out_nv12)@),
{
    let w = width as usize;
    let h = height as usize;
    let ghost wi = w as int;
    let ghost hi = h as int;
    let ghost old_out = out_nv12@;
    assert(rgb@.len() == rgb.len());
    assert(out_nv12@.len() == out_nv12.len());
    assert(wi * hi >= 0) by (nonlinear_arith)
        requires
            wi >= 0,
            hi >= 0,
    ;
    let y_len = w * h;
    // Luma plane: one byte per pixel.
    let mut p: usize = 0;
    while p < y_len
        invariant
            y_len == wi * hi,
            wi * hi * 3 <= rgb@.len(),
            rgb@.len() <= usize::MAX,
            old_out.len() <= usize::MAX,
            y_len <= old_out.len(),
            out_nv12@.len() == old_out.len(),
            p <= y_len,
            forall|j: int| 0 <= j < p ==> #[trigger] out_nv12@[j] == pixel_luma(rgb@, j),
            forall|j: int| y_len <= j < old_out.len() ==> #[trigger] out_nv12@[j] == old_out[j],
        decreases y_len - p,
    {
        let y = luma_of(rgb[3 * p], rgb[3 * p + 1], rgb[3 * p + 2]);
        out_nv12[p] = y;
        p = p + 1;
    }
    if w == 0 || h == 0 {
        assert forall|q: int| 0 <= q && wi * hi + q < old_out.len() implies #[trigger] out_nv12@[wi
            * hi + q] == match nv12_chroma_byte(rgb@, wi, hi, q) {
            Some(b) => b,
            None => old_out[wi * hi + q],
        } by {
            if wi > 0 {
                assert(hi == 0);
                assert(q / wi >= 0) by (nonlinear_arith)
                    requires
                        q >= 0,
                        wi > 0,
                ;
            }
        }
        return;
    }
    // Chroma plane: chroma row k holds the samples of image row 2k.
    let rows = h / 2 + h % 2;
    let mut k: usize = 0;
    let mut q: usize = 0;
    let mut row_base: usize = 0;
    while k < rows
        invariant
            wi > 0,
            hi > 0,
            y_len == wi * hi,
            wi * hi * 3 <= rgb@.len(),
            rgb@.len() <= usize::MAX,
            old_out.len() <= usize::MAX,
            rows == chroma_rows(hi),
            nv12_needed_len(wi, hi) <= old_out.len(),
            out_nv12@.len() == old_out.len(),
            w == wi,
            h == hi,
            k <= rows,
            q == k * wi,
            row_base == 2 * k * wi,
            forall|j: int| 0 <= j < y_len ==> #[trigger] out_nv12@[j] == pixel_luma(rgb@, j),
            forall|j: int|
                0 <= j < q ==> #[trigger] out_nv12@[y_len + j] == nv12_chroma_byte(
                    rgb@,
                    wi,
                    hi,
                    j,
                )->0,
            forall|j: int| y_len + q <= j < old_out.len() ==> #[trigger] out_nv12@[j] == old_out[j],
        decreases rows - k,
    {
        assert(2 * k < hi);
        assert(k * wi + wi <= rows * wi) by (nonlinear_arith)
            requires
                k < rows,
                wi > 0,
        ;
        assert(2 * k * wi + wi <= wi * hi) by (nonlinear_arith)
            requires
                2 * k < hi,
                wi > 0,
        ;
        assert(2 * (k + 1) * wi <= wi * hi * 2) by (nonlinear_arith)
            requires
                2 * k < hi,
                wi > 0,
        ;
        let mut c: usize = 0;
        while c < w
            invariant
                wi > 0,
                hi > 0,
                w == wi,
                y_len == wi * hi,
                wi * hi * 3 <= rgb@.len(),
            rgb@.len() <= usize::MAX,
            old_out.len() <= usize::MAX,
                nv12_needed_len(wi, hi) <= old_out.len(),
                out_nv12@.len() == old_out.len(),
                k < rows,
                rows == chroma_rows(hi),
                2 * k < hi,
                k * wi + wi <= rows * wi,
                2 * k * wi + wi <= wi * hi,
                row_base == 2 * k * wi,
                c <= w,
                q == k * wi + c,
                forall|j: int| 0 <= j < y_len ==> #[trigger] out_nv12@[j] == pixel_luma(rgb@, j),
                forall|j: int|
                    0 <= j < q ==> #[trigger] out_nv12@[y_len + j] == nv12_chroma_byte(
                        rgb@,
                        wi,
                        hi,
                        j,
                    )->0,
                forall|j: int|
                    y_len + q <= j < old_out.len() ==> #[trigger] out_nv12@[j] == old_out[j],
            decreases w - c,
        {
            let px = row_base + c - c % 2;
            assert(px < wi * hi);
            let i3 = 3 * px;
            let b = if c % 2 == 0 {
                chroma_u_of(rgb[i3], rgb[i3 + 1], rgb[i3 + 2])
            } else {
                chroma_v_of(rgb[i3], rgb[i3 + 1], rgb[i3 + 2])
            };
            proof {
                lemma_fundamental_div_mod_converse(q as int, wi, k as int, c as int);
            }
            out_nv12[y_len + q] = b;
            c = c + 1;
            q = q + 1;
        }
        assert((k + 1) * wi == k * wi + wi) by (nonlinear_arith);
        assert(2 * (k + 1) * wi == 2 * k * wi + 2 * wi) by (nonlinear_arith);
        k = k + 1;
        row_base = row_base + 2 * w;
    }
    // With an odd width, the V of the last block of the last chroma row
    // spills into the first byte of the next row.
    assert(k == rows && rows >= 1);
    assert(2 * k * wi >= 2 * wi) by (nonlinear_arith)
        requires
            k >= 1,
            wi > 0,
    ;
    if w % 2 == 1 {
        assert(2 * (k - 1) * wi + wi <= wi * hi) by (nonlinear_arith)
            requires
                2 * (k - 1) < hi,
                k >= 1,
                wi > 0,
        ;
        assert(2 * k * wi == 2 * (k - 1) * wi + 2 * wi) by (nonlinear_arith);
        let px = row_base - w - 1;
        let i3 = 3 * px;
        let b = chroma_v_of(rgb[i3], rgb[i3 + 1], rgb[i3 + 2]);
        proof {
            lemma_fundamental_div_mod_converse(q as int, wi, k as int, 0);
        }
        out_nv12[y_len + q] = b;
    }
    let ghost spill: int = if wi % 2 == 1 { 1 } else { 0 };
    assert(q == rows * wi);
    assert forall|j: int| 0 <= j && wi * hi + j < old_out.len() implies #[trigger] out_nv12@[wi
        * hi + j] == match nv12_chroma_byte(rgb@, wi, hi, j) {
        Some(b) => b,
        None => old_out[wi * hi + j],
    } by {
        let kk = j / wi;
        let cc = j % wi;
        lemma_fundamental_div_mod(j, wi);
        assert(0 <= cc < wi);
        if j < rows * wi {
            assert(kk < rows) by (nonlinear_arith)
                requires
                    j < rows * wi,
                    j == wi * kk + cc,
                    0 <= cc,
                    wi > 0,
            ;
            assert(2 * kk < hi);
        } else {
            assert(kk >= rows) by (nonlinear_arith)
                requires
                    j >= rows * wi,
                    j == wi * kk + cc,
                    cc < wi,
                    wi > 0,
            ;
            if j == rows * wi {
                lemma_fundamental_div_mod_converse(j, wi, rows as int, 0);
            } else if kk == rows {
                assert(wi * kk == rows * wi) by (nonlinear_arith)
                    requires
                        kk == rows,
                ;
            }
        }
    }
}

// ---------------------------------------------------------------------------
// I420 to NV12
// ---------------------------------------------------------------------------

/// A planar YUV 4:2:0 picture: full resolution Y, and U and V at half
/// resolution in both directions, each plane with its own row stride.
pub struct I420Planes<'a> {
    pub width: usize,
    pub height: usize,
    pub y: &'a [u8],
    pub u: &'a [u8],
    pub v: &'a [u8],
    pub y_stride: usize,
    pub u_stride: usize,
    pub v_stride: usize,
}

/// Planes of a `w` x `h` picture with the given strides hold every sample
/// that `i420_to_nv12` reads, and `out_len` bytes hold the NV12 picture it
/// writes.
pub open spec fn planes_fit(
    w: int,
    h: int,
    y: Seq<u8>,
    u: Seq<u8>,
    v: Seq<u8>,
    sy: int,
    su: int,
    sv: int,
    out_len: int,
) -> bool {
    &&& w * h + 2 * (w / 2) * (h / 2) <= out_len
    &&& h == 0 || (h - 1) * sy + w <= y.len()
    &&& h / 2 == 0 || (h / 2 - 1) * su + w / 2 <= u.len()
    &&& h / 2 == 0 || (h / 2 - 1) * sv + w / 2 <= v.len()
}

/// Byte `q` of the interleaved chroma plane: U and V samples alternate,
/// row by row.
pub open spec fn planes_chroma_byte(w: int, u: Seq<u8>, v: Seq<u8>, su: int, sv: int, q: int) -> u8 {
    let uw = w / 2;
    let m = q / 2;
    if q % 2 == 0 {
        u[(m / uw) * su + m % uw]
    } else {
        v[(m / uw) * sv + m % uw]
    }
}

/// What `i420_to_nv12` makes of `old`: the Y plane copied row by row
/// without its padding, then the U and V planes interleaved; bytes after
/// the picture are left alone.
pub open spec fn planes_to_nv12(
    w: int,
    h: int,
    y: Seq<u8>,
    u: Seq<u8>,
    v: Seq<u8>,
    sy: int,
    su: int,
    sv: int,
    old: Seq<u8>,
    new: Seq<u8>,
) -> bool {
    let n = 2 * (w / 2) * (h / 2);
    &&& new.len() == old.len()
    &&& forall|p: int| 0 <= p < w * h ==> #[trigger] new[p] == y[(p / w) * sy + p % w]
    &&& forall|q: int|
        0 <= q < n ==> #[trigger] new[w * h + q] == planes_chroma_byte(w, u, v, su, sv, q)
    &&& forall|j: int| w * h + n <= j < old.len() ==> #[trigger] new[j] == old[j]
}

/// `planes_fit` for an `I420Planes`.
pub open spec fn i420_fits(yuv: I420Planes, out_len: int) -> bool {
    planes_fit(
        yuv.width as int,
        yuv.height as int,
        yuv.y@,
        yuv.u@,
        yuv.v@,
        yuv.y_stride as int,
        yuv.u_stride as int,
        yuv.v_stride as int,
        out_len,
    )
}

/// `planes_chroma_byte` for an `I420Planes`.
pub open spec fn i420_chroma_byte(yuv: I420Planes, q: int) -> u8 {
    planes_chroma_byte(yuv.width as int, yuv.u@, yuv.v@, yuv.u_stride as int, yuv.v_stride as int, q)
}

/// `planes_to_nv12` for an `I420Planes`.
pub open spec fn i420_to_nv12_result(yuv: I420Planes, old: Seq<u8>, new: Seq<u8>) -> bool {
    planes_to_nv12(
        yuv.width as int,
        yuv.height as int,
        yuv.y@,
        yuv.u@,
        yuv.v@,
        yuv.y_stride as int,
        yuv.u_stride as int,
        yuv.v_stride as int,
        old,
        new,
    )
}

/// NV12 by rows and columns: for a `w` x `h` picture, output byte
/// `r * w + c` is luma sample `c` of Y row `r`, and chroma row `r` of the
/// output (below the `w * h` luma bytes, `w / 2` pairs per row) holds, at
/// pair `c`, sample `c` of U row `r` then sample `c` of V row `r`.
pub proof fn lemma_nv12_by_rows(
    w: int,
    h: int,
    y: Seq<u8>,
    u: Seq<u8>,
    v: Seq<u8>,
    sy: int,
    su: int,
    sv: int,
    old: Seq<u8>,
    new: Seq<u8>,
)
    requires
        w >= 0,
        h >= 0,
        planes_to_nv12(w, h, y, u, v, sy, su, sv, old, new),
    ensures
        forall|r: int, c: int|
            0 <= r < h && 0 <= c < w ==> #[trigger] new[r * w + c] == y[r * sy + c],
        forall|r: int, c: int|
            0 <= r < h / 2 && 0 <= c < w / 2 ==> #[trigger] new[w * h + 2 * (r * (w / 2) + c)]
                == u[r * su + c],
        forall|r: int, c: int|
            0 <= r < h / 2 && 0 <= c < w / 2 ==> #[trigger] new[w * h + 2 * (r * (w / 2) + c) + 1]
                == v[r * sv + c],
{
    let uw = w / 2;
    let uh = h / 2;
    assert forall|r: int, c: int| 0 <= r < h && 0 <= c < w implies #[trigger] new[r * w + c]
        == y[r * sy + c] by {
        let p = r * w + c;
        lemma_fundamental_div_mod_converse(p, w, r, c);
        assert(p < w * h) by (nonlinear_arith)
            requires
                p == r * w + c,
                0 <= r < h,
                0 <= c < w,
        ;
        assert(p >= 0) by (nonlinear_arith)
            requires
                p == r * w + c,
                r >= 0,
                c >= 0,
                w >= 0,
        ;
    }
    assert forall|r: int, c: int| 0 <= r < uh && 0 <= c < uw implies #[trigger] new[w * h + 2 * (r
        * uw + c)] == u[r * su + c] by {
        lemma_chroma_pair(w, h, y, u, v, sy, su, sv, old, new, r, c);
    }
    assert forall|r: int, c: int| 0 <= r < uh && 0 <= c < uw implies #[trigger] new[w * h + 2 * (r
        * uw + c) + 1] == v[r * sv + c] by {
        lemma_chroma_pair(w, h, y, u, v, sy, su, sv, old, new, r, c);
    }
}

proof fn lemma_chroma_pair(
    w: int,
    h: int,
    y: Seq<u8>,
    u: Seq<u8>,
    v: Seq<u8>,
    sy: int,
    su: int,
    sv: int,
    old: Seq<u8>,
    new: Seq<u8>,
    r: int,
    c: int,
)
    requires
        w >= 0,
        h >= 0,
        planes_to_nv12(w, h, y, u, v, sy, su, sv, old, new),
        0 <= r < h / 2,
        0 <= c < w / 2,
    ensures
        new[w * h + 2 * (r * (w / 2) + c)] == u[r * su + c],
        new[w * h + 2 * (r * (w / 2) + c) + 1] == v[r * sv + c],
{
    let uw = w / 2;
    let uh = h / 2;
    let m = r * uw + c;
    let q = 2 * m;
    lemma_fundamental_div_mod_converse(m, uw, r, c);
    assert(0 <= m < uw * uh) by (nonlinear_arith)
        requires
            m == r * uw + c,
            0 <= r < uh,
            0 <= c < uw,
    ;
    assert(uw * uh * 2 == 2 * uw * uh) by (nonlinear_arith);
    assert(q / 2 == m && q % 2 == 0);
    assert((q + 1) / 2 == m && (q + 1) % 2 == 1);
    assert(new[w * h + q] == planes_chroma_byte(w, u, v, su, sv, q));
    assert(new[w * h + (q + 1)] == planes_chroma_byte(w, u, v, su, sv, q + 1));
    assert(w * h + (q + 1) == w * h + q + 1);
}

proof fn lemma_row_bound(r: int, h: int, s: int, c: int, w: int, len: int)
    requires
        0 <= r < h,
        0 <= c < w,
        s >= 0,
        (h - 1) * s + w <= len,
    ensures
        r * s + c < len,
        r * s >= 0,
{
    assert(r * s <= (h - 1) * s) by (nonlinear_arith)
        requires
            r <= h - 1,
            s >= 0,
    ;
    assert(r * s >= 0) by (nonlinear_arith)
        requires
            r >= 0,
            s >= 0,
    ;
}

/// Converts an I420 picture to NV12 in `out_nv12`.
pub fn i420_to_nv12(yuv: &I420Planes, out_nv12: &mut [u8])
    requires
        i420_fits(*yuv, old(out_nv12)@.len() as int),
    ensures
        i420_to_nv12_result(*yuv, old(out_nv12)@, final(out_nv12)@),
{
    let w = yuv.width;
    let h = yuv.height;
    let ghost wi = w as int;
    let ghost hi = h as int;
    let ghost old_out = out_nv12@;
    assert(out_nv12@.len() == out_nv12.len());
    assert(wi * hi >= 0 && 2 * (wi / 2) * (hi / 2) >= 0) by (nonlinear_arith)
        requires
            wi >= 0,
            hi >= 0,
    ;
    let y_len = w * h;
    let ghost ys = yuv.y_stride as int;
    let ghost us = yuv.u_stride as int;
    let ghost vs = yuv.v_stride as int;
    assert(yuv.y@.len() == yuv.y.len() && yuv.u@.len() == yuv.u.len() && yuv.v@.len()
        == yuv.v.len());
    assert(hi == 0 || (hi - 1) * ys + wi <= yuv.y@.len());
    assert(hi / 2 == 0 || (hi / 2 - 1) * us + wi / 2 <= yuv.u@.len());
    assert(hi / 2 == 0 || (hi / 2 - 1) * vs + wi / 2 <= yuv.v@.len());
    // Y plane, row by row.
    let mut r: usize = 0;
    let mut dst: usize = 0;
    while r < h
        invariant
            w == wi,
            h == hi,
            i420_fits(*yuv, old_out.len() as int),
            wi == yuv.width as int,
            hi == yuv.height as int,
            ys == yuv.y_stride,
            us == yuv.u_stride,
            vs == yuv.v_stride,
            hi == 0 || (hi - 1) * ys + wi <= yuv.y@.len(),
            hi / 2 == 0 || (hi / 2 - 1) * us + wi / 2 <= yuv.u@.len(),
            hi / 2 == 0 || (hi / 2 - 1) * vs + wi / 2 <= yuv.v@.len(),
            yuv.y@.len() <= usize::MAX,
            yuv.u@.len() <= usize::MAX,
            yuv.v@.len() <= usize::MAX,
            wi * hi + 2 * (wi / 2) * (hi / 2) <= old_out.len(),
            2 * (wi / 2) * (hi / 2) >= 0,
            y_len == wi * hi,
            old_out.len() == out_nv12@.len(),
            old_out.len() <= usize::MAX,
            r <= h,
            dst == r * wi,
            forall|p: int|
                0 <= p < dst ==> #[trigger] out_nv12@[p] == yuv.y@[(p / wi) * yuv.y_stride + p
                    % wi],
            forall|j: int| dst <= j < old_out.len() ==> #[trigger] out_nv12@[j] == old_out[j],
        decreases h - r,
    {
        assert(r * wi + wi <= wi * hi) by (nonlinear_arith)
            requires
                r < hi,
                wi >= 0,
        ;
        let mut c: usize = 0;
        while c < w
            invariant
                w == wi,
                h == hi,
                i420_fits(*yuv, old_out.len() as int),
                wi == yuv.width as int,
                hi == yuv.height as int,
                ys == yuv.y_stride,
                us == yuv.u_stride,
                vs == yuv.v_stride,
                hi == 0 || (hi - 1) * ys + wi <= yuv.y@.len(),
                hi / 2 == 0 || (hi / 2 - 1) * us + wi / 2 <= yuv.u@.len(),
                hi / 2 == 0 || (hi / 2 - 1) * vs + wi / 2 <= yuv.v@.len(),
                yuv.y@.len() <= usize::MAX,
                yuv.u@.len() <= usize::MAX,
                yuv.v@.len() <= usize::MAX,
                wi * hi + 2 * (wi / 2) * (hi / 2) <= old_out.len(),
                2 * (wi / 2) * (hi / 2) >= 0,
            yuv.y@.len() <= usize::MAX,
            yuv.u@.len() <= usize::MAX,
            yuv.v@.len() <= usize::MAX,
            wi * hi + 2 * (wi / 2) * (hi / 2) <= old_out.len(),
            2 * (wi / 2) * (hi / 2) >= 0,
            ys == yuv.y_stride,
            us == yuv.u_stride,
            vs == yuv.v_stride,
            hi == 0 || (hi - 1) * ys + wi <= yuv.y@.len(),
            hi / 2 == 0 || (hi / 2 - 1) * us + wi / 2 <= yuv.u@.len(),
            hi / 2 == 0 || (hi / 2 - 1) * vs + wi / 2 <= yuv.v@.len(),
            yuv.y@.len() <= usize::MAX,
            yuv.u@.len() <= usize::MAX,
            yuv.v@.len() <= usize::MAX,
            wi * hi + 2 * (wi / 2) * (hi / 2) <= old_out.len(),
            2 * (wi / 2) * (hi / 2) >= 0,
                y_len == wi * hi,
                old_out.len() == out_nv12@.len(),
                old_out.len() <= usize::MAX,
                r < h,
                r * wi + wi <= wi * hi,
                c <= w,
                dst == r * wi + c,
                forall|p: int|
                    0 <= p < dst ==> #[trigger] out_nv12@[p] == yuv.y@[(p / wi) * yuv.y_stride + p
                        % wi],
                forall|j: int| dst <= j < old_out.len() ==> #[trigger] out_nv12@[j] == old_out[j],
            decreases w - c,
        {
            proof {
                lemma_row_bound(
                    r as int,
                    hi,
                    yuv.y_stride as int,
                    c as int,
                    wi,
                    yuv.y@.len() as int,
                );
                lemma_fundamental_div_mod_converse(dst as int, wi, r as int, c as int);
            }
            let src = r * yuv.y_stride + c;
            out_nv12[dst] = yuv.y[src];
            c = c + 1;
            dst = dst + 1;
        }
        assert((r + 1) * wi == r * wi + wi) by (nonlinear_arith);
        r = r + 1;
    }
    // Interleaved U/V plane.
    assert(dst == y_len) by (nonlinear_arith)
        requires
            dst == r * wi,
            r == hi,
            y_len == wi * hi,
    ;
    let uw = w / 2;
    let uh = h / 2;
    let mut r: usize = 0;
    let mut q: usize = 0;
    assert(q == 2 * r * uw) by (nonlinear_arith)
        requires
            r == 0,
            q == 0,
    ;
    while r < uh
        invariant
            w == wi,
            h == hi,
            uw == wi / 2,
            uh == hi / 2,
            i420_fits(*yuv, old_out.len() as int),
            wi == yuv.width as int,
            hi == yuv.height as int,
            ys == yuv.y_stride,
            us == yuv.u_stride,
            vs == yuv.v_stride,
            hi == 0 || (hi - 1) * ys + wi <= yuv.y@.len(),
            hi / 2 == 0 || (hi / 2 - 1) * us + wi / 2 <= yuv.u@.len(),
            hi / 2 == 0 || (hi / 2 - 1) * vs + wi / 2 <= yuv.v@.len(),
            yuv.y@.len() <= usize::MAX,
            yuv.u@.len() <= usize::MAX,
            yuv.v@.len() <= usize::MAX,
            wi * hi + 2 * (wi / 2) * (hi / 2) <= old_out.len(),
            2 * (wi / 2) * (hi / 2) >= 0,
            y_len == wi * hi,
            old_out.len() == out_nv12@.len(),
            old_out.len() <= usize::MAX,
            r <= uh,
            q == 2 * r * uw,
            forall|p: int|
                0 <= p < y_len ==> #[trigger] out_nv12@[p] == yuv.y@[(p / wi) * yuv.y_stride + p
                    % wi],
            forall|j: int|
                0 <= j < q ==> #[trigger] out_nv12@[y_len + j] == i420_chroma_byte(*yuv, j),
            forall|j: int| y_len + q <= j < old_out.len() ==> #[trigger] out_nv12@[j] == old_out[j],
        decreases uh - r,
    {
        assert(2 * r * uw + 2 * uw <= 2 * uw * uh) by (nonlinear_arith)
            requires
                r < uh,
                uw >= 0,
        ;
        let mut c: usize = 0;
        while c < uw
            invariant
                w == wi,
                h == hi,
                uw == wi / 2,
                uh == hi / 2,
                i420_fits(*yuv, old_out.len() as int),
                wi == yuv.width as int,
                hi == yuv.height as int,
                ys == yuv.y_stride,
                us == yuv.u_stride,
                vs == yuv.v_stride,
                hi == 0 || (hi - 1) * ys + wi <= yuv.y@.len(),
                hi / 2 == 0 || (hi / 2 - 1) * us + wi / 2 <= yuv.u@.len(),
                hi / 2 == 0 || (hi / 2 - 1) * vs + wi / 2 <= yuv.v@.len(),
                yuv.y@.len() <= usize::MAX,
                yuv.u@.len() <= usize::MAX,
                yuv.v@.len() <= usize::MAX,
                wi * hi + 2 * (wi / 2) * (hi / 2) <= old_out.len(),
                2 * (wi / 2) * (hi / 2) >= 0,
            yuv.y@.len() <= usize::MAX,
            yuv.u@.len() <= usize::MAX,
            yuv.v@.len() <= usize::MAX,
            wi * hi + 2 * (wi / 2) * (hi / 2) <= old_out.len(),
            2 * (wi / 2) * (hi / 2) >= 0,
            ys == yuv.y_stride,
            us == yuv.u_stride,
            vs == yuv.v_stride,
            hi == 0 || (hi - 1) * ys + wi <= yuv.y@.len(),
            hi / 2 == 0 || (hi / 2 - 1) * us + wi / 2 <= yuv.u@.len(),
            hi / 2 == 0 || (hi / 2 - 1) * vs + wi / 2 <= yuv.v@.len(),
            yuv.y@.len() <= usize::MAX,
            yuv.u@.len() <= usize::MAX,
            yuv.v@.len() <= usize::MAX,
            wi * hi + 2 * (wi / 2) * (hi / 2) <= old_out.len(),
            2 * (wi / 2) * (hi / 2) >= 0,
                y_len == wi * hi,
                old_out.len() == out_nv12@.len(),
                old_out.len() <= usize::MAX,
                r < uh,
                2 * r * uw + 2 * uw <= 2 * uw * uh,
                c <= uw,
                q == 2 * r * uw + 2 * c,
                forall|p: int|
                    0 <= p < y_len ==> #[trigger] out_nv12@[p] == yuv.y@[(p / wi) * yuv.y_stride + p
                        % wi],
                forall|j: int|
                    0 <= j < q ==> #[trigger] out_nv12@[y_len + j] == i420_chroma_byte(*yuv, j),
                forall|j: int|
                    y_len + q <= j < old_out.len() ==> #[trigger] out_nv12@[j] == old_out[j],
            decreases uw - c,
        {
            proof {
                lemma_row_bound(
                    r as int,
                    uh as int,
                    yuv.u_stride as int,
                    c as int,
                    uw as int,
                    yuv.u@.len() as int,
                );
                lemma_row_bound(
                    r as int,
                    uh as int,
                    yuv.v_stride as int,
                    c as int,
                    uw as int,
                    yuv.v@.len() as int,
                );
                let m = r * uw + c;
                assert(q == m * 2) by (nonlinear_arith)
                    requires
                        q == 2 * r * uw + 2 * c,
                        m == r * uw + c,
                ;
                lemma_fundamental_div_mod_converse(q as int, 2, m as int, 0);
                lemma_fundamental_div_mod_converse(q + 1, 2, m as int, 1);
                lemma_fundamental_div_mod_converse(m as int, uw as int, r as int, c as int);
            }
            let u_sample = yuv.u[r * yuv.u_stride + c];
            let v_sample = yuv.v[r * yuv.v_stride + c];

            let ghost before = out_nv12@;
            out_nv12[y_len + q] = u_sample;
            out_nv12[y_len + q + 1] = v_sample;
            assert(i420_chroma_byte(*yuv, q as int) == u_sample);
            assert(i420_chroma_byte(*yuv, q + 1) == v_sample);
            assert forall|j: int| 0 <= j < q + 2 implies #[trigger] out_nv12@[y_len + j]
                == i420_chroma_byte(*yuv, j) by {
                if j < q {
                    assert(out_nv12@[y_len + j] == before[y_len + j]);
                }
            }
            c = c + 1;
            q = q + 2;
        }
        assert(2 * (r + 1) * uw == 2 * r * uw + 2 * uw) by (nonlinear_arith);
        r = r + 1;
    }
    assert(q == 2 * (wi / 2) * (hi / 2)) by (nonlinear_arith)
        requires
            q == 2 * r * uw,
            r == uh,
            uw == wi / 2,
            uh == hi / 2,
    ;
}

/// Whether `fill_nv12_frame` can take an RGB frame of `rgb_len` bytes at
/// `width` x `height`: the frame holds `width * height` pixels, its RGB size
/// fits in a `u32`, and the NV12 frame size holds every byte the conversion
/// writes.
pub fn nv12_frame_fits(rgb_len: usize, width: u32, height: u32) -> (r: bool)
    ensures
        r == ((width as int) * (height as int) * 3 <= u32::MAX && (width as int) * (height as int)
            * 3 <= rgb_len && nv12_needed_len(width as int, height as int) <= (width as int) * (
        height as int) * 3 / 2),
{
    let w = width as u64;
    let h = height as u64;
    assert(w * h <= 0xFFFF_FFFF * 0xFFFF_FFFF) by (nonlinear_arith)
        requires
            w <= 0xFFFF_FFFF,
            h <= 0xFFFF_FFFF,
    ;
    let wh = w * h;
    if wh > 0x5555_5555 {
        return false;
    }
    let wh3 = wh * 3;
    if wh3 > rgb_len as u64 {
        return false;
    }
    let needed = if w > 0 && h > 0 {
        assert(((h as int) + 1) / 2 * (w as int) <= (h as int) * (w as int)) by (nonlinear_arith)
            requires
                h >= 1,
                w >= 0,
        ;
        wh + ((h + 1) / 2) * w + w % 2
    } else {
        wh
    };
    needed <= wh3 / 2
}

/// Converts an RGB frame for the virtual camera into `buf`, resized first
/// to the NV12 size of the camera frame, `width * height * 3 / 2` bytes.
pub fn fill_nv12_frame(rgb: &[u8], width: u32, height: u32, buf: &mut Vec<u8>)
    requires
        (width as int) * (height as int) * 3 <= u32::MAX,
        (width as int) * (height as int) * 3 <= rgb@.len(),
        nv12_needed_len(width as int, height as int) <= (width as int) * (height as int) * 3 / 2,
    ensures
        rgb_to_nv12_result(
            rgb@,
            width as int,
            height as int,
            resized(old(buf)@, (width as int) * (height as int) * 3 / 2),
            final(buf)@,
        ),
{
    let nv12_size = (width * height * 3 / 2) as usize;
    resize_bytes(buf, nv12_size);
    assert(buf@.len() == nv12_size);
    let ghost before = buf@;
    rgb_to_nv12(rgb, width, height, buf.as_mut_slice());
    assert(rgb_to_nv12_result(rgb@, width as int, height as int, before, buf@));
}

/// The samples `rgb_to_nv12` writes stay in BT.601 studio range: luma in
/// 16..=235 and chroma in 16..=240, so the clamping never takes effect.
pub proof fn lemma_studio_range(r: u8, g: u8, b: u8)
    ensures
        16 <= luma(r as int, g as int, b as int) <= 235,
        16 <= chroma_u(r as int, g as int, b as int) <= 240,
        16 <= chroma_v(r as int, g as int, b as int) <= 240,
{
    let (ri, gi, bi) = (r as int, g as int, b as int);
    assert(0 <= (66 * ri + 129 * gi + 25 * bi + 128) / 256 <= 219) by (nonlinear_arith)
        requires
            0 <= ri < 256,
            0 <= gi < 256,
            0 <= bi < 256,
    ;
    assert(-112 <= (-38 * ri - 74 * gi + 112 * bi + 128) / 256 <= 112) by (nonlinear_arith)
        requires
            0 <= ri < 256,
            0 <= gi < 256,
            0 <= bi < 256,
    ;
    assert(-112 <= (112 * ri - 94 * gi - 18 * bi + 128) / 256 <= 112) by (nonlinear_arith)
        requires
            0 <= ri < 256,
            0 <= gi < 256,
            0 <= bi < 256,
    ;
}

} // verus!
