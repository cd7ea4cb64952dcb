//! Pixel buffers of captured frames: telling a black capture, cutting a
//! rectangle out of a frame, and the calibration preview image.

use vstd::prelude::*;
use base64::Engine;
use crate::text::{owned, push_str};

verus! {

/// A channel value at or below this counts as black.
pub const BLACK_LEVEL: u8 = 8;

/// A pixel (its first three channels) is not black.
pub open spec fn non_black(buf: Seq<u8>, start: int) -> bool {
    buf[start] > BLACK_LEVEL || buf[start + 1] > BLACK_LEVEL || buf[start + 2] > BLACK_LEVEL
}

/// How many of the first `k` pixels of `bpp` bytes are not black.
pub open spec fn non_black_count(buf: Seq<u8>, bpp: nat, k: nat) -> nat
    decreases k,
{
    if k == 0 {
        0
    } else {
        non_black_count(buf, bpp, (k - 1) as nat) + if non_black(buf, (k - 1) * bpp) {
            1nat
        } else {
            0nat
        }
    }
}

/// A frame is black when at most 1% of its whole pixels are not black.
pub open spec fn black_frame(buf: Seq<u8>, bpp: nat) -> bool {
    let total = buf.len() / bpp;
    non_black_count(buf, bpp, total) * 100 <= total
}

proof fn lemma_count_monotone(buf: Seq<u8>, bpp: nat, a: nat, b: nat)
    requires
        a <= b,
    ensures
        non_black_count(buf, bpp, a) <= non_black_count(buf, bpp, b),
    decreases b - a,
{
    if a < b {
        lemma_count_monotone(buf, bpp, a, (b - 1) as nat);
    }
}

/// Whether a capture is (essentially) black: `bpp` bytes per pixel, the
/// first three being colour channels.
proof fn lemma_count_dark(buf: Seq<u8>, bpp: nat, k: nat)
    requires
        forall|i: int| 0 <= i < buf.len() ==> buf[i] <= 8,
        k * bpp + 3 <= buf.len() + bpp,
        bpp >= 3,
    ensures
        non_black_count(buf, bpp, k) == 0,
    decreases k,
{
    if k > 0 {
        assert((k - 1) * bpp + bpp == k * bpp) by (nonlinear_arith);
        lemma_count_dark(buf, bpp, (k - 1) as nat);
    }
}

proof fn lemma_count_lit(buf: Seq<u8>, bpp: nat, k: nat)
    requires
        forall|p: int| 0 <= p < k ==> buf[#[trigger] (p * bpp)] > 8,
    ensures
        non_black_count(buf, bpp, k) == k,
    decreases k,
{
    if k > 0 {
        let p = (k - 1) as int;
        assert(buf[p * bpp] > 8);
        lemma_count_lit(buf, bpp, (k - 1) as nat);
    }
}

/// A frame with no channel byte above 8 is black; a frame of at least one
/// pixel whose every pixel has its first channel above 8 is not (a frame is
/// black when at most one pixel in a hundred has a channel above 8).
pub proof fn lemma_black_frame_bounds(buf: Seq<u8>, bpp: nat)
    requires
        bpp >= 3,
    ensures
        (forall|i: int| 0 <= i < buf.len() ==> buf[i] <= 8) ==> black_frame(buf, bpp),
        (buf.len() >= bpp && forall|p: int| 0 <= p < buf.len() / bpp ==> buf[#[trigger] (p * bpp)] > 8) ==> !black_frame(buf, bpp),
{
    let total = buf.len() / bpp;
    assert(total * bpp <= buf.len()) by (nonlinear_arith)
        requires total == buf.len() / bpp, bpp > 0;
    if forall|i: int| 0 <= i < buf.len() ==> buf[i] <= 8 {
        lemma_count_dark(buf, bpp, total);
    }
    if buf.len() >= bpp && forall|p: int| 0 <= p < buf.len() / bpp ==> buf[#[trigger] (p * bpp)] > 8 {
        assert(total >= 1) by (nonlinear_arith)
            requires total == buf.len() / bpp, buf.len() >= bpp, bpp > 0;
        lemma_count_lit(buf, bpp, total);
    }
}

pub fn is_black_frame(buf: &[u8], bpp: usize) -> (r: bool)
    requires
        bpp >= 3,
    ensures
        r == black_frame(buf@, bpp as nat),
{
    let n = buf.len();
    assert(n == buf@.len());
    let total = n / bpp;
    assert(total <= usize::MAX / 3) by (nonlinear_arith)
        requires total == n / bpp, bpp >= 3, n <= usize::MAX;
    let mut non_black_px: usize = 0;
    let mut k: usize = 0;
    let mut start: usize = 0;
    while k < total
        invariant
            bpp >= 3,
            total == buf@.len() / (bpp as nat),
            k <= total,
            start == k * bpp,
            non_black_px == non_black_count(buf@, bpp as nat, k as nat),
            non_black_px * 100 <= total,
            total <= usize::MAX / 3,
        decreases total - k,
    {
        assert((k + 1) * bpp <= total * bpp) by (nonlinear_arith)
            requires k + 1 <= total;
        assert(total * bpp <= buf@.len()) by (nonlinear_arith)
            requires total == buf@.len() / (bpp as nat), bpp > 0;
        assert(start + bpp == (k + 1) * bpp) by (nonlinear_arith)
            requires start == k * bpp;
        if buf[start] > BLACK_LEVEL || buf[start + 1] > BLACK_LEVEL || buf[start + 2] > BLACK_LEVEL {
            non_black_px = non_black_px + 1;
            if non_black_px * 100 > total {
                proof {
                    lemma_count_monotone(buf@, bpp as nat, (k + 1) as nat, total as nat);
                }
                return false;
            }
        }
        k = k + 1;
        start = start + bpp;
    }
    true
}

/// The byte at channel `c` of pixel (`col`, `row`) of a rectangle cut out of
/// a frame `w` pixels wide, at (`x`, `y`), `bpp` bytes per source pixel.
pub open spec fn source_index(w: int, x: int, y: int, bpp: int, row: int, col: int, c: int) -> int {
    ((y + row) * w + x + col) * bpp + c
}

/// Cut the `rw`×`rh` rectangle at (`x`, `y`) out of a `w`×`h` frame of
/// `bpp`-byte pixels, as 3-byte pixels (the first three channels, alpha
/// dropped); `None` for an empty rectangle or one outside the frame.
pub fn crop_rect(frame: &[u8], w: u32, h: u32, x: u32, y: u32, rw: u32, rh: u32, bpp: u32) -> (r:
    Option<(Vec<u8>, u32, u32)>)
    requires
        bpp >= 3,
        (w as int) * (h as int) * (bpp as int) <= frame@.len(),
        (w as int) * (h as int) <= u32::MAX,
    ensures
        (rw == 0 || rh == 0 || x as int + rw as int > w as int || y as int + rh as int > h as int)
            <==> r is None,
        r matches Some((out, ow, oh)) ==> ow == rw && oh == rh && out@.len() == (rw as int) * (rh as int)
            * 3 && forall|row: int, col: int, c: int|
            0 <= row < rh && 0 <= col < rw && 0 <= c < 3 ==> #[trigger] out@[(row * rw + col) * 3 + c]
                == frame@[source_index(w as int, x as int, y as int, bpp as int, row, col, c)],
{
    if rw == 0 || rh == 0 || x as u64 + rw as u64 > w as u64 || y as u64 + rh as u64 > h as u64 {
        return None;
    }
    let mut out: Vec<u8> = Vec::new();
    let mut row: u32 = 0;
    while row < rh
        invariant
            bpp >= 3,
            (w as int) * (h as int) * (bpp as int) <= frame@.len(),
            (w as int) * (h as int) <= u32::MAX,
            x + rw <= w,
            y + rh <= h,
            row <= rh,
            out@.len() == (row as int) * (rw as int) * 3,
            forall|r2: int, col: int, c: int|
                0 <= r2 < row && 0 <= col < rw && 0 <= c < 3 ==> #[trigger] out@[(r2 * rw + col) * 3 + c]
                    == frame@[source_index(w as int, x as int, y as int, bpp as int, r2, col, c)],
        decreases rh - row,
    {
        let mut col: u32 = 0;
        while col < rw
            invariant
                bpp >= 3,
                (w as int) * (h as int) * (bpp as int) <= frame@.len(),
                (w as int) * (h as int) <= u32::MAX,
                x + rw <= w,
                y + rh <= h,
                row < rh,
                col <= rw,
                out@.len() == ((row as int) * (rw as int) + col) * 3,
                forall|r2: int, c2: int, c: int|
                    0 <= r2 < row && 0 <= c2 < rw && 0 <= c < 3 ==> #[trigger] out@[(r2 * rw + c2) * 3 + c]
                        == frame@[source_index(w as int, x as int, y as int, bpp as int, r2, c2, c)],
                forall|c2: int, c: int|
                    0 <= c2 < col && 0 <= c < 3 ==> #[trigger] out@[(row * rw + c2) * 3 + c]
                        == frame@[source_index(w as int, x as int, y as int, bpp as int, row as int, c2, c)],
            decreases rw - col,
        {
            let ghost s0 = source_index(w as int, x as int, y as int, bpp as int, row as int, col as int, 0);
            assert(s0 + 2 < frame@.len() && s0 == ((y + row) * w + x + col) * bpp
                && (y + row) * w <= (w as int) * (h as int) && (y + row) * w + x + col < (w as int) * (h as int)
                && (w as int) * (h as int) <= u32::MAX) by (nonlinear_arith)
                requires
                    s0 == ((y + row) * w + x + col) * bpp,
                    row < rh, col < rw, x + rw <= w, y + rh <= h, bpp >= 3,
                    (w as int) * (h as int) * (bpp as int) <= frame@.len(),
                    (w as int) * (h as int) <= u32::MAX,
            ;
            let pixel: u32 = (y + row) * w + x + col;
            assert((pixel as int) * (bpp as int) == s0);
            let n = frame.len();
            assert(n as int == frame@.len());
            let src = (pixel as usize) * (bpp as usize);
            let ghost before = out@;
            out.push(frame[src]);
            out.push(frame[src + 1]);
            out.push(frame[src + 2]);
            proof {
                let base = ((row as int) * (rw as int) + col) * 3;
                assert(out@.len() == base + 3);
                assert forall|r2: int, c2: int, c: int|
                    0 <= r2 < row && 0 <= c2 < rw && 0 <= c < 3 implies #[trigger] out@[(r2 * rw + c2) * 3 + c]
                        == frame@[source_index(w as int, x as int, y as int, bpp as int, r2, c2, c)] by {
                    assert((r2 * rw + c2) * 3 + c < base) by (nonlinear_arith)
                        requires 0 <= r2 < row, 0 <= c2 < rw, 0 <= c < 3, base == ((row as int) * (rw as int) + col) * 3;
                    assert(out@[(r2 * rw + c2) * 3 + c] == before[(r2 * rw + c2) * 3 + c]);
                }
                assert forall|c2: int, c: int|
                    0 <= c2 < col + 1 && 0 <= c < 3 implies #[trigger] out@[(row * rw + c2) * 3 + c]
                        == frame@[source_index(w as int, x as int, y as int, bpp as int, row as int, c2, c)] by {
                    if c2 < col {
                        assert((row * rw + c2) * 3 + c < base) by (nonlinear_arith)
                            requires 0 <= c2 < col, 0 <= c < 3, base == ((row as int) * (rw as int) + col) * 3;
                        assert(out@[(row * rw + c2) * 3 + c] == before[(row * rw + c2) * 3 + c]);
                    } else {
                        assert((row * rw + c2) * 3 + c == base + c) by (nonlinear_arith)
                            requires c2 == col, base == ((row as int) * (rw as int) + col) * 3;
                        assert(source_index(w as int, x as int, y as int, bpp as int, row as int, c2, c) == s0 + c);
                    }
                }
                assert(out@.len() == ((row as int) * (rw as int) + col + 1) * 3) by (nonlinear_arith)
                    requires out@.len() == base + 3, base == ((row as int) * (rw as int) + col) * 3;
            }
            col = col + 1;
        }
        proof {
            assert(out@.len() == ((row + 1) as int) * (rw as int) * 3) by (nonlinear_arith)
                requires out@.len() == ((row as int) * (rw as int) + rw) * 3;
        }
        row = row + 1;
    }
    assert(out@.len() == (rw as int) * (rh as int) * 3) by (nonlinear_arith)
        requires out@.len() == (row as int) * (rw as int) * 3, row == rh;
    Some((out, rw, rh))
}

/// Four-byte BGRA pixels as three-byte RGB pixels.
pub fn bgra_to_rgb(content: &[u8], px_count: usize) -> (r: Vec<u8>)
    requires
        (px_count as int) * 4 <= content@.len(),
    ensures
        r@.len() == (px_count as int) * 3,
        forall|i: int, c: int| 0 <= i < px_count && 0 <= c < 3 ==> #[trigger] r@[i * 3 + c] == content@[i * 4 + 2 - c],
{
    let mut r: Vec<u8> = Vec::new();
    let mut i: usize = 0;
    assert(content.len() == content@.len());
    while i < px_count
        invariant
            (px_count as int) * 4 <= content@.len(),
            content.len() == content@.len(),
            i <= px_count,
            r@.len() == (i as int) * 3,
            forall|j: int, c: int| 0 <= j < i && 0 <= c < 3 ==> #[trigger] r@[j * 3 + c] == content@[j * 4 + 2 - c],
        decreases px_count - i,
    {
        let n = content.len();
        assert(i * 4 + 3 < n) by (nonlinear_arith)
            requires i < px_count, (px_count as int) * 4 <= n;
        let s = i * 4;
        let ghost before = r@;
        r.push(content[s + 2]);
        r.push(content[s + 1]);
        r.push(content[s]);
        proof {
            assert forall|j: int, c: int| 0 <= j < i + 1 && 0 <= c < 3 implies #[trigger] r@[j * 3 + c] == content@[j * 4 + 2 - c] by {
                if j < i {
                    assert(j * 3 + c < (i as int) * 3) by (nonlinear_arith)
                        requires 0 <= j < i, 0 <= c < 3;
                    assert(r@[j * 3 + c] == before[j * 3 + c]);
                }
            }
        }
        i = i + 1;
    }
    r
}

/// The PNG file the image crate writes for a `w`×`h` RGB image (`None`
/// when the buffer is too short for the image or encoding fails).
pub uninterp spec fn png_file(w: u32, h: u32, rgb: Seq<u8>) -> Option<Seq<u8>>;

/// `image::RgbImage::from_raw` then `write_to(.., ImageFormat::Png)` into a
/// memory buffer: the PNG bytes are named, not spelled out.
#[verifier::external_body]
fn encode_png(w: u32, h: u32, rgb: Vec<u8>) -> (r: Option<Vec<u8>>)
    ensures
        match r {
            Some(b) => png_file(w, h, rgb@) == Some(b@),
            None => png_file(w, h, rgb@) is None,
        },
{
    let img = image::RgbImage::from_raw(w, h, rgb)?;
    let mut png: Vec<u8> = Vec::new();
    img.write_to(&mut std::io::Cursor::new(&mut png), image::ImageFormat::Png).ok()?;
    Some(png)
}

/// Standard base64 (with padding) of some bytes.
pub uninterp spec fn base64_text(bytes: Seq<u8>) -> Seq<char>;

/// `base64::engine::general_purpose::STANDARD.encode`: the text is named,
/// not spelled out.
#[verifier::external_body]
fn encode_base64(bytes: &[u8]) -> (r: String)
    requires
        bytes@.len() <= usize::MAX / 4,
    ensures
        r@ == base64_text(bytes@),
{
    base64::engine::general_purpose::STANDARD.encode(bytes)
}

/// The calibration preview of a `w`×`h` BGRA frame, as a `data:` URL of a
/// PNG image.
pub fn preview_data_url(content: &[u8], w: u32, h: u32) -> (r: Option<String>)
    requires
        (w as int) * (h as int) * 4 <= content@.len(),
    ensures
        ({
            let rgb = Seq::new(
                ((w as int) * (h as int) * 3) as nat,
                |k: int| content@[(k / 3) * 4 + 2 - k % 3],
            );
            match png_file(w, h, rgb) {
                Some(png) => if png.len() <= usize::MAX / 4 {
                    r matches Some(s) && s@ == "data:image/png;base64,"@ + base64_text(png)
                } else {
                    r is None
                },
                None => r is None,
            }
        }),
{
    let n = content.len();
    assert(n == content@.len());
    assert((w as int) * (h as int) <= usize::MAX) by (nonlinear_arith)
        requires (w as int) * (h as int) * 4 <= n, n <= usize::MAX;
    let px_count = (w as usize) * (h as usize);
    let rgb = bgra_to_rgb(content, px_count);
    let ghost expected = Seq::new(
        ((w as int) * (h as int) * 3) as nat,
        |k: int| content@[(k / 3) * 4 + 2 - k % 3],
    );
    proof {
        assert forall|k: int| 0 <= k < rgb@.len() implies rgb@[k] == expected[k] by {
            let i = k / 3;
            let c = k % 3;
            assert(k == i * 3 + c && 0 <= c < 3 && 0 <= i < px_count) by (nonlinear_arith)
                requires 0 <= k < (px_count as int) * 3, i == k / 3, c == k % 3;
        }
        assert(rgb@ =~= expected);
    }
    let png = match encode_png(w, h, rgb) {
        Some(p) => p,
        None => {
            return None;
        },
    };
    if png.len() > usize::MAX / 4 {
        return None;
    }
    let mut url = owned("data:image/png;base64,");
    let text = encode_base64(png.as_slice());
    push_str(&mut url, text.as_str());
    Some(url)
}

} // verus!
