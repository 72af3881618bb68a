//! The image codec adapter: a black-box call into the external PNG encoder.
//! The canvas is flattened into the byte layout the encoder expects, and the
//! encoder's output is named, not restated: `png_of` stands for the bytes
//! the encoder produces for a given buffer and dimensions.

use vstd::prelude::*;
use vstd::arithmetic::div_mod::lemma_fundamental_div_mod_converse;

use crate::canvas::{Pixel, PixelCanvas};

verus! {

/// The byte at position `k` of the flat RGBA encoding of `s`: pixel `k / 4`,
/// channel `k % 4`, channels in r, g, b, a order.
pub open spec fn rgba_byte(s: Seq<Pixel>, k: int) -> u8 {
    let p = s[k / 4];
    if k % 4 == 0 {
        p.r
    } else if k % 4 == 1 {
        p.g
    } else if k % 4 == 2 {
        p.b
    } else {
        p.a
    }
}

/// The flat byte encoding of a pixel buffer: four bytes per pixel, in
/// r, g, b, a order. With every alpha fully opaque, premultiplied and
/// straight representations coincide.
pub open spec fn rgba_bytes(s: Seq<Pixel>) -> Seq<u8> {
    Seq::new(s.len() * 4, |k: int| rgba_byte(s, k))
}

/// The PNG byte stream the external encoder produces for a premultiplied
/// RGBA byte buffer of the given dimensions.
pub uninterp spec fn png_of(data: Seq<u8>, width: u32, height: u32) -> Seq<u8>;

/// Flattens a pixel buffer into its RGBA byte encoding.
fn to_rgba_bytes(pixels: &Vec<Pixel>) -> (out: Vec<u8>)
    ensures
        out@ == rgba_bytes(pixels@),
{
    let n = pixels.len();
    let mut out: Vec<u8> = Vec::new();
    let mut p: usize = 0;
    while p < n
        invariant
            p <= n,
            n == pixels@.len(),
            out@.len() == 4 * p,
            forall|k: int| 0 <= k < 4 * p ==> out@[k] == rgba_byte(pixels@, k),
        decreases n - p,
    {
        let px = pixels[p];
        out.push(px.r);
        out.push(px.g);
        out.push(px.b);
        out.push(px.a);
        proof {
            lemma_fundamental_div_mod_converse(4 * (p as int), 4, p as int, 0);
            lemma_fundamental_div_mod_converse(4 * (p as int) + 1, 4, p as int, 1);
            lemma_fundamental_div_mod_converse(4 * (p as int) + 2, 4, p as int, 2);
            lemma_fundamental_div_mod_converse(4 * (p as int) + 3, 4, p as int, 3);
        }
        p += 1;
    }
    proof {
        assert(out@ =~= rgba_bytes(pixels@));
    }
    out
}

/// Relies on tiny_skia::Pixmap::from_vec and tiny_skia::Pixmap::encode_png:
/// building a pixmap over a premultiplied RGBA byte buffer of the given
/// dimensions and encoding it as a PNG stream. The encoded bytes depend on
/// the buffer and the dimensions alone. For positive dimensions and a
/// buffer of exactly four bytes per pixel, the pixmap is refused exactly
/// when a four-byte row overflows `i32`; past that the encoder writes the
/// PNG signature and then the image into an in-memory vector, so it always
/// succeeds and the stream is never empty.
#[verifier::external_body]
fn encode_rgba_png(data: Vec<u8>, width: u32, height: u32) -> (r: Option<Vec<u8>>)
    requires
        width > 0,
        height > 0,
        data@.len() == width * height * 4,
    ensures
        r is Some <==> width * 4 <= i32::MAX,
        (r matches Some(png) ==> png@ == png_of(data@, width, height) && png@.len() > 0),
{
    let size = match tiny_skia::IntSize::from_wh(width, height) {
        Some(s) => s,
        None => return None,
    };
    let pixmap = match tiny_skia::Pixmap::from_vec(data, size) {
        Some(p) => p,
        None => return None,
    };
    pixmap.encode_png().ok()
}

/// Encodes the canvas as a PNG byte stream. Encoding succeeds exactly when
/// a four-byte pixel row fits the external encoder's `i32` row limit, and a
/// produced stream is never empty.
pub fn encode_canvas(canvas: &PixelCanvas) -> (r: Option<Vec<u8>>)
    requires
        canvas.wf(),
        canvas.width > 0,
        canvas.height > 0,
    ensures
        r is Some <==> canvas.width * 4 <= i32::MAX,
        (r matches Some(png) ==> png@ == png_of(
            rgba_bytes(canvas.pixels@),
            canvas.width,
            canvas.height,
        ) && png@.len() > 0),
{
    let data = to_rgba_bytes(&canvas.pixels);
    encode_rgba_png(data, canvas.width, canvas.height)
}

} // verus!
