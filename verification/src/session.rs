//! One logical session: the persistent canvas between initializations, and
//! the single staging slot holding the most recently encoded image. A
//! composition call composites onto the session canvas, re-encodes it and
//! stages the encoded bytes; the host then queries the staged length and
//! copies the bytes out. Initialization refuses dimensions the encoder
//! could not take, so once a canvas is live every composition call stages
//! a nonempty image; a call without a canvas leaves the staging slot as
//! it was.

use vstd::prelude::*;

use crate::canvas::{pix, Pixel, PixelCanvas};
use crate::codec::{encode_canvas, png_of, rgba_bytes};
use crate::compositor::{composed, composite, lemma_composed_before_ext};

verus! {

/// A session: at most one live canvas and at most one staged encoded image.
pub struct Session {
    pub canvas: Option<PixelCanvas>,
    pub staged: Vec<u8>,
}

impl Session {
    /// A live canvas is well formed, has positive dimensions, and keeps a
    /// four-byte pixel row within the encoder's `i32` row limit, so that
    /// encoding it always succeeds.
    pub open spec fn wf(self) -> bool {
        self.canvas matches Some(c) ==> (c.wf() && c.width > 0 && c.height > 0 && c.width * 4
            <= i32::MAX)
    }

    /// A fresh session: no canvas, nothing staged.
    pub fn new() -> (s: Session)
        ensures
            s.wf(),
            s.canvas is None,
            s.staged@.len() == 0,
    {
        Session { canvas: None, staged: Vec::new() }
    }

    /// Replaces the session canvas with a fresh one cleared to
    /// `background`. Fails, leaving the session untouched, exactly when a
    /// dimension is zero, the pixel count does not fit in `usize`, or a
    /// four-byte pixel row overflows the encoder's `i32` row limit; the
    /// staged image is never affected.
    pub fn init_canvas(&mut self, width: u32, height: u32, background: Pixel) -> (ok: bool)
        requires
            old(self).wf(),
        ensures
            final(self).wf(),
            ok <==> (width > 0 && height > 0 && width * height <= usize::MAX && width * 4
                <= i32::MAX),
            !ok ==> *final(self) == *old(self),
            final(self).staged == old(self).staged,
            ok ==> (final(self).canvas matches Some(c) && c.wf() && c.width == width && c.height
                == height && (forall|px: int, py: int|
                0 <= px < width && 0 <= py < height ==> #[trigger] pix(
                    c.pixels@,
                    width as int,
                    px,
                    py,
                ) == background)),
    {
        if width > (i32::MAX / 4) as u32 {
            return false;
        }
        match PixelCanvas::new(width, height, background) {
            Some(c) => {
                self.canvas = Some(c);
                true
            },
            None => false,
        }
    }

    /// Composites the grid onto the session canvas, encodes the canvas and
    /// stages the encoded bytes. Without a live canvas nothing happens and
    /// the call reports failure. With one, the call succeeds: the canvas
    /// is updated exactly as the compositor promises and the staged bytes
    /// become the nonempty encoding of the updated canvas.
    pub fn generate_image_with_offset(
        &mut self,
        grid: &[u8],
        grid_size: usize,
        dot_size: u32,
        palette: &[u8],
        offset_x: u32,
        offset_y: u32,
    ) -> (ok: bool)
        requires
            old(self).wf(),
            grid@.len() >= grid_size * grid_size,
        ensures
            final(self).wf(),
            ok <==> old(self).canvas is Some,
            old(self).canvas is None ==> *final(self) == *old(self),
            final(self).canvas is Some <==> old(self).canvas is Some,
            (old(self).canvas matches Some(c0) ==> (final(self).canvas matches Some(c1)
                && c1.wf()
                && c1.width == c0.width
                && c1.height == c0.height
                && composed(
                c0.pixels@,
                c1.pixels@,
                c0.width as int,
                c0.height as int,
                grid@,
                grid_size as int,
                palette@,
                dot_size as int,
                offset_x as int,
                offset_y as int,
            )
                && final(self).staged@ == png_of(rgba_bytes(c1.pixels@), c0.width, c0.height)
                && final(self).staged@.len() > 0)),
    {
        let r: Option<Vec<u8>> = match &mut self.canvas {
            None => {
                return false;
            },
            Some(c) => {
                composite(grid, grid_size, palette, dot_size, c, offset_x, offset_y);
                encode_canvas(c)
            },
        };
        match r {
            Some(bytes) => {
                self.staged = bytes;
                true
            },
            None => false,
        }
    }

    /// The length in bytes of the most recently staged encoded image, or 0
    /// if none has been produced yet.
    pub fn get_image_size(&self) -> (n: usize)
        ensures
            n == self.staged@.len(),
    {
        self.staged.len()
    }

    /// Copies out at most `max_size` bytes of the staged image: writes
    /// `min(staged length, max_size)` bytes to the front of `dest`, leaves
    /// the rest of `dest` untouched, and returns the number written.
    pub fn get_image_data(&self, dest: &mut Vec<u8>, max_size: usize) -> (n: usize)
        requires
            old(dest)@.len() >= max_size,
        ensures
            self.staged@.len() <= max_size ==> n == self.staged@.len(),
            self.staged@.len() > max_size ==> n == max_size,
            final(dest)@.len() == old(dest)@.len(),
            forall|k: int| 0 <= k < n ==> final(dest)@[k] == self.staged@[k],
            forall|k: int| n <= k < old(dest)@.len() ==> final(dest)@[k] == old(dest)@[k],
    {
        let n = if self.staged.len() <= max_size {
            self.staged.len()
        } else {
            max_size
        };
        let mut k: usize = 0;
        while k < n
            invariant
                k <= n,
                n <= self.staged@.len(),
                n <= max_size,
                max_size <= old(dest)@.len(),
                dest@.len() == old(dest)@.len(),
                forall|q: int| 0 <= q < k ==> dest@[q] == self.staged@[q],
                forall|q: int| k <= q < old(dest)@.len() ==> dest@[q] == old(dest)@[q],
            decreases n - k,
        {
            let b = self.staged[k];
            dest.set(k, b);
            k += 1;
        }
        n
    }
}

/// The one-shot variant: composites the grid onto a fresh canvas of the
/// given dimensions cleared to `background`, encodes it, and returns the
/// canvas together with the encoded bytes, touching no session state.
/// Nothing is returned exactly when the dimensions are unusable: a zero
/// dimension, a pixel count past `usize`, or a four-byte pixel row past
/// the encoder's `i32` row limit.
pub fn compose_one_shot(
    grid: &[u8],
    grid_size: usize,
    dot_size: u32,
    palette: &[u8],
    width: u32,
    height: u32,
    background: Pixel,
    offset_x: u32,
    offset_y: u32,
) -> (r: Option<(PixelCanvas, Vec<u8>)>)
    requires
        grid@.len() >= grid_size * grid_size,
    ensures
        r is Some <==> (width > 0 && height > 0 && width * height <= usize::MAX && width * 4
            <= i32::MAX),
        (r matches Some(p) ==> {
            &&& p.0.wf()
            &&& p.0.width == width
            &&& p.0.height == height
            &&& composed(
                Seq::new((width * height) as nat, |k: int| background),
                p.0.pixels@,
                width as int,
                height as int,
                grid@,
                grid_size as int,
                palette@,
                dot_size as int,
                offset_x as int,
                offset_y as int,
            )
            &&& p.1@ == png_of(rgba_bytes(p.0.pixels@), width, height)
            &&& p.1@.len() > 0
        }),
{
    let mut c = match PixelCanvas::new(width, height, background) {
        Some(c) => c,
        None => {
            return None;
        },
    };
    let ghost start = c.pixels@;
    composite(grid, grid_size, palette, dot_size, &mut c, offset_x, offset_y);
    let png = match encode_canvas(&c) {
        Some(p) => p,
        None => {
            return None;
        },
    };
    proof {
        let bg = Seq::new((width * height) as nat, |k: int| background);
        assert forall|px: int, py: int| 0 <= px < width && 0 <= py < height implies #[trigger] pix(
            start,
            width as int,
            px,
            py,
        ) == pix(bg, width as int, px, py) by {
            assert(0 <= py * width + px < width * height) by (nonlinear_arith)
                requires
                    0 <= px < width,
                    0 <= py < height,
            ;
        }
        lemma_composed_before_ext(
            start,
            bg,
            c.pixels@,
            width as int,
            height as int,
            grid@,
            grid_size as int,
            palette@,
            dot_size as int,
            offset_x as int,
            offset_y as int,
        );
    }
    Some((c, png))
}

/// The side, in pixels, of the canvas the derived-dimension variant uses:
/// `grid_size * dot_size`, refused when it does not fit a canvas dimension.
pub fn derived_dimension(grid_size: usize, dot_size: u32) -> (r: Option<u32>)
    ensures
        r is Some <==> grid_size * dot_size <= u32::MAX,
        (r matches Some(side) ==> side == grid_size * dot_size),
{
    match (grid_size as u64).checked_mul(dot_size as u64) {
        Some(v) => {
            if v <= 0xffff_ffffu64 {
                Some(v as u32)
            } else {
                None
            }
        },
        None => None,
    }
}

} // verus!
