//! The working pixel buffer: an RGBA canvas addressed by column and row,
//! stored row-major, together with the one drawing primitive the compositor
//! needs: filling an axis-aligned square with a single color, clipped to the
//! canvas bounds.

use vstd::prelude::*;

verus! {

/// One pixel, 8 bits per channel. The alpha channel is carried explicitly,
/// although every color the compositor writes is fully opaque.
#[derive(Clone, Copy, PartialEq, Eq, Structural, Debug)]
pub struct Pixel {
    pub r: u8,
    pub g: u8,
    pub b: u8,
    pub a: u8,
}

/// The square `[x0, x0 + d) x [y0, y0 + d)`, as a predicate on a point.
pub open spec fn in_rect(x0: int, y0: int, d: int, px: int, py: int) -> bool {
    x0 <= px < x0 + d && y0 <= py < y0 + d
}

/// The pixel of a row-major buffer of row width `w` at column `px`, row `py`.
pub open spec fn pix(s: Seq<Pixel>, w: int, px: int, py: int) -> Pixel {
    s[py * w + px]
}

/// A canvas of `width * height` pixels, stored row-major: the pixel at
/// column `px`, row `py` sits at index `py * width + px`.
pub struct PixelCanvas {
    pub width: u32,
    pub height: u32,
    pub pixels: Vec<Pixel>,
}

impl PixelCanvas {
    /// The buffer holds exactly one pixel per canvas coordinate.
    pub open spec fn wf(self) -> bool {
        self.pixels@.len() == self.width * self.height
    }

    /// Creates a canvas cleared to `background`. Fails exactly when a
    /// dimension is zero or the pixel count does not fit in `usize`.
    pub fn new(width: u32, height: u32, background: Pixel) -> (r: Option<PixelCanvas>)
        ensures
            r is Some <==> (width > 0 && height > 0 && width * height <= usize::MAX),
            (r matches Some(c) ==> {
                &&& c.wf()
                &&& c.width == width
                &&& c.height == height
                &&& forall|px: int, py: int|
                    0 <= px < width && 0 <= py < height ==> #[trigger] pix(
                        c.pixels@,
                        width as int,
                        px,
                        py,
                    ) == background
            }),
    {
        if width == 0 || height == 0 {
            return None;
        }
        let total = match (width as usize).checked_mul(height as usize) {
            Some(t) => t,
            None => {
                return None;
            },
        };
        let mut pixels: Vec<Pixel> = Vec::new();
        let mut k: usize = 0;
        while k < total
            invariant
                k <= total,
                pixels@.len() == k,
                forall|q: int| 0 <= q < k ==> pixels@[q] == background,
            decreases total - k,
        {
            pixels.push(background);
            k += 1;
        }
        let c = PixelCanvas { width, height, pixels };
        proof {
            assert forall|px: int, py: int| 0 <= px < width && 0 <= py < height implies #[trigger] pix(
                c.pixels@,
                width as int,
                px,
                py,
            ) == background by {
                assert(0 <= py * width + px < width * height) by (nonlinear_arith)
                    requires
                        0 <= px < width,
                        0 <= py < height,
                ;
            }
        }
        Some(c)
    }

    /// Fills the square of side `d` at `(x0, y0)` with `color`, overwriting
    /// (not blending) every pixel of the square that lies inside the canvas
    /// and leaving every other pixel as it was.
    pub fn fill_rect(&mut self, x0: u64, y0: u64, d: u32, color: Pixel)
        requires
            old(self).wf(),
            x0 + d <= u64::MAX,
            y0 + d <= u64::MAX,
        ensures
            final(self).wf(),
            final(self).width == old(self).width,
            final(self).height == old(self).height,
            final(self).pixels@.len() == old(self).pixels@.len(),
            forall|px: int, py: int|
                0 <= px < old(self).width && 0 <= py < old(self).height && in_rect(
                    x0 as int,
                    y0 as int,
                    d as int,
                    px,
                    py,
                ) ==> #[trigger] pix(final(self).pixels@, old(self).width as int, px, py) == color,
            forall|px: int, py: int|
                0 <= px < old(self).width && 0 <= py < old(self).height && !in_rect(
                    x0 as int,
                    y0 as int,
                    d as int,
                    px,
                    py,
                ) ==> #[trigger] pix(final(self).pixels@, old(self).width as int, px, py) == pix(
                    old(self).pixels@,
                    old(self).width as int,
                    px,
                    py,
                ),
    {
        let w = self.width;
        let h = self.height;
        let mut y: u32 = 0;
        while y < d
            invariant
                y <= d,
                x0 + d <= u64::MAX,
                y0 + d <= u64::MAX,
                self.wf(),
                self.width == old(self).width,
                self.height == old(self).height,
                self.pixels@.len() == old(self).pixels@.len(),
                w == self.width,
                h == self.height,
                forall|px: int, py: int|
                    0 <= px < w && 0 <= py < h && in_rect(x0 as int, y0 as int, d as int, px, py)
                        && py < y0 + y ==> #[trigger] pix(self.pixels@, w as int, px, py) == color,
                forall|px: int, py: int|
                    0 <= px < w && 0 <= py < h && !(in_rect(x0 as int, y0 as int, d as int, px, py)
                        && py < y0 + y) ==> #[trigger] pix(self.pixels@, w as int, px, py) == pix(
                        old(self).pixels@,
                        w as int,
                        px,
                        py,
                    ),
            decreases d - y,
        {
            let mut x: u32 = 0;
            while x < d
                invariant
                    x <= d,
                    y < d,
                    x0 + d <= u64::MAX,
                    y0 + d <= u64::MAX,
                    self.wf(),
                    self.width == old(self).width,
                    self.height == old(self).height,
                    self.pixels@.len() == old(self).pixels@.len(),
                    w == self.width,
                    h == self.height,
                    forall|px: int, py: int|
                        0 <= px < w && 0 <= py < h && in_rect(
                            x0 as int,
                            y0 as int,
                            d as int,
                            px,
                            py,
                        ) && (py < y0 + y || (py == y0 + y && px < x0 + x)) ==> #[trigger] pix(
                            self.pixels@,
                            w as int,
                            px,
                            py,
                        ) == color,
                    forall|px: int, py: int|
                        0 <= px < w && 0 <= py < h && !(in_rect(
                            x0 as int,
                            y0 as int,
                            d as int,
                            px,
                            py,
                        ) && (py < y0 + y || (py == y0 + y && px < x0 + x))) ==> #[trigger] pix(
                            self.pixels@,
                            w as int,
                            px,
                            py,
                        ) == pix(old(self).pixels@, w as int, px, py),
                decreases d - x,
            {
                let px = x0 + x as u64;
                let py = y0 + y as u64;
                if px < w as u64 && py < h as u64 {
                    let len = self.pixels.len();
                    proof {
                        assert(0 <= (py as int) * (w as int) + (px as int) < (w as int) * (
                        h as int)) by (nonlinear_arith)
                            requires
                                0 <= px < w,
                                0 <= py < h,
                        ;
                        assert((w as int) * (h as int) == len);
                    }
                    let pos = (py * (w as u64) + px) as usize;
                    let ghost prev = self.pixels@;
                    self.pixels.set(pos, color);
                    proof {
                        lemma_fill_step(
                            prev,
                            self.pixels@,
                            w as int,
                            h as int,
                            px as int,
                            py as int,
                            color,
                        );
                    }
                }
                x += 1;
            }
            y += 1;
        }
    }

    /// The canvas width.
    pub fn width(&self) -> (r: u32)
        ensures
            r == self.width,
    {
        self.width
    }

    /// The canvas height.
    pub fn height(&self) -> (r: u32)
        ensures
            r == self.height,
    {
        self.height
    }

    /// The pixel at column `px`, row `py`.
    pub fn pixel_at(&self, px: u32, py: u32) -> (r: Pixel)
        requires
            self.wf(),
            px < self.width,
            py < self.height,
        ensures
            r == pix(self.pixels@, self.width as int, px as int, py as int),
    {
        let len = self.pixels.len();
        proof {
            assert(0 <= (py as int) * (self.width as int) + (px as int) < (self.width as int) * (
            self.height as int)) by (nonlinear_arith)
                requires
                    0 <= px < self.width,
                    0 <= py < self.height,
            ;
            assert((self.width as int) * (self.height as int) == len);
        }
        self.pixels[(py as usize) * (self.width as usize) + (px as usize)]
    }
}

/// Distinct coordinates inside a row of width `w` map to distinct row-major
/// indices: the flattening `(px, py) -> py * w + px` is injective.
pub proof fn lemma_row_major_unique(w: int, px1: int, py1: int, px2: int, py2: int)
    by (nonlinear_arith)
    requires
        0 <= px1 < w,
        0 <= px2 < w,
        py1 >= 0,
        py2 >= 0,
        py1 * w + px1 == py2 * w + px2,
    ensures
        px1 == px2,
        py1 == py2,
{
}

/// After one in-bounds pixel write, the written coordinate holds the new
/// color and every other coordinate is unchanged.
proof fn lemma_fill_step(prev: Seq<Pixel>, cur: Seq<Pixel>, w: int, h: int, wx: int, wy: int, color: Pixel)
    requires
        prev.len() == w * h,
        0 <= wx < w,
        0 <= wy < h,
        0 <= wy * w + wx < prev.len(),
        cur == prev.update(wy * w + wx, color),
    ensures
        cur.len() == prev.len(),
        pix(cur, w, wx, wy) == color,
        forall|px: int, py: int|
            0 <= px < w && 0 <= py < h && !(px == wx && py == wy) ==> #[trigger] pix(
                cur,
                w,
                px,
                py,
            ) == pix(prev, w, px, py),
{
    assert forall|px: int, py: int|
        0 <= px < w && 0 <= py < h && !(px == wx && py == wy) implies #[trigger] pix(
        cur,
        w,
        px,
        py,
    ) == pix(prev, w, px, py) by {
        assert(0 <= py * w + px < w * h) by (nonlinear_arith)
            requires
                0 <= px < w,
                0 <= py < h,
        ;
        if py * w + px == wy * w + wx {
            lemma_row_major_unique(w, px, py, wx, wy);
        }
    }
}

} // verus!
