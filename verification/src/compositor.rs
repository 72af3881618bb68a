//! The grid compositor: the core algorithm. It walks a square grid of
//! palette indices in row-major order and fills, for each cell whose index
//! resolves inside the palette, a `dot_size`-sided square of the cell's
//! color into the canvas at the cell's offset position. Cells whose index
//! falls outside the palette are skipped; pixels outside the canvas are
//! clipped; a zero dot size fills nothing.

use vstd::prelude::*;
use vstd::arithmetic::div_mod::{lemma_fundamental_div_mod, lemma_mod_bound};

use crate::canvas::{in_rect, pix, Pixel, PixelCanvas};
use crate::canvas::lemma_row_major_unique;

verus! {

/// The palette index of cell `(i, j)`: the grid is flat, row-major, with
/// `j` selecting the row.
pub open spec fn cell_index(grid: Seq<u8>, gs: int, i: int, j: int) -> int {
    grid[j * gs + i] as int
}

/// Whether cell `(i, j)` resolves to a complete RGB triple inside the
/// palette. A cell that does not is skipped, silently.
pub open spec fn cell_visible(grid: Seq<u8>, gs: int, palette: Seq<u8>, i: int, j: int) -> bool {
    cell_index(grid, gs, i, j) * 3 + 2 < palette.len()
}

/// The fully opaque color of cell `(i, j)`, read from the palette.
pub open spec fn cell_color(grid: Seq<u8>, gs: int, palette: Seq<u8>, i: int, j: int) -> Pixel {
    Pixel {
        r: palette[cell_index(grid, gs, i, j) * 3],
        g: palette[cell_index(grid, gs, i, j) * 3 + 1],
        b: palette[cell_index(grid, gs, i, j) * 3 + 2],
        a: 255,
    }
}

/// Whether cell `(i, j)`'s dot covers the point `(px, py)`: the dot of cell
/// `(i, j)` is the square of side `d` at `(ox + i * d, oy + j * d)`.
pub open spec fn covers(i: int, j: int, d: int, ox: int, oy: int, px: int, py: int) -> bool {
    in_rect(ox + i * d, oy + j * d, d, px, py)
}

/// Whether some visible cell among the first `n` (in row-major cell order,
/// cell `(i, j)` being number `j * gs + i`) covers the point `(px, py)`.
pub open spec fn covered_upto(
    grid: Seq<u8>,
    gs: int,
    palette: Seq<u8>,
    d: int,
    ox: int,
    oy: int,
    n: int,
    px: int,
    py: int,
) -> bool {
    exists|i: int, j: int|
        0 <= i < gs && 0 <= j < gs && j * gs + i < n && #[trigger] covers(i, j, d, ox, oy, px, py)
            && cell_visible(grid, gs, palette, i, j)
}

/// `after` is `before` with the dots of the first `n` cells drawn: every
/// in-bounds pixel covered by a visible cell among the first `n` holds that
/// cell's color, and every other pixel is unchanged.
pub open spec fn composed_upto(
    before: Seq<Pixel>,
    after: Seq<Pixel>,
    w: int,
    h: int,
    grid: Seq<u8>,
    gs: int,
    palette: Seq<u8>,
    d: int,
    ox: int,
    oy: int,
    n: int,
) -> bool {
    &&& after.len() == before.len()
    &&& forall|i: int, j: int, px: int, py: int|
        0 <= i < gs && 0 <= j < gs && j * gs + i < n && 0 <= px < w && 0 <= py < h
            && #[trigger] covers(i, j, d, ox, oy, px, py) && cell_visible(grid, gs, palette, i, j)
            ==> pix(after, w, px, py) == cell_color(grid, gs, palette, i, j)
    &&& forall|px: int, py: int|
        0 <= px < w && 0 <= py < h && !covered_upto(grid, gs, palette, d, ox, oy, n, px, py)
            ==> #[trigger] pix(after, w, px, py) == pix(before, w, px, py)
}

/// `after` is `before` with the whole grid composited onto it.
pub open spec fn composed(
    before: Seq<Pixel>,
    after: Seq<Pixel>,
    w: int,
    h: int,
    grid: Seq<u8>,
    gs: int,
    palette: Seq<u8>,
    d: int,
    ox: int,
    oy: int,
) -> bool {
    composed_upto(before, after, w, h, grid, gs, palette, d, ox, oy, gs * gs)
}

/// The dots of distinct cells are disjoint: a point covered by two cells is
/// covered by one cell only.
pub proof fn lemma_covers_unique(
    i1: int,
    j1: int,
    i2: int,
    j2: int,
    d: int,
    ox: int,
    oy: int,
    px: int,
    py: int,
)
    requires
        covers(i1, j1, d, ox, oy, px, py),
        covers(i2, j2, d, ox, oy, px, py),
    ensures
        i1 == i2,
        j1 == j2,
{
    assert(d > 0);
    assert(i1 == i2 && j1 == j2) by (nonlinear_arith)
        requires
            d > 0,
            ox + i1 * d <= px < ox + i1 * d + d,
            oy + j1 * d <= py < oy + j1 * d + d,
            ox + i2 * d <= px < ox + i2 * d + d,
            oy + j2 * d <= py < oy + j2 * d + d,
    ;
}

/// Row-major cell numbers identify cells: two cells with the same number
/// are the same cell.
proof fn lemma_cell_number_unique(gs: int, i1: int, j1: int, i2: int, j2: int)
    requires
        0 <= i1 < gs,
        0 <= i2 < gs,
        j1 >= 0,
        j2 >= 0,
        j1 * gs + i1 == j2 * gs + i2,
    ensures
        i1 == i2,
        j1 == j2,
{
    lemma_row_major_unique(gs, i1, j1, i2, j2);
}

/// Composites the grid onto the canvas: for each cell `(i, j)` of the
/// `grid_size * grid_size` grid whose palette index resolves to a complete
/// RGB triple, overwrites the square of side `dot_size` at
/// `(offset_x + i * dot_size, offset_y + j * dot_size)` with that triple,
/// fully opaque, clipped to the canvas; every other pixel keeps its value.
pub fn composite(
    grid: &[u8],
    grid_size: usize,
    palette: &[u8],
    dot_size: u32,
    canvas: &mut PixelCanvas,
    offset_x: u32,
    offset_y: u32,
)
    requires
        old(canvas).wf(),
        grid@.len() >= grid_size * grid_size,
    ensures
        final(canvas).wf(),
        final(canvas).width == old(canvas).width,
        final(canvas).height == old(canvas).height,
        composed(
            old(canvas).pixels@,
            final(canvas).pixels@,
            old(canvas).width as int,
            old(canvas).height as int,
            grid@,
            grid_size as int,
            palette@,
            dot_size as int,
            offset_x as int,
            offset_y as int,
        ),
{
    let ghost w = old(canvas).width as int;
    let ghost h = old(canvas).height as int;
    let ghost gs = grid_size as int;
    let ghost d = dot_size as int;
    let ghost ox = offset_x as int;
    let ghost oy = offset_y as int;
    let ghost before = old(canvas).pixels@;
    let glen = grid.len();
    proof {
        assert(gs <= 0xffff_ffff) by (nonlinear_arith)
            requires
                gs * gs <= glen,
                glen <= 0xffff_ffff_ffff_ffffu64,
                gs >= 0,
        ;
    }
    let mut j: usize = 0;
    while j < grid_size
        invariant
            j <= grid_size,
            gs <= 0xffff_ffff,
            grid@.len() >= grid_size * grid_size,
            grid@.len() == glen,
            canvas.wf(),
            canvas.width == old(canvas).width,
            canvas.height == old(canvas).height,
            w == old(canvas).width as int,
            h == old(canvas).height as int,
            gs == grid_size as int,
            d == dot_size as int,
            ox == offset_x as int,
            oy == offset_y as int,
            before == old(canvas).pixels@,
            composed_upto(before, canvas.pixels@, w, h, grid@, gs, palette@, d, ox, oy, j * gs),
        decreases grid_size - j,
    {
        let mut i: usize = 0;
        while i < grid_size
            invariant
                i <= grid_size,
                j < grid_size,
                gs <= 0xffff_ffff,
                grid@.len() >= grid_size * grid_size,
                grid@.len() == glen,
                canvas.wf(),
                canvas.width == old(canvas).width,
                canvas.height == old(canvas).height,
                w == old(canvas).width as int,
                h == old(canvas).height as int,
                gs == grid_size as int,
                d == dot_size as int,
                ox == offset_x as int,
                oy == offset_y as int,
                before == old(canvas).pixels@,
                composed_upto(
                    before,
                    canvas.pixels@,
                    w,
                    h,
                    grid@,
                    gs,
                    palette@,
                    d,
                    ox,
                    oy,
                    j * gs + i,
                ),
            decreases grid_size - i,
        {
            proof {
                assert(j * gs + i < gs * gs <= glen) by (nonlinear_arith)
                    requires
                        0 <= i < gs,
                        0 <= j < gs,
                        gs * gs <= glen,
                ;
            }
            let ghost n = j * gs + i;
            let idx = grid[j * grid_size + i] as usize;
            let color_start = idx * 3;
            if color_start + 2 < palette.len() {
                let color = Pixel {
                    r: palette[color_start],
                    g: palette[color_start + 1],
                    b: palette[color_start + 2],
                    a: 255,
                };
                proof {
                    assert(color == cell_color(grid@, gs, palette@, i as int, j as int));
                    assert(ox + (i as int) * d + d <= u64::MAX && oy + (j as int) * d + d
                        <= u64::MAX) by (nonlinear_arith)
                        requires
                            0 <= i < gs,
                            0 <= j < gs,
                            gs <= 0xffff_ffff,
                            0 <= d < 0x1_0000_0000,
                            0 <= ox < 0x1_0000_0000,
                            0 <= oy < 0x1_0000_0000,
                    ;
                }
                let x0 = offset_x as u64 + (i as u64) * (dot_size as u64);
                let y0 = offset_y as u64 + (j as u64) * (dot_size as u64);
                let ghost mid = canvas.pixels@;
                canvas.fill_rect(x0, y0, dot_size, color);
                proof {
                    lemma_composed_step_visible(
                        before,
                        mid,
                        canvas.pixels@,
                        w,
                        h,
                        grid@,
                        gs,
                        palette@,
                        d,
                        ox,
                        oy,
                        i as int,
                        j as int,
                    );
                }
            } else {
                proof {
                    lemma_composed_step_skipped(
                        before,
                        canvas.pixels@,
                        w,
                        h,
                        grid@,
                        gs,
                        palette@,
                        d,
                        ox,
                        oy,
                        i as int,
                        j as int,
                    );
                }
            }
            i += 1;
        }
        proof {
            assert(j * gs + gs == (j + 1) * gs) by (nonlinear_arith);
        }
        j += 1;
    }
}

/// Drawing the dot of visible cell `(ci, cj)` takes a buffer composed up to
/// cell number `cj * gs + ci` to one composed up to the next cell number.
proof fn lemma_composed_step_visible(
    before: Seq<Pixel>,
    mid: Seq<Pixel>,
    after: Seq<Pixel>,
    w: int,
    h: int,
    grid: Seq<u8>,
    gs: int,
    palette: Seq<u8>,
    d: int,
    ox: int,
    oy: int,
    ci: int,
    cj: int,
)
    requires
        0 <= ci < gs,
        0 <= cj < gs,
        cell_visible(grid, gs, palette, ci, cj),
        composed_upto(before, mid, w, h, grid, gs, palette, d, ox, oy, cj * gs + ci),
        after.len() == mid.len(),
        forall|px: int, py: int|
            0 <= px < w && 0 <= py < h && in_rect(ox + ci * d, oy + cj * d, d, px, py)
                ==> #[trigger] pix(after, w, px, py) == cell_color(grid, gs, palette, ci, cj),
        forall|px: int, py: int|
            0 <= px < w && 0 <= py < h && !in_rect(ox + ci * d, oy + cj * d, d, px, py)
                ==> #[trigger] pix(after, w, px, py) == pix(mid, w, px, py),
    ensures
        composed_upto(before, after, w, h, grid, gs, palette, d, ox, oy, cj * gs + ci + 1),
{
    let n = cj * gs + ci;
    assert forall|i: int, j: int, px: int, py: int|
        0 <= i < gs && 0 <= j < gs && j * gs + i < n + 1 && 0 <= px < w && 0 <= py < h
            && #[trigger] covers(i, j, d, ox, oy, px, py) && cell_visible(
            grid,
            gs,
            palette,
            i,
            j,
        ) implies pix(after, w, px, py) == cell_color(grid, gs, palette, i, j) by {
        if j * gs + i == n {
            lemma_cell_number_unique(gs, i, j, ci, cj);
            assert(in_rect(ox + ci * d, oy + cj * d, d, px, py));
        } else {
            if in_rect(ox + ci * d, oy + cj * d, d, px, py) {
                assert(covers(ci, cj, d, ox, oy, px, py));
                lemma_covers_unique(i, j, ci, cj, d, ox, oy, px, py);
                assert(false);
            }
            assert(pix(after, w, px, py) == pix(mid, w, px, py));
        }
    }
    assert forall|px: int, py: int|
        0 <= px < w && 0 <= py < h && !covered_upto(
            grid,
            gs,
            palette,
            d,
            ox,
            oy,
            n + 1,
            px,
            py,
        ) implies #[trigger] pix(after, w, px, py) == pix(before, w, px, py) by {
        if in_rect(ox + ci * d, oy + cj * d, d, px, py) {
            assert(covers(ci, cj, d, ox, oy, px, py));
            assert(covered_upto(grid, gs, palette, d, ox, oy, n + 1, px, py));
        } else {
            assert(pix(after, w, px, py) == pix(mid, w, px, py));
            assert(!covered_upto(grid, gs, palette, d, ox, oy, n, px, py));
        }
    }
}

/// Skipping cell `(ci, cj)` because its index falls outside the palette
/// advances the composed-up-to bound without touching the buffer.
proof fn lemma_composed_step_skipped(
    before: Seq<Pixel>,
    after: Seq<Pixel>,
    w: int,
    h: int,
    grid: Seq<u8>,
    gs: int,
    palette: Seq<u8>,
    d: int,
    ox: int,
    oy: int,
    ci: int,
    cj: int,
)
    requires
        0 <= ci < gs,
        0 <= cj < gs,
        !cell_visible(grid, gs, palette, ci, cj),
        composed_upto(before, after, w, h, grid, gs, palette, d, ox, oy, cj * gs + ci),
    ensures
        composed_upto(before, after, w, h, grid, gs, palette, d, ox, oy, cj * gs + ci + 1),
{
    let n = cj * gs + ci;
    assert forall|i: int, j: int, px: int, py: int|
        0 <= i < gs && 0 <= j < gs && j * gs + i < n + 1 && 0 <= px < w && 0 <= py < h
            && #[trigger] covers(i, j, d, ox, oy, px, py) && cell_visible(
            grid,
            gs,
            palette,
            i,
            j,
        ) implies pix(after, w, px, py) == cell_color(grid, gs, palette, i, j) by {
        if j * gs + i == n {
            lemma_cell_number_unique(gs, i, j, ci, cj);
        }
    }
    assert forall|px: int, py: int|
        0 <= px < w && 0 <= py < h && !covered_upto(
            grid,
            gs,
            palette,
            d,
            ox,
            oy,
            n + 1,
            px,
            py,
        ) implies #[trigger] pix(after, w, px, py) == pix(before, w, px, py) by {
        assert(!covered_upto(grid, gs, palette, d, ox, oy, n, px, py));
    }
}

/// Every position of a `w * h` row-major buffer decomposes uniquely into a
/// column `pos % w` and a row `pos / w`.
proof fn lemma_pos_coords(w: int, h: int, pos: int)
    requires
        w > 0,
        h > 0,
        0 <= pos < w * h,
    ensures
        0 <= pos % w < w,
        0 <= pos / w < h,
        pos == (pos / w) * w + (pos % w),
{
    lemma_fundamental_div_mod(pos, w);
    lemma_mod_bound(pos, w);
    assert(0 <= pos / w && pos / w < h && pos == (pos / w) * w + (pos % w)) by (nonlinear_arith)
        requires
            pos == w * (pos / w) + (pos % w),
            0 <= pos % w < w,
            0 <= pos < w * h,
            w > 0,
    ;
}

/// The starting buffer enters `composed` only through its in-bounds
/// pixels: two starting buffers of the same length that agree on every
/// in-bounds coordinate support the same compositions.
pub proof fn lemma_composed_before_ext(
    b1: Seq<Pixel>,
    b2: Seq<Pixel>,
    after: Seq<Pixel>,
    w: int,
    h: int,
    grid: Seq<u8>,
    gs: int,
    palette: Seq<u8>,
    d: int,
    ox: int,
    oy: int,
)
    requires
        composed(b1, after, w, h, grid, gs, palette, d, ox, oy),
        b1.len() == b2.len(),
        forall|px: int, py: int|
            0 <= px < w && 0 <= py < h ==> #[trigger] pix(b1, w, px, py) == pix(b2, w, px, py),
    ensures
        composed(b2, after, w, h, grid, gs, palette, d, ox, oy),
{
}

/// Composition is deterministic: for a fixed grid, palette, dot size and
/// offsets, any two buffers composed from the same starting buffer are
/// identical.
pub proof fn lemma_composite_deterministic(
    before: Seq<Pixel>,
    a1: Seq<Pixel>,
    a2: Seq<Pixel>,
    w: int,
    h: int,
    grid: Seq<u8>,
    gs: int,
    palette: Seq<u8>,
    d: int,
    ox: int,
    oy: int,
)
    requires
        w >= 0,
        h >= 0,
        before.len() == w * h,
        composed(before, a1, w, h, grid, gs, palette, d, ox, oy),
        composed(before, a2, w, h, grid, gs, palette, d, ox, oy),
    ensures
        a1 == a2,
{
    assert forall|pos: int| 0 <= pos < a1.len() implies a1[pos] == a2[pos] by {
        assert(w > 0 && h > 0) by (nonlinear_arith)
            requires
                w >= 0,
                h >= 0,
                0 <= pos < w * h,
        ;
        lemma_pos_coords(w, h, pos);
        let px = pos % w;
        let py = pos / w;
        if covered_upto(grid, gs, palette, d, ox, oy, gs * gs, px, py) {
            let (i, j) = choose|i: int, j: int|
                0 <= i < gs && 0 <= j < gs && j * gs + i < gs * gs && #[trigger] covers(
                    i,
                    j,
                    d,
                    ox,
                    oy,
                    px,
                    py,
                ) && cell_visible(grid, gs, palette, i, j);
            assert(pix(a1, w, px, py) == cell_color(grid, gs, palette, i, j));
            assert(pix(a2, w, px, py) == cell_color(grid, gs, palette, i, j));
        } else {
            assert(pix(a1, w, px, py) == pix(before, w, px, py));
            assert(pix(a2, w, px, py) == pix(before, w, px, py));
        }
    }
    assert(a1 =~= a2);
}

/// A zero dot size composes nothing: every cell's square is empty, so the
/// buffer is left unchanged whatever the grid and the palette hold.
pub proof fn lemma_zero_dot_size_no_op(
    before: Seq<Pixel>,
    after: Seq<Pixel>,
    w: int,
    h: int,
    grid: Seq<u8>,
    gs: int,
    palette: Seq<u8>,
    ox: int,
    oy: int,
)
    requires
        w >= 0,
        h >= 0,
        before.len() == w * h,
        composed(before, after, w, h, grid, gs, palette, 0, ox, oy),
    ensures
        after == before,
{
    assert forall|pos: int| 0 <= pos < after.len() implies after[pos] == before[pos] by {
        assert(w > 0 && h > 0) by (nonlinear_arith)
            requires
                w >= 0,
                h >= 0,
                0 <= pos < w * h,
        ;
        lemma_pos_coords(w, h, pos);
        let px = pos % w;
        let py = pos / w;
        if covered_upto(grid, gs, palette, 0, ox, oy, gs * gs, px, py) {
            let (i, j) = choose|i: int, j: int|
                0 <= i < gs && 0 <= j < gs && j * gs + i < gs * gs && #[trigger] covers(
                    i,
                    j,
                    0,
                    ox,
                    oy,
                    px,
                    py,
                ) && cell_visible(grid, gs, palette, i, j);
            assert(!in_rect(ox + i * 0, oy + j * 0, 0, px, py));
            assert(false);
        }
        assert(pix(after, w, px, py) == pix(before, w, px, py));
    }
    assert(after =~= before);
}

} // verus!
