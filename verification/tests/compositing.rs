use ogp_generator::canvas::{Pixel, PixelCanvas};
use ogp_generator::compositor::composite;

fn px(r: u8, g: u8, b: u8) -> Pixel {
    Pixel { r, g, b, a: 255 }
}

const BG: Pixel = Pixel { r: 7, g: 8, b: 9, a: 255 };

fn fresh_canvas(w: u32, h: u32) -> PixelCanvas {
    PixelCanvas::new(w, h, BG).expect("positive dimensions")
}

fn snapshot(c: &PixelCanvas) -> Vec<Pixel> {
    let mut out = Vec::new();
    for y in 0..c.height() {
        for x in 0..c.width() {
            out.push(c.pixel_at(x, y));
        }
    }
    out
}

#[test]
fn determinism_repeated_composition() {
    let grid = [0u8, 1, 2, 3];
    let palette = [1u8, 2, 3, 10, 20, 30, 100, 110, 120, 200, 210, 220];
    let mut first: Option<Vec<Pixel>> = None;
    for _ in 0..3 {
        let mut c = fresh_canvas(9, 9);
        composite(&grid, 2, &palette, 3, &mut c, 1, 2);
        let shot = snapshot(&c);
        match &first {
            None => first = Some(shot),
            Some(prev) => assert_eq!(prev, &shot),
        }
    }
}

#[test]
fn rectangle_coverage_exact() {
    let grid = [0u8, 1, 1, 0];
    let palette = [10u8, 11, 12, 20, 21, 22];
    let mut c = fresh_canvas(8, 8);
    let (d, ox, oy) = (3u32, 1u32, 1u32);
    composite(&grid, 2, &palette, d, &mut c, ox, oy);
    for y in 0..8u32 {
        for x in 0..8u32 {
            // the cell whose dot holds (x, y), if any
            let mut expected = BG;
            for j in 0..2u32 {
                for i in 0..2u32 {
                    let x0 = ox + i * d;
                    let y0 = oy + j * d;
                    if x >= x0 && x < x0 + d && y >= y0 && y < y0 + d {
                        let idx = grid[(j * 2 + i) as usize] as usize;
                        expected = px(palette[idx * 3], palette[idx * 3 + 1], palette[idx * 3 + 2]);
                    }
                }
            }
            assert_eq!(c.pixel_at(x, y), expected, "pixel ({x}, {y})");
        }
    }
}

#[test]
fn palette_skip_leaves_background() {
    // palette holds a single color: index 1 resolves outside it and is skipped
    let grid = [0u8, 1, 0, 1];
    let palette = [50u8, 60, 70];
    let mut c = fresh_canvas(4, 4);
    composite(&grid, 2, &palette, 2, &mut c, 0, 0);
    let colored = px(50, 60, 70);
    for y in 0..4u32 {
        for x in 0..4u32 {
            let (i, j) = (x / 2, y / 2);
            let idx = grid[(j * 2 + i) as usize];
            let expected = if idx == 0 { colored } else { BG };
            assert_eq!(c.pixel_at(x, y), expected, "pixel ({x}, {y})");
        }
    }
}

#[test]
fn clipping_at_canvas_edge() {
    // a 4x4 dot placed at (8, 8) of a 10x10 canvas: only its top-left 2x2
    // corner lands inside
    let grid = [0u8];
    let palette = [5u8, 6, 7];
    let mut c = fresh_canvas(10, 10);
    composite(&grid, 1, &palette, 4, &mut c, 8, 8);
    for y in 0..10u32 {
        for x in 0..10u32 {
            let expected = if x >= 8 && y >= 8 { px(5, 6, 7) } else { BG };
            assert_eq!(c.pixel_at(x, y), expected, "pixel ({x}, {y})");
        }
    }
}

#[test]
fn zero_dot_size_is_no_op() {
    let grid = [0u8, 1, 2, 0];
    let palette = [1u8, 2, 3, 4, 5, 6, 7, 8, 9];
    let mut c = fresh_canvas(5, 5);
    let before = snapshot(&c);
    composite(&grid, 2, &palette, 0, &mut c, 1, 1);
    assert_eq!(snapshot(&c), before);
}

#[test]
fn far_offset_draws_nothing() {
    // every dot falls wholly outside the canvas and is clipped away
    let grid = [0u8];
    let palette = [1u8, 2, 3];
    let mut c = fresh_canvas(4, 4);
    let before = snapshot(&c);
    composite(&grid, 1, &palette, 2, &mut c, 100, 0);
    assert_eq!(snapshot(&c), before);
}

#[test]
fn empty_palette_skips_every_cell() {
    let grid = [0u8, 1, 2, 3];
    let palette: [u8; 0] = [];
    let mut c = fresh_canvas(4, 4);
    let before = snapshot(&c);
    composite(&grid, 2, &palette, 2, &mut c, 0, 0);
    assert_eq!(snapshot(&c), before);
}

#[test]
fn zero_grid_size_draws_nothing() {
    let grid: [u8; 0] = [];
    let palette = [1u8, 2, 3];
    let mut c = fresh_canvas(3, 3);
    let before = snapshot(&c);
    composite(&grid, 0, &palette, 2, &mut c, 0, 0);
    assert_eq!(snapshot(&c), before);
}

#[test]
fn canvas_rejects_zero_dimension() {
    assert!(PixelCanvas::new(0, 5, BG).is_none());
    assert!(PixelCanvas::new(5, 0, BG).is_none());
    assert!(PixelCanvas::new(1, 1, BG).is_some());
}
