use ogp_generator::bridge::Arena;
use ogp_generator::canvas::Pixel;
use ogp_generator::session::{compose_one_shot, derived_dimension, Session};

const BG: Pixel = Pixel { r: 0, g: 0, b: 0, a: 0 };

fn staged_copy(s: &Session, max: usize) -> (usize, Vec<u8>) {
    let mut buf = vec![0u8; max];
    let n = s.get_image_data(&mut buf, max);
    (n, buf)
}

#[test]
fn round_trip_retrieval() {
    let mut s = Session::new();
    assert!(s.init_canvas(6, 6, BG));
    let grid = [0u8, 1, 1, 1];
    let palette = [255u8, 0, 0, 0, 0, 255];
    assert!(s.generate_image_with_offset(&grid, 2, 3, &palette, 0, 0));
    let len = s.get_image_size();
    assert!(len > 0);
    let (n, buf) = staged_copy(&s, len);
    assert_eq!(n, len);
    let pixmap = tiny_skia::Pixmap::decode_png(&buf).expect("staged bytes decode as PNG");
    assert_eq!(pixmap.width(), 6);
    assert_eq!(pixmap.height(), 6);
    // the dot of cell (0, 0) is red, the dot of cell (1, 1) is blue
    let p = pixmap.pixel(0, 0).unwrap();
    assert_eq!((p.red(), p.green(), p.blue(), p.alpha()), (255, 0, 0, 255));
    let p = pixmap.pixel(5, 5).unwrap();
    assert_eq!((p.red(), p.green(), p.blue(), p.alpha()), (0, 0, 255, 255));
}

#[test]
fn truncated_copy_out_is_a_prefix() {
    let mut s = Session::new();
    assert!(s.init_canvas(4, 4, BG));
    let grid = [0u8];
    let palette = [9u8, 9, 9];
    assert!(s.generate_image_with_offset(&grid, 1, 4, &palette, 0, 0));
    let len = s.get_image_size();
    assert!(len > 1);
    let (n_full, full) = staged_copy(&s, len);
    assert_eq!(n_full, len);
    let half = len / 2;
    let (n_half, half_buf) = staged_copy(&s, half);
    assert_eq!(n_half, half);
    assert_eq!(&half_buf[..half], &full[..half]);
}

#[test]
fn staged_bytes_deterministic() {
    let grid = [0u8, 1, 0, 1];
    let palette = [3u8, 14, 15, 92, 65, 35];
    let mut images = Vec::new();
    for _ in 0..2 {
        let mut s = Session::new();
        assert!(s.init_canvas(5, 5, BG));
        assert!(s.generate_image_with_offset(&grid, 2, 2, &palette, 1, 1));
        let len = s.get_image_size();
        let (n, buf) = staged_copy(&s, len);
        assert_eq!(n, len);
        images.push(buf);
    }
    assert_eq!(images[0], images[1]);
}

#[test]
fn session_without_canvas_stages_nothing() {
    let mut s = Session::new();
    assert_eq!(s.get_image_size(), 0);
    let grid = [0u8];
    let palette = [1u8, 2, 3];
    assert!(!s.generate_image_with_offset(&grid, 1, 1, &palette, 0, 0));
    assert_eq!(s.get_image_size(), 0);
    let (n, _) = staged_copy(&s, 8);
    assert_eq!(n, 0);
}

#[test]
fn init_rejects_zero_dimensions() {
    let mut s = Session::new();
    assert!(!s.init_canvas(0, 10, BG));
    assert!(!s.init_canvas(10, 0, BG));
    assert!(s.init_canvas(10, 10, BG));
}

#[test]
fn init_rejects_width_past_encoder_row_limit() {
    // a four-byte pixel row must fit in i32: width 2^29 is one past the limit
    let mut s = Session::new();
    assert!(!s.init_canvas(536_870_912, 1, BG));
    assert_eq!(s.get_image_size(), 0);
}

#[test]
fn reinit_keeps_staged_image_until_next_generate() {
    let mut s = Session::new();
    assert!(s.init_canvas(3, 3, BG));
    let grid = [0u8];
    let palette = [1u8, 2, 3];
    assert!(s.generate_image_with_offset(&grid, 1, 3, &palette, 0, 0));
    let len = s.get_image_size();
    assert!(len > 0);
    assert!(s.init_canvas(3, 3, BG));
    assert_eq!(s.get_image_size(), len);
}

#[test]
fn one_shot_matches_session_variant() {
    let grid = [0u8, 1, 1, 0];
    let palette = [255u8, 0, 0, 0, 0, 255];
    let side = derived_dimension(2, 3).unwrap();
    assert_eq!(side, 6);

    let mut s = Session::new();
    assert!(s.init_canvas(side, side, BG));
    assert!(s.generate_image_with_offset(&grid, 2, 3, &palette, 0, 0));
    let len = s.get_image_size();
    let (n, session_png) = staged_copy(&s, len);
    assert_eq!(n, len);

    let (canvas, one_shot_png) =
        compose_one_shot(&grid, 2, 3, &palette, side, side, BG, 0, 0).unwrap();
    assert_eq!(canvas.width(), side);
    assert_eq!(canvas.height(), side);
    assert_eq!(one_shot_png, session_png);
}

#[test]
fn one_shot_rejects_zero_dimension() {
    let grid = [0u8];
    let palette = [1u8, 2, 3];
    assert!(compose_one_shot(&grid, 1, 1, &palette, 0, 4, BG, 0, 0).is_none());
    assert!(compose_one_shot(&grid, 1, 1, &palette, 4, 0, BG, 0, 0).is_none());
}

#[test]
fn derived_dimension_overflow_is_refused() {
    assert_eq!(derived_dimension(0, 7), Some(0));
    assert_eq!(derived_dimension(16, 16), Some(256));
    assert!(derived_dimension(usize::MAX, 2).is_none());
}

#[test]
fn arena_allocate_store_load_release() {
    let mut a = Arena::new();
    let h = a.allocate(4);
    assert_eq!(a.load(h), Some(vec![0u8, 0, 0, 0]));
    assert!(a.store(h, &[1, 2, 3]));
    assert_eq!(a.load(h), Some(vec![1u8, 2, 3, 0]));
    assert!(!a.store(h, &[1, 2, 3, 4, 5]));
    assert_eq!(a.load(h), Some(vec![1u8, 2, 3, 0]));
    a.release(h, 4);
    assert_eq!(a.load(h), None);
    assert!(!a.store(h, &[1]));
    let h2 = a.allocate(1);
    assert_ne!(h, h2);
    assert_eq!(a.load(h2), Some(vec![0u8]));
}

#[test]
fn arena_zero_sized_region() {
    let mut a = Arena::new();
    let h = a.allocate(0);
    assert_eq!(a.load(h), Some(Vec::new()));
    assert!(a.store(h, &[]));
    a.release(h, 0);
    assert_eq!(a.load(h), None);
}

#[test]
fn host_flow_through_bridge_and_session() {
    // the host writes the grid and palette through the bridge, composites,
    // then copies the encoded image back out through a bridge region
    let mut a = Arena::new();
    let grid_h = a.allocate(4);
    assert!(a.store(grid_h, &[0u8, 0, 1, 1]));
    let pal_h = a.allocate(6);
    assert!(a.store(pal_h, &[10u8, 20, 30, 40, 50, 60]));

    let mut s = Session::new();
    assert!(s.init_canvas(4, 4, BG));
    let grid = a.load(grid_h).unwrap();
    let palette = a.load(pal_h).unwrap();
    assert!(s.generate_image_with_offset(&grid, 2, 2, &palette, 0, 0));

    let len = s.get_image_size();
    assert!(len > 0);
    let out_h = a.allocate(len);
    let mut out = a.load(out_h).unwrap();
    let n = s.get_image_data(&mut out, len);
    assert_eq!(n, len);
    assert!(a.store(out_h, &out));

    let png = a.load(out_h).unwrap();
    let pixmap = tiny_skia::Pixmap::decode_png(&png).expect("valid PNG");
    assert_eq!((pixmap.width(), pixmap.height()), (4, 4));
    let p = pixmap.pixel(1, 1).unwrap();
    assert_eq!((p.red(), p.green(), p.blue()), (10, 20, 30));
    let p = pixmap.pixel(3, 3).unwrap();
    assert_eq!((p.red(), p.green(), p.blue()), (40, 50, 60));

    a.release(grid_h, 4);
    a.release(pal_h, 6);
    a.release(out_h, len);
}
