use rectangles::canvas::{Canvas, CanvasError, Rectangle, Vec2};

fn rows(buf: &[u8], cols: usize) -> Vec<&[u8]> {
    buf.chunks(cols).collect()
}

#[test]
fn new_canvas_renders_all_clear() {
    let c = Canvas::new(Vec2 { x: 3, y: 2 }, 1);
    let buf = c.render();
    assert_eq!(buf, b"   \n   \n".to_vec());
}

#[test]
fn clear_resets_all_cells() {
    let mut c = Canvas::new(Vec2 { x: 3, y: 2 }, 1);
    c.draw_rect(Rectangle { pos: Vec2 { x: 0, y: 0 }, size: Vec2 { x: 3, y: 2 } })
        .unwrap();
    assert_eq!(c.render(), b"###\n###\n".to_vec());
    c.clear();
    assert_eq!(c.render(), b"   \n   \n".to_vec());
}

#[test]
fn clear_is_idempotent() {
    let mut c = Canvas::new(Vec2 { x: 2, y: 2 }, 1);
    c.draw_rect(Rectangle { pos: Vec2 { x: 0, y: 0 }, size: Vec2 { x: 1, y: 1 } })
        .unwrap();
    c.clear();
    let once = c.render();
    c.clear();
    let twice = c.render();
    assert_eq!(once, twice);
    assert_eq!(once, b"  \n  \n".to_vec());
}

#[test]
fn draw_rect_sets_cells_and_leaves_rest() {
    let mut c = Canvas::new(Vec2 { x: 4, y: 3 }, 1);
    c.draw_rect(Rectangle { pos: Vec2 { x: 1, y: 1 }, size: Vec2 { x: 2, y: 1 } })
        .unwrap();
    assert_eq!(c.render(), b"    \n ## \n    \n".to_vec());
}

#[test]
fn overlapping_draws_accumulate() {
    let mut c = Canvas::new(Vec2 { x: 4, y: 1 }, 1);
    c.draw_rect(Rectangle { pos: Vec2 { x: 0, y: 0 }, size: Vec2 { x: 2, y: 1 } })
        .unwrap();
    c.draw_rect(Rectangle { pos: Vec2 { x: 1, y: 0 }, size: Vec2 { x: 2, y: 1 } })
        .unwrap();
    assert_eq!(c.render(), b"### \n".to_vec());
}

#[test]
fn draw_rect_out_of_bounds_leaves_content_unchanged() {
    let mut c = Canvas::new(Vec2 { x: 4, y: 3 }, 1);
    c.draw_rect(Rectangle { pos: Vec2 { x: 0, y: 0 }, size: Vec2 { x: 1, y: 1 } })
        .unwrap();
    let before = c.render();
    let res = c.draw_rect(Rectangle { pos: Vec2 { x: 3, y: 0 }, size: Vec2 { x: 2, y: 1 } });
    assert!(matches!(res, Err(CanvasError::OutOfBounds)));
    assert_eq!(c.render(), before);
    let res = c.draw_rect(Rectangle { pos: Vec2 { x: 0, y: 2 }, size: Vec2 { x: 1, y: 2 } });
    assert!(matches!(res, Err(CanvasError::OutOfBounds)));
    assert_eq!(c.render(), before);
}

#[test]
fn draw_rect_far_corner_on_edge_is_in_bounds() {
    let mut c = Canvas::new(Vec2 { x: 3, y: 2 }, 1);
    let res = c.draw_rect(Rectangle { pos: Vec2 { x: 0, y: 0 }, size: Vec2 { x: 3, y: 2 } });
    assert!(res.is_ok());
    assert_eq!(c.render(), b"###\n###\n".to_vec());
}

#[test]
fn render_layout_length_and_line_feeds() {
    let c = Canvas::new(Vec2 { x: 5, y: 4 }, 3);
    let buf = c.render();
    let cols = 5 * 3 + 1;
    let rows_n = 4 * 3;
    assert_eq!(buf.len(), rows_n * cols);
    for k in 0..rows_n {
        assert_eq!(buf[k * cols + cols - 1], 0x0A);
    }
}

#[test]
fn render_scales_cells_to_blocks() {
    let mut c = Canvas::new(Vec2 { x: 4, y: 2 }, 2);
    c.draw_rect(Rectangle { pos: Vec2 { x: 1, y: 0 }, size: Vec2 { x: 2, y: 1 } })
        .unwrap();
    let buf = c.render();
    assert_eq!(buf.len(), 2 * 2 * (4 * 2 + 1));
    let r = rows(&buf, 4 * 2 + 1);
    assert_eq!(r[0], b"  ####  \n");
    assert_eq!(r[1], b"  ####  \n");
    assert_eq!(r[2], b"        \n");
    assert_eq!(r[3], b"        \n");
}

#[test]
fn render_twice_is_byte_identical() {
    let mut c = Canvas::new(Vec2 { x: 6, y: 3 }, 2);
    c.draw_rect(Rectangle { pos: Vec2 { x: 2, y: 1 }, size: Vec2 { x: 3, y: 2 } })
        .unwrap();
    let first = c.render();
    let second = c.render();
    assert_eq!(first, second);
}
