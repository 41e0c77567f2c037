use mgi::color::Rgba;
use mgi::framebuffer::FrameBuffer;
use mgi::geometry::{Rotation, Size};
use mgi::raster::{draw_line, fill_rect, outline_rect};
use mgi::rect::Rect;
use mgi::Vec2;

fn white() -> Rgba {
    Rgba::new(255, 255, 255, 255)
}

fn red() -> Rgba {
    Rgba::new(255, 0, 0, 255)
}

fn count_color(fb: &FrameBuffer, c: Rgba) -> usize {
    let mut n = 0;
    for y in 0..fb.height() as i32 {
        for x in 0..fb.width() as i32 {
            if fb.get_pixel(x, y).unwrap() == c {
                n += 1;
            }
        }
    }
    n
}

#[test]
fn fill_rect_unrotated_colors_exactly_the_box() {
    let mut fb = FrameBuffer::new(8, 8, white());
    let rect = Rect::new(2, 1, Size::new(3, 2), None);
    fill_rect(&mut fb, &rect, red());
    for y in 0..8 {
        for x in 0..8 {
            let inside = (2..5).contains(&x) && (1..3).contains(&y);
            let expect = if inside { red() } else { white() };
            assert_eq!(fb.get_pixel(x, y).unwrap(), expect, "pixel ({x}, {y})");
        }
    }
    assert_eq!(count_color(&fb, red()), 3 * 2);
}

#[test]
fn fill_rect_zero_size_changes_nothing() {
    let mut fb = FrameBuffer::new(4, 4, white());
    let rect = Rect::new(1, 1, Size::new(0, 3), None);
    fill_rect(&mut fb, &rect, red());
    assert_eq!(count_color(&fb, red()), 0);
}

#[test]
fn fill_rect_clips_outside_the_buffer() {
    let mut fb = FrameBuffer::new(4, 4, white());
    let rect = Rect::new(-2, -2, Size::new(4, 4), None);
    fill_rect(&mut fb, &rect, red());
    // Only the overlap [0,2) x [0,2) is colored.
    assert_eq!(count_color(&fb, red()), 4);
    assert_eq!(fb.get_pixel(0, 0).unwrap(), red());
    assert_eq!(fb.get_pixel(2, 0).unwrap(), white());
}

#[test]
fn fill_rect_quarter_turn_swaps_the_axes() {
    // A 5x1 bar at (2, 2), turned a quarter turn about its center (4, 2),
    // covers the vertical bar (4, 0)..(4, 4).
    let mut fb = FrameBuffer::new(8, 8, white());
    let rect = Rect::new(2, 2, Size::new(5, 1), Some(Rotation::Degrees(90)));
    fill_rect(&mut fb, &rect, red());
    for y in 0..5 {
        assert_eq!(fb.get_pixel(4, y).unwrap(), red(), "pixel (4, {y})");
    }
    assert_eq!(count_color(&fb, red()), 5);
}

#[test]
fn draw_line_axis_aligned_fills_the_run() {
    let mut fb = FrameBuffer::new(8, 8, white());
    draw_line(&mut fb, Vec2::new(0, 0), Vec2::new(3, 0), red());
    for x in 0..4 {
        assert_eq!(fb.get_pixel(x, 0).unwrap(), red(), "pixel ({x}, 0)");
    }
    assert_eq!(count_color(&fb, red()), 4);
}

#[test]
fn draw_line_vertical() {
    let mut fb = FrameBuffer::new(8, 8, white());
    draw_line(&mut fb, Vec2::new(2, 3), Vec2::new(2, 0), red());
    assert_eq!(count_color(&fb, red()), 4);
    for y in 0..4 {
        assert_eq!(fb.get_pixel(2, y).unwrap(), red(), "pixel (2, {y})");
    }
}

#[test]
fn draw_line_diagonal_staircase() {
    let mut fb = FrameBuffer::new(8, 8, white());
    draw_line(&mut fb, Vec2::new(0, 0), Vec2::new(2, 2), red());
    let expected = [(0, 0), (0, 1), (1, 1), (1, 2), (2, 2)];
    for (x, y) in expected {
        assert_eq!(fb.get_pixel(x, y).unwrap(), red(), "pixel ({x}, {y})");
    }
    assert_eq!(count_color(&fb, red()), expected.len());
}

#[test]
fn draw_line_skips_pixels_outside_the_buffer() {
    let mut fb = FrameBuffer::new(4, 4, white());
    draw_line(&mut fb, Vec2::new(-2, 1), Vec2::new(5, 1), red());
    assert_eq!(count_color(&fb, red()), 4);
    for x in 0..4 {
        assert_eq!(fb.get_pixel(x, 1).unwrap(), red());
    }
}

#[test]
fn outline_rect_draws_the_perimeter_only() {
    let mut fb = FrameBuffer::new(8, 8, white());
    let rect = Rect::new(1, 1, Size::new(4, 3), None);
    outline_rect(&mut fb, &rect, red());
    // Corners of the outline: (1,1), (1,4), (5,4), (5,1).
    assert_eq!(fb.get_pixel(1, 1).unwrap(), red());
    assert_eq!(fb.get_pixel(5, 4).unwrap(), red());
    assert_eq!(fb.get_pixel(3, 1).unwrap(), red());
    assert_eq!(fb.get_pixel(1, 3).unwrap(), red());
    // Interior stays untouched.
    assert_eq!(fb.get_pixel(3, 2).unwrap(), white());
    assert_eq!(fb.get_pixel(2, 3).unwrap(), white());
}

#[test]
fn framebuffer_get_set_pixel_bounds() {
    let mut fb = FrameBuffer::new(4, 4, white());
    assert!(fb.get_pixel(-1, 0).is_none());
    assert!(fb.get_pixel(0, 4).is_none());
    fb.set_pixel(9, 9, red());
    assert_eq!(count_color(&fb, red()), 0);
    fb.set_pixel(3, 3, red());
    assert_eq!(fb.get_pixel(3, 3).unwrap(), red());
}

#[test]
fn framebuffer_raw_bytes_are_rgba_row_major() {
    let mut fb = FrameBuffer::new(2, 1, white());
    fb.set_pixel(1, 0, Rgba::new(1, 2, 3, 4));
    let bytes = fb.as_raw_bytes();
    assert_eq!(bytes, vec![255, 255, 255, 255, 1, 2, 3, 4]);
}

#[test]
fn framebuffer_clear_repaints_every_pixel() {
    let mut fb = FrameBuffer::new(3, 2, white());
    fb.clear(red());
    assert_eq!(count_color(&fb, red()), 6);
}

#[test]
fn rect_is_inside_uses_half_open_bounds() {
    let rect = Rect::new(2, 3, Size::new(4, 2), None);
    assert!(rect.is_inside(2, 3));
    assert!(rect.is_inside(5, 4));
    assert!(!rect.is_inside(6, 3));
    assert!(!rect.is_inside(2, 5));
}

#[test]
fn rect_center_and_from_center_agree() {
    let rect = Rect::from_center(10, 10, Size::new(4, 6), None);
    assert_eq!(rect.position.x, 8);
    assert_eq!(rect.position.y, 7);
    let c = rect.center();
    assert_eq!((c.x, c.y), (10, 10));
}

#[test]
fn rect_try_new_rejects_negative_extents() {
    assert_eq!(
        Rect::try_new(0, 0, -1, 5, None).unwrap_err(),
        mgi::MgiError::InvalidRectDimensions
    );
    assert_eq!(
        Rect::try_new(0, 0, 5, -1, None).unwrap_err(),
        mgi::MgiError::InvalidRectDimensions
    );
    let r = Rect::try_new(1, 2, 3, 4, None).unwrap();
    assert_eq!(r.size, Size::new(3, 4));
}

#[test]
fn rect_rotate_replaces_the_rotation() {
    let mut rect = Rect::new(0, 0, Size::new(2, 2), None);
    rect.rotate(Rotation::Degrees(45));
    assert_eq!(rect.rotation, Rotation::Degrees(45));
}

#[test]
fn draw_line_always_reaches_both_endpoints() {
    let cases = [
        ((1, 2), (7, 5)),
        ((7, 5), (1, 2)),
        ((0, 0), (5, 7)),
        ((6, 1), (0, 7)),
        ((3, 3), (3, 3)),
        ((0, 7), (7, 0)),
    ];
    for (a, b) in cases {
        let mut fb = FrameBuffer::new(8, 8, white());
        draw_line(&mut fb, Vec2::new(a.0, a.1), Vec2::new(b.0, b.1), red());
        assert_eq!(fb.get_pixel(a.0, a.1).unwrap(), red(), "start of {a:?}-{b:?}");
        assert_eq!(fb.get_pixel(b.0, b.1).unwrap(), red(), "end of {a:?}-{b:?}");
    }
}
