use mgi::blit::blit;
use mgi::color::Rgba;
use mgi::framebuffer::FrameBuffer;
use mgi::geometry::{Rotation, Size};
use mgi::rect::Rect;
use mgi::texture::Texture;

fn white() -> Rgba {
    Rgba::new(255, 255, 255, 255)
}

fn tex2x2() -> Texture {
    // red, green / blue, transparent
    Texture::new(
        "quad".to_string(),
        2,
        2,
        vec![
            Rgba::new(255, 0, 0, 255),
            Rgba::new(0, 255, 0, 255),
            Rgba::new(0, 0, 255, 255),
            Rgba::new(9, 9, 9, 0),
        ],
    )
    .unwrap()
}

#[test]
fn texture_new_checks_the_pixel_count() {
    assert!(Texture::new("t".to_string(), 2, 2, vec![white(); 3]).is_none());
    assert!(Texture::new("t".to_string(), 2, 2, vec![white(); 4]).is_some());
}

#[test]
fn blit_native_size_reproduces_the_texture() {
    let tex = tex2x2();
    let mut fb = FrameBuffer::new(4, 4, white());
    let dest = Rect::new(1, 1, Size::new(2, 2), None);
    blit(&mut fb, &tex, None, &dest, None, None);
    assert_eq!(fb.get_pixel(1, 1).unwrap(), Rgba::new(255, 0, 0, 255));
    assert_eq!(fb.get_pixel(2, 1).unwrap(), Rgba::new(0, 255, 0, 255));
    assert_eq!(fb.get_pixel(1, 2).unwrap(), Rgba::new(0, 0, 255, 255));
    // The transparent source pixel leaves the background.
    assert_eq!(fb.get_pixel(2, 2).unwrap(), white());
    // Pixels outside the destination stay.
    assert_eq!(fb.get_pixel(0, 0).unwrap(), white());
    assert_eq!(fb.get_pixel(3, 3).unwrap(), white());
}

#[test]
fn blit_scales_by_nearest_neighbor() {
    let tex = Texture::new("dot".to_string(), 1, 1, vec![Rgba::new(7, 8, 9, 255)]).unwrap();
    let mut fb = FrameBuffer::new(4, 4, white());
    let dest = Rect::new(0, 0, Size::new(3, 3), None);
    blit(&mut fb, &tex, None, &dest, None, None);
    for y in 0..3 {
        for x in 0..3 {
            assert_eq!(fb.get_pixel(x, y).unwrap(), Rgba::new(7, 8, 9, 255));
        }
    }
    assert_eq!(fb.get_pixel(3, 3).unwrap(), white());
}

#[test]
fn blit_crop_reads_the_sub_rectangle() {
    let tex = Texture::new(
        "pair".to_string(),
        2,
        1,
        vec![Rgba::new(255, 0, 0, 255), Rgba::new(0, 255, 0, 255)],
    )
    .unwrap();
    let mut fb = FrameBuffer::new(2, 2, white());
    let src = Rect::new(1, 0, Size::new(1, 1), None);
    let dest = Rect::new(0, 0, Size::new(1, 1), None);
    blit(&mut fb, &tex, Some(src), &dest, None, None);
    assert_eq!(fb.get_pixel(0, 0).unwrap(), Rgba::new(0, 255, 0, 255));
}

#[test]
fn blit_tint_scales_each_channel() {
    let tex = Texture::new("c".to_string(), 1, 1, vec![Rgba::new(200, 100, 50, 255)]).unwrap();
    let mut fb = FrameBuffer::new(1, 1, white());
    let dest = Rect::new(0, 0, Size::new(1, 1), None);
    let tint = Rgba::new(128, 255, 0, 255);
    blit(&mut fb, &tex, None, &dest, Some(tint), Some(128));
    // 200*128/255 = 100, 100*255/255 = 100, 50*0/255 = 0, 255*128/255 = 128.
    assert_eq!(fb.get_pixel(0, 0).unwrap(), Rgba::new(100, 100, 0, 128));
}

#[test]
fn blit_alpha_zero_writes_nothing() {
    let tex = tex2x2();
    let mut fb = FrameBuffer::new(4, 4, white());
    let dest = Rect::new(0, 0, Size::new(2, 2), None);
    blit(&mut fb, &tex, None, &dest, None, Some(0));
    for y in 0..4 {
        for x in 0..4 {
            assert_eq!(fb.get_pixel(x, y).unwrap(), white());
        }
    }
}

#[test]
fn blit_quarter_turn_rotates_the_footprint() {
    // A 3x1 texture turned a quarter turn about the destination center
    // lands as a vertical bar.
    let tex = Texture::new(
        "bar".to_string(),
        3,
        1,
        vec![Rgba::new(255, 0, 0, 255); 3],
    )
    .unwrap();
    let mut fb = FrameBuffer::new(5, 5, white());
    let dest = Rect::new(1, 2, Size::new(3, 1), Some(Rotation::Degrees(90)));
    blit(&mut fb, &tex, None, &dest, None, None);
    let mut reds = Vec::new();
    for y in 0..5 {
        for x in 0..5 {
            if fb.get_pixel(x, y).unwrap() == Rgba::new(255, 0, 0, 255) {
                reds.push((x, y));
            }
        }
    }
    assert_eq!(reds, vec![(2, 1), (2, 2), (2, 3)]);
}

#[test]
fn scale_channel_is_exact_at_the_ends() {
    assert_eq!(mgi::color::scale_channel(200, 255), 200);
    assert_eq!(mgi::color::scale_channel(200, 0), 0);
    assert_eq!(mgi::color::scale_channel(255, 128), 128);
}

#[test]
fn rgba_as_raw_is_rgba_order() {
    assert_eq!(Rgba::new(1, 2, 3, 4).as_raw(), [1, 2, 3, 4]);
}

#[test]
fn rgba_from_raw_bytes() {
    assert_eq!(Rgba::from([9, 8, 7, 6]), Rgba::new(9, 8, 7, 6));
}
