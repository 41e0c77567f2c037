use mgi::color::Rgba;
use mgi::framebuffer::FrameBuffer;
use mgi::geometry::Size;
use mgi::layers::Context;
use mgi::rect::Rect;
use mgi::texture::{Texture, TextureAtlas, TextureManager};
use mgi::tiles::{TileMap, TileSet, UniformPlacement};
use mgi::Vec2;

fn white() -> Rgba {
    Rgba::new(255, 255, 255, 255)
}

fn red() -> Rgba {
    Rgba::new(255, 0, 0, 255)
}

fn blue() -> Rgba {
    Rgba::new(0, 0, 255, 255)
}

#[test]
fn higher_layer_wins_over_the_same_region() {
    let mut ctx = Context::new();
    let region = Rect::new(1, 1, Size::new(3, 3), None);
    ctx.fill_rect(region, red(), 0);
    ctx.fill_rect(region, blue(), 1);
    let mut fb = FrameBuffer::new(6, 6, white());
    ctx.composite(&mut fb, &TextureManager::new());
    for y in 1..4 {
        for x in 1..4 {
            assert_eq!(fb.get_pixel(x, y).unwrap(), blue(), "pixel ({x}, {y})");
        }
    }
    assert_eq!(fb.get_pixel(0, 0).unwrap(), white());
}

#[test]
fn later_command_wins_within_a_layer() {
    let mut ctx = Context::new();
    let region = Rect::new(0, 0, Size::new(2, 2), None);
    ctx.fill_rect(region, red(), 0);
    ctx.fill_rect(region, blue(), 0);
    let mut fb = FrameBuffer::new(4, 4, white());
    ctx.composite(&mut fb, &TextureManager::new());
    assert_eq!(fb.get_pixel(0, 0).unwrap(), blue());
}

#[test]
fn hidden_layer_is_skipped() {
    let mut ctx = Context::new();
    let region = Rect::new(0, 0, Size::new(2, 2), None);
    ctx.fill_rect(region, red(), 0);
    ctx.fill_rect(region, blue(), 1);
    ctx.set_layer_visible(1, false);
    let mut fb = FrameBuffer::new(4, 4, white());
    ctx.composite(&mut fb, &TextureManager::new());
    assert_eq!(fb.get_pixel(0, 0).unwrap(), red());
}

#[test]
fn missing_texture_skips_the_blit_and_keeps_going() {
    let mut ctx = Context::new();
    let dest = Rect::new(0, 0, Size::new(2, 2), None);
    ctx.draw_texture(&"ghost".to_string(), None, dest, None, None, None, 0);
    ctx.fill_rect(Rect::new(2, 2, Size::new(1, 1), None), red(), 0);
    let mut fb = FrameBuffer::new(4, 4, white());
    ctx.composite(&mut fb, &TextureManager::new());
    // The unknown texture mutated nothing...
    assert_eq!(fb.get_pixel(0, 0).unwrap(), white());
    assert_eq!(fb.get_pixel(1, 1).unwrap(), white());
    // ...and the command after it in the same layer still ran.
    assert_eq!(fb.get_pixel(2, 2).unwrap(), red());
}

#[test]
fn known_texture_is_drawn_by_name() {
    let mut store = TextureManager::new();
    store.add_texture(
        Texture::new("dot".to_string(), 1, 1, vec![Rgba::new(1, 2, 3, 255)]).unwrap(),
    );
    let mut ctx = Context::new();
    let dest = Rect::new(1, 1, Size::new(1, 1), None);
    ctx.draw_texture(&"dot".to_string(), None, dest, None, None, None, 0);
    let mut fb = FrameBuffer::new(3, 3, white());
    ctx.composite(&mut fb, &store);
    assert_eq!(fb.get_pixel(1, 1).unwrap(), Rgba::new(1, 2, 3, 255));
}

#[test]
fn get_texture_finds_the_first_match() {
    let mut store = TextureManager::new();
    store.add_texture(Texture::new("a".to_string(), 1, 1, vec![red()]).unwrap());
    store.add_texture(Texture::new("a".to_string(), 1, 1, vec![blue()]).unwrap());
    let t = store.get_texture(&"a".to_string()).unwrap();
    assert_eq!(t.pixels[0], red());
    assert!(store.get_texture(&"b".to_string()).is_none());
}

#[test]
fn draw_line_command_runs_at_composite_time() {
    let mut ctx = Context::new();
    ctx.draw_line(Vec2::new(0, 0), Vec2::new(2, 0), red(), 0);
    let mut fb = FrameBuffer::new(4, 4, white());
    ctx.composite(&mut fb, &TextureManager::new());
    for x in 0..3 {
        assert_eq!(fb.get_pixel(x, 0).unwrap(), red());
    }
    assert_eq!(fb.get_pixel(3, 0).unwrap(), white());
}

#[test]
fn draw_rect_outlines_without_filling() {
    let mut ctx = Context::new();
    ctx.draw_rect(Rect::new(0, 0, Size::new(3, 3), None), red(), 0);
    let mut fb = FrameBuffer::new(5, 5, white());
    ctx.composite(&mut fb, &TextureManager::new());
    assert_eq!(fb.get_pixel(0, 0).unwrap(), red());
    assert_eq!(fb.get_pixel(1, 1).unwrap(), white());
}

#[test]
fn draw_auto_creates_intermediate_layers() {
    let mut ctx = Context::new();
    ctx.fill_rect(Rect::new(0, 0, Size::new(1, 1), None), red(), 3);
    // Drawing into a lower layer afterwards must not disturb layer 3.
    ctx.fill_rect(Rect::new(0, 0, Size::new(1, 1), None), blue(), 1);
    let mut fb = FrameBuffer::new(2, 2, white());
    ctx.composite(&mut fb, &TextureManager::new());
    assert_eq!(fb.get_pixel(0, 0).unwrap(), red());
}

#[test]
fn reset_clears_commands_and_keeps_layers() {
    let mut ctx = Context::new();
    ctx.fill_rect(Rect::new(0, 0, Size::new(2, 2), None), red(), 0);
    ctx.set_layer_visible(0, false);
    ctx.reset();
    ctx.set_layer_visible(0, true);
    let mut fb = FrameBuffer::new(2, 2, white());
    ctx.composite(&mut fb, &TextureManager::new());
    // The command list was cleared, so nothing draws.
    assert_eq!(fb.get_pixel(0, 0).unwrap(), white());
}

#[test]
fn tilemap_drawing_blits_one_cell_per_tile() {
    let mut store = TextureManager::new();
    store.add_texture(Texture::new("grass".to_string(), 1, 1, vec![red()]).unwrap());
    let mut ts = TileSet::new();
    ts.add_tile_type(&"grass".to_string());
    let mut map = TileMap::new(1, 2, Size::new(1, 1));
    map.add_tileset(ts);
    map.generate(&UniformPlacement { tileset_index: 0, tile_index: 0 });
    assert!(map.tiles_valid());

    let mut ctx = Context::new();
    ctx.draw_tilemap(&map, None, None, 0);
    let mut fb = FrameBuffer::new(3, 1, white());
    ctx.composite(&mut fb, &store);
    assert_eq!(fb.get_pixel(0, 0).unwrap(), red());
    assert_eq!(fb.get_pixel(1, 0).unwrap(), red());
    assert_eq!(fb.get_pixel(2, 0).unwrap(), white());
}

#[test]
fn atlas_tile_src_addresses_the_grid() {
    let atlas = TextureAtlas {
        name: "sheet".to_string(),
        tile_width: 16,
        tile_height: 8,
        columns: 4,
    };
    let r = atlas.tile_src(5);
    assert_eq!((r.position.x, r.position.y), (16, 8));
    assert_eq!(r.size, Size::new(16, 8));
}

#[test]
fn texture_load_error_carries_path_and_cause() {
    let e = mgi::MgiError::TextureLoadError {
        path: "img/missing.png".to_string(),
        cause: "no such file".to_string(),
    };
    match &e {
        mgi::MgiError::TextureLoadError { path, cause } => {
            assert_eq!(path, "img/missing.png");
            assert_eq!(cause, "no such file");
        },
        _ => panic!("wrong variant"),
    }
    assert_ne!(e, mgi::MgiError::TextureNotFound);
}

#[test]
fn require_texture_reports_texture_not_found() {
    let mut store = TextureManager::new();
    match store.require_texture(&"nope".to_string()) {
        Err(e) => assert_eq!(e, mgi::MgiError::TextureNotFound),
        Ok(_) => panic!("expected a texture-not-found error"),
    }
    store.add_texture(Texture::new("dot".to_string(), 1, 1, vec![red()]).unwrap());
    assert!(store.require_texture(&"dot".to_string()).is_ok());
}

#[test]
fn composite_with_no_layers_changes_nothing() {
    let ctx = Context::new();
    let mut fb = FrameBuffer::new(2, 2, white());
    ctx.composite(&mut fb, &TextureManager::new());
    for y in 0..2 {
        for x in 0..2 {
            assert_eq!(fb.get_pixel(x, y).unwrap(), white());
        }
    }
}

#[test]
fn empty_framebuffer_is_harmless() {
    let mut fb = FrameBuffer::new(0, 0, white());
    assert!(fb.get_pixel(0, 0).is_none());
    let mut ctx = Context::new();
    ctx.fill_rect(Rect::new(0, 0, Size::new(4, 4), None), red(), 0);
    ctx.composite(&mut fb, &TextureManager::new());
    assert_eq!(fb.as_raw_bytes().len(), 0);
}
