use mgi::geometry::Size;
use mgi::tiles::{CheckerPlacement, TileMap, TilePlacement, TileSet, UniformPlacement};

fn grass_water_map() -> TileMap {
    let mut ts = TileSet::new();
    ts.add_tile_type(&"grass".to_string());
    ts.add_tile_type(&"water".to_string());
    let mut map = TileMap::new(2, 3, Size::new(16, 16));
    map.add_tileset(ts);
    map
}

#[test]
fn generate_lays_cells_out_row_major() {
    let mut map = grass_water_map();
    map.generate(&UniformPlacement { tileset_index: 0, tile_index: 0 });
    let tiles = map.tiles();
    assert_eq!(tiles.len(), 6);
    let expected_positions = [(0, 0), (16, 0), (32, 0), (0, 16), (16, 16), (32, 16)];
    for (tile, (x, y)) in tiles.iter().zip(expected_positions) {
        assert_eq!((tile.rect.position.x, tile.rect.position.y), (x, y));
        assert_eq!(tile.rect.size, Size::new(16, 16));
        assert_eq!((tile.tileset_index, tile.tile_index), (0, 0));
    }
}

#[test]
fn generate_twice_gives_equal_cell_lists() {
    let placement = CheckerPlacement { even: (0, 0), odd: (0, 1) };
    let mut a = grass_water_map();
    a.generate(&placement);
    let mut b = grass_water_map();
    b.generate(&placement);
    assert_eq!(a.tiles(), b.tiles());

    // Regenerating the same map replaces the cells with the same list.
    let first = a.tiles().clone();
    a.generate(&placement);
    assert_eq!(a.tiles(), &first);
}

#[test]
fn checker_placement_alternates() {
    let mut map = grass_water_map();
    map.generate(&CheckerPlacement { even: (0, 0), odd: (0, 1) });
    let tiles = map.tiles();
    // Row-major over 3 columns: (col + row) parity.
    let expected = [0, 1, 0, 1, 0, 1];
    for (tile, want) in tiles.iter().zip(expected) {
        assert_eq!(tile.tile_index, want);
    }
}

#[test]
fn get_texture_name_resolves_and_rejects() {
    let map = grass_water_map();
    assert_eq!(map.get_texture_name(0, 1).unwrap(), "water");
    assert!(map.get_texture_name(0, 2).is_none());
    assert!(map.get_texture_name(1, 0).is_none());
}

#[test]
fn tiles_valid_checks_every_reference() {
    let mut map = grass_water_map();
    map.generate(&UniformPlacement { tileset_index: 0, tile_index: 1 });
    assert!(map.tiles_valid());
    let mut bad = grass_water_map();
    bad.generate(&UniformPlacement { tileset_index: 0, tile_index: 7 });
    assert!(!bad.tiles_valid());
}

#[test]
fn add_tilesets_keeps_order() {
    let mut a = TileSet::new();
    a.add_tile_type(&"a".to_string());
    let mut b = TileSet::new();
    b.add_tile_type(&"b".to_string());
    let mut map = TileMap::new(1, 1, Size::new(8, 8));
    map.add_tilesets(vec![a, b]);
    assert_eq!(map.get_texture_name(0, 0).unwrap(), "a");
    assert_eq!(map.get_texture_name(1, 0).unwrap(), "b");
}

#[test]
fn placement_trait_matches_its_spec_on_samples() {
    let p = CheckerPlacement { even: (2, 3), odd: (4, 5) };
    assert_eq!(p.place(0, 0), (2, 3));
    assert_eq!(p.place(1, 0), (4, 5));
    assert_eq!(p.place(-1, 0), (4, 5));
    assert_eq!(p.place(-1, -1), (2, 3));
}
