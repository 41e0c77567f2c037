use vstd::prelude::*;
use vstd::arithmetic::div_mod::lemma_mod_bound;

verus! {

use crate::framebuffer::lemma_pixel_index;
use crate::geometry::{Rotation, Size};
use crate::rect::Rect;
use crate::Vec2;

/// The tile textures one tile grid can draw from: a list of texture names,
/// referred to by index.
pub struct TileSet {
    pub tile_types: Vec<String>,
}

impl TileSet {
    pub fn new() -> (r: TileSet)
        ensures
            r.tile_types@.len() == 0,
    {
        TileSet { tile_types: Vec::new() }
    }

    /// Register one more tile texture name.
    pub fn add_tile_type(&mut self, texture_name: &String)
        ensures
            final(self).tile_types@ == old(self).tile_types@.push(*texture_name),
    {
        self.tile_types.push(texture_name.clone());
    }
}

/// One cell of a generated tile grid: where it is drawn and which tile
/// texture it shows, as a pair of tileset index and tile index.
#[derive(Clone, Copy, Debug, PartialEq, Eq, Structural)]
pub struct Tile {
    pub rect: Rect,
    pub tileset_index: usize,
    pub tile_index: usize,
}

/// How a tile grid decides which tile goes in which cell: a pure mapping
/// from the cell's column and row to a tileset index and a tile index,
/// supplied as data at generation time.
pub trait TilePlacement {
    /// The mapping itself, as the contracts speak of it.
    spec fn spec_place(&self, col: int, row: int) -> (int, int);

    /// The mapping, executed for one cell.
    fn place(&self, col: i32, row: i32) -> (r: (usize, usize))
        ensures
            (r.0 as int, r.1 as int) == self.spec_place(col as int, row as int),
    ;
}

/// A placement that puts the same tile in every cell.
pub struct UniformPlacement {
    pub tileset_index: usize,
    pub tile_index: usize,
}

impl TilePlacement for UniformPlacement {
    open spec fn spec_place(&self, col: int, row: int) -> (int, int) {
        (self.tileset_index as int, self.tile_index as int)
    }

    fn place(&self, col: i32, row: i32) -> (r: (usize, usize)) {
        (self.tileset_index, self.tile_index)
    }
}

/// A placement that alternates two tiles in a checker pattern.
pub struct CheckerPlacement {
    pub even: (usize, usize),
    pub odd: (usize, usize),
}

impl TilePlacement for CheckerPlacement {
    open spec fn spec_place(&self, col: int, row: int) -> (int, int) {
        if (col + row) % 2 == 0 {
            (self.even.0 as int, self.even.1 as int)
        } else {
            (self.odd.0 as int, self.odd.1 as int)
        }
    }

    fn place(&self, col: i32, row: i32) -> (r: (usize, usize)) {
        let s: i64 = (col as i64) + (row as i64);
        proof {
            lemma_mod_bound(s as int, 2);
        }
        let rem: i64 = s.checked_rem_euclid(2).unwrap();
        if rem == 0 {
            (self.even.0, self.even.1)
        } else {
            (self.odd.0, self.odd.1)
        }
    }
}

/// The cell a generation step emits for `(col, row)`: an unrotated
/// destination rectangle at the cell's position and the placement's
/// texture reference.
pub open spec fn spec_tile_cell(tile_size: Size, place: (int, int), col: int, row: int) -> Tile {
    Tile {
        rect: Rect {
            position: Vec2 {
                x: (col * tile_size.width) as i32,
                y: (row * tile_size.height) as i32,
            },
            size: tile_size,
            rotation: Rotation::Degrees(0),
            fill: true,
        },
        tileset_index: place.0 as usize,
        tile_index: place.1 as usize,
    }
}

/// The whole generated cell list, row-major: cell `i` sits at column
/// `i % ncols`, row `i / ncols`.
pub open spec fn spec_generate<P: TilePlacement>(
    placement: &P,
    nrows: int,
    ncols: int,
    tile_size: Size,
) -> Seq<Tile> {
    Seq::new(
        (nrows * ncols) as nat,
        |i: int|
            spec_tile_cell(
                tile_size,
                placement.spec_place(i % ncols, i / ncols),
                i % ncols,
                i / ncols,
            ),
    )
}

/// A grid of `nrows` by `ncols` equally sized cells. `generate` expands
/// the grid into one cell per position; drawing the grid issues one
/// texture blit per cell.
pub struct TileMap {
    pub nrows: usize,
    pub ncols: usize,
    pub tile_size: Size,
    pub tilesets: Vec<TileSet>,
    pub tiles: Vec<Tile>,
}

impl TileMap {
    pub fn new(nrows: usize, ncols: usize, tile_size: Size) -> (r: TileMap)
        ensures
            r.nrows == nrows,
            r.ncols == ncols,
            r.tile_size == tile_size,
            r.tilesets@.len() == 0,
            r.tiles@.len() == 0,
    {
        TileMap { nrows, ncols, tile_size, tilesets: Vec::new(), tiles: Vec::new() }
    }

    pub fn add_tileset(&mut self, tileset: TileSet)
        ensures
            final(self).tilesets@ == old(self).tilesets@.push(tileset),
            final(self).tiles == old(self).tiles,
            final(self).nrows == old(self).nrows,
            final(self).ncols == old(self).ncols,
            final(self).tile_size == old(self).tile_size,
    {
        self.tilesets.push(tileset);
    }

    pub fn add_tilesets(&mut self, mut tilesets: Vec<TileSet>)
        ensures
            final(self).tilesets@ == old(self).tilesets@ + tilesets@,
            final(self).tiles == old(self).tiles,
            final(self).nrows == old(self).nrows,
            final(self).ncols == old(self).ncols,
            final(self).tile_size == old(self).tile_size,
    {
        self.tilesets.append(&mut tilesets);
    }

    /// The generated cells, row-major.
    pub fn tiles(&self) -> (r: &Vec<Tile>)
        ensures
            r == &self.tiles,
    {
        &self.tiles
    }

    /// The texture name a tile refers to, or `None` when the tile's
    /// indices point outside the attached tilesets.
    pub fn get_texture_name(&self, tileset_index: usize, tile_index: usize) -> (r: Option<
        &String,
    >)
        ensures
            r is Some <==> tileset_index < self.tilesets@.len() && tile_index
                < self.tilesets@[tileset_index as int].tile_types@.len(),
            r is Some ==> r->0 == &self.tilesets@[tileset_index as int].tile_types@[
                tile_index as int
            ],
    {
        if tileset_index >= self.tilesets.len() {
            return None;
        }
        let ts = &self.tilesets[tileset_index];
        if tile_index >= ts.tile_types.len() {
            return None;
        }
        Some(&ts.tile_types[tile_index])
    }

    /// Whether every generated tile's texture reference points into the
    /// attached tilesets.
    pub open spec fn spec_tiles_valid(self) -> bool {
        forall|j: int|
            0 <= j < self.tiles@.len() ==> (#[trigger] self.tiles@[j]).tileset_index
                < self.tilesets@.len() && self.tiles@[j].tile_index < self.tilesets@[
                self.tiles@[j].tileset_index as int
            ].tile_types@.len()
    }

    /// Check that every tile's texture reference resolves, so that a
    /// caller can refuse a grid that a placement pointed outside the
    /// attached tilesets.
    pub fn tiles_valid(&self) -> (r: bool)
        ensures
            r == self.spec_tiles_valid(),
    {
        let n: usize = self.tiles.len();
        let mut j: usize = 0;
        while j < n
            invariant
                n == self.tiles@.len(),
                j <= n,
                forall|i: int|
                    0 <= i < j ==> (#[trigger] self.tiles@[i]).tileset_index
                        < self.tilesets@.len() && self.tiles@[i].tile_index < self.tilesets@[
                        self.tiles@[i].tileset_index as int
                    ].tile_types@.len(),
            decreases n - j,
        {
            let t = &self.tiles[j];
            if t.tileset_index >= self.tilesets.len() {
                return false;
            }
            if t.tile_index >= self.tilesets[t.tileset_index].tile_types.len() {
                return false;
            }
            j = j + 1;
        }
        true
    }

    /// Expand the grid into its cell list with the given placement,
    /// replacing any previous generation. Generation is a pure function of
    /// the grid's extents, its tile size and the placement: the same
    /// inputs give the same cell list.
    pub fn generate<P: TilePlacement>(&mut self, placement: &P)
        requires
            old(self).nrows * old(self).ncols <= usize::MAX,
            old(self).ncols * old(self).tile_size.width <= i32::MAX,
            old(self).nrows * old(self).tile_size.height <= i32::MAX,
            old(self).ncols <= i32::MAX,
            old(self).nrows <= i32::MAX,
        ensures
            final(self).tiles@ == spec_generate(
                placement,
                old(self).nrows as int,
                old(self).ncols as int,
                old(self).tile_size,
            ),
            final(self).nrows == old(self).nrows,
            final(self).ncols == old(self).ncols,
            final(self).tile_size == old(self).tile_size,
            final(self).tilesets == old(self).tilesets,
    {
        let nrows = self.nrows;
        let ncols = self.ncols;
        let tile_size = self.tile_size;
        let ghost target = spec_generate(placement, nrows as int, ncols as int, tile_size);
        let mut tiles: Vec<Tile> = Vec::new();
        let mut row: usize = 0;
        while row < nrows
            invariant
                row <= nrows,
                nrows * ncols <= usize::MAX,
                ncols * tile_size.width <= i32::MAX,
                nrows * tile_size.height <= i32::MAX,
                ncols <= i32::MAX,
                nrows <= i32::MAX,
                target == spec_generate(placement, nrows as int, ncols as int, tile_size),
                target.len() == nrows * ncols,
                tiles@.len() == row * ncols,
                forall|i: int| 0 <= i < tiles@.len() ==> tiles@[i] == target[i],
            decreases nrows - row,
        {
            let mut col: usize = 0;
            proof {
                assert(row * ncols + ncols <= nrows * ncols) by (nonlinear_arith)
                    requires
                        row < nrows,
                        0 <= ncols,
                ;
            }
            while col < ncols
                invariant
                    row < nrows,
                    col <= ncols,
                    nrows * ncols <= usize::MAX,
                    ncols * tile_size.width <= i32::MAX,
                    nrows * tile_size.height <= i32::MAX,
                    ncols <= i32::MAX,
                    nrows <= i32::MAX,
                    row * ncols + ncols <= nrows * ncols,
                    target == spec_generate(placement, nrows as int, ncols as int, tile_size),
                    target.len() == nrows * ncols,
                    tiles@.len() == row * ncols + col,
                    forall|i: int| 0 <= i < tiles@.len() ==> tiles@[i] == target[i],
                decreases ncols - col,
            {
                let place = placement.place(col as i32, row as i32);
                proof {
                    assert(col * tile_size.width <= ncols * tile_size.width) by (nonlinear_arith)
                        requires
                            0 <= col <= ncols,
                            0 <= tile_size.width,
                    ;
                    assert(row * tile_size.height <= nrows * tile_size.height)
                        by (nonlinear_arith)
                        requires
                            0 <= row <= nrows,
                            0 <= tile_size.height,
                    ;
                }
                let x: i64 = (col as i64) * (tile_size.width as i64);
                let y: i64 = (row as i64) * (tile_size.height as i64);
                let tile = Tile {
                    rect: Rect {
                        position: Vec2 { x: x as i32, y: y as i32 },
                        size: tile_size,
                        rotation: Rotation::Degrees(0),
                        fill: true,
                    },
                    tileset_index: place.0,
                    tile_index: place.1,
                };
                proof {
                    let i = row as int * ncols + col;
                    lemma_pixel_index(ncols as int, nrows as int, col as int, row as int);
                    assert(target[i] == tile);
                }
                tiles.push(tile);
                col = col + 1;
            }
            proof {
                assert(row * ncols + ncols == (row + 1) * ncols) by (nonlinear_arith);
            }
            row = row + 1;
        }
        proof {
            assert(tiles@ =~= target);
        }
        self.tiles = tiles;
    }
}

/// Law: generation is deterministic. Two placements that agree everywhere
/// generate the same cell list for the same grid shape; in particular,
/// generating twice with the same placement gives two equal lists.
pub proof fn lemma_generate_deterministic<P1: TilePlacement, P2: TilePlacement>(
    a: &P1,
    b: &P2,
    nrows: int,
    ncols: int,
    tile_size: Size,
)
    requires
        forall|col: int, row: int| #[trigger] a.spec_place(col, row) == b.spec_place(col, row),
    ensures
        spec_generate(a, nrows, ncols, tile_size) == spec_generate(b, nrows, ncols, tile_size),
{
    assert(spec_generate(a, nrows, ncols, tile_size) =~= spec_generate(b, nrows, ncols, tile_size));
}

} // verus!
