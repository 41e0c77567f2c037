use vstd::prelude::*;

verus! {

use crate::color::Rgba;
use crate::rect::Rect;
use crate::geometry::Size;

/// A decoded image: a name it is looked up by, its intrinsic extents, and
/// its pixels, row-major. Textures are loaded once and read-only afterwards;
/// decoding image files is the host's job, the core takes the raw pixels.
pub struct Texture {
    pub name: String,
    pub width: u32,
    pub height: u32,
    pub pixels: Vec<Rgba>,
}

impl Texture {
    pub open spec fn wf(self) -> bool {
        &&& self.pixels@.len() == (self.width as int) * (self.height as int)
        &&& self.width <= i32::MAX
        &&& self.height <= i32::MAX
    }

    /// The pixel at `(x, y)` of the texture, row-major.
    pub open spec fn spec_pixel(self, x: int, y: int) -> Rgba {
        self.pixels@[y * self.width + x]
    }

    /// A texture from raw pixels; `None` when the pixel count does not
    /// match the claimed extents.
    pub fn new(name: String, width: u32, height: u32, pixels: Vec<Rgba>) -> (r: Option<Texture>)
        ensures
            r is Some <==> pixels@.len() == (width as int) * (height as int) && width <= i32::MAX
                && height <= i32::MAX,
            r is Some ==> r->0 == (Texture { name: name, width, height, pixels: pixels })
                && r->0.wf(),
    {
        if width > i32::MAX as u32 || height > i32::MAX as u32 {
            return None;
        }
        proof {
            assert((width as int) * (height as int) <= 0x7fffffff * 0x7fffffff)
                by (nonlinear_arith)
                requires
                    0 <= width <= 0x7fffffff,
                    0 <= height <= 0x7fffffff,
            ;
        }
        let expect: u64 = (width as u64) * (height as u64);
        if (pixels.len() as u64) != expect {
            return None;
        }
        Some(Texture { name, width, height, pixels })
    }

    pub fn size(&self) -> (r: Size)
        ensures
            r.width == self.width,
            r.height == self.height,
    {
        Size { width: self.width, height: self.height }
    }
}

/// The index of the first texture in `s` named `name`, if any.
pub open spec fn spec_find_from(s: Seq<Texture>, name: Seq<char>, i: int) -> Option<int>
    decreases s.len() - i,
{
    if i < 0 || i >= s.len() {
        None
    } else if s[i].name@ == name {
        Some(i)
    } else {
        spec_find_from(s, name, i + 1)
    }
}

pub open spec fn spec_find(s: Seq<Texture>, name: Seq<char>) -> Option<int> {
    spec_find_from(s, name, 0)
}

/// A found index lies within the list and carries the name.
pub proof fn lemma_find_from_props(s: Seq<Texture>, name: Seq<char>, i: int)
    ensures
        spec_find_from(s, name, i) is Some ==> {
            let j = spec_find_from(s, name, i)->0;
            &&& i <= j < s.len()
            &&& s[j].name@ == name
        },
    decreases s.len() - i,
{
    if 0 <= i < s.len() {
        if s[i].name@ == name {
        } else {
            lemma_find_from_props(s, name, i + 1);
        }
    }
}

/// The arena that owns every decoded texture; draw commands refer to a
/// texture by name and never hold the pixels themselves.
pub struct TextureManager {
    pub textures: Vec<Texture>,
}

impl TextureManager {
    pub open spec fn wf(self) -> bool {
        forall|i: int| 0 <= i < self.textures@.len() ==> (#[trigger] self.textures@[i]).wf()
    }

    pub fn new() -> (r: TextureManager)
        ensures
            r.textures@.len() == 0,
            r.wf(),
    {
        TextureManager { textures: Vec::new() }
    }

    /// Add a texture at the end of the arena. Look-up by name finds the
    /// first match, so an existing name is not displaced.
    pub fn add_texture(&mut self, t: Texture)
        requires
            old(self).wf(),
            t.wf(),
        ensures
            final(self).wf(),
            final(self).textures@ == old(self).textures@.push(t),
    {
        self.textures.push(t);
    }

    /// Add several textures, keeping their order.
    pub fn add_textures(&mut self, mut ts: Vec<Texture>)
        requires
            old(self).wf(),
            forall|i: int| 0 <= i < ts@.len() ==> (#[trigger] ts@[i]).wf(),
        ensures
            final(self).wf(),
            final(self).textures@ == old(self).textures@ + ts@,
    {
        self.textures.append(&mut ts);
    }

    /// The first texture of the given name, or `None` when no texture
    /// carries it.
    pub fn get_texture(&self, name: &String) -> (r: Option<&Texture>)
        ensures
            r is Some <==> spec_find(self.textures@, name@) is Some,
            r is Some ==> r->0 == &self.textures@[spec_find(self.textures@, name@)->0],
    {
        let n: usize = self.textures.len();
        let mut i: usize = 0;
        while i < n
            invariant
                n == self.textures@.len(),
                i <= n,
                spec_find(self.textures@, name@) == spec_find_from(self.textures@, name@, i as int),
            decreases n - i,
        {
            if self.textures[i].name == *name {
                return Some(&self.textures[i]);
            }
            i = i + 1;
        }
        None
    }
}

impl TextureManager {
    /// The error form of `get_texture`, for callers that treat a missing
    /// name as a recoverable texture-not-found error and decide
    /// themselves whether to skip the draw or abort.
    pub fn require_texture(&self, name: &String) -> (r: Result<&Texture, crate::MgiError>)
        ensures
            r is Ok <==> spec_find(self.textures@, name@) is Some,
            r is Ok ==> r->Ok_0 == &self.textures@[spec_find(self.textures@, name@)->0],
            r is Err ==> r->Err_0 == crate::MgiError::TextureNotFound,
    {
        match self.get_texture(name) {
            Some(t) => Ok(t),
            None => Err(crate::MgiError::TextureNotFound),
        }
    }
}

/// One texture holding a grid of equally sized tiles side by side: tile
/// `i` occupies the cell at column `i % columns`, row `i / columns`.
pub struct TextureAtlas {
    pub name: String,
    pub tile_width: u32,
    pub tile_height: u32,
    pub columns: u32,
}

impl TextureAtlas {
    /// The source crop rectangle of the tile with the given index.
    pub fn tile_src(&self, index: u32) -> (r: Rect)
        requires
            self.columns > 0,
            (index as int % self.columns as int) * self.tile_width <= i32::MAX,
            (index as int / self.columns as int) * self.tile_height <= i32::MAX,
        ensures
            r.position.x == (index as int % self.columns as int) * self.tile_width,
            r.position.y == (index as int / self.columns as int) * self.tile_height,
            r.size.width == self.tile_width,
            r.size.height == self.tile_height,
            r.rotation == crate::geometry::Rotation::Degrees(0),
    {
        let col: u64 = (index as u64) % (self.columns as u64);
        let row: u64 = (index as u64) / (self.columns as u64);
        proof {
            vstd::arithmetic::div_mod::lemma_mod_bound(index as int, self.columns as int);
            assert(0 <= index as int / self.columns as int) by (nonlinear_arith)
                requires
                    index >= 0,
                    self.columns > 0,
            ;
        }
        let x: i64 = (col as i64) * (self.tile_width as i64);
        let y: i64 = (row as i64) * (self.tile_height as i64);
        Rect::new(
            x as i32,
            y as i32,
            Size { width: self.tile_width, height: self.tile_height },
            None,
        )
    }
}

} // verus!
