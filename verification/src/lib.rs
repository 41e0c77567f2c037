use vstd::prelude::*;

pub mod blit;
pub mod color;
pub mod framebuffer;
pub mod geometry;
pub mod layers;
pub mod raster;
pub mod rect;
pub mod texture;
pub mod tiles;

verus! {

/// Integer screen-space point.
#[derive(Clone, Copy, Debug, PartialEq, Eq, Structural)]
pub struct Vec2 {
    pub x: i32,
    pub y: i32,
}

impl Vec2 {
    pub fn new(x: i32, y: i32) -> (r: Vec2)
        ensures
            r.x == x,
            r.y == y,
    {
        Vec2 { x, y }
    }
}

impl From<(i32, i32)> for Vec2 {
    fn from(v: (i32, i32)) -> (r: Vec2) {
        Vec2 { x: v.0, y: v.1 }
    }
}

impl vstd::std_specs::convert::FromSpecImpl<(i32, i32)> for Vec2 {
    open spec fn obeys_from_spec() -> bool {
        true
    }

    open spec fn from_spec(v: (i32, i32)) -> Vec2 {
        Vec2 { x: v.0, y: v.1 }
    }
}

impl From<Vec2> for (i32, i32) {
    fn from(v: Vec2) -> (r: (i32, i32)) {
        (v.x, v.y)
    }
}

impl vstd::std_specs::convert::FromSpecImpl<Vec2> for (i32, i32) {
    open spec fn obeys_from_spec() -> bool {
        true
    }

    open spec fn from_spec(v: Vec2) -> (i32, i32) {
        (v.x, v.y)
    }
}

/// A drawing error. A missing texture is reported and the offending
/// command skipped; bad rectangle extents are rejected when the rectangle
/// is made; a texture file the host's decoder cannot load is reported
/// with its path and the decoder's message. Writes outside the frame
/// buffer are never an error: they are silently clipped.
#[derive(Clone, Debug, PartialEq, Eq)]
pub enum MgiError {
    TextureNotFound,
    InvalidRectDimensions,
    TextureLoadError { path: String, cause: String },
}

/// The result type drawing entry points return.
pub type MgiResult<T> = Result<T, MgiError>;

} // verus!
