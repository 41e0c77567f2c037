use vstd::prelude::*;

verus! {

use crate::MgiError;
use crate::Vec2;
use crate::geometry::{clamp_i32, spec_clamp_i32, Rotation, Size};

/// A drawable rectangle: a top-left position, non-negative extents, a
/// rotation about its center, and whether it is drawn filled or outlined.
#[derive(Clone, Copy, Debug, PartialEq, Eq, Structural)]
pub struct Rect {
    pub position: Vec2,
    pub size: Size,
    pub rotation: Rotation,
    pub fill: bool,
}

impl Rect {
    /// A filled, unrotated-by-default rectangle from its top-left corner.
    pub fn new(x: i32, y: i32, size: Size, rotation: Option<Rotation>) -> (r: Rect)
        ensures
            r.position == (Vec2 { x, y }),
            r.size == size,
            r.rotation == match rotation {
                Some(rot) => rot,
                None => Rotation::Degrees(0),
            },
            r.fill,
    {
        let rotation = match rotation {
            Some(rot) => rot,
            None => Rotation::Degrees(0),
        };
        Rect { position: Vec2 { x, y }, size, rotation, fill: true }
    }

    /// A rectangle from signed extents: negative width or height is rejected
    /// when the rectangle is made, never at raster time.
    pub fn try_new(x: i32, y: i32, width: i32, height: i32, rotation: Option<Rotation>) -> (r:
        Result<Rect, MgiError>)
        ensures
            r is Ok <==> width >= 0 && height >= 0,
            r is Ok ==> r->Ok_0 == (Rect {
                position: Vec2 { x, y },
                size: Size { width: width as u32, height: height as u32 },
                rotation: match rotation {
                    Some(rot) => rot,
                    None => Rotation::Degrees(0),
                },
                fill: true,
            }),
            r is Err ==> r->Err_0 == MgiError::InvalidRectDimensions,
    {
        if width < 0 || height < 0 {
            return Err(MgiError::InvalidRectDimensions);
        }
        Ok(Rect::new(x, y, Size { width: width as u32, height: height as u32 }, rotation))
    }

    /// The x coordinate of the rectangle's center, clamped to the 32-bit
    /// coordinate range.
    pub open spec fn spec_center_x(self) -> int {
        spec_clamp_i32(self.position.x + self.size.width / 2)
    }

    /// The y coordinate of the rectangle's center, clamped likewise.
    pub open spec fn spec_center_y(self) -> int {
        spec_clamp_i32(self.position.y + self.size.height / 2)
    }

    /// The point rotation happens about: the middle of the rectangle.
    pub fn center(&self) -> (c: Vec2)
        ensures
            c.x == self.spec_center_x(),
            c.y == self.spec_center_y(),
    {
        let cx: i64 = (self.position.x as i64) + ((self.size.width / 2) as i64);
        let cy: i64 = (self.position.y as i64) + ((self.size.height / 2) as i64);
        Vec2 { x: clamp_i32(cx), y: clamp_i32(cy) }
    }

    /// A rectangle placed by its center instead of its top-left corner.
    pub fn from_center(cx: i32, cy: i32, size: Size, rotation: Option<Rotation>) -> (r: Rect)
        ensures
            r.position.x == spec_clamp_i32(cx - size.width / 2),
            r.position.y == spec_clamp_i32(cy - size.height / 2),
            r.size == size,
            r.rotation == match rotation {
                Some(rot) => rot,
                None => Rotation::Degrees(0),
            },
            r.fill,
    {
        let x: i64 = (cx as i64) - ((size.width / 2) as i64);
        let y: i64 = (cy as i64) - ((size.height / 2) as i64);
        Rect::new(clamp_i32(x), clamp_i32(y), size, rotation)
    }

    /// Replace the rectangle's rotation.
    pub fn rotate(&mut self, angle: Rotation)
        ensures
            *final(self) == (Rect { rotation: angle, ..*old(self) }),
    {
        self.rotation = angle;
    }

    /// Whether `(x, y)` lies inside the unrotated bounds: the half-open
    /// box `[x0, x0 + w) x [y0, y0 + h)`.
    pub open spec fn spec_contains(self, x: int, y: int) -> bool {
        &&& self.position.x <= x < self.position.x + self.size.width
        &&& self.position.y <= y < self.position.y + self.size.height
    }

    /// Point-in-rectangle test against the unrotated bounds.
    pub fn is_inside(&self, x: i32, y: i32) -> (r: bool)
        ensures
            r == self.spec_contains(x as int, y as int),
    {
        let xi = x as i64;
        let yi = y as i64;
        let x0 = self.position.x as i64;
        let y0 = self.position.y as i64;
        x0 <= xi && xi < x0 + (self.size.width as i64) && y0 <= yi && yi < y0 + (
        self.size.height as i64)
    }
}

} // verus!
