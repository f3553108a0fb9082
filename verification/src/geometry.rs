use vstd::prelude::*;

verus! {

/// A position on an area's grid of tiles.
#[derive(Copy, Clone, Debug, PartialEq, Eq, Structural)]
pub struct Point {
    pub x: i32,
    pub y: i32,
}

/// The extent of a rectangle on the grid, in tiles.
#[derive(Copy, Clone, Debug, PartialEq, Eq, Structural)]
pub struct Size {
    pub width: i32,
    pub height: i32,
}

/// Whether `(x, y)` lies on a `width` by `height` grid whose corner is the origin.
pub open spec fn spec_in_bounds(x: int, y: int, width: int, height: int) -> bool {
    0 <= x < width && 0 <= y < height
}

/// A point lies on a grid exactly when neither coordinate is negative and each is below the
/// grid's extent: a point with a negative coordinate, or one at or past the extent, never does.
pub proof fn law_in_bounds_means_on_grid(x: int, y: int, width: int, height: int)
    ensures
        x < 0 || y < 0 ==> !spec_in_bounds(x, y, width, height),
        x >= width || y >= height ==> !spec_in_bounds(x, y, width, height),
        0 <= x && 0 <= y && x < width && y < height ==> spec_in_bounds(x, y, width, height),
{
}

impl Point {
    pub fn new(x: i32, y: i32) -> (p: Point)
        ensures
            p.x == x,
            p.y == y,
    {
        Point { x, y }
    }

    /// Whether this point lies on a `width` by `height` grid.
    pub fn in_bounds(&self, width: i32, height: i32) -> (r: bool)
        ensures
            r == spec_in_bounds(self.x as int, self.y as int, width as int, height as int),
            r ==> 0 <= self.x < width && 0 <= self.y < height,
            self.x < 0 || self.y < 0 || self.x >= width || self.y >= height ==> !r,
    {
        if self.x < 0 || self.y < 0 {
            return false;
        }
        if self.x >= width || self.y >= height {
            return false;
        }
        true
    }

    /// Moves the point by `(x, y)`.
    pub fn add(&mut self, x: i32, y: i32)
        requires
            i32::MIN <= old(self).x + x <= i32::MAX,
            i32::MIN <= old(self).y + y <= i32::MAX,
        ensures
            final(self).x == old(self).x + x,
            final(self).y == old(self).y + y,
    {
        self.x = self.x + x;
        self.y = self.y + y;
    }
}

impl Size {
    pub fn new(width: i32, height: i32) -> (s: Size)
        ensures
            s.width == width,
            s.height == height,
    {
        Size { width, height }
    }
}

} // verus!
