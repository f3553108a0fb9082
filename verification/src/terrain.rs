use vstd::prelude::*;

use crate::resource::{EntitySize, ResourceError};

verus! {

/// Which tiles of an area can be walked on, row by row.
pub struct Terrain {
    width: usize,
    height: usize,
    passable: Vec<Vec<bool>>,
}

/// Whether the tile `(x, y)` of `t` lies on the terrain and can be walked on.
pub open spec fn tile_passable(t: Terrain, x: int, y: int) -> bool {
    &&& 0 <= x < t.spec_width()
    &&& 0 <= y < t.spec_height()
    &&& t.rows()[y][x]
}

/// Whether an entity of footprint `size` can stand with its corner at `(x, y)`: every tile
/// of the `size` by `size` square there lies on the terrain and can be walked on.
pub open spec fn square_passable(t: Terrain, size: int, x: int, y: int) -> bool {
    forall|dx: int, dy: int|
        0 <= dx < size && 0 <= dy < size ==> #[trigger] tile_passable(t, x + dx, y + dy)
}

impl Terrain {
    #[verifier::type_invariant]
    closed spec fn inv(self) -> bool {
        &&& self.passable@.len() == self.height
        &&& forall|r: int| 0 <= r < self.height ==> (#[trigger] self.passable@[r])@.len() == self.width
    }

    pub closed spec fn spec_width(&self) -> usize {
        self.width
    }

    pub closed spec fn spec_height(&self) -> usize {
        self.height
    }

    /// Whether each tile can be walked on, row by row.
    pub closed spec fn rows(&self) -> Seq<Seq<bool>> {
        self.passable@.map_values(|r: Vec<bool>| r@)
    }

    /// The terrain of a `width` by `height` area whose row `y` tells, for each `x`, whether the
    /// tile `(x, y)` can be walked on. The rows must match the extent.
    pub fn from_rows(width: usize, height: usize, passable: Vec<Vec<bool>>) -> (r: Result<Terrain, ResourceError>)
        ensures
            (passable@.len() == height && forall|i: int| 0 <= i < height ==> (#[trigger] passable@[i])@.len() == width)
                ==> (r matches Ok(t) && t.spec_width() == width && t.spec_height() == height
                && t.rows() == passable@.map_values(|row: Vec<bool>| row@)),
            !(passable@.len() == height && forall|i: int| 0 <= i < height ==> (#[trigger] passable@[i])@.len() == width)
                ==> r matches Err(ResourceError::InvalidTerrain),
    {
        if passable.len() != height {
            return Err(ResourceError::InvalidTerrain);
        }
        let mut i: usize = 0;
        while i < height
            invariant
                i <= height,
                passable@.len() == height,
                forall|j: int| 0 <= j < i ==> (#[trigger] passable@[j])@.len() == width,
            decreases height - i,
        {
            if passable[i].len() != width {
                return Err(ResourceError::InvalidTerrain);
            }
            i = i + 1;
        }
        Ok(Terrain { width, height, passable })
    }

    pub fn width(&self) -> (r: usize)
        ensures
            r == self.spec_width(),
    {
        self.width
    }

    pub fn height(&self) -> (r: usize)
        ensures
            r == self.spec_height(),
    {
        self.height
    }

    /// Whether the tile `(x, y)` lies on the terrain and can be walked on.
    pub fn is_passable(&self, x: usize, y: usize) -> (r: bool)
        ensures
            r == tile_passable(*self, x as int, y as int),
    {
        proof {
            use_type_invariant(self);
        }
        if x < self.width && y < self.height {
            self.passable[y][x]
        } else {
            false
        }
    }

    /// Whether an entity of footprint `size` can stand with its corner at `(x, y)`.
    pub fn is_square_passable(&self, size: usize, x: usize, y: usize) -> (r: bool)
        ensures
            r == square_passable(*self, size as int, x as int, y as int),
    {
        let mut dy: usize = 0;
        while dy < size
            invariant
                dy <= size,
                forall|a: int, b: int| 0 <= a < size && 0 <= b < dy ==> #[trigger] tile_passable(*self, x + a, y + b),
            decreases size - dy,
        {
            let mut dx: usize = 0;
            while dx < size
                invariant
                    dx <= size,
                    dy < size,
                    forall|a: int, b: int| 0 <= a < size && 0 <= b < dy ==> #[trigger] tile_passable(*self, x + a, y + b),
                    forall|a: int| 0 <= a < dx ==> #[trigger] tile_passable(*self, x + a, y + dy),
                decreases size - dx,
            {
                if x >= self.width || dx >= self.width - x || y >= self.height || dy >= self.height - y {
                    assert(!tile_passable(*self, x + dx, y + dy));
                    return false;
                }
                if !self.is_passable(x + dx, y + dy) {
                    return false;
                }
                dx = dx + 1;
            }
            dy = dy + 1;
        }
        true
    }
}

/// The path finding grid of an area for entities of one footprint: whether an entity of
/// that footprint can stand with its corner on each tile.
pub struct PathFinderGrid {
    pub size: i32,
    pub width: usize,
    pub height: usize,
    /// Row `y` tells, for each `x`, whether the entity can stand at `(x, y)`.
    pub passable: Vec<Vec<bool>>,
}

/// The footprint of `size` as a side length; none when it is not positive.
pub open spec fn side(size: i32) -> int {
    if size > 0 {
        size as int
    } else {
        0
    }
}

/// Whether `g` is the grid of `t` for entities of footprint `size`.
pub open spec fn grid_of(g: PathFinderGrid, t: Terrain, size: i32) -> bool {
    &&& g.size == size
    &&& g.width == t.spec_width()
    &&& g.height == t.spec_height()
    &&& g.passable@.len() == g.height
    &&& forall|y: int|
        0 <= y < g.height ==> (#[trigger] g.passable@[y])@.len() == g.width && forall|x: int|
            0 <= x < g.width ==> g.passable@[y]@[x] == square_passable(t, side(size), x, y)
}

impl PathFinderGrid {
    /// The grid of `terrain` for entities of footprint `size`.
    pub fn new(size: EntitySize, terrain: &Terrain) -> (g: PathFinderGrid)
        ensures
            grid_of(g, *terrain, size.size),
    {
        let s: usize = if size.size > 0 {
            size.size as usize
        } else {
            0
        };
        let width = terrain.width();
        let height = terrain.height();
        let mut rows: Vec<Vec<bool>> = Vec::new();
        let mut y: usize = 0;
        while y < height
            invariant
                y <= height,
                width == terrain.spec_width(),
                height == terrain.spec_height(),
                s == side(size.size),
                rows@.len() == y,
                forall|r: int|
                    0 <= r < y ==> (#[trigger] rows@[r])@.len() == width && forall|x: int|
                        0 <= x < width ==> rows@[r]@[x] == square_passable(*terrain, s as int, x, r),
            decreases height - y,
        {
            let mut row: Vec<bool> = Vec::new();
            let mut x: usize = 0;
            while x < width
                invariant
                    x <= width,
                    y < height,
                    row@.len() == x,
                    forall|c: int| 0 <= c < x ==> #[trigger] row@[c] == square_passable(*terrain, s as int, c, y as int),
                decreases width - x,
            {
                row.push(terrain.is_square_passable(s, x, y));
                x = x + 1;
            }
            rows.push(row);
            y = y + 1;
        }
        PathFinderGrid { size: size.size, width, height, passable: rows }
    }

    /// Whether an entity of this grid's footprint can stand with its corner at `(x, y)`;
    /// not where the point lies off the grid.
    pub fn is_passable(&self, x: i32, y: i32) -> (r: bool)
        requires
            self.passable@.len() == self.height,
            forall|r: int| 0 <= r < self.height ==> (#[trigger] self.passable@[r])@.len() == self.width,
        ensures
            r == (0 <= x < self.width && 0 <= y < self.height && self.passable@[y as int]@[x as int]),
    {
        if x < 0 || y < 0 {
            return false;
        }
        let xu = x as usize;
        let yu = y as usize;
        if xu < self.width && yu < self.height {
            self.passable[yu][xu]
        } else {
            false
        }
    }
}

} // verus!
