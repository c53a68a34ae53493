//! The tile map: a fixed rectangular array of small cell values.
//!
//! A cell value of `0` is empty and passable; any other value is a solid
//! wall whose value selects a display color.  The outer border must be
//! solid everywhere, which is what lets every cast ray terminate; the
//! constructor rejects maps that violate it.  Lookups outside the bounds
//! count as solid, so a malformed query can never reach past the array.

use vstd::prelude::*;

use crate::gfx::{palette_spec, wall_color, Rgb};

verus! {

/// Largest accepted width or height of a map, so that every coordinate and
/// side-distance computed from it stays far from `i64` overflow.
pub const MAX_DIM: usize = 4096;

/// Why a map was rejected at construction.
#[derive(Clone, Copy, Debug, PartialEq, Eq, Structural)]
pub enum GridError {
    /// A dimension is below 3 (no room for a border around an interior) or
    /// above [`MAX_DIM`].
    BadDimensions,
    /// The flat cell array does not hold exactly `width * height` values.
    BadCellCount,
    /// A cell on the outer border is empty.
    OpenBorder,
}

/// The tile map.  Cells are stored in a flat array, the cell at `(x, y)`
/// at index `x * height + y`; constructed once and then only read.
#[derive(Debug)]
pub struct Grid {
    pub width: usize,
    pub height: usize,
    pub cells: Vec<u8>,
}

/// Both dimensions give room for a solid border and stay within
/// [`MAX_DIM`].
pub open spec fn dims_ok(width: int, height: int) -> bool {
    3 <= width <= MAX_DIM && 3 <= height <= MAX_DIM
}

/// Whether `(x, y)` lies on the outer border of a `width` by `height` map.
pub open spec fn on_border(width: int, height: int, x: int, y: int) -> bool {
    x == 0 || x == width - 1 || y == 0 || y == height - 1
}

/// Every border cell of the flat array is nonzero.
pub open spec fn border_solid(width: int, height: int, cells: Seq<u8>) -> bool {
    forall|x: int, y: int|
        0 <= x < width && 0 <= y < height && on_border(width, height, x, y)
            ==> cells[x * height + y] != 0
}

impl Grid {
    /// Value stored for an in-bounds cell.
    pub open spec fn cell_value(&self, x: int, y: int) -> u8 {
        self.cells@[x * self.height + y]
    }

    /// Whether `(x, y)` is a cell of the map.
    pub open spec fn in_bounds(&self, x: int, y: int) -> bool {
        0 <= x < self.width && 0 <= y < self.height
    }

    /// A well-formed map: dimensions in range, a matching cell array, and a
    /// solid border.
    pub open spec fn wf(&self) -> bool {
        &&& dims_ok(self.width as int, self.height as int)
        &&& self.cells@.len() == self.width * self.height
        &&& border_solid(self.width as int, self.height as int, self.cells@)
    }

    /// Whether a ray or a move must stop at `(x, y)`: out-of-bounds cells
    /// count as solid.
    pub open spec fn spec_solid(&self, x: int, y: int) -> bool {
        !self.in_bounds(x, y) || self.cell_value(x, y) != 0
    }

    /// Cell value used for display: the stored value in bounds, `0`
    /// elsewhere.
    pub open spec fn spec_value_at(&self, x: int, y: int) -> u8 {
        if self.in_bounds(x, y) {
            self.cell_value(x, y)
        } else {
            0
        }
    }

    /// Validates a map.  Returns the grid exactly as handed in when the
    /// dimensions are in range, the cell count matches, and the whole
    /// border is solid; otherwise reports the first failed check.
    pub fn new(width: usize, height: usize, cells: Vec<u8>) -> (result: Result<Grid, GridError>)
        ensures
            match result {
                Ok(g) => {
                    &&& g.wf()
                    &&& g.width == width
                    &&& g.height == height
                    &&& g.cells@ == cells@
                },
                Err(e) => {
                    &&& !(dims_ok(width as int, height as int) && cells@.len() == width * height
                        && border_solid(width as int, height as int, cells@))
                    &&& (e == GridError::BadDimensions <==> !dims_ok(width as int, height as int))
                    &&& (e == GridError::BadCellCount <==> dims_ok(width as int, height as int)
                        && cells@.len() != width * height)
                    &&& (e == GridError::OpenBorder <==> dims_ok(width as int, height as int)
                        && cells@.len() == width * height
                        && !border_solid(width as int, height as int, cells@))
                },
            },
            result is Ok <==> dims_ok(width as int, height as int)
                && cells@.len() == width * height
                && border_solid(width as int, height as int, cells@),
    {
        if width < 3 || width > MAX_DIM || height < 3 || height > MAX_DIM {
            return Err(GridError::BadDimensions);
        }
        proof {
            lemma_area_bound(width as int, height as int);
        }
        if cells.len() != width * height {
            return Err(GridError::BadCellCount);
        }
        let mut x: usize = 0;
        while x < width
            invariant
                width <= MAX_DIM,
                height <= MAX_DIM,
                3 <= width,
                3 <= height,
                x <= width,
                width * height <= 16777216,
                cells@.len() == width * height,
                forall|i: int, j: int|
                    0 <= i < x && 0 <= j < height && on_border(width as int, height as int, i, j)
                        ==> cells@[i * height + j] != 0,
            decreases width - x,
        {
            let mut y: usize = 0;
            while y < height
                invariant
                    width <= MAX_DIM,
                    height <= MAX_DIM,
                    3 <= width,
                    3 <= height,
                    x < width,
                    y <= height,
                    width * height <= 16777216,
                    cells@.len() == width * height,
                    forall|i: int, j: int|
                        0 <= i < x && 0 <= j < height
                            && on_border(width as int, height as int, i, j)
                            ==> cells@[i * height + j] != 0,
                    forall|j: int|
                        0 <= j < y && on_border(width as int, height as int, x as int, j)
                            ==> cells@[x as int * height + j] != 0,
                decreases height - y,
            {
                if x == 0 || x == width - 1 || y == 0 || y == height - 1 {
                    proof {
                        lemma_flat_index(x as int, y as int, width as int, height as int);
                    }
                    let idx: usize = x * height + y;
                    if cells[idx] == 0 {
                        proof {
                            assert(on_border(width as int, height as int, x as int, y as int));
                            assert(cells@[x as int * height + y as int] == 0);
                            assert(!border_solid(width as int, height as int, cells@));
                        }
                        return Err(GridError::OpenBorder);
                    }
                }
                y = y + 1;
            }
            x = x + 1;
        }
        Ok(Grid { width, height, cells })
    }

    /// Whether `(x, y)` is out of bounds or holds a wall.
    pub fn solid(&self, x: i64, y: i64) -> (s: bool)
        requires
            self.wf(),
        ensures
            s == self.spec_solid(x as int, y as int),
    {
        if x < 0 || y < 0 || x >= self.width as i64 || y >= self.height as i64 {
            return true;
        }
        proof {
            lemma_area_bound(self.width as int, self.height as int);
            lemma_flat_index(x as int, y as int, self.width as int, self.height as int);
        }
        let idx: usize = (x as usize) * self.height + (y as usize);
        self.cells[idx] != 0
    }

    /// Cell value used for display at `(x, y)`; `0` out of bounds.
    pub fn value_at(&self, x: i64, y: i64) -> (v: u8)
        requires
            self.wf(),
        ensures
            v == self.spec_value_at(x as int, y as int),
    {
        if x < 0 || y < 0 || x >= self.width as i64 || y >= self.height as i64 {
            return 0;
        }
        proof {
            lemma_area_bound(self.width as int, self.height as int);
            lemma_flat_index(x as int, y as int, self.width as int, self.height as int);
        }
        let idx: usize = (x as usize) * self.height + (y as usize);
        self.cells[idx]
    }

    /// Unshaded display color of the cell at `(x, y)`: a fixed palette
    /// keyed by the cell value, white for empty or unknown values.
    pub fn color_for(&self, x: i64, y: i64) -> (c: Rgb)
        requires
            self.wf(),
        ensures
            c == palette_spec(self.spec_value_at(x as int, y as int)),
    {
        wall_color(self.value_at(x, y), 0)
    }
}

/// The area of a map within [`MAX_DIM`] stays small.
proof fn lemma_area_bound(width: int, height: int)
    requires
        0 <= width <= 4096,
        0 <= height <= 4096,
    ensures
        width * height <= 16777216,
{
    vstd::arithmetic::mul::lemma_mul_upper_bound(width, 4096, height, 4096);
}

/// The flat index of an in-bounds cell lies inside the array.
proof fn lemma_flat_index(x: int, y: int, width: int, height: int)
    by (nonlinear_arith)
    requires
        0 <= x < width,
        0 <= y < height,
    ensures
        0 <= x * height + y < width * height,
{
}

} // verus!
