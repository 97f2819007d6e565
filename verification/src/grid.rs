//! The world grid: a rectangular, row-major map of wall and floor tiles.
//!
//! The grid answers point queries in world coordinates.  Any point outside
//! the map rectangle counts as a wall, which is what guarantees that a ray
//! marching across the grid always reaches a wall.

use crate::COORD_LIMIT;
use crate::SCALE;
use vstd::prelude::*;

verus! {

/// One map tile: open floor or a solid wall.
#[derive(Clone, Copy, PartialEq, Eq, Structural, Debug)]
pub enum Tile {
    Empty,
    Wall,
}

/// A rectangular tile map with square cells of side `cell` fixed-point units.
///
/// Tiles are stored row-major; row 0 is the top of the map.  The map is
/// immutable once built.
pub struct Grid {
    pub rows: usize,
    pub cols: usize,
    pub cell: i64,
    pub tiles: Vec<Tile>,
}

impl Grid {
    /// Well-formedness: at least one cell each way, a cell side of at least
    /// two coordinate units, a full tile vector, and a total extent small
    /// enough that all geometric arithmetic stays far from overflow.
    pub open spec fn wf(self) -> bool {
        &&& 1 <= self.rows
        &&& 1 <= self.cols
        &&& 2 <= self.cell
        &&& self.tiles@.len() == self.rows * self.cols
        &&& self.rows * self.cell <= COORD_LIMIT
        &&& self.cols * self.cell <= COORD_LIMIT
    }

    /// Map width in fixed-point world units.
    pub open spec fn width(self) -> int {
        self.cols * self.cell
    }

    /// Map height in fixed-point world units.
    pub open spec fn height(self) -> int {
        self.rows * self.cell
    }

    /// The tile stored at a row/column pair.
    pub open spec fn tile_at(self, row: int, col: int) -> Tile {
        self.tiles@[row * self.cols + col]
    }

    /// Whether the world point `(x, y)` lies in a wall: every point outside
    /// the map rectangle does, and a point inside does iff its cell holds a
    /// wall tile.
    pub open spec fn wall_at_spec(self, x: int, y: int) -> bool {
        ||| x < 0
        ||| x >= self.width()
        ||| y < 0
        ||| y >= self.height()
        ||| self.tile_at(y / (self.cell as int), x / (self.cell as int)) == Tile::Wall
    }

    /// Every point outside the map rectangle is a wall, whatever the map
    /// holds.
    pub proof fn lemma_outside_is_wall(self, x: int, y: int)
        requires
            x < 0 || x >= self.width() || y < 0 || y >= self.height(),
        ensures
            self.wall_at_spec(x, y),
    {
    }

    /// Build a grid from its dimensions, cell side in map pixels, and tiles.
    pub fn new(rows: usize, cols: usize, cell_px: i64, tiles: Vec<Tile>) -> (g: Grid)
        requires
            1 <= rows,
            1 <= cols,
            1 <= cell_px,
            rows * cell_px * SCALE <= COORD_LIMIT,
            cols * cell_px * SCALE <= COORD_LIMIT,
            tiles@.len() == rows * cols,
        ensures
            g.wf(),
            g.rows == rows,
            g.cols == cols,
            g.cell == cell_px * SCALE,
            g.tiles@ == tiles@,
    {
        proof {
            assert(cell_px * SCALE <= rows * cell_px * SCALE && SCALE <= cell_px * SCALE)
                by (nonlinear_arith)
                requires 1 <= rows, 1 <= cell_px;
            assert(rows * (cell_px * SCALE) == rows * cell_px * SCALE) by (nonlinear_arith);
            assert(cols * (cell_px * SCALE) == cols * cell_px * SCALE) by (nonlinear_arith);
        }
        Grid { rows, cols, cell: cell_px * SCALE, tiles }
    }

    /// Wall query at a world point, as `wall_at_spec` describes.
    pub fn wall_at(&self, x: i64, y: i64) -> (r: bool)
        requires
            self.wf(),
        ensures
            r == self.wall_at_spec(x as int, y as int),
    {
        if x < 0 || y < 0 {
            return true;
        }
        proof {
            assert(self.cols <= self.cols * self.cell && self.rows <= self.rows * self.cell)
                by (nonlinear_arith)
                requires
                    1 <= self.rows,
                    1 <= self.cols,
                    2 <= self.cell,
            ;
        }
        let w = (self.cols as i64) * self.cell;
        let h = (self.rows as i64) * self.cell;
        if x >= w || y >= h {
            return true;
        }
        let col = ((x as u64) / (self.cell as u64)) as usize;
        let row = ((y as u64) / (self.cell as u64)) as usize;
        proof {
            assert(self.cell * self.cols == self.cols * self.cell) by (nonlinear_arith);
            assert(self.cell * self.rows == self.rows * self.cell) by (nonlinear_arith);
            vstd::arithmetic::div_mod::lemma_multiply_divide_lt(
                x as int,
                self.cell as int,
                self.cols as int,
            );
            vstd::arithmetic::div_mod::lemma_multiply_divide_lt(
                y as int,
                self.cell as int,
                self.rows as int,
            );
            assert(row * self.cols + col < self.rows * self.cols) by (nonlinear_arith)
                requires
                    row < self.rows,
                    col < self.cols,
            ;
        }
        let n: usize = self.tiles.len();
        let idx: usize = row * self.cols + col;
        assert(idx < n);
        self.tiles[idx] == Tile::Wall
    }
}

} // verus!
