//! Coordinate system of the triangular Y-board.
//!
//! A board of size `N` has `N` rows of cells; row `r` (counted from the
//! corner opposite side `x`) holds `r + 1` cells, so the board has
//! `N * (N + 1) / 2` cells in all.  A cell is addressed either by a linear
//! index (row by row) or by a triple `(x, y, z)` of distances to the three
//! sides, which always satisfies `x + y + z == N - 1`.  A coordinate of 0
//! means the cell touches the corresponding side.

use vstd::prelude::*;

verus! {

/// Position of one cell, as its distances to the three sides of the board.
#[derive(Clone, Copy, Debug, PartialEq, Eq, Structural)]
pub struct Coordinates {
    pub x: u32,
    pub y: u32,
    pub z: u32,
}

/// The `r`-th triangular number: the number of cells in the first `r` rows.
pub open spec fn tri(r: int) -> int
    decreases r,
{
    if r <= 0 {
        0
    } else {
        tri(r - 1) + r
    }
}

/// Board sizes the coordinate mapping supports: at least one row, and the
/// cell count together with the three side anchors fits in `u32`.
pub open spec fn coord_size_ok(size: u32) -> bool {
    1 <= size && tri(size as int) + 3 <= u32::MAX
}

/// The triple lies on a board of this size.
pub open spec fn coords_valid(c: Coordinates, size: u32) -> bool {
    c.x + c.y + c.z == size - 1
}

/// The linear index of a valid coordinate triple: the cell sits in row
/// `y + z` at column `y`.
pub open spec fn index_of(c: Coordinates, size: u32) -> int {
    tri(c.y + c.z) + c.y
}

pub proof fn lemma_tri_mono(a: int, b: int)
    requires
        a <= b,
    ensures
        tri(a) <= tri(b),
    decreases b,
{
    if a < b && b > 0 {
        lemma_tri_mono(a, b - 1);
    }
}

/// Triangular numbers in closed form, stated without division.
pub proof fn lemma_tri_closed(r: int)
    requires
        r >= 0,
    ensures
        2 * tri(r) == r * (r + 1),
    decreases r,
{
    if r > 0 {
        lemma_tri_closed(r - 1);
        assert(2 * tri(r) == r * (r + 1)) by (nonlinear_arith)
            requires
                2 * tri(r - 1) == (r - 1) * r,
                tri(r) == tri(r - 1) + r,
        ;
    } else {
        assert(2 * tri(r) == r * (r + 1)) by (nonlinear_arith)
            requires
                r == 0,
                tri(r) == 0,
        ;
    }
}

/// Every valid triple's linear index lies on the board.
pub proof fn lemma_index_of_bound(c: Coordinates, size: u32)
    requires
        coords_valid(c, size),
        1 <= size,
    ensures
        0 <= index_of(c, size) < tri(size as int),
{
    let row = c.y + c.z;
    lemma_tri_mono(0, row as int);
    lemma_tri_mono(row as int + 1, size as int);
}

/// A valid triple is pinned by its linear index: the mapping to indices is
/// injective, which gives the second half of the index round trip.
pub proof fn lemma_index_of_injective(c1: Coordinates, c2: Coordinates, size: u32)
    requires
        coords_valid(c1, size),
        coords_valid(c2, size),
        index_of(c1, size) == index_of(c2, size),
    ensures
        c1 == c2,
{
    let r1 = c1.y + c1.z;
    let r2 = c2.y + c2.z;
    if r1 < r2 {
        lemma_tri_mono(r1 + 1, r2);
        assert(index_of(c1, size) < index_of(c2, size));
    }
    if r2 < r1 {
        lemma_tri_mono(r2 + 1, r1);
        assert(index_of(c2, size) < index_of(c1, size));
    }
}

impl Coordinates {
    /// Builds a triple from its three side distances.
    pub fn new(x: u32, y: u32, z: u32) -> (r: Coordinates)
        ensures
            r == (Coordinates { x, y, z }),
    {
        Coordinates { x, y, z }
    }

    /// Distance to side `x`.
    pub fn x(&self) -> (r: u32)
        ensures
            r == self.x,
    {
        self.x
    }

    /// Distance to side `y`.
    pub fn y(&self) -> (r: u32)
        ensures
            r == self.y,
    {
        self.y
    }

    /// Distance to side `z`.
    pub fn z(&self) -> (r: u32)
        ensures
            r == self.z,
    {
        self.z
    }

    /// Maps a linear cell index to its coordinate triple, decomposing the
    /// index into a row (the largest `row` with `tri(row) <= index`) and a
    /// column within that row.
    pub fn from_index(index: u32, size: u32) -> (r: Coordinates)
        requires
            coord_size_ok(size),
            index < tri(size as int),
        ensures
            coords_valid(r, size),
            index_of(r, size) == index,
            r == coords_of(index as int, size),
    {
        let mut row: u32 = 0;
        let mut base: u32 = 0;
        // Find the row: afterwards tri(row) <= index < tri(row + 1).
        while (base as u64) + (row as u64) + 1 <= (index as u64)
            invariant
                coord_size_ok(size),
                index < tri(size as int),
                base == tri(row as int),
                base <= index,
                row <= base || row == 0,
            decreases index - base,
        {
            base = base + row + 1;
            row = row + 1;
        }
        proof {
            // row < size, because tri(row) <= index < tri(size).
            if row >= size {
                lemma_tri_mono(size as int, row as int);
            }
        }
        let col = index - base;
        let r = Coordinates { x: size - 1 - row, y: col, z: row - col };
        proof {
            lemma_coords_of(index as int, size);
            lemma_index_of_injective(r, coords_of(index as int, size), size);
        }
        r
    }

    /// Maps a valid coordinate triple back to its linear index; the exact
    /// inverse of `from_index`.
    pub fn to_index(&self, size: u32) -> (r: u32)
        requires
            coord_size_ok(size),
            coords_valid(*self, size),
        ensures
            r == index_of(*self, size),
            r < tri(size as int),
    {
        let row = self.y + self.z;
        proof {
            lemma_tri_mono(row as int + 1, size as int);
            lemma_tri_bound(row as int);
        }
        let base = tri_exec(row);
        base + self.y
    }
}

/// `tri(r)` is at least `r`, so a `u32` row with `tri(row)` in `u32` range
/// keeps every intermediate value in range.
proof fn lemma_tri_bound(r: int)
    requires
        r >= 0,
    ensures
        tri(r) >= r,
    decreases r,
{
    if r > 0 {
        lemma_tri_bound(r - 1);
    }
}

/// Computes the `r`-th triangular number.
pub fn tri_exec(r: u32) -> (t: u32)
    requires
        tri(r as int) <= u32::MAX,
    ensures
        t == tri(r as int),
{
    proof {
        lemma_tri_closed(r as int);
    }
    let wide = (r as u64) * (r as u64 + 1) / 2;
    wide as u32
}

/// The number of cells on a board of this size.
pub fn cell_count(size: u32) -> (t: u32)
    requires
        coord_size_ok(size),
    ensures
        t == tri(size as int),
{
    tri_exec(size)
}

/// The row of the cell with linear index `i`: the largest `row` with
/// `tri(row) <= i`.
pub open spec fn row_of(i: int) -> int
    decreases i,
{
    if i <= 0 {
        0
    } else if tri(row_of(i - 1) + 1) <= i {
        row_of(i - 1) + 1
    } else {
        row_of(i - 1)
    }
}

/// `row_of` finds the row whose triangular numbers bracket the index.
pub proof fn lemma_row_of(i: int)
    requires
        i >= 0,
    ensures
        row_of(i) >= 0,
        tri(row_of(i)) <= i < tri(row_of(i) + 1),
    decreases i,
{
    if i > 0 {
        lemma_row_of(i - 1);
    }
}

/// The coordinate triple of the cell with linear index `i`: the spec-level
/// inverse of [`index_of`].
pub open spec fn coords_of(i: int, size: u32) -> Coordinates {
    let r = row_of(i);
    let col = i - tri(r);
    Coordinates { x: (size - 1 - r) as u32, y: col as u32, z: (r - col) as u32 }
}

/// For every index on the board, `coords_of` yields the valid triple that
/// maps back to that index.
pub proof fn lemma_coords_of(i: int, size: u32)
    requires
        coord_size_ok(size),
        0 <= i < tri(size as int),
    ensures
        coords_valid(coords_of(i, size), size),
        index_of(coords_of(i, size), size) == i,
{
    lemma_row_of(i);
    let r = row_of(i);
    if r >= size {
        lemma_tri_mono(size as int, r);
    }
}

/// How many of the three side distances are zero, i.e. how many sides the
/// cell touches.
pub open spec fn zero_count(c: Coordinates) -> int {
    (if c.x == 0 {
        1int
    } else {
        0int
    }) + (if c.y == 0 {
        1int
    } else {
        0int
    }) + (if c.z == 0 {
        1int
    } else {
        0int
    })
}

/// On a board of size at least 2 no cell touches all three sides, and a cell
/// that touches two sides is a corner: its remaining distance is the largest
/// the board allows.
pub proof fn lemma_zero_coordinates(c: Coordinates, size: u32)
    requires
        coords_valid(c, size),
        2 <= size,
    ensures
        zero_count(c) <= 2,
        zero_count(c) == 2 ==> c.x == size - 1 || c.y == size - 1 || c.z == size - 1,
{
}

/// The neighbour of a cell in one of the six lattice directions, or `None`
/// where the board ends.  Each step raises one side distance by one and
/// lowers another by one, so the sum is kept.
pub open spec fn nbr(c: Coordinates, d: int) -> Option<Coordinates> {
    if d == 0 {
        if c.y >= 1 {
            Some(Coordinates { x: (c.x + 1) as u32, y: (c.y - 1) as u32, z: c.z })
        } else {
            None
        }
    } else if d == 1 {
        if c.z >= 1 {
            Some(Coordinates { x: (c.x + 1) as u32, y: c.y, z: (c.z - 1) as u32 })
        } else {
            None
        }
    } else if d == 2 {
        if c.x >= 1 {
            Some(Coordinates { x: (c.x - 1) as u32, y: (c.y + 1) as u32, z: c.z })
        } else {
            None
        }
    } else if d == 3 {
        if c.z >= 1 {
            Some(Coordinates { x: c.x, y: (c.y + 1) as u32, z: (c.z - 1) as u32 })
        } else {
            None
        }
    } else if d == 4 {
        if c.x >= 1 {
            Some(Coordinates { x: (c.x - 1) as u32, y: c.y, z: (c.z + 1) as u32 })
        } else {
            None
        }
    } else if d == 5 {
        if c.y >= 1 {
            Some(Coordinates { x: c.x, y: (c.y - 1) as u32, z: (c.z + 1) as u32 })
        } else {
            None
        }
    } else {
        None
    }
}

/// Two cells are adjacent on the triangular lattice: one is a neighbour of
/// the other.
pub open spec fn adjacent(c1: Coordinates, c2: Coordinates) -> bool {
    exists|d: int| 0 <= d < 6 && nbr(c1, d) == Some(c2)
}

/// Adjacency between cells of a board is symmetric: each direction has an
/// opposite.
pub proof fn lemma_adjacent_sym(c1: Coordinates, c2: Coordinates, size: u32)
    requires
        coords_valid(c1, size),
        1 <= size,
        adjacent(c1, c2),
    ensures
        adjacent(c2, c1),
{
    let d = choose|d: int| 0 <= d < 6 && nbr(c1, d) == Some(c2);
    if d == 0 {
        assert(0 <= 2 < 6 && nbr(c2, 2) == Some(c1));
    } else if d == 1 {
        assert(0 <= 4 < 6 && nbr(c2, 4) == Some(c1));
    } else if d == 2 {
        assert(0 <= 0 < 6 && nbr(c2, 0) == Some(c1));
    } else if d == 3 {
        assert(0 <= 5 < 6 && nbr(c2, 5) == Some(c1));
    } else if d == 4 {
        assert(0 <= 1 < 6 && nbr(c2, 1) == Some(c1));
    } else {
        assert(0 <= 3 < 6 && nbr(c2, 3) == Some(c1));
    }
}

/// A neighbour of a cell of the board lies on the board as well.
pub proof fn lemma_nbr_valid(c: Coordinates, size: u32, d: int)
    requires
        coords_valid(c, size),
        1 <= size,
    ensures
        nbr(c, d) matches Some(n) ==> coords_valid(n, size),
{
}

impl Coordinates {
    /// Computes the neighbour of this cell in direction `d`, or `None` where
    /// the board ends there.
    pub fn neighbor(&self, d: u8, size: u32) -> (r: Option<Coordinates>)
        requires
            coords_valid(*self, size),
            1 <= size,
        ensures
            r == nbr(*self, d as int),
    {
        if d == 0 {
            if self.y >= 1 {
                Some(Coordinates { x: self.x + 1, y: self.y - 1, z: self.z })
            } else {
                None
            }
        } else if d == 1 {
            if self.z >= 1 {
                Some(Coordinates { x: self.x + 1, y: self.y, z: self.z - 1 })
            } else {
                None
            }
        } else if d == 2 {
            if self.x >= 1 {
                Some(Coordinates { x: self.x - 1, y: self.y + 1, z: self.z })
            } else {
                None
            }
        } else if d == 3 {
            if self.z >= 1 {
                Some(Coordinates { x: self.x, y: self.y + 1, z: self.z - 1 })
            } else {
                None
            }
        } else if d == 4 {
            if self.x >= 1 {
                Some(Coordinates { x: self.x - 1, y: self.y, z: self.z + 1 })
            } else {
                None
            }
        } else if d == 5 {
            if self.y >= 1 {
                Some(Coordinates { x: self.x, y: self.y - 1, z: self.z + 1 })
            } else {
                None
            }
        } else {
            None
        }
    }
}

} // verus!
