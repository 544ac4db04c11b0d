//! Tile coordinates and the dense grid they index.
use vstd::prelude::*;

verus! {

/// A tile coordinate.
///
/// Signed rather than unsigned so that arithmetic near the map edge can go
/// negative and be rejected by a bounds check, instead of wrapping into a
/// large positive value that looks in-bounds.
#[derive(Copy, Clone, PartialEq, Eq, Structural, PartialOrd, Ord, Hash, Debug, Default)]
pub struct TilePos {
    pub x: i32,
    pub y: i32,
}

impl TilePos {
    pub fn new(x: i32, y: i32) -> (r: TilePos)
        ensures
            r.x == x,
            r.y == y,
    {
        TilePos { x, y }
    }
}

/// Row-major position of cell `(x, y)` in a grid `width` cells wide.
pub open spec fn row_major(width: int, x: int, y: int) -> int {
    y * width + x
}

/// Row-major positions of in-bounds cells lie inside the grid's storage.
pub proof fn lemma_row_major_in_range(width: int, height: int, x: int, y: int)
    requires
        0 <= x < width,
        0 <= y < height,
    ensures
        0 <= row_major(width, x, y) < width * height,
{
    assert(0 <= y * width + x < width * height) by (nonlinear_arith)
        requires
            0 <= x < width,
            0 <= y < height,
    ;
}

/// Distinct in-bounds cells have distinct row-major positions, so writing
/// one cell never aliases another, whatever the grid's shape.
pub proof fn lemma_row_major_injective(width: int, x1: int, y1: int, x2: int, y2: int)
    requires
        0 <= x1 < width,
        0 <= x2 < width,
        0 <= y1,
        0 <= y2,
        row_major(width, x1, y1) == row_major(width, x2, y2),
    ensures
        x1 == x2,
        y1 == y2,
{
    vstd::arithmetic::div_mod::lemma_fundamental_div_mod_converse(y1 * width + x1, width, y1, x1);
    vstd::arithmetic::div_mod::lemma_fundamental_div_mod_converse(y2 * width + x2, width, y2, x2);
}

/// A dense row-major grid of `width * height` cells.
#[derive(PartialEq, Eq, Debug)]
pub struct Grid<T> {
    width: i32,
    height: i32,
    cells: Vec<T>,
}

impl<T> View for Grid<T> {
    type V = Seq<T>;

    /// The cells, row by row.
    closed spec fn view(&self) -> Seq<T> {
        self.cells@
    }
}

impl<T> Grid<T> {
    /// The grid's invariant: a positive extent, and exactly one stored cell
    /// per position.
    pub closed spec fn wf(&self) -> bool {
        &&& self.width > 0
        &&& self.height > 0
        &&& self.cells@.len() == self.width * self.height
    }

    /// The number of columns.
    pub closed spec fn width_spec(&self) -> int {
        self.width as int
    }

    /// The number of rows.
    pub closed spec fn height_spec(&self) -> int {
        self.height as int
    }

    /// Whether `pos` addresses a cell of this grid.
    pub open spec fn in_bounds_spec(&self, pos: TilePos) -> bool {
        0 <= pos.x < self.width_spec() && 0 <= pos.y < self.height_spec()
    }

    /// The cell at `pos`; meaningful when `pos` is in bounds.
    pub open spec fn cell(&self, pos: TilePos) -> T {
        self@[row_major(self.width_spec(), pos.x as int, pos.y as int)]
    }

    pub fn width(&self) -> (r: i32)
        requires
            self.wf(),
        ensures
            r == self.width_spec(),
            r > 0,
    {
        self.width
    }

    pub fn height(&self) -> (r: i32)
        requires
            self.wf(),
        ensures
            r == self.height_spec(),
            r > 0,
    {
        self.height
    }

    /// Every stored cell is addressed by exactly one in-bounds position: the
    /// one whose column is the cell's index modulo the width and whose row is
    /// the index divided by the width. With `lemma_row_major_injective` this
    /// makes in-bounds positions a one-to-one map onto the cells.
    pub proof fn lemma_every_cell_has_a_position(&self, i: int)
        requires
            self.wf(),
            0 <= i < self@.len(),
        ensures
            ({
                let pos = TilePos { x: (i % self.width_spec()) as i32, y: (i / self.width_spec()) as i32 };
                &&& self.in_bounds_spec(pos)
                &&& row_major(self.width_spec(), pos.x as int, pos.y as int) == i
            }),
    {
        let w = self.width as int;
        let h = self.height as int;
        vstd::arithmetic::div_mod::lemma_fundamental_div_mod(i, w);
        vstd::arithmetic::div_mod::lemma_mod_bound(i, w);
        let q = i / w;
        let r = i % w;
        assert(0 <= q < h) by (nonlinear_arith)
            requires
                i == w * q + r,
                0 <= r < w,
                0 <= i < w * h,
                w > 0,
        ;
        assert(q * w + r == i) by (nonlinear_arith)
            requires
                i == w * q + r,
        ;
    }

    /// Reports whether a position addresses a cell in this grid.
    pub fn in_bounds(&self, pos: TilePos) -> (r: bool)
        requires
            self.wf(),
        ensures
            r == self.in_bounds_spec(pos),
    {
        pos.x >= 0 && pos.y >= 0 && pos.x < self.width && pos.y < self.height
    }

    fn index_of(&self, pos: TilePos) -> (r: Option<usize>)
        requires
            self.wf(),
        ensures
            r is Some <==> self.in_bounds_spec(pos),
            r matches Some(i) ==> i == row_major(self.width_spec(), pos.x as int, pos.y as int)
                && i < self@.len(),
    {
        if self.in_bounds(pos) {
            let x = pos.x as usize;
            let y = pos.y as usize;
            let w = self.width as usize;
            let n = self.cells.len();
            proof {
                assert(n == self.width * self.height);
                lemma_row_major_in_range(w as int, self.height as int, x as int, y as int);
                assert(y * w <= y * w + x);
            }
            Some(y * w + x)
        } else {
            None
        }
    }

    /// Reads a cell, or `None` if the position is outside the grid.
    pub fn get(&self, pos: TilePos) -> (r: Option<&T>)
        requires
            self.wf(),
        ensures
            r == (if self.in_bounds_spec(pos) {
                Some(&self.cell(pos))
            } else {
                None
            }),
    {
        match self.index_of(pos) {
            Some(i) => Some(&self.cells[i]),
            None => None,
        }
    }

    /// Writes a cell.
    ///
    /// An out-of-bounds write is a caller bug, and silently clamping it would
    /// corrupt an unrelated tile, so the position must be in bounds.
    pub fn set(&mut self, pos: TilePos, value: T)
        requires
            old(self).wf(),
            old(self).in_bounds_spec(pos),
        ensures
            final(self).wf(),
            final(self).width_spec() == old(self).width_spec(),
            final(self).height_spec() == old(self).height_spec(),
            final(self)@ == old(self)@.update(
                row_major(old(self).width_spec(), pos.x as int, pos.y as int),
                value,
            ),
            final(self).cell(pos) == value,
            forall|q: TilePos|
                #![trigger final(self).cell(q)]
                old(self).in_bounds_spec(q) && q != pos ==> final(self).cell(q) == old(self).cell(q),
    {
        let i = self.index_of(pos).unwrap();
        self.cells.set(i, value);
        proof {
            assert forall|q: TilePos|
                #![trigger self.cell(q)]
                old(self).in_bounds_spec(q) && q != pos implies self.cell(q) == old(self).cell(q) by {
                if row_major(self.width as int, q.x as int, q.y as int) == row_major(
                    self.width as int,
                    pos.x as int,
                    pos.y as int,
                ) {
                    lemma_row_major_injective(
                        self.width as int,
                        q.x as int,
                        q.y as int,
                        pos.x as int,
                        pos.y as int,
                    );
                }
                lemma_row_major_in_range(
                    self.width as int,
                    self.height as int,
                    q.x as int,
                    q.y as int,
                );
            }
        }
    }
}

impl<T: Clone> Grid<T> {
    /// Builds a grid with every cell set to a clone of `fill`.
    ///
    /// The extent must be positive, and the cell count must fit in `usize`.
    pub fn new(width: i32, height: i32, fill: T) -> (r: Grid<T>)
        requires
            width > 0,
            height > 0,
            width * height <= usize::MAX,
        ensures
            r.wf(),
            r.width_spec() == width,
            r.height_spec() == height,
            r@.len() == width * height,
            forall|i: int| 0 <= i < r@.len() ==> cloned(fill, #[trigger] r@[i]),
            r@[r@.len() - 1] == fill,
    {
        let len = (width as usize) * (height as usize);
        proof {
            assert(len >= 1) by (nonlinear_arith)
                requires
                    len == width * height,
                    width > 0,
                    height > 0,
            ;
        }
        let mut cells: Vec<T> = Vec::new();
        while cells.len() < len - 1
            invariant
                len == width * height,
                len >= 1,
                cells.len() <= len - 1,
                forall|i: int| 0 <= i < cells.len() ==> cloned(fill, #[trigger] cells@[i]),
            decreases len - cells.len(),
        {
            cells.push(fill.clone());
        }
        let ghost kept = fill;
        cells.push(fill);
        proof {
            assert(cloned(kept, cells@[cells@.len() - 1]));
        }
        Grid { width, height, cells }
    }
}

impl<T: Clone> Clone for Grid<T> {
    /// Copies the grid: same extent, and each cell a clone of the cell in the
    /// same place.
    fn clone(&self) -> (r: Grid<T>)
        ensures
            self.wf() ==> r.wf(),
            r.width_spec() == self.width_spec(),
            r.height_spec() == self.height_spec(),
            r@.len() == self@.len(),
            forall|i: int| 0 <= i < self@.len() ==> cloned(self@[i], #[trigger] r@[i]),
    {
        Grid { width: self.width, height: self.height, cells: self.cells.clone() }
    }
}

} // verus!
