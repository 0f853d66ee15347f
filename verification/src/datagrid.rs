//! A rectangular window over an owned backing buffer, with wrap-around
//! reads.  Sub-grids re-anchor the window without copying the layout logic;
//! the colour map is read through exactly this wrapping access.
use vstd::prelude::*;

verus! {

/// A grid coordinate, `(x, y)`.
#[derive(Debug, Clone, Copy, PartialEq, Eq, Structural)]
pub struct Position(pub usize, pub usize);

/// A signed translation of a `Position`.
#[derive(Debug, Clone, Copy, PartialEq, Eq, Structural)]
pub struct Offset(pub i32, pub i32);

/// A grid extent, `(width, height)`.
#[derive(Debug, Clone, Copy, PartialEq, Eq, Structural)]
pub struct Size(pub usize, pub usize);

impl Size {
    /// How many cells a grid of this size holds.
    pub fn count(&self) -> (r: usize)
        requires
            self.0 * self.1 <= usize::MAX,
        ensures
            r == self.0 * self.1,
    {
        self.0 * self.1
    }

    /// Whether the position lies inside this extent.
    pub fn encloses(&self, p: Position) -> (r: bool)
        ensures
            r == (p.0 < self.0 && p.1 < self.1),
    {
        p.0 < self.0 && p.1 < self.1
    }
}

/// Anything with a two-dimensional extent.
pub trait Sizeable {
    fn size(&self) -> Size;
}

/// A read-only rectangular window into an owned row-major buffer.  `at`
/// wraps both coordinates modulo the window's own size, so a 6-wide colour
/// map window answers for every column of a stripe.
pub struct DataGrid<T> {
    data: Vec<T>,
    data_size: Size,
    size: Size,
    anchor_pos: Position,
}

impl<T: Copy> DataGrid<T> {
    pub closed spec fn spec_size(&self) -> Size {
        self.size
    }

    pub closed spec fn wf(&self) -> bool {
        &&& self.data@.len() == self.data_size.0 * self.data_size.1
        &&& self.anchor_pos.0 + self.size.0 <= self.data_size.0
        &&& self.anchor_pos.1 + self.size.1 <= self.data_size.1
        &&& self.size.0 >= 1
        &&& self.size.1 >= 1
    }

    /// The cell of the window at column `x` of row `y`.
    pub closed spec fn cell(&self, y: int, x: int) -> T {
        self.data@[(self.anchor_pos.1 + y) * self.data_size.0 + self.anchor_pos.0 + x]
    }

    /// Bounds-and-offset fact needed whenever a window cell is read.
    proof fn lemma_cell_index(&self, y: int, x: int)
        requires
            self.wf(),
            0 <= y < self.size.1,
            0 <= x < self.size.0,
        ensures
            0 <= (self.anchor_pos.1 + y) * self.data_size.0 + self.anchor_pos.0 + x
                < self.data@.len(),
    {
        let w = self.data_size.0 as int;
        let yy = self.anchor_pos.1 + y;
        vstd::arithmetic::mul::lemma_mul_inequality(yy + 1, self.data_size.1 as int, w);
        assert(yy * w + w == (yy + 1) * w) by (nonlinear_arith);
        assert(self.data_size.1 as int * w == w * self.data_size.1 as int) by (nonlinear_arith);
        assert(yy * w >= 0) by (nonlinear_arith)
            requires
                yy >= 0 && w >= 0,
        ;
    }

    /// Wraps a buffer as a full-size grid.
    pub fn wrap(vals: Vec<T>, size: Size) -> (r: DataGrid<T>)
        requires
            vals@.len() == size.0 * size.1,
            size.0 >= 1,
            size.1 >= 1,
        ensures
            r.wf(),
            r.spec_size() == size,
            forall|y: int, x: int|
                #![trigger r.cell(y, x)]
                0 <= y < size.1 && 0 <= x < size.0 ==> r.cell(y, x) == vals@[y * size.0 + x],
    {
        DataGrid { data: vals, data_size: size, size, anchor_pos: Position(0, 0) }
    }

    /// A smaller window anchored `offset` into this one.
    pub fn subgrid(&self, offset: Position, size: Size) -> (r: DataGrid<T>)
        requires
            self.wf(),
            offset.0 + size.0 <= self.spec_size().0,
            offset.1 + size.1 <= self.spec_size().1,
            size.0 >= 1,
            size.1 >= 1,
        ensures
            r.wf(),
            r.spec_size() == size,
            forall|y: int, x: int|
                #![trigger r.cell(y, x)]
                0 <= y < size.1 && 0 <= x < size.0 ==> r.cell(y, x) == self.cell(
                    y + offset.1,
                    x + offset.0,
                ),
    {
        let r = DataGrid {
            data: copy_cells(&self.data),
            data_size: self.data_size,
            anchor_pos: Position(offset.0 + self.anchor_pos.0, offset.1 + self.anchor_pos.1),
            size,
        };
        proof {
            assert forall|y: int, x: int|
                0 <= y < size.1 && 0 <= x < size.0 implies #[trigger] r.cell(y, x) == self.cell(
                y + offset.1,
                x + offset.0,
            ) by {
                assert((self.anchor_pos.1 + offset.1 + y) * self.data_size.0 == (self.anchor_pos.1
                    + (offset.1 + y)) * self.data_size.0);
            }
        }
        r
    }

    pub fn size(&self) -> (r: Size)
        ensures
            r == self.spec_size(),
    {
        self.size
    }

    /// The cell at `pos`, both coordinates wrapped modulo the window size.
    pub fn at(&self, pos: Position) -> (r: T)
        requires
            self.wf(),
        ensures
            r == self.cell(
                pos.1 as int % self.spec_size().1 as int,
                pos.0 as int % self.spec_size().0 as int,
            ),
    {
        let x = pos.0 % self.size.0;
        let y = pos.1 % self.size.1;
        let n = self.data.len();
        proof {
            self.lemma_cell_index(y as int, x as int);
        }
        self.data[(self.anchor_pos.1 + y) * self.data_size.0 + self.anchor_pos.0 + x]
    }

    /// One full row of the window, as a fresh buffer.
    pub fn row(&self, which: usize) -> (r: Vec<T>)
        requires
            self.wf(),
            which < self.spec_size().1,
        ensures
            r@.len() == self.spec_size().0,
            forall|x: int|
                0 <= x < self.spec_size().0 ==> #[trigger] r@[x] == self.cell(which as int, x),
    {
        let width = self.size.0;
        let n = self.data.len();
        let mut out: Vec<T> = Vec::new();
        let mut x: usize = 0;
        while x < width
            invariant
                self.wf(),
                which < self.spec_size().1,
                x <= width,
                width == self.spec_size().0,
                n == self.data@.len(),
                out@.len() == x,
                forall|j: int| 0 <= j < x ==> #[trigger] out@[j] == self.cell(which as int, j),
            decreases width - x,
        {
            proof {
                self.lemma_cell_index(which as int, x as int);
            }
            out.push(self.data[(self.anchor_pos.1 + which) * self.data_size.0 + self.anchor_pos.0
                + x]);
            x = x + 1;
        }
        out
    }
}

impl<T: Copy> Sizeable for DataGrid<T> {
    fn size(&self) -> Size {
        self.size
    }
}

/// A fresh copy of a cell buffer.
fn copy_cells<T: Copy>(v: &Vec<T>) -> (r: Vec<T>)
    ensures
        r@ == v@,
{
    let mut out: Vec<T> = Vec::new();
    let mut i: usize = 0;
    while i < v.len()
        invariant
            i <= v@.len(),
            out@ == v@.subrange(0, i as int),
        decreases v@.len() - i,
    {
        out.push(v[i]);
        proof {
            assert(out@ =~= v@.subrange(0, i + 1));
        }
        i = i + 1;
    }
    proof {
        assert(out@ =~= v@);
    }
    out
}

} // verus!
