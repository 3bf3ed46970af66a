//! The frame buffer: one accumulator per pixel, summed over samples and read
//! when the frame is shown.

use vstd::prelude::*;

verus! {

/// A fixed-size image of cells, stored row after row. Row 0 is the bottom of
/// the viewport.
pub struct Frame<T> {
    width: usize,
    height: usize,
    cells: Vec<T>,
}

impl<T: Copy> Frame<T> {
    pub closed spec fn width_spec(&self) -> nat {
        self.width as nat
    }

    pub closed spec fn height_spec(&self) -> nat {
        self.height as nat
    }

    /// The cells, row after row.
    pub closed spec fn cells_spec(&self) -> Seq<T> {
        self.cells@
    }

    pub open spec fn wf(&self) -> bool {
        &&& self.cells_spec().len() == self.width_spec() * self.height_spec()
        &&& self.width_spec() * self.height_spec() <= usize::MAX
    }

    /// The cell at `row`, `col`.
    pub open spec fn cell(&self, row: int, col: int) -> T {
        self.cells_spec()[row * self.width_spec() + col]
    }

    /// A frame of `width` by `height` cells, each holding `fill`.
    pub fn new(width: usize, height: usize, fill: T) -> (r: Frame<T>)
        requires
            width * height <= usize::MAX,
        ensures
            r.wf(),
            r.width_spec() == width,
            r.height_spec() == height,
            forall|i: int| 0 <= i < r.cells_spec().len() ==> r.cells_spec()[i] == fill,
    {
        let n: usize = width * height;
        let mut cells: Vec<T> = Vec::new();
        let mut i: usize = 0;
        while i < n
            invariant
                i <= n,
                cells@.len() == i,
                forall|k: int| 0 <= k < i ==> cells@[k] == fill,
            decreases n - i,
        {
            cells.push(fill);
            i += 1;
        }
        Frame { width, height, cells }
    }

    pub fn width(&self) -> (r: usize)
        ensures
            r == self.width_spec(),
    {
        self.width
    }

    pub fn height(&self) -> (r: usize)
        ensures
            r == self.height_spec(),
    {
        self.height
    }

    /// The cell at `row`, `col`.
    pub fn get(&self, row: usize, col: usize) -> (r: T)
        requires
            self.wf(),
            row < self.height_spec(),
            col < self.width_spec(),
        ensures
            r == self.cell(row as int, col as int),
    {
        proof {
            lemma_cell_index(row as int, col as int, self.width as int, self.height as int);
        }
        self.cells[row * self.width + col]
    }

    /// Puts `value` in the cell at `row`, `col`; every other cell keeps its
    /// value.
    pub fn set(&mut self, row: usize, col: usize, value: T)
        requires
            old(self).wf(),
            row < old(self).height_spec(),
            col < old(self).width_spec(),
        ensures
            final(self).wf(),
            final(self).width_spec() == old(self).width_spec(),
            final(self).height_spec() == old(self).height_spec(),
            final(self).cells_spec() == old(self).cells_spec().update(
                row * old(self).width_spec() + col,
                value,
            ),
            final(self).cell(row as int, col as int) == value,
    {
        proof {
            lemma_cell_index(row as int, col as int, self.width as int, self.height as int);
        }
        let k: usize = row * self.width + col;
        self.cells.set(k, value);
    }

    /// The screen line on which buffer row `row` is shown: the image is
    /// flipped, so that row 0 lands on the bottom line.
    pub fn screen_line(&self, row: usize) -> (r: usize)
        requires
            row < self.height_spec(),
        ensures
            r == self.height_spec() - 1 - row,
    {
        self.height - 1 - row
    }
}

/// A cell inside the frame lies inside its storage.
pub proof fn lemma_cell_index(row: int, col: int, width: int, height: int)
    requires
        0 <= row < height,
        0 <= col < width,
    ensures
        0 <= row * width,
        0 <= row * width + col < width * height,
{
    assert(0 <= row * width && row * width + col < width * height) by (nonlinear_arith)
        requires
            0 <= row < height,
            0 <= col < width,
    ;
}

} // verus!
