//! The order of a progressive render: sampling passes over all pixels, each
//! followed by a presentation of the frame.

use vstd::prelude::*;

verus! {

/// The next piece of work of a progressive render.
#[derive(Debug, Clone, Copy, PartialEq, Eq, Structural)]
pub enum Job {
    /// Trace one jittered sample through pixel `row`, `col` in sampling pass
    /// `pass`, and add it to that pixel's sum.
    Trace { pass: u32, row: usize, col: usize },
    /// Every pixel now holds the sum of `samples` samples: show the frame.
    Present { samples: u32 },
    /// All passes are done.
    Finished,
}

/// Walks a render of `samples` passes over a `width` by `height` frame: in each
/// pass every pixel once, row by row from row 0, then a presentation.
#[derive(Debug, Clone, Copy, PartialEq, Eq, Structural)]
pub struct Schedule {
    pub width: usize,
    pub height: usize,
    pub samples: u32,
    pub pass: u32,
    pub row: usize,
    pub col: usize,
}

/// The first row still to trace in a pass: none when rows are empty.
pub open spec fn first_row(width: usize, height: usize) -> usize {
    if width == 0 { height } else { 0 }
}

impl Schedule {
    pub open spec fn wf(&self) -> bool {
        &&& self.pass <= self.samples
        &&& self.row <= self.height
        &&& self.row < self.height ==> self.col < self.width
        &&& self.row == self.height ==> self.col == 0
        &&& self.pass == self.samples ==> self.row == first_row(self.width, self.height) && self.col == 0
    }

    /// Jobs still to be handed out before `Finished`.
    pub open spec fn jobs_left(&self) -> nat {
        if self.pass >= self.samples {
            0
        } else {
            let per_pass = self.width * self.height + 1;
            ((self.samples - self.pass - 1) * per_pass + per_pass - (self.row * self.width
                + self.col)) as nat
        }
    }

    /// The job that `next` hands out from this state.
    pub open spec fn job(&self) -> Job {
        if self.pass == self.samples {
            Job::Finished
        } else if self.row == self.height {
            Job::Present { samples: (self.pass + 1) as u32 }
        } else {
            Job::Trace { pass: self.pass, row: self.row, col: self.col }
        }
    }

    /// The state after the job of this one.
    pub open spec fn after(&self) -> Schedule {
        if self.pass == self.samples {
            *self
        } else if self.row == self.height {
            Schedule {
                pass: (self.pass + 1) as u32,
                row: first_row(self.width, self.height),
                col: 0,
                ..*self
            }
        } else if self.col + 1 == self.width {
            Schedule { row: (self.row + 1) as usize, col: 0, ..*self }
        } else {
            Schedule { col: (self.col + 1) as usize, ..*self }
        }
    }

    /// A render of `samples` passes over a `width` by `height` frame, at its
    /// start.
    pub fn new(width: usize, height: usize, samples: u32) -> (r: Schedule)
        ensures
            r.wf(),
            r.width == width,
            r.height == height,
            r.samples == samples,
            r.pass == 0,
            r.row == first_row(width, height),
            r.col == 0,
    {
        let row: usize = if width == 0 { height } else { 0 };
        Schedule { width, height, samples, pass: 0, row, col: 0 }
    }

    /// Hands out the next job and moves past it.
    pub fn next(&mut self) -> (r: Job)
        requires
            old(self).wf(),
        ensures
            r == old(self).job(),
            *final(self) == old(self).after(),
            final(self).wf(),
            r != Job::Finished ==> final(self).jobs_left() + 1 == old(self).jobs_left(),
            r == Job::Finished <==> old(self).jobs_left() == 0,
            r matches Job::Trace { pass, row, col } ==> pass < old(self).samples
                && row < old(self).height && col < old(self).width,
    {
        proof {
            lemma_pass_progress(self.row as int, self.col as int, self.width as int, self.height as int);
            let w = self.width as int;
            let h = self.height as int;
            let per_pass = w * h + 1;
            let passes_after = self.samples - self.pass - 1;
            assert((passes_after - 1) * per_pass + per_pass == passes_after * per_pass)
                by (nonlinear_arith);
            assert(first_row(self.width, self.height) * w == 0) by (nonlinear_arith)
                requires
                    first_row(self.width, self.height) == (if w == 0 { h } else { 0 }),
            ;
        }
        if self.pass == self.samples {
            Job::Finished
        } else if self.row == self.height {
            let done: u32 = self.pass + 1;
            self.pass = done;
            self.row = if self.width == 0 { self.height } else { 0 };
            self.col = 0;
            assert(self.jobs_left() + 1 == old(self).jobs_left());
            Job::Present { samples: done }
        } else {
            let job = Job::Trace { pass: self.pass, row: self.row, col: self.col };
            if self.col + 1 == self.width {
                self.row = self.row + 1;
                self.col = 0;
            } else {
                self.col = self.col + 1;
            }
            assert(self.jobs_left() + 1 == old(self).jobs_left());
            job
        }
    }
}

/// The state after `n` jobs from `s`.
pub open spec fn advanced(s: Schedule, n: nat) -> Schedule
    decreases n,
{
    if n == 0 {
        s
    } else {
        advanced(s, (n - 1) as nat).after()
    }
}

/// From the start of a pass over non-empty rows, the pixel `row`, `col` is
/// reached after `row * width + col` jobs.
proof fn lemma_pass_walk(s: Schedule, row: int, col: int)
    requires
        s.wf(),
        s.pass < s.samples,
        s.width > 0,
        s.row == 0,
        s.col == 0,
        (0 <= row < s.height && 0 <= col < s.width) || (row == s.height && col == 0),
    ensures
        row * s.width + col >= 0,
        advanced(s, (row * s.width + col) as nat)
            == (Schedule { row: row as usize, col: col as usize, ..s }),
    decreases row * s.width + col,
{
    let w = s.width as int;
    assert(row * w >= 0) by (nonlinear_arith)
        requires
            row >= 0,
            w > 0,
    ;
    let n = (row * w + col) as nat;
    if n > 0 {
        assert(advanced(s, n) == advanced(s, (n - 1) as nat).after());
    }
    if col > 0 {
        lemma_pass_walk(s, row, col - 1);
        let prev = Schedule { row: row as usize, col: (col - 1) as usize, ..s };
        assert(advanced(s, (n - 1) as nat) == prev);
        assert(prev.after() == (Schedule { row: row as usize, col: col as usize, ..s }));
    } else if row == 0 {
        assert(row * w == 0);
    } else {
        assert((row - 1) * w + (w - 1) + 1 == row * w) by (nonlinear_arith);
        assert((row - 1) * w >= 0) by (nonlinear_arith)
            requires
                row >= 1,
                w > 0,
        ;
        lemma_pass_walk(s, row - 1, w - 1);
    }
}

/// In each pass every pixel is traced once, row by row from row 0 and each
/// row from column 0; then the frame is presented with one sample more, and
/// the next pass starts.
pub proof fn lemma_pass_order(s: Schedule, row: int, col: int)
    requires
        s.wf(),
        s.pass < s.samples,
        s.row == first_row(s.width, s.height),
        s.col == 0,
    ensures
        0 <= row < s.height && 0 <= col < s.width ==> advanced(
            s,
            (row * s.width + col) as nat,
        ).job() == (Job::Trace { pass: s.pass, row: row as usize, col: col as usize }),
        advanced(s, (s.width * s.height) as nat).job() == (Job::Present {
            samples: (s.pass + 1) as u32,
        }),
        advanced(s, (s.width * s.height + 1) as nat) == (Schedule {
            pass: (s.pass + 1) as u32,
            ..s
        }),
{
    let w = s.width as int;
    let h = s.height as int;
    if w == 0 {
        assert(w * h == 0);
        assert(advanced(s, 1) == advanced(s, 0).after());
    } else {
        if 0 <= row < h && 0 <= col < w {
            lemma_pass_walk(s, row, col);
        }
        lemma_pass_walk(s, h, 0);
        assert(h * w == w * h) by (nonlinear_arith);
        let n = (w * h) as nat;
        assert(advanced(s, n + 1) == advanced(s, n).after());
    }
}

/// A position inside a pass lies within the pass, and stepping to the next
/// pixel, at the end of a row or not, counts one more pixel done.
proof fn lemma_pass_progress(row: int, col: int, width: int, height: int)
    requires
        0 <= row <= height,
        row < height ==> 0 <= col < width,
        row == height ==> col == 0,
        0 <= width,
    ensures
        0 <= row * width + col <= width * height,
        row < height ==> row * width + col < width * height,
        row < height && col + 1 == width ==> (row + 1) * width + 0 == row * width + col + 1,
        row == height ==> row * width + col == width * height,
{
    assert(0 <= row * width + col <= width * height) by (nonlinear_arith)
        requires
            0 <= row <= height,
            row < height ==> 0 <= col < width,
            row == height ==> col == 0,
            0 <= width,
    ;
    assert(row < height ==> row * width + col < width * height) by (nonlinear_arith)
        requires
            0 <= row <= height,
            row < height ==> 0 <= col < width,
            0 <= width,
    ;
    assert((row + 1) * width == row * width + width) by (nonlinear_arith);
    assert(row == height ==> row * width == width * height) by (nonlinear_arith);
}

} // verus!
