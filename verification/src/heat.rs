//! The scrolling heat strip: one band of red per spectral bin.

use crate::pixel::{from_u8_rgb, packed_rgb};
use crate::rotation::{lemma_rotation_is_a_bijection, rotated_index, unrotated};
use vstd::prelude::*;

verus! {

/// Cells in a row of the strip.
pub const WIDTH: usize = 100;

/// Rows of the strip.
pub const HEIGHT: usize = 1024;

/// A packed-pixel buffer of `HEIGHT` rows. A row keeps what was last written
/// into it.
pub struct HeatStripBuffer {
    cells: Vec<u32>,
}

impl View for HeatStripBuffer {
    type V = Seq<u32>;

    closed spec fn view(&self) -> Seq<u32> {
        self.cells@
    }
}

/// The row that the cell with flat index `k` lies in.
pub open spec fn row_of(k: int) -> int {
    k / (WIDTH as int)
}

/// What the cell with flat index `k` holds once the first `upto` of the
/// `levels` have been written over `before`: the red of the bin that drives
/// its row, if that bin is among them, and what it held before otherwise.
pub open spec fn strip_cell(before: Seq<u32>, levels: Seq<u8>, upto: int, k: int) -> int {
    let n = levels.len() as int;
    let r = row_of(k);
    if r < n && unrotated(r, n) < upto {
        packed_rgb(levels[unrotated(r, n)], 0, 0)
    } else {
        before[k] as int
    }
}

impl HeatStripBuffer {
    /// The strip has `WIDTH` cells in each of its `HEIGHT` rows.
    pub open spec fn wf(&self) -> bool {
        self@.len() == WIDTH * HEIGHT
    }

    /// The cell in row `r`, column `j`.
    pub open spec fn cell(&self, r: int, j: int) -> u32 {
        self@[r * WIDTH as int + j]
    }

    /// A strip of black cells.
    pub fn new() -> (strip: Self)
        ensures
            strip.wf(),
            forall|k: int| 0 <= k < strip@.len() ==> strip@[k] == 0,
    {
        let mut cells: Vec<u32> = Vec::new();
        let mut k: usize = 0;
        while k < WIDTH * HEIGHT
            invariant
                k <= WIDTH * HEIGHT,
                cells@.len() == k,
                forall|c: int| 0 <= c < k ==> cells@[c] == 0,
            decreases WIDTH * HEIGHT - k,
        {
            cells.push(0);
            k = k + 1;
        }
        HeatStripBuffer { cells }
    }

    /// The cells, row by row.
    pub fn cells(&self) -> (cells: &Vec<u32>)
        ensures
            cells@ == self@,
    {
        &self.cells
    }

    /// Writes `colour` into every cell of row `r`.
    fn fill_row(&mut self, r: usize, colour: u32)
        requires
            old(self).wf(),
            r < HEIGHT,
        ensures
            final(self).wf(),
            forall|k: int|
                0 <= k < WIDTH * HEIGHT ==> #[trigger] final(self)@[k] == (if row_of(k) == r {
                    colour
                } else {
                    old(self)@[k]
                }),
    {
        let mut j: usize = 0;
        while j < WIDTH
            invariant
                j <= WIDTH,
                r < HEIGHT,
                self.wf(),
                forall|k: int|
                    0 <= k < WIDTH * HEIGHT ==> #[trigger] self@[k] == (if r * WIDTH <= k < r
                        * WIDTH + j {
                        colour
                    } else {
                        old(self)@[k]
                    }),
            decreases WIDTH - j,
        {
            self.cells.set(r * WIDTH + j, colour);
            j = j + 1;
        }
    }

    /// Writes one band per level: the level of bin `i` becomes the red channel
    /// of every cell in the row that `i` is rotated to. Each of the first
    /// `levels.len()` rows is written exactly once; the rows below them keep
    /// what they held.
    pub fn write_heat_strip(&mut self, levels: &Vec<u8>)
        requires
            old(self).wf(),
            levels@.len() <= HEIGHT,
        ensures
            final(self).wf(),
            forall|r: int, j: int|
                0 <= r < HEIGHT && 0 <= j < WIDTH ==> #[trigger] final(self).cell(r, j) == (if r
                    < levels@.len() {
                    packed_rgb(levels@[unrotated(r, levels@.len() as int)], 0, 0)
                } else {
                    old(self).cell(r, j) as int
                }),
    {
        let n = levels.len();
        let mut i: usize = 0;
        while i < n
            invariant
                i <= n,
                n == levels@.len(),
                n <= HEIGHT,
                self.wf(),
                forall|k: int|
                    0 <= k < WIDTH * HEIGHT ==> #[trigger] self@[k] == strip_cell(
                        old(self)@,
                        levels@,
                        i as int,
                        k,
                    ),
            decreases n - i,
        {
            let row = rotated_index(i, n);
            let colour = from_u8_rgb(levels[i], 0, 0);
            let ghost before = self@;
            self.fill_row(row, colour);
            proof {
                lemma_rotation_is_a_bijection(i as int, n as int);
                assert forall|k: int| 0 <= k < WIDTH * HEIGHT implies #[trigger] self@[k]
                    == strip_cell(old(self)@, levels@, i + 1, k) by {
                    let r = row_of(k);
                    if r < n {
                        lemma_rotation_is_a_bijection(r, n as int);
                    }
                    assert(before[k] == strip_cell(old(self)@, levels@, i as int, k));
                }
            }
            i = i + 1;
        }
        proof {
            assert forall|r: int, j: int| 0 <= r < HEIGHT && 0 <= j < WIDTH implies #[trigger] self.cell(
                r,
                j,
            ) == (if r < levels@.len() {
                packed_rgb(levels@[unrotated(r, levels@.len() as int)], 0, 0)
            } else {
                old(self).cell(r, j) as int
            }) by {
                let k = r * WIDTH as int + j;
                assert(row_of(k) == r);
                assert(self@[k] == strip_cell(old(self)@, levels@, n as int, k));
                if r < n {
                    lemma_rotation_is_a_bijection(r, n as int);
                }
            }
        }
    }
}

} // verus!
