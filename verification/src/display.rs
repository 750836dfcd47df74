//! The framebuffer: a 2D grid of single-bit pixels (stored one byte per
//! cell, 0 = off, 1 = on) with a dirty flag that is set on any mutation and
//! handed over to the redraw collaborator through [`Display::take_update`].
//! The grid dimensions are configurable; addressing math scales from them.

use vstd::prelude::*;
use crate::model::blank_fb;

verus! {

/// Row-major cell index of (`r`, `c`) stays inside a `rows` x `cols` grid.
pub proof fn lemma_cell_index(rows: int, cols: int, r: int, c: int)
    by (nonlinear_arith)
    requires
        0 <= r < rows,
        0 <= c < cols,
    ensures
        0 <= r * cols + c < rows * cols,
{
}

/// A grid within the supported dimensions has at most 65536 cells.
pub proof fn lemma_grid_size(rows: int, cols: int)
    by (nonlinear_arith)
    requires
        1 <= rows <= 256,
        1 <= cols <= 256,
    ensures
        rows * cols <= 65536,
{
}

/// Row-major indexing is injective over a grid's positions.
pub proof fn lemma_cell_index_inj(cols: int, r1: int, c1: int, r2: int, c2: int)
    by (nonlinear_arith)
    requires
        0 <= c1 < cols,
        0 <= c2 < cols,
        0 <= r1,
        0 <= r2,
        r1 * cols + c1 == r2 * cols + c2,
    ensures
        r1 == r2,
        c1 == c2,
{
}

pub struct Display {
    pub num_rows: usize,
    pub num_cols: usize,
    /// The cells in row-major order, each 0 or 1.
    pub buffer: Vec<u8>,
    pub should_update: bool,
}

impl Display {
    /// The framebuffer seen as a grid of rows.
    pub open spec fn grid(&self) -> Seq<Seq<u8>> {
        Seq::new(
            self.num_rows as nat,
            |r: int|
                Seq::new(
                    self.num_cols as nat,
                    |c: int| self.buffer@[r * self.num_cols + c],
                ),
        )
    }

    pub open spec fn wf(&self) -> bool {
        &&& 1 <= self.num_rows <= 256
        &&& 1 <= self.num_cols <= 256
        &&& self.buffer@.len() == self.num_rows * self.num_cols
        &&& forall|k: int|
            0 <= k < self.buffer@.len() ==> (#[trigger] self.buffer@[k]) == 0 || self.buffer@[k]
                == 1
    }

    pub fn new(num_rows: usize, num_cols: usize) -> (d: Display)
        requires
            1 <= num_rows <= 256,
            1 <= num_cols <= 256,
        ensures
            d.wf(),
            d.num_rows == num_rows,
            d.num_cols == num_cols,
            d.grid() == blank_fb(num_rows as int, num_cols as int),
            !d.should_update,
    {
        proof {
            lemma_grid_size(num_rows as int, num_cols as int);
        }
        let total: usize = num_rows * num_cols;
        let mut buffer: Vec<u8> = Vec::new();
        let mut k: usize = 0;
        while k < total
            invariant
                k <= total,
                buffer@.len() == k,
                forall|j: int| 0 <= j < k ==> (#[trigger] buffer@[j]) == 0,
            decreases total - k,
        {
            buffer.push(0);
            k = k + 1;
        }
        let d = Display { num_rows, num_cols, buffer, should_update: false };
        proof {
            assert forall|r: int| 0 <= r < num_rows implies d.grid()[r] =~= blank_fb(
                num_rows as int,
                num_cols as int,
            )[r] by {
                assert forall|c: int| 0 <= c < num_cols implies d.grid()[r][c] == 0u8 by {
                    lemma_cell_index(num_rows as int, num_cols as int, r, c);
                }
            }
            assert(d.grid() =~~= blank_fb(num_rows as int, num_cols as int));
        }
        d
    }

    /// Turn every pixel off and mark the framebuffer dirty.
    pub fn clear_display(&mut self)
        requires
            old(self).wf(),
        ensures
            final(self).wf(),
            final(self).num_rows == old(self).num_rows,
            final(self).num_cols == old(self).num_cols,
            final(self).grid() == blank_fb(old(self).num_rows as int, old(self).num_cols as int),
            final(self).should_update,
    {
        let total: usize = self.buffer.len();
        let mut k: usize = 0;
        while k < total
            invariant
                k <= total,
                self.buffer@.len() == total,
                self.num_rows == old(self).num_rows,
                self.num_cols == old(self).num_cols,
                self.should_update == old(self).should_update,
                forall|j: int| 0 <= j < k ==> (#[trigger] self.buffer@[j]) == 0,
                forall|j: int|
                    k <= j < total ==> (#[trigger] self.buffer@[j]) == old(self).buffer@[j],
            decreases total - k,
        {
            self.buffer[k] = 0;
            k = k + 1;
        }
        self.should_update = true;
        proof {
            let rows = self.num_rows as int;
            let cols = self.num_cols as int;
            assert forall|r: int| 0 <= r < rows implies self.grid()[r] =~= blank_fb(rows, cols)[r]
            by {
                assert forall|c: int| 0 <= c < cols implies self.grid()[r][c] == 0u8 by {
                    lemma_cell_index(rows, cols, r, c);
                }
            }
            assert(self.grid() =~~= blank_fb(rows, cols));
        }
    }

    /// Write one pixel (0 or 1) and mark the framebuffer dirty.
    pub fn set_display(&mut self, row: u8, col: u8, val: u8)
        requires
            old(self).wf(),
            row < old(self).num_rows,
            col < old(self).num_cols,
            val == 0 || val == 1,
        ensures
            final(self).wf(),
            final(self).num_rows == old(self).num_rows,
            final(self).num_cols == old(self).num_cols,
            final(self).should_update,
            final(self).grid() == old(self).grid().update(
                row as int,
                old(self).grid()[row as int].update(col as int, val),
            ),
    {
        proof {
            lemma_cell_index(self.num_rows as int, self.num_cols as int, row as int, col as int);
            lemma_grid_size(self.num_rows as int, self.num_cols as int);
        }
        let idx: usize = (row as usize) * self.num_cols + (col as usize);
        self.buffer[idx] = val;
        self.should_update = true;
        proof {
            let rows = self.num_rows as int;
            let cols = self.num_cols as int;
            let target = old(self).grid().update(
                row as int,
                old(self).grid()[row as int].update(col as int, val),
            );
            assert forall|r: int| 0 <= r < rows implies self.grid()[r] =~= target[r] by {
                assert forall|c: int| 0 <= c < cols implies self.grid()[r][c] == target[r][c] by {
                    lemma_cell_index(rows, cols, r, c);
                    if r * cols + c == row as int * cols + col as int {
                        lemma_cell_index_inj(cols, r, c, row as int, col as int);
                    }
                }
            }
            assert(self.grid() =~~= target);
        }
    }

    /// Read one pixel.
    pub fn get_display_buffer(&mut self, row: u8, col: u8) -> (v: u8)
        requires
            old(self).wf(),
            row < old(self).num_rows,
            col < old(self).num_cols,
        ensures
            *final(self) == *old(self),
            v == old(self).grid()[row as int][col as int],
    {
        proof {
            lemma_cell_index(self.num_rows as int, self.num_cols as int, row as int, col as int);
            lemma_grid_size(self.num_rows as int, self.num_cols as int);
        }
        let idx: usize = (row as usize) * self.num_cols + (col as usize);
        self.buffer[idx]
    }

    /// Hand the dirty flag to the redraw collaborator: returns whether a
    /// redraw is due and clears the flag.
    pub fn take_update(&mut self) -> (due: bool)
        ensures
            due == old(self).should_update,
            final(self).num_rows == old(self).num_rows,
            final(self).num_cols == old(self).num_cols,
            final(self).buffer == old(self).buffer,
            final(self).grid() == old(self).grid(),
            !final(self).should_update,
    {
        let due = self.should_update;
        self.should_update = false;
        due
    }
}

} // verus!
