//! The viewport: a normalized scroll offset into the toroidal grid, the
//! mapping from terminal positions to logical cells, and the tile-repeat
//! counts that cover a terminal larger than the grid.

use vstd::prelude::*;
use vstd::arithmetic::div_mod::{
    lemma_add_mod_noop, lemma_fundamental_div_mod, lemma_mod_bound, lemma_mod_multiples_vanish,
    lemma_small_mod,
};
use vstd::arithmetic::mul::lemma_mul_inequality;

verus! {

/// An offset panned by `d` and renormalized into `[0, dim)`.
pub open spec fn norm_shift(off: int, d: int, dim: int) -> int
    recommends
        dim > 0,
{
    (off + d) % dim
}

/// The offset after `n` pans of `d` each, starting from `off`.
pub open spec fn shift_n(off: int, d: int, n: nat, dim: int) -> int
    decreases n,
{
    if n == 0 {
        off
    } else {
        norm_shift(shift_n(off, d, (n - 1) as nat, dim), d, dim)
    }
}

/// Repeated panning adds up: `n` pans of `d` land on `(off + n * d) % dim`.
pub proof fn lemma_shift_n_adds(off: int, d: int, n: nat, dim: int)
    requires
        dim > 0,
        0 <= off < dim,
    ensures
        shift_n(off, d, n, dim) == (off + n * d) % dim,
    decreases n,
{
    if n == 0 {
        lemma_small_mod(off as nat, dim as nat);
    } else {
        lemma_shift_n_adds(off, d, (n - 1) as nat, dim);
        let a = off + (n - 1) * d;
        let prev = a % dim;
        lemma_mod_bound(a, dim);
        lemma_small_mod(prev as nat, dim as nat);
        lemma_add_mod_noop(prev, d, dim);
        lemma_add_mod_noop(a, d, dim);
        assert((n - 1) * d + d == n * d) by (nonlinear_arith)
            requires
                n >= 1,
        ;
    }
}

/// Panning is periodic in the grid dimension: `dim` pans of any fixed delta
/// return the offset to where it started, so the displayed cell is the cell
/// shown before panning.
pub proof fn lemma_pan_periodic(off: int, d: int, dim: int)
    requires
        dim > 0,
        0 <= off < dim,
    ensures
        shift_n(off, d, dim as nat, dim) == off,
{
    lemma_shift_n_adds(off, d, dim as nat, dim);
    lemma_mod_multiples_vanish(d, off, dim);
    assert(dim as nat == dim);
    assert(dim * d + off == off + (dim as nat) * d);
    lemma_small_mod(off as nat, dim as nat);
}

/// Pan a normalized offset by a signed delta, renormalizing into `[0, dim)`.
pub fn shift_offset(off: usize, d: i16, dim: usize) -> (r: usize)
    requires
        1 <= dim <= 0x7fff,
        off < dim,
    ensures
        r == norm_shift(off as int, d as int, dim as int),
        r < dim,
{
    let dpos: usize = if d >= 0 {
        (d as usize) % dim
    } else {
        let down = ((-(d as i32)) as usize) % dim;
        if down == 0 {
            0
        } else {
            dim - down
        }
    };
    proof {
        lemma_mod_bound(d as int, dim as int);
        if d >= 0 {
            lemma_small_mod((d as int % dim as int) as nat, dim as nat);
            assert(dpos == d as int % dim as int);
        } else {
            let down = (-(d as int)) % dim as int;
            lemma_mod_bound(-(d as int), dim as int);
            lemma_add_mod_noop(d as int, -(d as int), dim as int);
            lemma_small_mod(0, dim as nat);
            lemma_mod_bound(d as int % dim as int + down, dim as int);
            if down == 0 {
                lemma_small_mod((d as int % dim as int) as nat, dim as nat);
                assert(dpos == d as int % dim as int);
            } else {
                assert((d as int % dim as int + down) % dim as int == 0);
                let s = d as int % dim as int + down;
                assert(0 < s < 2 * dim);
                assert(s % dim as int == 0);
                assert(s == dim) by {
                    if s < dim {
                        lemma_small_mod(s as nat, dim as nat);
                    } else {
                        lemma_mod_multiples_vanish(1, s - dim, dim as int);
                        lemma_small_mod((s - dim) as nat, dim as nat);
                    }
                }
                assert(dpos == d as int % dim as int);
            }
        }
    }
    let r = (off + dpos) % dim;
    proof {
        lemma_add_mod_noop(off as int, d as int, dim as int);
        lemma_small_mod(off as nat, dim as nat);
        lemma_mod_bound(off as int + dpos as int, dim as int);
    }
    r
}

/// The scroll offset into the grid: the logical cell shown at the terminal
/// origin. Both components stay normalized into `[0, rows)` / `[0, cols)`.
pub struct Viewport {
    rows: usize,
    cols: usize,
    row_offset: usize,
    col_offset: usize,
}

impl Viewport {
    /// The viewport invariant: positive dimensions that fit the pan
    /// arithmetic, and offsets already normalized.
    pub open spec fn wf(&self) -> bool {
        &&& 1 <= self.spec_rows() <= 0x7fff
        &&& 1 <= self.spec_cols() <= 0x7fff
        &&& self.spec_row_offset() < self.spec_rows()
        &&& self.spec_col_offset() < self.spec_cols()
    }

    pub closed spec fn spec_rows(&self) -> usize {
        self.rows
    }

    pub closed spec fn spec_cols(&self) -> usize {
        self.cols
    }

    pub closed spec fn spec_row_offset(&self) -> usize {
        self.row_offset
    }

    pub closed spec fn spec_col_offset(&self) -> usize {
        self.col_offset
    }

    /// A viewport over a `rows` by `cols` grid, initially at the origin.
    pub fn new(rows: usize, cols: usize) -> (v: Viewport)
        requires
            1 <= rows <= 0x7fff,
            1 <= cols <= 0x7fff,
        ensures
            v.wf(),
            v.spec_rows() == rows,
            v.spec_cols() == cols,
            v.spec_row_offset() == 0,
            v.spec_col_offset() == 0,
    {
        Viewport { rows, cols, row_offset: 0, col_offset: 0 }
    }

    /// The current row offset.
    pub fn row_offset(&self) -> (r: usize)
        ensures
            r == self.spec_row_offset(),
    {
        self.row_offset
    }

    /// The current column offset.
    pub fn col_offset(&self) -> (r: usize)
        ensures
            r == self.spec_col_offset(),
    {
        self.col_offset
    }

    /// Pan vertically by `d` rows, wrapping around the grid.
    pub fn shift_row(&mut self, d: i16)
        requires
            old(self).wf(),
        ensures
            final(self).wf(),
            final(self).spec_rows() == old(self).spec_rows(),
            final(self).spec_cols() == old(self).spec_cols(),
            final(self).spec_col_offset() == old(self).spec_col_offset(),
            final(self).spec_row_offset() == norm_shift(
                old(self).spec_row_offset() as int,
                d as int,
                old(self).spec_rows() as int,
            ),
    {
        self.row_offset = shift_offset(self.row_offset, d, self.rows);
    }

    /// Pan horizontally by `d` columns, wrapping around the grid.
    pub fn shift_col(&mut self, d: i16)
        requires
            old(self).wf(),
        ensures
            final(self).wf(),
            final(self).spec_rows() == old(self).spec_rows(),
            final(self).spec_cols() == old(self).spec_cols(),
            final(self).spec_row_offset() == old(self).spec_row_offset(),
            final(self).spec_col_offset() == norm_shift(
                old(self).spec_col_offset() as int,
                d as int,
                old(self).spec_cols() as int,
            ),
    {
        self.col_offset = shift_offset(self.col_offset, d, self.cols);
    }

    /// The logical grid cell shown at terminal row `term_row`, cell column
    /// `cell_col` (terminal cells are two characters wide, so the cell column
    /// is half the terminal character column).
    pub fn to_logical(&self, term_row: u16, cell_col: u16) -> (r: (usize, usize))
        requires
            self.wf(),
        ensures
            r.0 == (term_row as int + self.spec_row_offset() as int) % self.spec_rows() as int,
            r.1 == (cell_col as int + self.spec_col_offset() as int) % self.spec_cols() as int,
            r.0 < self.spec_rows(),
            r.1 < self.spec_cols(),
    {
        let r0 = (term_row as usize + self.row_offset) % self.rows;
        let r1 = (cell_col as usize + self.col_offset) % self.cols;
        proof {
            lemma_mod_bound(term_row as int + self.spec_row_offset() as int, self.spec_rows() as int);
            lemma_mod_bound(cell_col as int + self.spec_col_offset() as int, self.spec_cols() as int);
        }
        (r0, r1)
    }

    /// How many tiled repetitions of the grid cover `term_rows` terminal rows.
    pub fn row_repeats(&self, term_rows: u16) -> (r: usize)
        requires
            self.wf(),
        ensures
            r == term_rows as int / self.spec_rows() as int + 2,
    {
        term_rows as usize / self.rows + 2
    }

    /// How many tiled repetitions of the grid cover `term_cols` terminal
    /// character columns, each cell being two characters wide.
    pub fn col_repeats(&self, term_cols: u16) -> (r: usize)
        requires
            self.wf(),
        ensures
            r == term_cols as int / (2 * self.spec_cols() as int) + 2,
    {
        term_cols as usize / (2 * self.cols) + 2
    }

    /// Does the terminal position `(tr, tc)` (character coordinates) show the
    /// logical cell `(cell_row, cell_col)` as the left character of a cell?
    pub open spec fn shows_cell(
        &self,
        tr: int,
        tc: int,
        cell_row: int,
        cell_col: int,
        term_rows: int,
        term_cols: int,
    ) -> bool {
        &&& 0 <= tr < term_rows
        &&& 0 <= tc < term_cols
        &&& tc % 2 == 0
        &&& (tr + self.spec_row_offset()) % self.spec_rows() as int == cell_row
        &&& (tc / 2 + self.spec_col_offset()) % self.spec_cols() as int == cell_col
    }

    /// Every terminal position at which the logical cell `(cell_row,
    /// cell_col)` is shown: sound (each returned position shows the cell) and
    /// complete (every position that shows the cell is returned).
    pub fn tiled_positions(
        &self,
        cell_row: usize,
        cell_col: usize,
        term_rows: u16,
        term_cols: u16,
    ) -> (v: Vec<(u16, u16)>)
        requires
            self.wf(),
            cell_row < self.spec_rows(),
            cell_col < self.spec_cols(),
        ensures
            forall|k: int|
                0 <= k < v@.len() ==> self.shows_cell(
                    (#[trigger] v@[k]).0 as int,
                    v@[k].1 as int,
                    cell_row as int,
                    cell_col as int,
                    term_rows as int,
                    term_cols as int,
                ),
            forall|tr: int, tc: int|
                self.shows_cell(
                    tr,
                    tc,
                    cell_row as int,
                    cell_col as int,
                    term_rows as int,
                    term_cols as int,
                ) ==> exists|k: int|
                    0 <= k < v@.len() && (#[trigger] v@[k]).0 == tr && v@[k].1 == tc,
    {
        let rows = self.rows;
        let cols = self.cols;
        let roff = self.row_offset;
        let coff = self.col_offset;
        let rreps = self.row_repeats(term_rows);
        let creps = self.col_repeats(term_cols);
        let mut v: Vec<(u16, u16)> = Vec::new();
        let mut q: usize = 0;
        while q < rreps
            invariant
                self.wf(),
                rows == self.spec_rows(),
                cols == self.spec_cols(),
                roff == self.spec_row_offset(),
                coff == self.spec_col_offset(),
                cell_row < rows,
                cell_col < cols,
                rreps == term_rows as int / rows as int + 2,
                creps == term_cols as int / (2 * cols as int) + 2,
                q <= rreps,
                forall|k: int|
                    0 <= k < v@.len() ==> self.shows_cell(
                        (#[trigger] v@[k]).0 as int,
                        v@[k].1 as int,
                        cell_row as int,
                        cell_col as int,
                        term_rows as int,
                        term_cols as int,
                    ),
                forall|qq: int, ww: int|
                    0 <= qq < q && 0 <= ww < creps ==> {
                        let tr = cell_row + #[trigger] (qq * rows) - roff;
                        let tc = 2 * (cell_col + #[trigger] (ww * cols) - coff);
                        (0 <= tr < term_rows && 0 <= tc < term_cols) ==> exists|k: int|
                            0 <= k < v@.len() && (#[trigger] v@[k]).0 == tr && v@[k].1 == tc
                    },
            decreases rreps - q,
        {
            proof {
                lemma_fundamental_div_mod(term_rows as int, rows as int);
                lemma_mod_bound(term_rows as int, rows as int);
                lemma_mul_inequality(q as int, term_rows as int / rows as int + 1, rows as int);
                assert((term_rows as int / rows as int + 1) * rows as int == (term_rows as int
                    / rows as int) * rows as int + rows as int) by (nonlinear_arith);
            }
            let srow = cell_row + q * rows;
            let mut w: usize = 0;
            while w < creps
                invariant
                    self.wf(),
                    rows == self.spec_rows(),
                    cols == self.spec_cols(),
                    roff == self.spec_row_offset(),
                    coff == self.spec_col_offset(),
                    cell_row < rows,
                    cell_col < cols,
                    rreps == term_rows as int / rows as int + 2,
                    creps == term_cols as int / (2 * cols as int) + 2,
                    q < rreps,
                    w <= creps,
                    srow == cell_row + q * rows,
                    forall|k: int|
                        0 <= k < v@.len() ==> self.shows_cell(
                            (#[trigger] v@[k]).0 as int,
                            v@[k].1 as int,
                            cell_row as int,
                            cell_col as int,
                            term_rows as int,
                            term_cols as int,
                        ),
                    forall|qq: int, ww: int|
                        0 <= qq < q && 0 <= ww < creps ==> {
                            let tr = cell_row + #[trigger] (qq * rows) - roff;
                            let tc = 2 * (cell_col + #[trigger] (ww * cols) - coff);
                            (0 <= tr < term_rows && 0 <= tc < term_cols) ==> exists|k: int|
                                0 <= k < v@.len() && (#[trigger] v@[k]).0 == tr && v@[k].1 == tc
                        },
                    forall|ww: int|
                        0 <= ww < w ==> {
                            let tr = cell_row + (q as int * rows) - roff;
                            let tc = 2 * (cell_col + #[trigger] (ww * cols) - coff);
                            (0 <= tr < term_rows && 0 <= tc < term_cols) ==> exists|k: int|
                                0 <= k < v@.len() && (#[trigger] v@[k]).0 == tr && v@[k].1 == tc
                        },
                decreases creps - w,
            {
                proof {
                    lemma_fundamental_div_mod(term_cols as int, 2 * cols as int);
                    lemma_mod_bound(term_cols as int, 2 * cols as int);
                    lemma_mul_inequality(
                        w as int,
                        term_cols as int / (2 * cols as int) + 1,
                        cols as int,
                    );
                    assert((term_cols as int / (2 * cols as int) + 1) * cols as int == (term_cols
                        as int / (2 * cols as int)) * cols as int + cols as int)
                        by (nonlinear_arith);
                    assert((term_cols as int / (2 * cols as int)) * (2 * cols as int) == 2 * ((
                    term_cols as int / (2 * cols as int)) * cols as int)) by (nonlinear_arith);
                }
                let scol = cell_col + w * cols;
                if srow >= roff && scol >= coff {
                    let tr = srow - roff;
                    let tc = 2 * (scol - coff);
                    if tr < term_rows as usize && tc < term_cols as usize {
                        let ghost oldv = v@;
                        v.push((tr as u16, tc as u16));
                        proof {
                            lemma_mod_multiples_vanish(q as int, cell_row as int, rows as int);
                            lemma_small_mod(cell_row as nat, rows as nat);
                            lemma_mod_multiples_vanish(w as int, cell_col as int, cols as int);
                            lemma_small_mod(cell_col as nat, cols as nat);
                            assert(rows as int * q as int == q as int * rows as int)
                                by (nonlinear_arith);
                            assert(cols as int * w as int == w as int * cols as int)
                                by (nonlinear_arith);
                            assert((tr as int + roff) % rows as int == cell_row as int);
                            assert(tc as int / 2 == scol - coff);
                            assert((tc as int / 2 + coff) % cols as int == cell_col as int);
                            assert(forall|k: int|
                                0 <= k < oldv.len() ==> v@[k] == #[trigger] oldv[k]);
                            assert(v@.len() == oldv.len() + 1);
                            assert(v@[oldv.len() as int].0 == tr as u16);
                            assert(v@[oldv.len() as int].1 == tc as u16);
                            assert(tr as int == cell_row + (q as int * rows) - roff);
                            assert(tc as int == 2 * (cell_col + (w as int * cols) - coff));
                        }
                    }
                }
                w += 1;
            }
            q += 1;
        }
        proof {
            assert forall|tr: int, tc: int|
                self.shows_cell(
                    tr,
                    tc,
                    cell_row as int,
                    cell_col as int,
                    term_rows as int,
                    term_cols as int,
                ) implies exists|k: int|
                0 <= k < v@.len() && (#[trigger] v@[k]).0 == tr && v@[k].1 == tc by {
                let rows_i = rows as int;
                let cols_i = cols as int;
                lemma_row_tiling_covers(term_rows as int, rows_i, roff as int, tr);
                let qq = choose|qq: int|
                    0 <= qq < term_rows as int / rows_i + 2 && (tr + roff) % rows_i + #[trigger] (
                    qq * rows_i) - roff == tr;
                let hc = tc / 2;
                assert(tc == 2 * hc);
                lemma_col_tiling_covers(term_cols as int, cols_i, coff as int, hc);
                let ww = choose|ww: int|
                    0 <= ww < term_cols as int / (2 * cols_i) + 2 && (hc + coff) % cols_i
                        + #[trigger] (ww * cols_i) - coff == hc;
                assert(qq * rows_i == qq * rows as int);
                assert(cell_row + qq * rows as int - roff == tr);
                assert(2 * (cell_col + ww * cols as int - coff) == tc);
            }
        }
        v
    }
}

/// A terminal position shows exactly one logical cell: two cells shown at
/// the same position are the same cell.
pub proof fn lemma_position_shows_one_cell(
    vp: Viewport,
    tr: int,
    tc: int,
    r1: int,
    c1: int,
    r2: int,
    c2: int,
    term_rows: int,
    term_cols: int,
)
    requires
        vp.shows_cell(tr, tc, r1, c1, term_rows, term_cols),
        vp.shows_cell(tr, tc, r2, c2, term_rows, term_cols),
    ensures
        r1 == r2,
        c1 == c2,
{
}

/// The repeat count covers every terminal row: a terminal row `t` is hit by
/// some tile `q` of the logical cell it shows.
pub proof fn lemma_row_tiling_covers(term: int, dim: int, off: int, t: int)
    requires
        0 < dim,
        0 <= off < dim,
        0 <= t < term,
    ensures
        exists|q: int|
            0 <= q < term / dim + 2 && (t + off) % dim + #[trigger] (q * dim) - off == t,
{
    let q = (t + off) / dim;
    lemma_fundamental_div_mod(t + off, dim);
    lemma_mod_bound(t + off, dim);
    assert(q >= 0) by {
        if q < 0 {
            lemma_mul_inequality(q, -1, dim);
        }
    }
    assert(q < term / dim + 2) by {
        if q >= term / dim + 2 {
            lemma_mul_inequality(term / dim + 2, q, dim);
            lemma_fundamental_div_mod(term, dim);
            lemma_mod_bound(term, dim);
            assert((term / dim + 2) * dim == (term / dim) * dim + 2 * dim) by (nonlinear_arith);
        }
    }
    assert((t + off) % dim + q * dim - off == t);
}

/// The repeat count covers every visible cell column: a cell column `t`
/// whose left character `2 * t` is on the screen is hit by some tile `q`.
pub proof fn lemma_col_tiling_covers(term: int, dim: int, off: int, t: int)
    requires
        0 < dim,
        0 <= off < dim,
        0 <= t,
        2 * t < term,
    ensures
        exists|q: int|
            0 <= q < term / (2 * dim) + 2 && (t + off) % dim + #[trigger] (q * dim) - off == t,
{
    let q = (t + off) / dim;
    lemma_fundamental_div_mod(t + off, dim);
    lemma_mod_bound(t + off, dim);
    assert(q >= 0) by {
        if q < 0 {
            lemma_mul_inequality(q, -1, dim);
        }
    }
    assert(q < term / (2 * dim) + 2) by {
        if q >= term / (2 * dim) + 2 {
            lemma_mul_inequality(term / (2 * dim) + 2, q, dim);
            lemma_fundamental_div_mod(term, 2 * dim);
            lemma_mod_bound(term, 2 * dim);
            assert((term / (2 * dim) + 2) * dim == (term / (2 * dim)) * dim + 2 * dim)
                by (nonlinear_arith);
            assert(2 * ((term / (2 * dim)) * dim + 2 * dim) == (term / (2 * dim)) * (2 * dim) + 4
                * dim) by (nonlinear_arith);
            assert(2 * (q * dim) <= 2 * (t + off)) by (nonlinear_arith)
                requires
                    q * dim <= t + off,
            ;
        }
    }
    assert((t + off) % dim + q * dim - off == t);
}

} // verus!
