//! The grid store: a rectangular, row-major array of cell states together
//! with the configured dimensions and the state-alphabet size.

use vstd::prelude::*;

verus! {

/// A state forced into `[0, states)`: values at or above the alphabet size
/// are clamped to the largest state.
pub open spec fn clamp_state(v: u16, states: u16) -> u16
    recommends
        states >= 1,
{
    if v < states {
        v
    } else {
        (states - 1) as u16
    }
}

/// The cell a loaded pattern puts at `(i, j)`: the pattern's own value,
/// clamped into range, where the pattern covers that position, and the empty
/// state where it does not.
pub open spec fn padded_cell(p: Seq<Seq<u16>>, i: int, j: int, states: u16) -> u16 {
    if i < p.len() && j < p[i].len() {
        clamp_state(p[i][j], states)
    } else {
        0
    }
}

/// Relies on rand::random_range on the range `0..states`: the sample is
/// drawn from the thread-local generator and always lies inside the
/// (non-empty) range.
#[verifier::external_body]
fn random_state(states: u16) -> (r: u16)
    requires
        states >= 1,
    ensures
        r < states,
{
    rand::random_range(0..states)
}

/// A rectangular grid of cell states.
///
/// Every row has length `cols`, there are exactly `rows` rows, and every
/// stored state is below `states`. The grid is allocated once and never
/// resized afterwards.
pub struct Grid {
    cells: Vec<Vec<u16>>,
    rows: usize,
    cols: usize,
    states: u16,
}

impl Grid {
    /// The mathematical contents: a sequence of rows, each a sequence of states.
    pub closed spec fn view(&self) -> Seq<Seq<u16>> {
        self.cells@.map_values(|r: Vec<u16>| r@)
    }

    pub closed spec fn spec_rows(&self) -> usize {
        self.rows
    }

    pub closed spec fn spec_cols(&self) -> usize {
        self.cols
    }

    pub closed spec fn spec_states(&self) -> u16 {
        self.states
    }

    /// The grid invariant: exact dimensions, and every cell state in range.
    pub open spec fn wf(&self) -> bool {
        &&& self@.len() == self.spec_rows()
        &&& forall|i: int| 0 <= i < self@.len() ==> (#[trigger] self@[i]).len() == self.spec_cols()
        &&& forall|i: int, j: int|
            0 <= i < self@.len() && 0 <= j < self@[i].len() ==> (#[trigger] self@[i][j])
                < self.spec_states()
        &&& 1 <= self.spec_rows() <= 0x7fff
        &&& 1 <= self.spec_cols() <= 0x7fff
        &&& 2 <= self.spec_states()
    }

    /// An empty (all zero) grid of the given dimensions.
    pub fn new(rows: usize, cols: usize, states: u16) -> (g: Grid)
        requires
            1 <= rows <= 0x7fff,
            1 <= cols <= 0x7fff,
            2 <= states,
        ensures
            g.wf(),
            g.spec_rows() == rows,
            g.spec_cols() == cols,
            g.spec_states() == states,
            forall|i: int, j: int| 0 <= i < rows && 0 <= j < cols ==> g@[i][j] == 0,
    {
        let mut cells: Vec<Vec<u16>> = Vec::new();
        let mut i: usize = 0;
        while i < rows
            invariant
                i <= rows,
                cells@.len() == i,
                forall|k: int| 0 <= k < i ==> (#[trigger] cells@[k])@.len() == cols,
                forall|k: int, j: int|
                    0 <= k < i && 0 <= j < cols ==> (#[trigger] cells@[k]@[j]) == 0,
            decreases rows - i,
        {
            let mut row: Vec<u16> = Vec::new();
            let mut j: usize = 0;
            while j < cols
                invariant
                    j <= cols,
                    row@.len() == j,
                    forall|k: int| 0 <= k < j ==> row@[k] == 0,
                decreases cols - j,
            {
                row.push(0);
                j += 1;
            }
            cells.push(row);
            i += 1;
        }
        Grid { cells, rows, cols, states }
    }

    /// The number of rows.
    pub fn rows(&self) -> (r: usize)
        ensures
            r == self.spec_rows(),
    {
        self.rows
    }

    /// The number of columns.
    pub fn cols(&self) -> (r: usize)
        ensures
            r == self.spec_cols(),
    {
        self.cols
    }

    /// The size of the state alphabet.
    pub fn states(&self) -> (r: u16)
        ensures
            r == self.spec_states(),
    {
        self.states
    }

    /// Read one cell.
    pub fn get(&self, row: usize, col: usize) -> (v: u16)
        requires
            self.wf(),
            row < self.spec_rows(),
            col < self.spec_cols(),
        ensures
            v == self@[row as int][col as int],
            v < self.spec_states(),
    {
        proof {
            assert(self.cells@.len() == self@.len());
            assert(self@[row as int].len() == self.spec_cols());
            assert(self.cells@[row as int]@ == self@[row as int]);
        }
        self.cells[row][col]
    }

    /// Write one cell; the caller guarantees the state is in range.
    pub fn set(&mut self, row: usize, col: usize, v: u16)
        requires
            old(self).wf(),
            row < old(self).spec_rows(),
            col < old(self).spec_cols(),
            v < old(self).spec_states(),
        ensures
            final(self).wf(),
            final(self).spec_rows() == old(self).spec_rows(),
            final(self).spec_cols() == old(self).spec_cols(),
            final(self).spec_states() == old(self).spec_states(),
            final(self)@ == old(self)@.update(
                row as int,
                old(self)@[row as int].update(col as int, v),
            ),
    {
        proof {
            assert(self.cells@.len() == self@.len());
            assert(self@[row as int].len() == self.spec_cols());
            assert(self.cells@[row as int]@ == self@[row as int]);
        }
        let r = &mut self.cells[row];
        r.set(col, v);
        assert(self@ =~= old(self)@.update(
            row as int,
            old(self)@[row as int].update(col as int, v),
        ));
    }

    /// Reset every cell to the empty state.
    pub fn clear(&mut self)
        requires
            old(self).wf(),
        ensures
            final(self).wf(),
            final(self).spec_rows() == old(self).spec_rows(),
            final(self).spec_cols() == old(self).spec_cols(),
            final(self).spec_states() == old(self).spec_states(),
            forall|i: int, j: int|
                0 <= i < final(self).spec_rows() && 0 <= j < final(self).spec_cols()
                    ==> final(self)@[i][j] == 0,
    {
        let rows = self.rows;
        let cols = self.cols;
        let mut i: usize = 0;
        while i < rows
            invariant
                self.wf(),
                self.spec_rows() == old(self).spec_rows(),
                self.spec_cols() == old(self).spec_cols(),
                self.spec_states() == old(self).spec_states(),
                rows == self.spec_rows(),
                cols == self.spec_cols(),
                i <= rows,
                forall|a: int, b: int| 0 <= a < i && 0 <= b < cols ==> self@[a][b] == 0,
            decreases rows - i,
        {
            let mut j: usize = 0;
            while j < cols
                invariant
                    self.wf(),
                    self.spec_rows() == old(self).spec_rows(),
                    self.spec_cols() == old(self).spec_cols(),
                    self.spec_states() == old(self).spec_states(),
                    rows == self.spec_rows(),
                    cols == self.spec_cols(),
                    i < rows,
                    j <= cols,
                    forall|a: int, b: int| 0 <= a < i && 0 <= b < cols ==> self@[a][b] == 0,
                    forall|b: int| 0 <= b < j ==> self@[i as int][b] == 0,
                decreases cols - j,
            {
                self.set(i, j, 0);
                j += 1;
            }
            i += 1;
        }
    }

    /// Replace every cell with a random state drawn from `[0, states)`.
    pub fn randomize(&mut self)
        requires
            old(self).wf(),
        ensures
            final(self).wf(),
            final(self).spec_rows() == old(self).spec_rows(),
            final(self).spec_cols() == old(self).spec_cols(),
            final(self).spec_states() == old(self).spec_states(),
    {
        let rows = self.rows;
        let cols = self.cols;
        let states = self.states;
        let mut i: usize = 0;
        while i < rows
            invariant
                self.wf(),
                self.spec_rows() == old(self).spec_rows(),
                self.spec_cols() == old(self).spec_cols(),
                self.spec_states() == old(self).spec_states(),
                rows == self.spec_rows(),
                cols == self.spec_cols(),
                states == self.spec_states(),
                i <= rows,
            decreases rows - i,
        {
            let mut j: usize = 0;
            while j < cols
                invariant
                    self.wf(),
                    self.spec_rows() == old(self).spec_rows(),
                    self.spec_cols() == old(self).spec_cols(),
                    self.spec_states() == old(self).spec_states(),
                    rows == self.spec_rows(),
                    cols == self.spec_cols(),
                    states == self.spec_states(),
                    i < rows,
                    j <= cols,
                decreases cols - j,
            {
                let v = random_state(states);
                self.set(i, j, v);
                j += 1;
            }
            i += 1;
        }
    }

    /// Build a grid of the configured dimensions from decoded pattern rows,
    /// padding missing cells with the empty state, dropping cells outside the
    /// configured size, and clamping out-of-range states.
    pub fn from_rows(p: &Vec<Vec<u16>>, rows: usize, cols: usize, states: u16) -> (g: Grid)
        requires
            1 <= rows <= 0x7fff,
            1 <= cols <= 0x7fff,
            2 <= states,
        ensures
            g.wf(),
            g.spec_rows() == rows,
            g.spec_cols() == cols,
            g.spec_states() == states,
            forall|i: int, j: int|
                0 <= i < rows && 0 <= j < cols ==> g@[i][j] == padded_cell(
                    p@.map_values(|r: Vec<u16>| r@),
                    i,
                    j,
                    states,
                ),
    {
        let ghost pv = p@.map_values(|r: Vec<u16>| r@);
        let mut g = Grid::new(rows, cols, states);
        let mut i: usize = 0;
        while i < rows
            invariant
                g.wf(),
                g.spec_rows() == rows,
                g.spec_cols() == cols,
                g.spec_states() == states,
                pv == p@.map_values(|r: Vec<u16>| r@),
                i <= rows,
                forall|a: int, b: int|
                    0 <= a < i && 0 <= b < cols ==> g@[a][b] == padded_cell(pv, a, b, states),
                forall|a: int, b: int|
                    i <= a < rows && 0 <= b < cols ==> g@[a][b] == 0,
            decreases rows - i,
        {
            let mut j: usize = 0;
            while j < cols
                invariant
                    g.wf(),
                    g.spec_rows() == rows,
                    g.spec_cols() == cols,
                    g.spec_states() == states,
                    pv == p@.map_values(|r: Vec<u16>| r@),
                    i < rows,
                    j <= cols,
                    forall|a: int, b: int|
                        0 <= a < i && 0 <= b < cols ==> g@[a][b] == padded_cell(pv, a, b, states),
                    forall|b: int|
                        0 <= b < j ==> g@[i as int][b] == padded_cell(pv, i as int, b, states),
                    forall|a: int, b: int|
                        i < a < rows && 0 <= b < cols ==> g@[a][b] == 0,
                    forall|b: int| j <= b < cols ==> g@[i as int][b] == 0,
                decreases cols - j,
            {
                if i < p.len() {
                    let prow = &p[i];
                    if j < prow.len() {
                        let raw = prow[j];
                        let v = if raw < states {
                            raw
                        } else {
                            states - 1
                        };
                        g.set(i, j, v);
                    }
                }
                proof {
                    assert(g@[i as int][j as int] == padded_cell(pv, i as int, j as int, states));
                }
                j += 1;
            }
            i += 1;
        }
        g
    }

    /// A full copy of the grid's contents, row by row.
    pub fn snapshot(&self) -> (r: Vec<Vec<u16>>)
        requires
            self.wf(),
        ensures
            r@.map_values(|x: Vec<u16>| x@) == self@,
    {
        let rows = self.rows;
        let cols = self.cols;
        let mut out: Vec<Vec<u16>> = Vec::new();
        let mut i: usize = 0;
        while i < rows
            invariant
                self.wf(),
                rows == self.spec_rows(),
                cols == self.spec_cols(),
                i <= rows,
                out@.len() == i,
                forall|a: int| 0 <= a < i ==> (#[trigger] out@[a])@ == self@[a],
            decreases rows - i,
        {
            let mut row: Vec<u16> = Vec::new();
            let mut j: usize = 0;
            while j < cols
                invariant
                    self.wf(),
                    rows == self.spec_rows(),
                    cols == self.spec_cols(),
                    i < rows,
                    j <= cols,
                    row@.len() == j,
                    forall|b: int| 0 <= b < j ==> row@[b] == self@[i as int][b],
                decreases cols - j,
            {
                row.push(self.get(i, j));
                j += 1;
            }
            proof {
                assert(row@ =~= self@[i as int]);
            }
            out.push(row);
            i += 1;
        }
        proof {
            assert(out@.map_values(|x: Vec<u16>| x@) =~= self@);
        }
        out
    }
}

} // verus!
