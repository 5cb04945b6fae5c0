//! The neighborhood provider boundary: for a cell of a toroidal grid, the
//! coordinates of the eight surrounding cells, in the provider's emission
//! order, and the states found there.

use vstd::prelude::*;
use crate::grid::Grid;

verus! {

/// The column directly east of `x` on a torus of width `w`.
pub open spec fn east_of(w: int, x: int) -> int {
    (x + 1) % w
}

/// The column directly west of `x` on a torus of width `w`.
pub open spec fn west_of(w: int, x: int) -> int {
    if x == 0 {
        w - 1
    } else {
        x - 1
    }
}

/// The square (eight-connected) neighborhood of `(x, y)` on a torus of
/// `w` columns and `h` rows, as `(column, row)` pairs in emission order:
/// north, south, east, west, north-east, south-east, north-west, south-west.
pub open spec fn torus_square_neighbors(w: int, h: int, x: int, y: int) -> Seq<(int, int)> {
    let ny = west_of(h, y);
    let sy = east_of(h, y);
    let ex = east_of(w, x);
    let wx = west_of(w, x);
    seq![(x, ny), (x, sy), (ex, y), (wx, y), (ex, ny), (ex, sy), (wx, ny), (wx, sy)]
}

/// All eight neighbors stay in bounds when the centre cell is in bounds.
pub proof fn lemma_neighbors_in_bounds(w: int, h: int, x: int, y: int)
    requires
        0 < w,
        0 < h,
        0 <= x < w,
        0 <= y < h,
    ensures
        forall|k: int|
            0 <= k < torus_square_neighbors(w, h, x, y).len() ==> {
                let p = #[trigger] torus_square_neighbors(w, h, x, y)[k];
                0 <= p.0 < w && 0 <= p.1 < h
            },
{
    assert(0 <= (x + 1) % w < w) by (nonlinear_arith)
        requires 0 < w && 0 <= x;
    assert(0 <= (y + 1) % h < h) by (nonlinear_arith)
        requires 0 < h && 0 <= y;
}

/// Relies on grid_area::neighborhood with the torus topology and the square
/// neighborhood shape: it emits, in a fixed order, the eight wrapped
/// neighbor coordinates of `(x, y)`, each reduced modulo the grid size.
#[verifier::external_body]
fn torus_neighborhood(w: usize, h: usize, x: usize, y: usize) -> (v: Vec<(usize, usize)>)
    requires
        1 <= w,
        1 <= h,
        x < w,
        y < h,
    ensures
        v@.map_values(|p: (usize, usize)| (p.0 as int, p.1 as int)) == torus_square_neighbors(
            w as int,
            h as int,
            x as int,
            y as int,
        ),
{
    grid_area::neighborhood(
        grid_area::Topology::Torus,
        w,
        h,
        x,
        y,
        grid_area::Neighborhood::Square,
    ).collect()
}

/// The states of the eight neighbors of `(row, col)` in `g`, in the
/// provider's emission order.
pub open spec fn spec_neighbor_states(g: Seq<Seq<u16>>, w: int, h: int, col: int, row: int) -> Seq<
    u16,
> {
    torus_square_neighbors(w, h, col, row).map_values(|p: (int, int)| g[p.1][p.0])
}

/// Fetch the states of the eight neighbors of `(row, col)`, in the
/// provider's emission order.
pub fn neighbor_states(g: &Grid, row: usize, col: usize) -> (v: Vec<u16>)
    requires
        g.wf(),
        row < g.spec_rows(),
        col < g.spec_cols(),
    ensures
        v@ == spec_neighbor_states(
            g@,
            g.spec_cols() as int,
            g.spec_rows() as int,
            col as int,
            row as int,
        ),
        forall|k: int| 0 <= k < v@.len() ==> #[trigger] v@[k] < g.spec_states(),
{
    let w = g.cols();
    let h = g.rows();
    let coords = torus_neighborhood(w, h, col, row);
    proof {
        lemma_neighbors_in_bounds(w as int, h as int, col as int, row as int);
    }
    let ghost spec_coords = torus_square_neighbors(w as int, h as int, col as int, row as int);
    let mut v: Vec<u16> = Vec::new();
    let mut k: usize = 0;
    while k < coords.len()
        invariant
            g.wf(),
            w == g.spec_cols(),
            h == g.spec_rows(),
            col < g.spec_cols(),
            row < g.spec_rows(),
            spec_coords == torus_square_neighbors(w as int, h as int, col as int, row as int),
            coords@.map_values(|p: (usize, usize)| (p.0 as int, p.1 as int)) == spec_coords,
            k <= coords@.len(),
            v@.len() == k,
            forall|i: int|
                0 <= i < k ==> #[trigger] v@[i] == g@[spec_coords[i].1][spec_coords[i].0],
        decreases coords@.len() - k,
    {
        let (x, y) = coords[k];
        proof {
            assert(spec_coords[k as int] == (x as int, y as int));
            lemma_neighbors_in_bounds(w as int, h as int, col as int, row as int);
        }
        v.push(g.get(y, x));
        k += 1;
    }
    proof {
        assert(v@ =~= spec_neighbor_states(
            g@,
            w as int,
            h as int,
            col as int,
            row as int,
        ));
    }
    v
}

} // verus!
