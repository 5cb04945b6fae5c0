//! The simulation engine: the per-step grid transition with its diff, and
//! the event-loop state machine that applies one message at a time to the
//! grid, the viewport and the playback state, returning the terminal writes
//! and control effects the surrounding program must perform.

use vstd::prelude::*;
use crate::grid::Grid;
use crate::messages::{clamp_draw_state, cycle_draw_state, set_draw_state, shift_delay};
use crate::messages::{spec_shift_delay, EngineError, Message};
use crate::neighbors::neighbor_states;
use crate::neighbors::spec_neighbor_states;
use crate::render::{cell_render_ok, full_render, full_render_ok, render_cell, status_ok,
    status_writes, CellWrite};
use crate::render::{display_failed_on_grid, glyph_for};
use crate::viewport::{norm_shift, Viewport};

verus! {

/// `v` is a state the update callback may return for cell `(i, j)` of `g`,
/// given its current state and its neighbors in emission order.
pub open spec fn cell_successor<FU: Fn(u16, Vec<u16>) -> Result<u16, String>>(
    update: FU,
    g: Seq<Seq<u16>>,
    rows: int,
    cols: int,
    i: int,
    j: int,
    v: u16,
) -> bool {
    exists|ns: Vec<u16>|
        ns@ == spec_neighbor_states(g, cols, rows, j, i) && call_ensures(
            update,
            (g[i][j], ns),
            Ok(v),
        )
}

/// The update callback may fail with this error on an actual cell of `g`,
/// handed that cell's state and its neighbors in emission order.
pub open spec fn update_failed_on<FU: Fn(u16, Vec<u16>) -> Result<u16, String>>(
    update: FU,
    g: Seq<Seq<u16>>,
    rows: int,
    cols: int,
    e: String,
) -> bool {
    exists|i: int, j: int, ns: Vec<u16>|
        0 <= i < rows && 0 <= j < cols && ns@ == spec_neighbor_states(g, cols, rows, j, i)
            && #[trigger] call_ensures(update, (g[i][j], ns), Err(e))
}

/// The update callback may return the state `v` for an actual cell of `g`,
/// handed that cell's state and its neighbors in emission order.
pub open spec fn update_returned<FU: Fn(u16, Vec<u16>) -> Result<u16, String>>(
    update: FU,
    g: Seq<Seq<u16>>,
    rows: int,
    cols: int,
    v: u16,
) -> bool {
    exists|i: int, j: int, ns: Vec<u16>|
        0 <= i < rows && 0 <= j < cols && ns@ == spec_neighbor_states(g, cols, rows, j, i)
            && #[trigger] call_ensures(update, (g[i][j], ns), Ok(v))
}

/// Compute the whole next grid from scratch, one update call per cell. An
/// update result at or above the alphabet size is an error, not a state.
pub fn compute_next<FU: Fn(u16, Vec<u16>) -> Result<u16, String>>(g: &Grid, update: &FU) -> (r:
    Result<Vec<Vec<u16>>, EngineError>)
    requires
        g.wf(),
        forall|st: u16, ns: Vec<u16>| call_requires(*update, (st, ns)),
    ensures
        match r {
            Ok(next) => {
                &&& next@.len() == g.spec_rows()
                &&& forall|i: int|
                    0 <= i < next@.len() ==> (#[trigger] next@[i])@.len() == g.spec_cols()
                &&& forall|i: int, j: int|
                    0 <= i < g.spec_rows() && 0 <= j < g.spec_cols() ==> (#[trigger] next@[i]@[j])
                        < g.spec_states() && cell_successor(
                        *update,
                        g@,
                        g.spec_rows() as int,
                        g.spec_cols() as int,
                        i,
                        j,
                        next@[i]@[j],
                    )
            },
            Err(EngineError::UpdateFailed(m)) => update_failed_on(
                *update,
                g@,
                g.spec_rows() as int,
                g.spec_cols() as int,
                m,
            ),
            Err(EngineError::StateOutOfRange(v)) => v >= g.spec_states() && update_returned(
                *update,
                g@,
                g.spec_rows() as int,
                g.spec_cols() as int,
                v,
            ),
            Err(EngineError::DisplayFailed(_)) => false,
        },
{
    let rows = g.rows();
    let cols = g.cols();
    let states = g.states();
    let mut next: Vec<Vec<u16>> = Vec::new();
    let mut i: usize = 0;
    while i < rows
        invariant
            g.wf(),
            rows == g.spec_rows(),
            cols == g.spec_cols(),
            states == g.spec_states(),
            forall|st: u16, ns: Vec<u16>| call_requires(*update, (st, ns)),
            i <= rows,
            next@.len() == i,
            forall|a: int| 0 <= a < i ==> (#[trigger] next@[a])@.len() == cols,
            forall|a: int, b: int|
                0 <= a < i && 0 <= b < cols ==> (#[trigger] next@[a]@[b]) < states
                    && cell_successor(
                    *update,
                    g@,
                    rows as int,
                    cols as int,
                    a,
                    b,
                    next@[a]@[b],
                ),
        decreases rows - i,
    {
        let mut row: Vec<u16> = Vec::new();
        let mut j: usize = 0;
        while j < cols
            invariant
                g.wf(),
                rows == g.spec_rows(),
                cols == g.spec_cols(),
                states == g.spec_states(),
                forall|st: u16, ns: Vec<u16>| call_requires(*update, (st, ns)),
                i < rows,
                j <= cols,
                row@.len() == j,
                forall|b: int|
                    0 <= b < j ==> (#[trigger] row@[b]) < states && cell_successor(
                        *update,
                        g@,
                        rows as int,
                        cols as int,
                        i as int,
                        b,
                        row@[b],
                    ),
            decreases cols - j,
        {
            let cur = g.get(i, j);
            let ns = neighbor_states(g, i, j);
            let ghost ns_snapshot = ns;
            match update(cur, ns) {
                Ok(v) => {
                    if v >= states {
                        proof {
                            assert(call_ensures(
                                *update,
                                (g@[i as int][j as int], ns_snapshot),
                                Ok(v),
                            ));
                            assert(update_returned(
                                *update,
                                g@,
                                rows as int,
                                cols as int,
                                v,
                            ));
                        }
                        return Err(EngineError::StateOutOfRange(v));
                    }
                    row.push(v);
                    proof {
                        assert(cell_successor(
                            *update,
                            g@,
                            rows as int,
                            cols as int,
                            i as int,
                            j as int,
                            v,
                        ));
                    }
                },
                Err(m) => {
                    proof {
                        assert(call_ensures(
                            *update,
                            (g@[i as int][j as int], ns_snapshot),
                            Err(m),
                        ));
                        assert(update_failed_on(*update, g@, rows as int, cols as int, m));
                    }
                    return Err(EngineError::UpdateFailed(m));
                },
            }
            j += 1;
        }
        next.push(row);
        i += 1;
    }
    Ok(next)
}

/// The cells at which `next` differs from `g`, with their new states, in
/// row-major order: exactly the changed cells, each once.
pub fn diff_of(g: &Grid, next: &Vec<Vec<u16>>) -> (diff: Vec<(usize, usize, u16)>)
    requires
        g.wf(),
        next@.len() == g.spec_rows(),
        forall|i: int| 0 <= i < next@.len() ==> (#[trigger] next@[i])@.len() == g.spec_cols(),
    ensures
        forall|k: int|
            0 <= k < diff@.len() ==> {
                let d = #[trigger] diff@[k];
                &&& d.0 < g.spec_rows()
                &&& d.1 < g.spec_cols()
                &&& d.2 == next@[d.0 as int]@[d.1 as int]
                &&& d.2 != g@[d.0 as int][d.1 as int]
            },
        forall|i: int, j: int|
            0 <= i < g.spec_rows() && 0 <= j < g.spec_cols() && next@[i]@[j] != g@[i][j]
                ==> exists|k: int|
                0 <= k < diff@.len() && (#[trigger] diff@[k]).0 == i && diff@[k].1 == j,
        forall|k1: int, k2: int|
            0 <= k1 < k2 < diff@.len() ==> !((#[trigger] diff@[k1]).0 == (
            #[trigger] diff@[k2]).0 && diff@[k1].1 == diff@[k2].1),
{
    let rows = g.rows();
    let cols = g.cols();
    let mut diff: Vec<(usize, usize, u16)> = Vec::new();
    let mut i: usize = 0;
    while i < rows
        invariant
            g.wf(),
            rows == g.spec_rows(),
            cols == g.spec_cols(),
            next@.len() == rows,
            forall|a: int| 0 <= a < next@.len() ==> (#[trigger] next@[a])@.len() == cols,
            i <= rows,
            forall|k: int|
                0 <= k < diff@.len() ==> {
                    let d = #[trigger] diff@[k];
                    &&& d.0 < i
                    &&& d.1 < cols
                    &&& d.2 == next@[d.0 as int]@[d.1 as int]
                    &&& d.2 != g@[d.0 as int][d.1 as int]
                },
            forall|a: int, b: int|
                0 <= a < i && 0 <= b < cols && next@[a]@[b] != g@[a][b] ==> exists|k: int|
                    0 <= k < diff@.len() && (#[trigger] diff@[k]).0 == a && diff@[k].1 == b,
            forall|k1: int, k2: int|
                0 <= k1 < k2 < diff@.len() ==> (#[trigger] diff@[k1]).0 < (#[trigger] diff@[k2]).0
                    || (diff@[k1].0 == diff@[k2].0 && diff@[k1].1 < diff@[k2].1),
        decreases rows - i,
    {
        let mut j: usize = 0;
        while j < cols
            invariant
                g.wf(),
                rows == g.spec_rows(),
                cols == g.spec_cols(),
                next@.len() == rows,
                forall|a: int| 0 <= a < next@.len() ==> (#[trigger] next@[a])@.len() == cols,
                i < rows,
                j <= cols,
                forall|k: int|
                    0 <= k < diff@.len() ==> {
                        let d = #[trigger] diff@[k];
                        &&& (d.0 < i || (d.0 == i && d.1 < j))
                        &&& d.1 < cols
                        &&& d.2 == next@[d.0 as int]@[d.1 as int]
                        &&& d.2 != g@[d.0 as int][d.1 as int]
                    },
                forall|a: int, b: int|
                    0 <= a < i && 0 <= b < cols && next@[a]@[b] != g@[a][b] ==> exists|k: int|
                        0 <= k < diff@.len() && (#[trigger] diff@[k]).0 == a && diff@[k].1 == b,
                forall|b: int|
                    0 <= b < j && next@[i as int]@[b] != g@[i as int][b] ==> exists|k: int|
                        0 <= k < diff@.len() && (#[trigger] diff@[k]).0 == i && diff@[k].1 == b,
                forall|k1: int, k2: int|
                    0 <= k1 < k2 < diff@.len() ==> (#[trigger] diff@[k1]).0 < (
                    #[trigger] diff@[k2]).0 || (diff@[k1].0 == diff@[k2].0 && diff@[k1].1
                        < diff@[k2].1),
            decreases cols - j,
        {
            let newv = next[i][j];
            let oldv = g.get(i, j);
            if newv != oldv {
                let ghost olddiff = diff@;
                diff.push((i, j, newv));
                proof {
                    assert(forall|k: int|
                        0 <= k < olddiff.len() ==> diff@[k] == #[trigger] olddiff[k]);
                    assert(diff@[olddiff.len() as int] == (i, j, newv));
                }
            }
            j += 1;
        }
        i += 1;
    }
    diff
}

/// Write every diff entry into the grid; entries name distinct cells, so the
/// named cells take their new states and every other cell keeps its state.
pub fn apply_diff(g: &mut Grid, diff: &Vec<(usize, usize, u16)>)
    requires
        old(g).wf(),
        forall|k: int|
            0 <= k < diff@.len() ==> {
                let d = #[trigger] diff@[k];
                d.0 < old(g).spec_rows() && d.1 < old(g).spec_cols() && d.2 < old(
                    g,
                ).spec_states()
            },
        forall|k1: int, k2: int|
            0 <= k1 < k2 < diff@.len() ==> !((#[trigger] diff@[k1]).0 == (
            #[trigger] diff@[k2]).0 && diff@[k1].1 == diff@[k2].1),
    ensures
        final(g).wf(),
        final(g).spec_rows() == old(g).spec_rows(),
        final(g).spec_cols() == old(g).spec_cols(),
        final(g).spec_states() == old(g).spec_states(),
        forall|k: int|
            0 <= k < diff@.len() ==> final(g)@[(#[trigger] diff@[k]).0 as int][diff@[k].1 as int]
                == diff@[k].2,
        forall|i: int, j: int|
            0 <= i < old(g).spec_rows() && 0 <= j < old(g).spec_cols() && (forall|k: int|
                0 <= k < diff@.len() ==> !((#[trigger] diff@[k]).0 == i && diff@[k].1 == j))
                ==> final(g)@[i][j] == old(g)@[i][j],
{
    let mut t: usize = 0;
    while t < diff.len()
        invariant
            g.wf(),
            g.spec_rows() == old(g).spec_rows(),
            g.spec_cols() == old(g).spec_cols(),
            g.spec_states() == old(g).spec_states(),
            t <= diff@.len(),
            forall|k: int|
                0 <= k < diff@.len() ==> {
                    let d = #[trigger] diff@[k];
                    d.0 < g.spec_rows() && d.1 < g.spec_cols() && d.2 < g.spec_states()
                },
            forall|k1: int, k2: int|
                0 <= k1 < k2 < diff@.len() ==> !((#[trigger] diff@[k1]).0 == (
                #[trigger] diff@[k2]).0 && diff@[k1].1 == diff@[k2].1),
            forall|k: int|
                0 <= k < t ==> g@[(#[trigger] diff@[k]).0 as int][diff@[k].1 as int] == diff@[k].2,
            forall|i: int, j: int|
                0 <= i < g.spec_rows() && 0 <= j < g.spec_cols() && (forall|k: int|
                    0 <= k < t ==> !((#[trigger] diff@[k]).0 == i && diff@[k].1 == j)) ==> g@[i][j]
                    == old(g)@[i][j],
        decreases diff@.len() - t,
    {
        let (di, dj, dv) = diff[t];
        g.set(di, dj, dv);
        t += 1;
    }
}

/// A correct simulation step from `pre` to `post` emitting `diff`: every
/// cell of `post` is a possible update result for the matching cell of
/// `pre`; the diff entries name distinct changed cells with their new
/// states; and every cell the diff does not name is unchanged — so the diff
/// is exactly the set of changed cells, and applying it to `pre` yields the
/// full from-scratch recomputation `post`.
pub open spec fn step_ok<FU: Fn(u16, Vec<u16>) -> Result<u16, String>>(
    update: FU,
    pre: Seq<Seq<u16>>,
    post: Seq<Seq<u16>>,
    rows: int,
    cols: int,
    diff: Seq<(usize, usize, u16)>,
) -> bool {
    &&& forall|i: int, j: int|
        0 <= i < rows && 0 <= j < cols ==> cell_successor(
            update,
            pre,
            rows,
            cols,
            i,
            j,
            #[trigger] post[i][j],
        )
    &&& forall|k: int|
        0 <= k < diff.len() ==> {
            let d = #[trigger] diff[k];
            &&& d.0 < rows
            &&& d.1 < cols
            &&& d.2 == post[d.0 as int][d.1 as int]
            &&& d.2 != pre[d.0 as int][d.1 as int]
        }
    &&& forall|i: int, j: int|
        0 <= i < rows && 0 <= j < cols && (forall|k: int|
            0 <= k < diff.len() ==> !((#[trigger] diff[k]).0 == i && diff[k].1 == j))
            ==> #[trigger] post[i][j] == pre[i][j]
    &&& forall|k1: int, k2: int|
        0 <= k1 < k2 < diff.len() ==> !((#[trigger] diff[k1]).0 == (#[trigger] diff[k2]).0
            && diff[k1].1 == diff[k2].1)
}

/// Advance the grid one simulation step. The returned diff names exactly the
/// cells whose state changed, with their new states; the grid afterwards
/// equals the full from-scratch recomputation, and is untouched on error.
#[verifier::rlimit(100)]
pub fn step<FU: Fn(u16, Vec<u16>) -> Result<u16, String>>(g: &mut Grid, update: &FU) -> (r: Result<
    Vec<(usize, usize, u16)>,
    EngineError,
>)
    requires
        old(g).wf(),
        forall|st: u16, ns: Vec<u16>| call_requires(*update, (st, ns)),
    ensures
        final(g).wf(),
        final(g).spec_rows() == old(g).spec_rows(),
        final(g).spec_cols() == old(g).spec_cols(),
        final(g).spec_states() == old(g).spec_states(),
        r matches Ok(diff) ==> step_ok(
            *update,
            old(g)@,
            final(g)@,
            old(g).spec_rows() as int,
            old(g).spec_cols() as int,
            diff@,
        ),
        r matches Err(e) ==> final(g)@ == old(g)@ && match e {
            EngineError::UpdateFailed(m) => update_failed_on(
                *update,
                old(g)@,
                old(g).spec_rows() as int,
                old(g).spec_cols() as int,
                m,
            ),
            EngineError::StateOutOfRange(v) => v >= old(g).spec_states() && update_returned(
                *update,
                old(g)@,
                old(g).spec_rows() as int,
                old(g).spec_cols() as int,
                v,
            ),
            EngineError::DisplayFailed(_) => false,
        },
{
    let next = match compute_next(g, update) {
        Ok(next) => next,
        Err(e) => {
            return Err(e);
        },
    };
    let diff = diff_of(g, &next);
    let ghost pre = g@;
    apply_diff(g, &diff);
    proof {
        assert forall|i: int, j: int|
            0 <= i < g.spec_rows() && 0 <= j < g.spec_cols() implies #[trigger] g@[i][j]
            == next@[i]@[j] by {
            if next@[i]@[j] != pre[i][j] {
                let k = choose|k: int|
                    0 <= k < diff@.len() && (#[trigger] diff@[k]).0 == i && diff@[k].1 == j;
                assert(g@[i][j] == diff@[k].2);
            } else {
                assert forall|k: int| 0 <= k < diff@.len() implies !((#[trigger] diff@[k]).0 == i
                    && diff@[k].1 == j) by {
                    if diff@[k].0 == i && diff@[k].1 == j {
                        assert(diff@[k].2 != pre[i][j]);
                    }
                }
            }
        }
        assert(step_ok(
            *update,
            old(g)@,
            g@,
            old(g).spec_rows() as int,
            old(g).spec_cols() as int,
            diff@,
        ));
    }
    Ok(diff)
}

/// What one message asks the surrounding program to do after the engine has
/// applied it: leave the loop, put a step message on the queue now, schedule
/// a step message after a delay, clear the screen, and perform the cell and
/// status writes in order.
pub struct Outcome {
    pub exit: bool,
    pub enqueue_step: bool,
    pub schedule_step_after: Option<u64>,
    pub clear_screen: bool,
    pub writes: Vec<CellWrite>,
    pub status: Vec<CellWrite>,
}

/// An outcome that asks for nothing.
pub open spec fn quiet_outcome(o: Outcome) -> bool {
    &&& !o.exit
    &&& !o.enqueue_step
    &&& o.schedule_step_after is None
    &&& !o.clear_screen
    &&& o.writes@.len() == 0
    &&& o.status@.len() == 0
}

impl Outcome {
    /// The outcome that asks for nothing.
    pub fn quiet() -> (o: Outcome)
        ensures
            quiet_outcome(o),
    {
        Outcome {
            exit: false,
            enqueue_step: false,
            schedule_step_after: None,
            clear_screen: false,
            writes: Vec::new(),
            status: Vec::new(),
        }
    }
}

/// The write `w` shows some diff cell's new glyph at a position that
/// displays that cell.
pub open spec fn write_for_diff<FD: Fn(u16) -> Result<String, String>>(
    display: FD,
    vp: Viewport,
    diff: Seq<(usize, usize, u16)>,
    w: CellWrite,
    term_rows: int,
    term_cols: int,
) -> bool {
    exists|d: int|
        0 <= d < diff.len() && vp.shows_cell(
            w.row as int,
            w.col as int,
            (#[trigger] diff[d]).0 as int,
            diff[d].1 as int,
            term_rows,
            term_cols,
        ) && glyph_for(display, diff[d].2, w.text@)
}

/// Some write in `ws` puts the glyph of state `v` at `(tr, tc)`.
pub open spec fn position_written<FD: Fn(u16) -> Result<String, String>>(
    display: FD,
    v: u16,
    ws: Seq<CellWrite>,
    tr: int,
    tc: int,
) -> bool {
    exists|k: int|
        0 <= k < ws.len() && (#[trigger] ws[k]).row == tr && ws[k].col == tc && glyph_for(
            display,
            v,
            ws[k].text@,
        )
}

/// A correct incremental repaint of a whole diff: every write shows some
/// changed cell's new glyph at a position that displays that cell, and every
/// position displaying a changed cell is written with its new glyph.
pub open spec fn step_writes_ok<FD: Fn(u16) -> Result<String, String>>(
    display: FD,
    vp: Viewport,
    diff: Seq<(usize, usize, u16)>,
    term_rows: int,
    term_cols: int,
    ws: Seq<CellWrite>,
) -> bool {
    &&& forall|k: int|
        0 <= k < ws.len() ==> write_for_diff(
            display,
            vp,
            diff,
            #[trigger] ws[k],
            term_rows,
            term_cols,
        )
    &&& forall|d: int, tr: int, tc: int|
        0 <= d < diff.len() && #[trigger] vp.shows_cell(
            tr,
            tc,
            diff[d].0 as int,
            diff[d].1 as int,
            term_rows,
            term_cols,
        ) ==> position_written(display, diff[d].2, ws, tr, tc)
}

/// The whole mutable state of the viewer: the grid, the viewport over it,
/// and the playback state.
pub struct Engine {
    pub grid: Grid,
    pub viewport: Viewport,
    pub playing: bool,
    pub delay: u64,
    pub draw_state: u16,
}

impl Engine {
    /// The engine invariant: a well-formed grid, a viewport over the same
    /// dimensions, and a draw state inside `[1, States - 1]`.
    pub open spec fn wf(&self) -> bool {
        &&& self.grid.wf()
        &&& self.viewport.wf()
        &&& self.viewport.spec_rows() == self.grid.spec_rows()
        &&& self.viewport.spec_cols() == self.grid.spec_cols()
        &&& 1 <= self.draw_state < self.grid.spec_states()
    }

    /// The grid contents are unchanged.
    pub open spec fn same_grid(pre: Engine, post: Engine) -> bool {
        post.grid@ == pre.grid@
    }

    /// The viewport is unchanged.
    pub open spec fn same_viewport(pre: Engine, post: Engine) -> bool {
        post.viewport == pre.viewport
    }

    /// The playback state is unchanged.
    pub open spec fn same_playback(pre: Engine, post: Engine) -> bool {
        &&& post.playing == pre.playing
        &&& post.delay == pre.delay
        &&& post.draw_state == pre.draw_state
    }

    /// Start paused at the grid origin, drawing with state `1`.
    pub fn new(grid: Grid, delay: u64) -> (e: Engine)
        requires
            grid.wf(),
        ensures
            e.wf(),
            e.grid == grid,
            e.viewport.spec_row_offset() == 0,
            e.viewport.spec_col_offset() == 0,
            !e.playing,
            e.delay == delay,
            e.draw_state == 1,
    {
        let rows = grid.rows();
        let cols = grid.cols();
        Engine {
            grid,
            viewport: Viewport::new(rows, cols),
            playing: false,
            delay,
            draw_state: 1,
        }
    }

    /// Apply one message: mutate the grid, viewport and playback state as
    /// the message asks, and return what the surrounding program must do.
    /// A callback failure is fatal and surfaced verbatim.
    pub fn handle_message<
        FU: Fn(u16, Vec<u16>) -> Result<u16, String>,
        FD: Fn(u16) -> Result<String, String>,
    >(
        &mut self,
        msg: Message,
        term_rows: u16,
        term_cols: u16,
        update: &FU,
        display: &FD,
    ) -> (r: Result<Outcome, EngineError>)
        requires
            old(self).wf(),
            term_rows <= 0xfffe,
            forall|st: u16, ns: Vec<u16>| call_requires(*update, (st, ns)),
            forall|st: u16| call_requires(*display, (st,)),
        ensures
            final(self).wf(),
            final(self).grid.spec_rows() == old(self).grid.spec_rows(),
            final(self).grid.spec_cols() == old(self).grid.spec_cols(),
            final(self).grid.spec_states() == old(self).grid.spec_states(),
            r matches Ok(o) ==> (msg == Message::Exit ==> o.exit && !o.enqueue_step
                && o.schedule_step_after is None && !o.clear_screen && o.writes@.len() == 0
                && o.status@.len() == 0 && Self::same_grid(*old(self), *final(self))
                && Self::same_viewport(*old(self), *final(self)) && Self::same_playback(
                *old(self),
                *final(self),
            )),
            r matches Ok(o) ==> (msg == Message::ScreenClear ==> o.clear_screen && !o.exit
                && !o.enqueue_step && o.schedule_step_after is None && o.writes@.len() == 0
                && o.status@.len() == 0 && Self::same_grid(*old(self), *final(self))
                && Self::same_viewport(*old(self), *final(self)) && Self::same_playback(
                *old(self),
                *final(self),
            )),
            r matches Ok(o) ==> (msg matches Message::ShiftRow(d) ==> quiet_outcome(o)
                && Self::same_grid(*old(self), *final(self)) && Self::same_playback(
                *old(self),
                *final(self),
            ) && final(self).viewport.spec_col_offset() == old(self).viewport.spec_col_offset()
                && final(self).viewport.spec_row_offset() == norm_shift(
                old(self).viewport.spec_row_offset() as int,
                d as int,
                old(self).viewport.spec_rows() as int,
            )),
            r matches Ok(o) ==> (msg matches Message::ShiftCol(d) ==> quiet_outcome(o)
                && Self::same_grid(*old(self), *final(self)) && Self::same_playback(
                *old(self),
                *final(self),
            ) && final(self).viewport.spec_row_offset() == old(self).viewport.spec_row_offset()
                && final(self).viewport.spec_col_offset() == norm_shift(
                old(self).viewport.spec_col_offset() as int,
                d as int,
                old(self).viewport.spec_cols() as int,
            )),
            r matches Ok(o) ==> (msg matches Message::ShiftDelay(d) ==> quiet_outcome(o)
                && Self::same_grid(*old(self), *final(self)) && Self::same_viewport(
                *old(self),
                *final(self),
            ) && final(self).playing == old(self).playing && final(self).draw_state == old(
                self,
            ).draw_state && final(self).delay == spec_shift_delay(old(self).delay, d as int)),
            r matches Ok(o) ==> (msg matches Message::CycleState(d) ==> !o.exit && !o.enqueue_step
                && o.schedule_step_after is None && !o.clear_screen && o.writes@.len() == 0
                && Self::same_grid(*old(self), *final(self)) && Self::same_viewport(
                *old(self),
                *final(self),
            ) && final(self).playing == old(self).playing && final(self).delay == old(self).delay
                && final(self).draw_state == clamp_draw_state(
                old(self).draw_state - d as int,
                old(self).grid.spec_states(),
            ) && status_ok(
                final(self).draw_state,
                term_rows as int,
                term_cols as int,
                o.status@,
            )),
            r matches Ok(o) ==> (msg matches Message::SetState(v) ==> !o.exit && !o.enqueue_step
                && o.schedule_step_after is None && !o.clear_screen && o.writes@.len() == 0
                && Self::same_grid(*old(self), *final(self)) && Self::same_viewport(
                *old(self),
                *final(self),
            ) && final(self).playing == old(self).playing && final(self).delay == old(self).delay
                && final(self).draw_state == clamp_draw_state(
                v as int,
                old(self).grid.spec_states(),
            ) && status_ok(
                final(self).draw_state,
                term_rows as int,
                term_cols as int,
                o.status@,
            )),
            r matches Ok(o) ==> (msg == Message::PlayPause ==> !o.exit
                && o.enqueue_step == final(self).playing
                && o.schedule_step_after is None && !o.clear_screen && o.writes@.len() == 0
                && o.status@.len() == 0 && Self::same_grid(*old(self), *final(self))
                && Self::same_viewport(*old(self), *final(self)) && final(self).playing == !old(
                self,
            ).playing && final(self).delay == old(self).delay && final(self).draw_state == old(
                self,
            ).draw_state),
            r matches Ok(o) ==> (msg == Message::Randomize ==> quiet_outcome(o)
                && Self::same_viewport(*old(self), *final(self)) && Self::same_playback(
                *old(self),
                *final(self),
            )),
            r matches Ok(o) ==> (msg == Message::GridClear ==> quiet_outcome(o)
                && Self::same_viewport(*old(self), *final(self)) && Self::same_playback(
                *old(self),
                *final(self),
            ) && forall|i: int, j: int|
                0 <= i < old(self).grid.spec_rows() && 0 <= j < old(self).grid.spec_cols()
                    ==> final(self).grid@[i][j] == 0),
            r matches Ok(o) ==> (msg matches Message::Draw(x, y) ==> {
                let di = (y as int + old(self).viewport.spec_row_offset()) % old(
                    self,
                ).viewport.spec_rows() as int;
                let dj = (x as int / 2 + old(self).viewport.spec_col_offset()) % old(
                    self,
                ).viewport.spec_cols() as int;
                &&& !o.exit
                &&& !o.enqueue_step
                &&& o.schedule_step_after is None
                &&& !o.clear_screen
                &&& o.status@.len() == 0
                &&& Self::same_viewport(*old(self), *final(self))
                &&& Self::same_playback(*old(self), *final(self))
                &&& final(self).grid@ == old(self).grid@.update(
                    di,
                    old(self).grid@[di].update(dj, old(self).draw_state),
                )
                &&& cell_render_ok(
                    *display,
                    old(self).viewport,
                    di,
                    dj,
                    old(self).draw_state,
                    term_rows as int,
                    term_cols as int,
                    o.writes@,
                )
            }),
            r matches Ok(o) ==> (msg matches Message::Erase(x, y) ==> {
                let di = (y as int + old(self).viewport.spec_row_offset()) % old(
                    self,
                ).viewport.spec_rows() as int;
                let dj = (x as int / 2 + old(self).viewport.spec_col_offset()) % old(
                    self,
                ).viewport.spec_cols() as int;
                &&& !o.exit
                &&& !o.enqueue_step
                &&& o.schedule_step_after is None
                &&& !o.clear_screen
                &&& o.status@.len() == 0
                &&& Self::same_viewport(*old(self), *final(self))
                &&& Self::same_playback(*old(self), *final(self))
                &&& final(self).grid@ == old(self).grid@.update(
                    di,
                    old(self).grid@[di].update(dj, 0u16),
                )
                &&& cell_render_ok(
                    *display,
                    old(self).viewport,
                    di,
                    dj,
                    0u16,
                    term_rows as int,
                    term_cols as int,
                    o.writes@,
                )
            }),
            r matches Ok(o) ==> (msg == Message::Step ==> !o.exit && !o.enqueue_step
                && !o.clear_screen && o.status@.len() == 0 && o.schedule_step_after == (if old(
                self,
            ).playing {
                Some(old(self).delay)
            } else {
                None
            }) && Self::same_viewport(*old(self), *final(self)) && Self::same_playback(
                *old(self),
                *final(self),
            ) && exists|diff: Seq<(usize, usize, u16)>|
                #[trigger] step_ok(
                    *update,
                    old(self).grid@,
                    final(self).grid@,
                    old(self).grid.spec_rows() as int,
                    old(self).grid.spec_cols() as int,
                    diff,
                ) && step_writes_ok(
                    *display,
                    old(self).viewport,
                    diff,
                    term_rows as int,
                    term_cols as int,
                    o.writes@,
                )),
            r matches Ok(o) ==> (msg == Message::Render ==> !o.exit && !o.enqueue_step
                && o.schedule_step_after is None && !o.clear_screen
                && Self::same_grid(*old(self), *final(self)) && Self::same_viewport(
                *old(self),
                *final(self),
            ) && Self::same_playback(*old(self), *final(self)) && full_render_ok(
                *display,
                old(self).grid@,
                old(self).viewport,
                term_rows as int,
                term_cols as int,
                o.writes@,
            ) && status_ok(old(self).draw_state, term_rows as int, term_cols as int, o.status@)),
            !(msg == Message::Step || msg matches Message::Draw(_, _) || msg matches Message::Erase(
                _,
                _,
            ) || msg == Message::Render) ==> r is Ok,
            r matches Err(e) ==> match e {
                EngineError::UpdateFailed(m) => msg == Message::Step && update_failed_on(
                    *update,
                    old(self).grid@,
                    old(self).grid.spec_rows() as int,
                    old(self).grid.spec_cols() as int,
                    m,
                ),
                EngineError::StateOutOfRange(v) => msg == Message::Step && v >= old(
                    self,
                ).grid.spec_states() && update_returned(
                    *update,
                    old(self).grid@,
                    old(self).grid.spec_rows() as int,
                    old(self).grid.spec_cols() as int,
                    v,
                ),
                EngineError::DisplayFailed(m) => {
                    ||| msg matches Message::Draw(_, _) && call_ensures(
                        *display,
                        (old(self).draw_state,),
                        Err(m),
                    )
                    ||| msg matches Message::Erase(_, _) && call_ensures(
                        *display,
                        (0u16,),
                        Err(m),
                    )
                    ||| msg == Message::Render && display_failed_on_grid(
                        *display,
                        old(self).grid@,
                        m,
                    )
                    ||| msg == Message::Step && display_failed_on_grid(
                        *display,
                        final(self).grid@,
                        m,
                    )
                },
            },
    {
        match msg {
            Message::Exit => {
                let mut o = Outcome::quiet();
                o.exit = true;
                Ok(o)
            },
            Message::ScreenClear => {
                let mut o = Outcome::quiet();
                o.clear_screen = true;
                Ok(o)
            },
            Message::ShiftRow(d) => {
                self.viewport.shift_row(d);
                Ok(Outcome::quiet())
            },
            Message::ShiftCol(d) => {
                self.viewport.shift_col(d);
                Ok(Outcome::quiet())
            },
            Message::ShiftDelay(d) => {
                self.delay = shift_delay(self.delay, d);
                Ok(Outcome::quiet())
            },
            Message::CycleState(d) => {
                self.draw_state = cycle_draw_state(self.draw_state, d, self.grid.states());
                let mut o = Outcome::quiet();
                o.status = status_writes(self.draw_state, term_rows, term_cols);
                Ok(o)
            },
            Message::SetState(v) => {
                self.draw_state = set_draw_state(v, self.grid.states());
                let mut o = Outcome::quiet();
                o.status = status_writes(self.draw_state, term_rows, term_cols);
                Ok(o)
            },
            Message::PlayPause => {
                self.playing = !self.playing;
                let mut o = Outcome::quiet();
                o.enqueue_step = self.playing;
                Ok(o)
            },
            Message::Randomize => {
                self.grid.randomize();
                Ok(Outcome::quiet())
            },
            Message::GridClear => {
                self.grid.clear();
                Ok(Outcome::quiet())
            },
            Message::Draw(x, y) => {
                let (di, dj) = self.viewport.to_logical(y, x / 2);
                self.grid.set(di, dj, self.draw_state);
                let ws = match render_cell(
                    &self.viewport,
                    di,
                    dj,
                    self.draw_state,
                    term_rows,
                    term_cols,
                    display,
                ) {
                    Ok(ws) => ws,
                    Err(m) => {
                        return Err(EngineError::DisplayFailed(m));
                    },
                };
                let mut o = Outcome::quiet();
                o.writes = ws;
                Ok(o)
            },
            Message::Erase(x, y) => {
                let (di, dj) = self.viewport.to_logical(y, x / 2);
                self.grid.set(di, dj, 0);
                let ws = match render_cell(
                    &self.viewport,
                    di,
                    dj,
                    0,
                    term_rows,
                    term_cols,
                    display,
                ) {
                    Ok(ws) => ws,
                    Err(m) => {
                        return Err(EngineError::DisplayFailed(m));
                    },
                };
                let mut o = Outcome::quiet();
                o.writes = ws;
                Ok(o)
            },
            Message::Step => {
                let sched: Option<u64> = if self.playing {
                    Some(self.delay)
                } else {
                    None
                };
                let diff = match step(&mut self.grid, update) {
                    Ok(diff) => diff,
                    Err(e) => {
                        return Err(e);
                    },
                };
                let ghost diffg = diff@;
                let mut ws: Vec<CellWrite> = Vec::new();
                let mut t: usize = 0;
                while t < diff.len()
                    invariant
                        self.wf(),
                        self.grid.spec_rows() == old(self).grid.spec_rows(),
                        self.grid.spec_cols() == old(self).grid.spec_cols(),
                        self.grid.spec_states() == old(self).grid.spec_states(),
                        self.viewport == old(self).viewport,
                        self.playing == old(self).playing,
                        self.delay == old(self).delay,
                        self.draw_state == old(self).draw_state,
                        msg == Message::Step,
                        forall|st: u16| call_requires(*display, (st,)),
                        diffg == diff@,
                        forall|k: int|
                            0 <= k < diffg.len() ==> (#[trigger] diffg[k]).0 < old(
                                self,
                            ).grid.spec_rows() && diffg[k].1 < old(self).grid.spec_cols(),
                        step_ok(
                            *update,
                            old(self).grid@,
                            self.grid@,
                            old(self).grid.spec_rows() as int,
                            old(self).grid.spec_cols() as int,
                            diffg,
                        ),
                        t <= diffg.len(),
                        forall|k: int|
                            0 <= k < ws@.len() ==> write_for_diff(
                                *display,
                                old(self).viewport,
                                diffg,
                                #[trigger] ws@[k],
                                term_rows as int,
                                term_cols as int,
                            ),
                        forall|d: int, tr: int, tc: int|
                            0 <= d < t && #[trigger] old(self).viewport.shows_cell(
                                tr,
                                tc,
                                diffg[d].0 as int,
                                diffg[d].1 as int,
                                term_rows as int,
                                term_cols as int,
                            ) ==> position_written(*display, diffg[d].2, ws@, tr, tc),
                    decreases diffg.len() - t,
                {
                    let (di, dj, dv) = diff[t];
                    let mut cw = match render_cell(
                        &self.viewport,
                        di,
                        dj,
                        dv,
                        term_rows,
                        term_cols,
                        display,
                    ) {
                        Ok(cw) => cw,
                        Err(m) => {
                            proof {
                                assert(diffg[t as int].2 == self.grid@[di as int][dj as int]);
                                assert(call_ensures(
                                    *display,
                                    (self.grid@[di as int][dj as int],),
                                    Err(m),
                                ));
                                assert(display_failed_on_grid(*display, self.grid@, m));
                            }
                            return Err(EngineError::DisplayFailed(m));
                        },
                    };
                    let ghost oldws = ws@;
                    let ghost cwg = cw@;
                    ws.append(&mut cw);
                    proof {
                        assert(ws@ == oldws + cwg);
                        assert(forall|k: int|
                            0 <= k < oldws.len() ==> ws@[k] == #[trigger] oldws[k]);
                        assert(forall|k: int|
                            oldws.len() <= k < ws@.len() ==> ws@[k] == #[trigger] cwg[k
                                - oldws.len()]);
                        assert forall|k: int|
                            0 <= k < ws@.len() implies write_for_diff(
                            *display,
                            old(self).viewport,
                            diffg,
                            #[trigger] ws@[k],
                            term_rows as int,
                            term_cols as int,
                        ) by {
                            if k >= oldws.len() {
                                let d = t as int;
                                assert(ws@[k] == cwg[k - oldws.len()]);
                                assert(old(self).viewport.shows_cell(
                                    ws@[k].row as int,
                                    ws@[k].col as int,
                                    diffg[d].0 as int,
                                    diffg[d].1 as int,
                                    term_rows as int,
                                    term_cols as int,
                                ) && glyph_for(*display, diffg[d].2, ws@[k].text@));
                            } else {
                                assert(write_for_diff(
                                    *display,
                                    old(self).viewport,
                                    diffg,
                                    oldws[k],
                                    term_rows as int,
                                    term_cols as int,
                                ));
                            }
                        }
                        assert forall|d: int, tr: int, tc: int|
                            0 <= d < t + 1 && #[trigger] old(self).viewport.shows_cell(
                                tr,
                                tc,
                                diffg[d].0 as int,
                                diffg[d].1 as int,
                                term_rows as int,
                                term_cols as int,
                            ) implies position_written(*display, diffg[d].2, ws@, tr, tc) by {
                            if d < t {
                                assert(position_written(*display, diffg[d].2, oldws, tr, tc));
                                let k = choose|k: int|
                                    0 <= k < oldws.len() && (#[trigger] oldws[k]).row == tr
                                        && oldws[k].col == tc && glyph_for(
                                        *display,
                                        diffg[d].2,
                                        oldws[k].text@,
                                    );
                                assert(ws@[k] == oldws[k]);
                            } else {
                                let k = choose|k: int|
                                    0 <= k < cwg.len() && (#[trigger] cwg[k]).row == tr
                                        && cwg[k].col == tc;
                                assert(ws@[oldws.len() + k] == cwg[k]);
                                assert(glyph_for(*display, dv, cwg[k].text@));
                                assert((#[trigger] ws@[oldws.len() + k]).row == tr && ws@[
                                    oldws.len() + k].col == tc);
                            }
                        }
                    }
                    t += 1;
                }
                let mut o = Outcome::quiet();
                o.schedule_step_after = sched;
                o.writes = ws;
                proof {
                    assert(step_writes_ok(
                        *display,
                        old(self).viewport,
                        diffg,
                        term_rows as int,
                        term_cols as int,
                        o.writes@,
                    ));
                    assert(step_ok(
                        *update,
                        old(self).grid@,
                        self.grid@,
                        old(self).grid.spec_rows() as int,
                        old(self).grid.spec_cols() as int,
                        diffg,
                    ));
                }
                Ok(o)
            },
            Message::Render => {
                let ws = match full_render(
                    &self.grid,
                    &self.viewport,
                    term_rows,
                    term_cols,
                    display,
                ) {
                    Ok(ws) => ws,
                    Err(m) => {
                        return Err(EngineError::DisplayFailed(m));
                    },
                };
                let st = status_writes(self.draw_state, term_rows, term_cols);
                let mut o = Outcome::quiet();
                o.writes = ws;
                o.status = st;
                Ok(o)
            },
        }
    }
}

} // verus!

