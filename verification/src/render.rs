//! The renderer: the list of terminal writes that puts a grid, a single
//! cell's tiled occurrences, or the status legend on the screen. The writes
//! are plain values; the surrounding program performs them in order.

use vstd::prelude::*;
use vstd::arithmetic::div_mod::lemma_fundamental_div_mod_converse;
use crate::codec::dec_of;
use crate::codec::u16_to_string;
use crate::grid::Grid;
use crate::viewport::Viewport;

verus! {

/// The key legend shown under the grid.
pub const CONTROLS: &'static str =
    "[q] Exit [hjkl/wasd/arrows] Move [+/-] Change speed [r] Randomize [c] Clear [s] Save pattern";

/// The second legend line, completed by the current draw state.
pub const CONTROLS2: &'static str =
    "[space] Play/Pause [tab] Step [leftclick] Draw [rightclick] Erase [scroll/1-9] Change state";

/// One pending terminal write: a glyph placed at a character position.
pub struct CellWrite {
    pub row: u16,
    pub col: u16,
    pub text: String,
}

/// A glyph forced to exactly two characters: longer text is truncated,
/// shorter text is padded with trailing spaces.
pub open spec fn normalized_glyph(s: Seq<char>) -> Seq<char> {
    if s.len() >= 2 {
        s.take(2)
    } else if s.len() == 1 {
        s.push(' ')
    } else {
        seq![' ', ' ']
    }
}

/// Make a glyph exactly two characters wide.
pub fn normalize_cell(s: &str) -> (r: String)
    ensures
        r@ == normalized_glyph(s@),
        r@.len() == 2,
{
    let n = s.unicode_len();
    if n >= 2 {
        let t = s.substring_char(0, 2);
        let r = String::from_str(t);
        proof {
            assert(r@ =~= s@.take(2));
        }
        r
    } else if n == 1 {
        let mut t = String::from_str(s);
        t.append(" ");
        proof {
            reveal_strlit(" ");
            assert(" "@ =~= seq![' ']);
            assert(t@ =~= s@.push(' '));
        }
        t
    } else {
        let t = String::from_str("  ");
        proof {
            reveal_strlit("  ");
            assert(t@ =~= seq![' ', ' ']);
            assert(s@ =~= Seq::<char>::empty());
        }
        t
    }
}

/// `text` is the normalized form of something the display callback may
/// return for `state`.
pub open spec fn glyph_for<FD: Fn(u16) -> Result<String, String>>(
    display: FD,
    state: u16,
    text: Seq<char>,
) -> bool {
    exists|raw: String|
        call_ensures(display, (state,), Ok(raw)) && text == normalized_glyph(raw@)
}

/// The display callback may fail with this error on a state the grid
/// actually holds.
pub open spec fn display_failed_on_grid<FD: Fn(u16) -> Result<String, String>>(
    display: FD,
    g: Seq<Seq<u16>>,
    e: String,
) -> bool {
    exists|i: int, j: int|
        0 <= i < g.len() && 0 <= j < g[i].len() && call_ensures(display, (#[trigger] g[i][j],), Err(e))
}

/// The number of two-character cell columns on a terminal `term_cols`
/// characters wide.
pub open spec fn cell_cols_of(term_cols: int) -> int {
    (term_cols + 1) / 2
}

/// A correct full repaint: one write for every visible cell position, row by
/// row, each showing the glyph of the logical cell found through the
/// viewport.
pub open spec fn full_render_ok<FD: Fn(u16) -> Result<String, String>>(
    display: FD,
    g: Seq<Seq<u16>>,
    vp: Viewport,
    term_rows: int,
    term_cols: int,
    ws: Seq<CellWrite>,
) -> bool {
    let cc = cell_cols_of(term_cols);
    &&& ws.len() == term_rows * cc
    &&& forall|k: int|
        0 <= k < ws.len() ==> {
            let i = k / cc;
            let j = k % cc;
            &&& (#[trigger] ws[k]).row == i
            &&& ws[k].col == 2 * j
            &&& glyph_for(
                display,
                g[(i + vp.spec_row_offset()) % vp.spec_rows() as int][(j
                    + vp.spec_col_offset()) % vp.spec_cols() as int],
                ws[k].text@,
            )
        }
}

/// Repaint the whole visible area: one write per cell position.
pub fn full_render<FD: Fn(u16) -> Result<String, String>>(
    g: &Grid,
    vp: &Viewport,
    term_rows: u16,
    term_cols: u16,
    display: &FD,
) -> (r: Result<Vec<CellWrite>, String>)
    requires
        g.wf(),
        vp.wf(),
        vp.spec_rows() == g.spec_rows(),
        vp.spec_cols() == g.spec_cols(),
        forall|st: u16| call_requires(*display, (st,)),
    ensures
        match r {
            Ok(ws) => full_render_ok(
                *display,
                g@,
                *vp,
                term_rows as int,
                term_cols as int,
                ws@,
            ),
            Err(e) => display_failed_on_grid(*display, g@, e),
        },
{
    let cc: usize = (term_cols as usize + 1) / 2;
    let mut ws: Vec<CellWrite> = Vec::new();
    let mut i: usize = 0;
    while i < term_rows as usize
        invariant
            g.wf(),
            vp.wf(),
            vp.spec_rows() == g.spec_rows(),
            vp.spec_cols() == g.spec_cols(),
            forall|st: u16| call_requires(*display, (st,)),
            cc == cell_cols_of(term_cols as int),
            i <= term_rows,
            ws@.len() == i * cc,
            forall|k: int|
                0 <= k < ws@.len() ==> {
                    let a = k / cc as int;
                    let b = k % cc as int;
                    &&& (#[trigger] ws@[k]).row == a
                    &&& ws@[k].col == 2 * b
                    &&& glyph_for(
                        *display,
                        g@[(a + vp.spec_row_offset()) % vp.spec_rows() as int][(b
                            + vp.spec_col_offset()) % vp.spec_cols() as int],
                        ws@[k].text@,
                    )
                },
        decreases term_rows - i,
    {
        let mut j: usize = 0;
        proof {
            assert(i * cc + cc == (i + 1) * cc) by (nonlinear_arith);
            assert(i * cc <= 0xffff * cc) by (nonlinear_arith)
                requires
                    i <= 0xffff && cc >= 0,
            ;
        }
        while j < cc
            invariant
                g.wf(),
                vp.wf(),
                vp.spec_rows() == g.spec_rows(),
                vp.spec_cols() == g.spec_cols(),
                forall|st: u16| call_requires(*display, (st,)),
                cc == cell_cols_of(term_cols as int),
                i < term_rows,
                j <= cc,
                cc <= 0x8000,
                ws@.len() == i * cc + j,
                i * cc + cc == (i + 1) * cc,
                i * cc <= 0xffff * cc,
                forall|k: int|
                    0 <= k < ws@.len() ==> {
                        let a = k / cc as int;
                        let b = k % cc as int;
                        &&& (#[trigger] ws@[k]).row == a
                        &&& ws@[k].col == 2 * b
                        &&& glyph_for(
                            *display,
                            g@[(a + vp.spec_row_offset()) % vp.spec_rows() as int][(b
                                + vp.spec_col_offset()) % vp.spec_cols() as int],
                            ws@[k].text@,
                        )
                    },
            decreases cc - j,
        {
            let (di, dj) = vp.to_logical(i as u16, j as u16);
            let state = g.get(di, dj);
            let raw = match display(state) {
                Ok(raw) => raw,
                Err(e) => {
                    proof {
                        assert(0 <= di < g@.len() && 0 <= dj < g@[di as int].len());
                        assert(call_ensures(*display, (g@[di as int][dj as int],), Err(e)));
                    }
                    return Err(e);
                },
            };
            let text = normalize_cell(raw.as_str());
            let ghost oldws = ws@;
            ws.push(CellWrite { row: i as u16, col: (2 * j) as u16, text });
            proof {
                let k = oldws.len() as int;
                lemma_fundamental_div_mod_converse(k, cc as int, i as int, j as int);
                assert(forall|m: int| 0 <= m < oldws.len() ==> ws@[m] == #[trigger] oldws[m]);
                assert(glyph_for(
                    *display,
                    g@[(i as int + vp.spec_row_offset()) % vp.spec_rows() as int][(j as int
                        + vp.spec_col_offset()) % vp.spec_cols() as int],
                    ws@[k].text@,
                ));
            }
            j += 1;
        }
        i += 1;
    }
    proof {
        assert(ws@.len() == term_rows as int * cell_cols_of(term_cols as int));
    }
    Ok(ws)
}

/// A correct incremental repaint of one cell: every write shows the cell's
/// glyph at a position that displays the cell, and every such position is
/// written.
pub open spec fn cell_render_ok<FD: Fn(u16) -> Result<String, String>>(
    display: FD,
    vp: Viewport,
    cell_row: int,
    cell_col: int,
    state: u16,
    term_rows: int,
    term_cols: int,
    ws: Seq<CellWrite>,
) -> bool {
    &&& forall|k: int|
        0 <= k < ws.len() ==> {
            &&& vp.shows_cell(
                (#[trigger] ws[k]).row as int,
                ws[k].col as int,
                cell_row,
                cell_col,
                term_rows,
                term_cols,
            )
            &&& glyph_for(display, state, ws[k].text@)
        }
    &&& forall|tr: int, tc: int|
        vp.shows_cell(tr, tc, cell_row, cell_col, term_rows, term_cols) ==> exists|k: int|
            0 <= k < ws.len() && (#[trigger] ws[k]).row == tr && ws[k].col == tc
}

/// Repaint one logical cell at every tiled terminal position that shows it,
/// asking the display callback once.
pub fn render_cell<FD: Fn(u16) -> Result<String, String>>(
    vp: &Viewport,
    cell_row: usize,
    cell_col: usize,
    state: u16,
    term_rows: u16,
    term_cols: u16,
    display: &FD,
) -> (r: Result<Vec<CellWrite>, String>)
    requires
        vp.wf(),
        cell_row < vp.spec_rows(),
        cell_col < vp.spec_cols(),
        forall|st: u16| call_requires(*display, (st,)),
    ensures
        match r {
            Ok(ws) => cell_render_ok(
                *display,
                *vp,
                cell_row as int,
                cell_col as int,
                state,
                term_rows as int,
                term_cols as int,
                ws@,
            ),
            Err(e) => call_ensures(*display, (state,), Err(e)),
        },
{
    let raw = match display(state) {
        Ok(raw) => raw,
        Err(e) => {
            return Err(e);
        },
    };
    let text = normalize_cell(raw.as_str());
    let positions = vp.tiled_positions(cell_row, cell_col, term_rows, term_cols);
    let mut ws: Vec<CellWrite> = Vec::new();
    let mut k: usize = 0;
    while k < positions.len()
        invariant
            vp.wf(),
            cell_row < vp.spec_rows(),
            cell_col < vp.spec_cols(),
            glyph_for(*display, state, text@),
            k <= positions@.len(),
            ws@.len() == k,
            forall|m: int|
                0 <= m < positions@.len() ==> vp.shows_cell(
                    (#[trigger] positions@[m]).0 as int,
                    positions@[m].1 as int,
                    cell_row as int,
                    cell_col as int,
                    term_rows as int,
                    term_cols as int,
                ),
            forall|m: int|
                0 <= m < k ==> (#[trigger] ws@[m]).row == positions@[m].0 && ws@[m].col
                    == positions@[m].1 && ws@[m].text@ == text@,
        decreases positions@.len() - k,
    {
        let (tr, tc) = positions[k];
        ws.push(CellWrite { row: tr, col: tc, text: text.clone() });
        k += 1;
    }
    proof {
        assert forall|tr: int, tc: int|
            vp.shows_cell(
                tr,
                tc,
                cell_row as int,
                cell_col as int,
                term_rows as int,
                term_cols as int,
            ) implies exists|m: int|
            0 <= m < ws@.len() && (#[trigger] ws@[m]).row == tr && ws@[m].col == tc by {
            let m = choose|m: int|
                0 <= m < positions@.len() && (#[trigger] positions@[m]).0 == tr
                    && positions@[m].1 == tc;
            assert(ws@[m].row == tr && ws@[m].col == tc);
        }
    }
    Ok(ws)
}

/// The first status line's text.
pub open spec fn status1_text() -> Seq<char> {
    " "@ + CONTROLS@
}

/// The second status line's text, ending in the current draw state.
pub open spec fn status2_text(draw_state: u16) -> Seq<char> {
    " "@ + CONTROLS2@ + " - "@ + dec_of(draw_state as int)
}

/// A correct status legend: each line appears at the left edge below the
/// grid area exactly when the terminal is wide enough for it.
pub open spec fn status_ok(draw_state: u16, term_rows: int, term_cols: int, ws: Seq<CellWrite>)
    -> bool {
    let c1 = term_cols > CONTROLS@.len() + 1;
    let c2 = term_cols > CONTROLS2@.len() + 7;
    &&& ws.len() == (if c1 {
        1int
    } else {
        0int
    }) + (if c2 {
        1int
    } else {
        0int
    })
    &&& (c1 ==> ws[0].row == term_rows && ws[0].col == 0 && ws[0].text@ == status1_text())
    &&& (c2 ==> ws[ws.len() - 1].row == term_rows + 1 && ws[ws.len() - 1].col == 0 && ws[ws.len()
        - 1].text@ == status2_text(draw_state))
}

/// The status legend writes for the current draw state.
pub fn status_writes(draw_state: u16, term_rows: u16, term_cols: u16) -> (ws: Vec<CellWrite>)
    requires
        term_rows <= 0xfffe,
    ensures
        status_ok(draw_state, term_rows as int, term_cols as int, ws@),
{
    let mut ws: Vec<CellWrite> = Vec::new();
    let len1 = CONTROLS.unicode_len();
    if len1 < 0xffff && term_cols > len1 as u16 + 1 {
        let mut t = String::new();
        t.append(" ");
        t.append(CONTROLS);
        proof {
            assert(t@ =~= status1_text());
        }
        ws.push(CellWrite { row: term_rows, col: 0, text: t });
    }
    let len2 = CONTROLS2.unicode_len();
    if len2 < 0xfff8 && term_cols > len2 as u16 + 7 {
        let mut t = String::new();
        t.append(" ");
        t.append(CONTROLS2);
        t.append(" - ");
        let ds = u16_to_string(draw_state);
        t.append(ds.as_str());
        proof {
            assert(t@ =~= status2_text(draw_state));
        }
        ws.push(CellWrite { row: term_rows + 1, col: 0, text: t });
    }
    ws
}

} // verus!
