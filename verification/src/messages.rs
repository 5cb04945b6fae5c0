//! The message vocabulary of the event loop, the engine's error values, and
//! the clamping rules for playback state.

use vstd::prelude::*;

verus! {

/// One command on the event queue, consumed strictly in arrival order.
#[derive(Clone, Copy, PartialEq, Eq, Structural, Debug)]
pub enum Message {
    /// Pan the viewport vertically by the given number of rows.
    ShiftRow(i16),
    /// Pan the viewport horizontally by the given number of columns.
    ShiftCol(i16),
    /// Adjust the step delay, clamped to `[0, 1000]` milliseconds.
    ShiftDelay(i16),
    /// Move the draw state by the given amount, clamped to `[1, States-1]`.
    CycleState(i16),
    /// Set the draw state, clamped to `[1, States-1]`.
    SetState(u16),
    /// Write the draw state at a terminal pixel; the payload is column, row.
    Draw(u16, u16),
    /// Write the empty state at a terminal pixel; the payload is column, row.
    Erase(u16, u16),
    /// Advance the simulation one step and repaint the changed cells.
    Step,
    /// Repaint the whole screen.
    Render,
    /// Clear the terminal.
    ScreenClear,
    /// Reset every cell to the empty state.
    GridClear,
    /// Toggle playback; entering playback enqueues a step.
    PlayPause,
    /// Fill every cell with a random state.
    Randomize,
    /// Leave the event loop.
    Exit,
}

/// A fatal engine failure, surfaced with the underlying callback error.
#[derive(Debug)]
pub enum EngineError {
    /// The update callback failed with this message.
    UpdateFailed(String),
    /// The display callback failed with this message.
    DisplayFailed(String),
    /// The update callback returned a state at or above the alphabet size.
    StateOutOfRange(u16),
}

/// The step delay after an adjustment: moved by `d`, clamped to `[0, 1000]`.
pub open spec fn spec_shift_delay(delay: u64, d: int) -> u64 {
    let t = delay + d;
    if t < 0 {
        0u64
    } else if t > 1000 {
        1000u64
    } else {
        t as u64
    }
}

/// A draw state forced into `[1, states - 1]`; state `0` is reserved for
/// erased cells.
pub open spec fn clamp_draw_state(v: int, states: u16) -> u16
    recommends
        states >= 2,
{
    if v < 1 {
        1u16
    } else if v > states - 1 {
        (states - 1) as u16
    } else {
        v as u16
    }
}

/// Adjust the step delay by a signed amount, clamping to `[0, 1000]`.
pub fn shift_delay(delay: u64, d: i16) -> (r: u64)
    ensures
        r == spec_shift_delay(delay, d as int),
        r <= 1000,
{
    if delay >= 0x10000 {
        return 1000;
    }
    let t: i64 = delay as i64 + d as i64;
    if t < 0 {
        0
    } else if t > 1000 {
        1000
    } else {
        t as u64
    }
}

/// Move the draw state, clamping into `[1, states - 1]`.
pub fn cycle_draw_state(draw_state: u16, d: i16, states: u16) -> (r: u16)
    requires
        states >= 2,
    ensures
        r == clamp_draw_state(draw_state as int - d as int, states),
        1 <= r < states,
{
    let t: i32 = draw_state as i32 - d as i32;
    if t < 1 {
        1
    } else if t > states as i32 - 1 {
        states - 1
    } else {
        t as u16
    }
}

/// Set the draw state, clamping into `[1, states - 1]`.
pub fn set_draw_state(v: u16, states: u16) -> (r: u16)
    requires
        states >= 2,
    ensures
        r == clamp_draw_state(v as int, states),
        1 <= r < states,
{
    if v < 1 {
        1
    } else if v > states - 1 {
        states - 1
    } else {
        v
    }
}

} // verus!
