//! A message-driven engine for discrete cellular-automaton simulations on a
//! toroidal grid, rendered in a text terminal.
//!
//! The library owns the grid of cell states, the viewport (panning and tiling
//! over a terminal larger than the grid), the playback state, the pattern
//! text codec, and the event-loop state machine that turns each input message
//! into grid mutations and a list of terminal writes. The user-supplied
//! transition rule and cell-to-glyph mapping enter through plain function
//! parameters, so the surrounding program can adapt any scripting runtime.

pub mod codec;
pub mod engine;
pub mod grid;
pub mod input;
pub mod messages;
pub mod neighbors;
pub mod render;
pub mod viewport;
