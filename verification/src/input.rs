//! The input producer's contract: the translation of raw keyboard, mouse and
//! resize events into queue messages. Pans, randomize and clear are paired
//! with a repaint message, since they cannot be repainted incrementally.

use vstd::prelude::*;
use crate::codec::{digit_of, digit_val};
use crate::messages::Message;

verus! {

/// A pressed key, already stripped to what the viewer reacts to.
#[derive(Clone, Copy, PartialEq, Eq, Structural, Debug)]
pub enum Key {
    Char(char),
    Left,
    Right,
    Up,
    Down,
    Tab,
    Other,
}

/// A mouse action; presses and drags of one button arrive as the same kind.
#[derive(Clone, Copy, PartialEq, Eq, Structural, Debug)]
pub enum MouseKind {
    LeftPress,
    RightPress,
    MiddlePress,
    ScrollUp,
    ScrollDown,
    Other,
}

/// One raw input event, as plain values.
#[derive(Clone, Copy, PartialEq, Eq, Structural, Debug)]
pub enum InputEvent {
    Key { code: Key, ctrl: bool },
    Mouse { kind: MouseKind, column: u16, row: u16 },
    Resize,
    Other,
}

/// What the input producer does with one event: possibly terminate the
/// process, and enqueue messages.
pub struct InputResponse {
    pub terminate: bool,
    pub messages: Vec<Message>,
}

/// Control-C asks for immediate termination.
pub open spec fn spec_input_terminate(e: InputEvent) -> bool {
    e matches InputEvent::Key { code, ctrl } && ctrl && code == Key::Char('c')
}

/// The messages one key produces.
pub open spec fn spec_key_messages(code: Key) -> Seq<Message> {
    match code {
        Key::Char(c) => if c == 'q' {
            seq![Message::Exit]
        } else if c == 'a' || c == 'h' {
            seq![Message::ShiftCol(-3i16), Message::Render]
        } else if c == 'd' || c == 'l' {
            seq![Message::ShiftCol(3), Message::Render]
        } else if c == 'w' || c == 'k' {
            seq![Message::ShiftRow(-3i16), Message::Render]
        } else if c == 's' || c == 'j' {
            seq![Message::ShiftRow(3), Message::Render]
        } else if c == ' ' {
            seq![Message::PlayPause]
        } else if c == '+' {
            seq![Message::ShiftDelay(-20i16)]
        } else if c == '-' {
            seq![Message::ShiftDelay(20)]
        } else if c == 'r' {
            seq![Message::Randomize, Message::Render]
        } else if c == 'c' {
            seq![Message::GridClear, Message::Render]
        } else if 1 <= digit_val(c) <= 9 {
            seq![Message::SetState(digit_val(c) as u16)]
        } else {
            Seq::empty()
        },
        Key::Left => seq![Message::ShiftCol(-3i16), Message::Render],
        Key::Right => seq![Message::ShiftCol(3), Message::Render],
        Key::Up => seq![Message::ShiftRow(-3i16), Message::Render],
        Key::Down => seq![Message::ShiftRow(3), Message::Render],
        Key::Tab => seq![Message::Step],
        Key::Other => Seq::empty(),
    }
}

/// The messages one event produces.
pub open spec fn spec_input_messages(e: InputEvent) -> Seq<Message> {
    match e {
        InputEvent::Key { code, ctrl } => if ctrl && code == Key::Char('c') {
            Seq::empty()
        } else {
            spec_key_messages(code)
        },
        InputEvent::Mouse { kind, column, row } => match kind {
            MouseKind::LeftPress => seq![Message::Draw(column, row)],
            MouseKind::RightPress => seq![Message::Erase(column, row)],
            MouseKind::MiddlePress => Seq::empty(),
            MouseKind::ScrollUp => seq![Message::CycleState(1)],
            MouseKind::ScrollDown => seq![Message::CycleState(-1i16)],
            MouseKind::Other => Seq::empty(),
        },
        InputEvent::Resize => seq![Message::ScreenClear, Message::Render],
        InputEvent::Other => Seq::empty(),
    }
}

/// Turn one raw input event into queue messages, and say whether the
/// process must terminate at once.
pub fn messages_for(e: InputEvent) -> (r: InputResponse)
    ensures
        r.terminate == spec_input_terminate(e),
        r.messages@ == spec_input_messages(e),
{
    let mut messages: Vec<Message> = Vec::new();
    let mut terminate = false;
    match e {
        InputEvent::Key { code, ctrl } => {
            if ctrl && code == Key::Char('c') {
                terminate = true;
            } else {
                match code {
                    Key::Char(c) => {
                        if c == 'q' {
                            messages.push(Message::Exit);
                        } else if c == 'a' || c == 'h' {
                            messages.push(Message::ShiftCol(-3i16));
                            messages.push(Message::Render);
                        } else if c == 'd' || c == 'l' {
                            messages.push(Message::ShiftCol(3));
                            messages.push(Message::Render);
                        } else if c == 'w' || c == 'k' {
                            messages.push(Message::ShiftRow(-3i16));
                            messages.push(Message::Render);
                        } else if c == 's' || c == 'j' {
                            messages.push(Message::ShiftRow(3));
                            messages.push(Message::Render);
                        } else if c == ' ' {
                            messages.push(Message::PlayPause);
                        } else if c == '+' {
                            messages.push(Message::ShiftDelay(-20i16));
                        } else if c == '-' {
                            messages.push(Message::ShiftDelay(20));
                        } else if c == 'r' {
                            messages.push(Message::Randomize);
                            messages.push(Message::Render);
                        } else if c == 'c' {
                            messages.push(Message::GridClear);
                            messages.push(Message::Render);
                        } else {
                            match digit_of(c) {
                                Some(d) => {
                                    if d >= 1 {
                                        messages.push(Message::SetState(d));
                                    }
                                },
                                None => {},
                            }
                        }
                    },
                    Key::Left => {
                        messages.push(Message::ShiftCol(-3i16));
                        messages.push(Message::Render);
                    },
                    Key::Right => {
                        messages.push(Message::ShiftCol(3));
                        messages.push(Message::Render);
                    },
                    Key::Up => {
                        messages.push(Message::ShiftRow(-3i16));
                        messages.push(Message::Render);
                    },
                    Key::Down => {
                        messages.push(Message::ShiftRow(3));
                        messages.push(Message::Render);
                    },
                    Key::Tab => {
                        messages.push(Message::Step);
                    },
                    Key::Other => {},
                }
            }
        },
        InputEvent::Mouse { kind, column, row } => {
            match kind {
                MouseKind::LeftPress => {
                    messages.push(Message::Draw(column, row));
                },
                MouseKind::RightPress => {
                    messages.push(Message::Erase(column, row));
                },
                MouseKind::MiddlePress => {},
                MouseKind::ScrollUp => {
                    messages.push(Message::CycleState(1));
                },
                MouseKind::ScrollDown => {
                    messages.push(Message::CycleState(-1i16));
                },
                MouseKind::Other => {},
            }
        },
        InputEvent::Resize => {
            messages.push(Message::ScreenClear);
            messages.push(Message::Render);
        },
        InputEvent::Other => {},
    }
    proof {
        assert(messages@ =~= spec_input_messages(e));
    }
    InputResponse { terminate, messages }
}

} // verus!
