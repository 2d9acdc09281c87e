//! What the viewport is told: keys, scroll pulses and the messages that
//! carry them.

use std::path::PathBuf;
use vstd::prelude::*;

verus! {

/// `std::path::PathBuf`, a path in the file system. The library carries such
/// a path through and never reads it.
#[verifier::external_type_specification]
#[verifier::external_body]
pub struct ExPathBuf(PathBuf);

/// `PathBuf::clone`, which copies a path. Nothing is claimed of the copy.
pub assume_specification[ <PathBuf as Clone>::clone ](path: &PathBuf) -> (copy: PathBuf);

/// A key of the keyboard.
#[derive(Copy, Clone, Debug, PartialEq, Eq, Structural)]
pub enum Key {
    Char(char),
    Backspace,
    Enter,
    Left,
    Right,
    Up,
    Down,
    Home,
    End,
    PageUp,
    PageDown,
    Tab,
    Delete,
    Insert,
    Esc,
    CapsLock,
}

/// A key together with the modifiers that were held while it was pressed.
#[derive(Copy, Clone, Debug, PartialEq, Eq, Structural)]
pub struct KeyCombo {
    pub key: Key,
    pub shift: bool,
    pub ctrl: bool,
}

/// One event from the terminal.
#[derive(Copy, Clone, Debug, PartialEq, Eq, Structural)]
pub enum Input {
    FocusGained,
    FocusLost,
    KeyCombo(KeyCombo),
    ScrollDown,
    ScrollUp,
}

/// What one part of the editor tells another.
#[derive(Clone, Debug)]
pub enum Message {
    Input(Input),
    Open(PathBuf),
    Quit,
}

/// What happened to a key.
#[derive(Copy, Clone, Debug, PartialEq, Eq, Structural)]
pub enum Stroke {
    Press,
    Repeat,
    Release,
}

impl Input {
    /// The input that a key makes: a key that is pressed, or held until it
    /// repeats, makes a key combination with the modifiers held. A key that
    /// is released makes none.
    pub open spec fn struck(key: Key, stroke: Stroke, shift: bool, ctrl: bool) -> Option<Input> {
        if stroke is Release {
            None
        } else {
            Some(Input::KeyCombo(KeyCombo { key, shift, ctrl }))
        }
    }

    /// The input that a key makes.
    pub fn from_stroke(key: Key, stroke: Stroke, shift: bool, ctrl: bool) -> (input: Option<Input>)
        ensures
            input == Input::struck(key, stroke, shift, ctrl),
    {
        match stroke {
            Stroke::Release => None,
            _ => Some(Input::KeyCombo(KeyCombo { key, shift, ctrl })),
        }
    }
}

impl Message {
    /// Whether the message asks the editor to quit: it is the key `c` or the
    /// key `x`, with Control held.
    pub open spec fn asks_to_quit(self) -> bool {
        match self {
            Message::Input(Input::KeyCombo(combo)) => combo.ctrl && (combo.key == Key::Char('c')
                || combo.key == Key::Char('x')),
            _ => false,
        }
    }

    /// Whether the message asks the editor to quit.
    pub fn quits(&self) -> (quits: bool)
        ensures
            quits == self.asks_to_quit(),
    {
        match self {
            Message::Input(Input::KeyCombo(combo)) => {
                combo.ctrl && match combo.key {
                    Key::Char(c) => c == 'c' || c == 'x',
                    _ => false,
                }
            },
            _ => false,
        }
    }
}

} // verus!
