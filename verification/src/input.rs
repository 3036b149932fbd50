//! Keys, as the terminal or the client reports them.

use vstd::prelude::*;

verus! {

/// What was pressed, modifiers aside.
#[derive(Debug, Clone, Copy, PartialEq, Eq, Structural, Hash)]
pub enum KeyCode {
    Char(char),
    Esc,
    Enter,
    Backspace,
    Tab,
    Delete,
    Left,
    Right,
    Up,
    Down,
    Home,
    End,
    PageUp,
    PageDown,
}

/// One key press with its modifiers.
#[derive(Debug, Clone, Copy, PartialEq, Eq, Structural, Hash)]
pub struct Key {
    pub code: KeyCode,
    pub ctrl: bool,
    pub alt: bool,
    pub shift: bool,
}

/// A key with no modifier.
pub open spec fn plain_key(code: KeyCode) -> Key {
    Key { code, ctrl: false, alt: false, shift: false }
}

/// The character that a key types: none for a named key, and none while Ctrl or
/// Alt is held.
pub open spec fn typed(key: Key) -> Option<char> {
    match key.code {
        KeyCode::Char(c) => if key.ctrl || key.alt {
            None
        } else {
            Some(c)
        },
        _ => None,
    }
}

impl Key {
    /// A key with no modifier.
    pub fn new(code: KeyCode) -> (key: Key)
        ensures
            key == plain_key(code),
    {
        Key { code, ctrl: false, alt: false, shift: false }
    }

    /// A character with no modifier.
    pub fn char(c: char) -> (key: Key)
        ensures
            key == plain_key(KeyCode::Char(c)),
            typed(key) == Some(c),
    {
        Key { code: KeyCode::Char(c), ctrl: false, alt: false, shift: false }
    }

    /// A character with Ctrl held.
    pub fn ctrl(c: char) -> (key: Key)
        ensures
            key == (Key { code: KeyCode::Char(c), ctrl: true, alt: false, shift: false }),
            typed(key) is None,
    {
        Key { code: KeyCode::Char(c), ctrl: true, alt: false, shift: false }
    }

    /// The character that the key types, if it types one.
    pub fn as_char(self) -> (c: Option<char>)
        ensures
            c == typed(self),
    {
        match self.code {
            KeyCode::Char(c) => if self.ctrl || self.alt {
                None
            } else {
                Some(c)
            },
            _ => None,
        }
    }
}

} // verus!
