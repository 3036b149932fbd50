//! The editor's modes.

use vstd::prelude::*;

verus! {

#[derive(Debug, Clone, Copy, PartialEq, Eq, Structural, Hash)]
pub enum Mode {
    Normal,
    Insert,
    Replace,
    Visual,
    VisualLine,
    Command,
    Terminal,
    MultiCursor,
}

/// A selection is being made.
pub open spec fn selecting(mode: Mode) -> bool {
    mode == Mode::Visual || mode == Mode::VisualLine
}

/// Typed characters go into the text.
pub open spec fn typing(mode: Mode) -> bool {
    mode == Mode::Insert || mode == Mode::Replace
}

impl Mode {
    pub fn is_visual(self) -> (r: bool)
        ensures
            r == selecting(self),
    {
        matches!(self, Mode::Visual | Mode::VisualLine)
    }

    pub fn is_insert(self) -> (r: bool)
        ensures
            r == typing(self),
    {
        matches!(self, Mode::Insert | Mode::Replace)
    }
}

} // verus!
