//! What a motion is, apart from where it lands.

use vstd::prelude::*;

verus! {

/// Which text an operator takes between the cursor and a motion's target.
#[derive(Debug, Clone, Copy, PartialEq, Eq, Structural)]
pub enum MotionKind {
    Exclusive,
    Inclusive,
    Linewise,
}

/// How a motion places the cursor when it is plain movement: what becomes of the
/// remembered column.
#[derive(Debug, Clone, Copy, PartialEq, Eq, Structural)]
pub enum MoveAxis {
    /// The resulting column becomes the remembered one.
    Horizontal,
    /// Stick to the end of the line until a horizontal move.
    EndOfLine,
    /// Go to the line's first character that is not blank.
    LineAnchor,
    /// Change line, keep the remembered column.
    VerticalKeep,
}

/// Where a motion lands and how it counts.
#[derive(Debug, Clone, Copy, PartialEq, Eq, Structural)]
pub struct MotionResult {
    pub target: usize,
    pub kind: MotionKind,
    pub axis: MoveAxis,
}

impl MotionResult {
    /// A motion within a line.
    pub fn horizontal(target: usize, kind: MotionKind) -> (r: Self)
        ensures
            r == (MotionResult { target, kind, axis: MoveAxis::Horizontal }),
    {
        MotionResult { target, kind, axis: MoveAxis::Horizontal }
    }

    /// The common exclusive motion within a line.
    pub fn exclusive(target: usize) -> (r: Self)
        ensures
            r == (MotionResult {
                target,
                kind: MotionKind::Exclusive,
                axis: MoveAxis::Horizontal,
            }),
    {
        Self::horizontal(target, MotionKind::Exclusive)
    }

    /// An inclusive motion within a line.
    pub fn inclusive(target: usize) -> (r: Self)
        ensures
            r == (MotionResult {
                target,
                kind: MotionKind::Inclusive,
                axis: MoveAxis::Horizontal,
            }),
    {
        Self::horizontal(target, MotionKind::Inclusive)
    }

    /// A motion over whole lines.
    pub fn linewise(target: usize, axis: MoveAxis) -> (r: Self)
        ensures
            r == (MotionResult { target, kind: MotionKind::Linewise, axis }),
    {
        MotionResult { target, kind: MotionKind::Linewise, axis }
    }
}

} // verus!
