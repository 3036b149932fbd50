//! Where motions land, and plain movement.

use vstd::prelude::*;
use vstd::utf8::*;

use crate::buffer::Buffer;
use crate::command::{find_forward, find_reversed, FindKind, Motion, PendingCommand};
use crate::desk::{held_line, Desk, Pane};
use crate::find::find_column;
use crate::layout::clip;
use crate::motion::{MotionKind, MotionResult, MoveAxis};
use crate::nav::{
    char_class, char_or_blank, class_of, indent_len, last_idx, last_line_of, word_backward_of,
    word_end_of, word_forward_of, CharClass,
};
use crate::num::{least, less, min_of};
use crate::open::Live;
use crate::points::Point;
use crate::text::{edit_lines, line_of, line_text};
use crate::typing::at_desired;
use crate::unicode::{next_bound, next_grapheme, prev_bound, prev_grapheme};
use crate::window::Cursor;

verus! {

/// The count of a command: that before its operator times that after it.
pub open spec fn total_count(p: PendingCommand) -> usize {
    let a = match p.op_count {
        Some(n) => n as int,
        None => 1,
    };
    let b = match p.count {
        Some(n) => n as int,
        None => 1,
    };
    clip(a * b)
}

/// The count of a command, held at the largest number there is.
pub fn effective_count(p: &PendingCommand) -> (n: usize)
    ensures
        n == total_count(*p),
{
    let a: usize = match p.op_count {
        Some(n) => n,
        None => 1,
    };
    let b: usize = match p.count {
        Some(n) => n,
        None => 1,
    };
    proof {
        let x = a as int;
        let y = b as int;
        assert(0 <= x * y) by (nonlinear_arith)
            requires
                0 <= x,
                0 <= y,
        ;
    }
    match a.checked_mul(b) {
        Some(n) => n,
        None => usize::MAX,
    }
}

/// The count that a line motion goes by, if one was typed.
pub open spec fn line_count_of(p: PendingCommand) -> Option<usize> {
    if p.operator is Some && p.op_count is Some {
        p.op_count
    } else {
        p.count
    }
}

/// `n` graphemes back on a line.
pub open spec fn columns_back(l: Seq<u8>, col: int, n: nat) -> int
    decreases n,
{
    if n == 0 {
        col
    } else {
        columns_back(l, prev_bound(l, col), (n - 1) as nat)
    }
}

/// `n` graphemes on, on a line.
pub open spec fn columns_on(l: Seq<u8>, col: int, n: nat) -> int
    decreases n,
{
    if n == 0 {
        col
    } else {
        columns_on(l, next_bound(l, col), (n - 1) as nat)
    }
}

/// `n` words on.
pub open spec fn words_forward(t: Seq<u8>, i: int, n: nat) -> int
    decreases n,
{
    if n == 0 {
        i
    } else {
        words_forward(t, word_forward_of(t, i), (n - 1) as nat)
    }
}

/// `n` words back.
pub open spec fn words_backward(t: Seq<u8>, i: int, n: nat) -> int
    decreases n,
{
    if n == 0 {
        i
    } else {
        words_backward(t, word_backward_of(t, i), (n - 1) as nat)
    }
}

/// `n` ends of words on.
pub open spec fn word_ends(t: Seq<u8>, i: int, n: nat) -> int
    decreases n,
{
    if n == 0 {
        i
    } else {
        word_ends(t, word_end_of(t, i), (n - 1) as nat)
    }
}

/// Where a motion lands, which text an operator takes, and how the cursor moves.
pub ghost struct Landing {
    pub target: int,
    pub kind: MotionKind,
    pub axis: MoveAxis,
}

pub open spec fn landing(target: int, kind: MotionKind) -> Landing {
    Landing { target, kind, axis: MoveAxis::Horizontal }
}

pub open spec fn line_landing(target: int, axis: MoveAxis) -> Landing {
    Landing { target, kind: MotionKind::Linewise, axis }
}

pub open spec fn as_landing(m: MotionResult) -> Landing {
    Landing { target: m.target as int, kind: m.kind, axis: m.axis }
}

/// A find: forward it takes its target in, backward it does not.
#[verifier::opaque]
pub open spec fn find_landing(
    p: Pane,
    kind: FindKind,
    target: char,
    count: nat,
    repeat: bool,
) -> Option<Landing> {
    match find_column(p.line(), p.col(), kind, target, count, repeat) {
        Some(col) => Some(
            landing(
                p.start_of(p.line_no()) + col,
                if find_forward(kind) {
                    MotionKind::Inclusive
                } else {
                    MotionKind::Exclusive
                },
            ),
        ),
        None => None,
    }
}

/// `w`: words on. As the motion of `c` from a character that is not blank it goes to
/// the end of the word, so that the blanks after it stay.
#[verifier::opaque]
pub open spec fn word_landing(p: Pane, count: nat) -> Landing {
    let t = p.text();
    let i = p.spot();
    if p.live.pending.operator == Some('c') && class_of(char_or_blank(t, i)) != CharClass::Blank {
        landing(word_ends(t, i, count), MotionKind::Inclusive)
    } else {
        landing(words_forward(t, i, count), MotionKind::Exclusive)
    }
}

/// The last grapheme of a line.
#[verifier::opaque]
pub open spec fn line_last(p: Pane, n: int) -> int {
    let l = line_text(p.text(), n);
    p.start_of(n) + prev_bound(l, l.len() as int)
}

/// Where a motion lands. A mark's motion goes to `mark`, where there is one.
pub open spec fn motion_landing(p: Pane, m: Motion, mark: Option<Point>) -> Option<Landing> {
    let count = total_count(p.live.pending) as nat;
    let raw = line_count_of(p.live.pending);
    let line = p.line_no();
    let last = last_line_of(p.text());
    let start = p.start_of(line);
    match m {
        Motion::GotoTop => Some(
            line_landing(
                p.start_of(
                    match raw {
                        Some(n) => least(less(n as int, 1), last),
                        None => 0,
                    },
                ),
                MoveAxis::LineAnchor,
            ),
        ),
        Motion::GotoLine => Some(
            line_landing(
                p.start_of(
                    match raw {
                        Some(n) => least(less(n as int, 1), last),
                        None => last,
                    },
                ),
                MoveAxis::LineAnchor,
            ),
        ),
        Motion::FindRepeat { reverse } => match p.live.last_find {
            Some((kind, target)) => find_landing(
                p,
                if reverse {
                    find_reversed(kind)
                } else {
                    kind
                },
                target,
                count,
                true,
            ),
            None => None,
        },
        Motion::Find(kind, target) => find_landing(p, kind, target, count, false),
        Motion::Left => Some(
            landing(
                start + columns_back(p.line(), p.col(), count),
                MotionKind::Exclusive,
            ),
        ),
        Motion::Right => Some(
            landing(
                start + columns_on(p.line(), p.col(), count),
                MotionKind::Exclusive,
            ),
        ),
        Motion::LineStart => Some(landing(start, MotionKind::Exclusive)),
        Motion::FirstNonBlank => Some(
            landing(start + indent_len(p.line(), 0), MotionKind::Exclusive),
        ),
        Motion::LineEnd => Some(
            Landing {
                target: line_last(p, least(line + less(count as int, 1), last)),
                kind: MotionKind::Inclusive,
                axis: MoveAxis::EndOfLine,
            },
        ),
        Motion::Down => Some(
            line_landing(p.start_of(least(line + count, last)), MoveAxis::VerticalKeep),
        ),
        Motion::Up => Some(
            line_landing(
                p.start_of(
                    if line >= count {
                        line - count
                    } else {
                        0
                    },
                ),
                MoveAxis::VerticalKeep,
            ),
        ),
        Motion::Word => Some(word_landing(p, count)),
        Motion::BackWord => Some(
            landing(words_backward(p.text(), p.spot(), count), MotionKind::Exclusive),
        ),
        Motion::EndWord => Some(
            landing(word_ends(p.text(), p.spot(), count), MotionKind::Inclusive),
        ),
        Motion::MarkJumpExact(_) => match mark {
            Some((l, c)) => Some(
                landing(p.with_cursor(Cursor { line: l, col: c }).spot(), MotionKind::Exclusive),
            ),
            None => None,
        },
        Motion::MarkJumpLine(_) => match mark {
            Some((l, _)) => Some(
                line_landing(p.start_of(held_line(p.text(), l)), MoveAxis::LineAnchor),
            ),
            None => None,
        },
    }
}

/// The line of an offset, or the last one.
#[verifier::opaque]
pub open spec fn line_at(p: Pane, i: int) -> int {
    line_of(p.text(), least(i, last_idx(p.text()))) as int
}

/// The cursor moved to where a motion lands.
pub open spec fn movement(p: Pane, m: Landing) -> Pane {
    match m.axis {
        MoveAxis::Horizontal => p.at(m.target).held(),
        MoveAxis::EndOfLine => {
            let q = p.at(m.target).held();
            Pane { live: Live { eol_request: true, ..q.live }, ..q }
        },
        MoveAxis::LineAnchor => {
            let line = line_at(p, m.target);
            p.with_cursor(
                Cursor {
                    line: line as usize,
                    col: indent_len(line_text(p.text(), line), 0) as usize,
                },
            ).held()
        },
        MoveAxis::VerticalKeep => {
            let line = line_at(p, m.target);
            let q = at_desired(
                p.with_cursor(Cursor { line: line as usize, ..p.live.cursor }),
                false,
            );
            Pane { live: Live { preserve_desired: true, ..q.live }, ..q }
        },
    }
}

proof fn lemma_back_stuck(l: Seq<u8>, col: int, n: nat)
    requires
        prev_bound(l, col) == col,
    ensures
        columns_back(l, col, n) == col,
    decreases n,
{
    if n > 0 {
        lemma_back_stuck(l, col, (n - 1) as nat);
    }
}

proof fn lemma_on_stuck(l: Seq<u8>, col: int, n: nat)
    requires
        next_bound(l, col) == col,
    ensures
        columns_on(l, col, n) == col,
    decreases n,
{
    if n > 0 {
        lemma_on_stuck(l, col, (n - 1) as nat);
    }
}

impl Buffer {
    fn words_forward(&self, from: usize, count: usize) -> (r: usize)
        requires
            self.settled(),
            from <= self@.text.len(),
        ensures
            r == words_forward(self@.text, from as int, count as nat),
            r <= self@.text.len(),
    {
        let mut idx: usize = from;
        let mut left: usize = count;
        while left > 0
            invariant
                self.settled(),
                idx <= self@.text.len(),
                words_forward(self@.text, from as int, count as nat) == words_forward(
                    self@.text,
                    idx as int,
                    left as nat,
                ),
            decreases left,
        {
            idx = self.word_forward(idx);
            left -= 1;
        }
        idx
    }

    fn words_backward(&self, from: usize, count: usize) -> (r: usize)
        requires
            self.settled(),
            from <= self@.text.len(),
        ensures
            r == words_backward(self@.text, from as int, count as nat),
            r <= self@.text.len(),
    {
        let mut idx: usize = from;
        let mut left: usize = count;
        while left > 0
            invariant
                self.settled(),
                idx <= self@.text.len(),
                words_backward(self@.text, from as int, count as nat) == words_backward(
                    self@.text,
                    idx as int,
                    left as nat,
                ),
            decreases left,
        {
            idx = self.word_backward(idx);
            left -= 1;
        }
        idx
    }

    fn word_ends(&self, from: usize, count: usize) -> (r: usize)
        requires
            self.settled(),
            from <= self@.text.len(),
        ensures
            r == word_ends(self@.text, from as int, count as nat),
            r <= self@.text.len(),
    {
        let mut idx: usize = from;
        let mut left: usize = count;
        while left > 0
            invariant
                self.settled(),
                idx <= self@.text.len(),
                word_ends(self@.text, from as int, count as nat) == word_ends(
                    self@.text,
                    idx as int,
                    left as nat,
                ),
            decreases left,
        {
            idx = self.word_end(idx);
            left -= 1;
        }
        idx
    }
}

fn step_back(s: &str, from: usize, count: usize) -> (r: usize)
    requires
        from <= encode_utf8(s@).len(),
    ensures
        r == columns_back(encode_utf8(s@), from as int, count as nat),
        r <= encode_utf8(s@).len(),
{
    let ghost l = encode_utf8(s@);
    let mut col: usize = from;
    let mut left: usize = count;
    while left > 0
        invariant
            l == encode_utf8(s@),
            col <= l.len(),
            columns_back(l, from as int, count as nat) == columns_back(
                l,
                col as int,
                left as nat,
            ),
        decreases left,
    {
        let next: usize = prev_grapheme(s, col);
        if next == col {
            proof {
                lemma_back_stuck(l, col as int, left as nat);
            }
            return col;
        }
        col = next;
        left -= 1;
    }
    col
}

fn step_on(s: &str, from: usize, count: usize) -> (r: usize)
    requires
        from <= encode_utf8(s@).len(),
    ensures
        r == columns_on(encode_utf8(s@), from as int, count as nat),
        r <= encode_utf8(s@).len(),
{
    let ghost l = encode_utf8(s@);
    let mut col: usize = from;
    let mut left: usize = count;
    while left > 0
        invariant
            l == encode_utf8(s@),
            col <= l.len(),
            columns_on(l, from as int, count as nat) == columns_on(l, col as int, left as nat),
        decreases left,
    {
        let next: usize = next_grapheme(s, col);
        if next == col {
            proof {
                lemma_on_stuck(l, col as int, left as nat);
            }
            return col;
        }
        col = next;
        left -= 1;
    }
    col
}

/// The result of resolving a motion is where it lands, inside the text.
pub open spec fn resolves(p: Pane, r: Option<MotionResult>, l: Option<Landing>) -> bool {
    match l {
        Some(l) => r is Some && as_landing(r->0) == l && l.target <= p.text().len(),
        None => r is None,
    }
}

impl Desk {
    /// The offset of a column of the cursor's line.
    fn on_line(&self, col: usize) -> (r: usize)
        requires
            self.wf(),
            col <= self@.line().len(),
        ensures
            r == self@.start_of(self@.line_no()) + col,
            r <= self@.text().len(),
    {
        let n: usize = self.line_no();
        let start: usize = self.start_of(n);
        proof {
            self.line_fits();
        }
        start + col
    }

    fn find_motion(&self, kind: FindKind, target: char, count: usize, repeat: bool) -> (r: Option<
        MotionResult,
    >)
        requires
            self.wf(),
        ensures
            resolves(self@, r, find_landing(self@, kind, target, count as nat, repeat)),
    {
        proof {
            reveal(find_landing);
            reveal(Pane::line);
            reveal(Pane::start_of);
        }
        let line: usize = self.line_no();
        let col: usize = self.col();
        let at = Cursor { line, col };
        match self.buffer().find_char_target(at, kind, target, count, repeat) {
            Some(pos) => if kind.forward() {
                Some(MotionResult::inclusive(pos))
            } else {
                Some(MotionResult::exclusive(pos))
            },
            None => None,
        }
    }

    fn word_motion(&self, count: usize) -> (m: MotionResult)
        requires
            self.wf(),
        ensures
            as_landing(m) == word_landing(self@, count as nat),
            m.target <= self@.text().len(),
    {
        proof {
            reveal(word_landing);
        }
        let idx: usize = self.spot();
        let b = self.buffer();
        let change = match self.live().pending.operator {
            Some(op) => op == 'c',
            None => false,
        };
        if change && char_class(b.char_or_blank(idx)) != CharClass::Blank {
            MotionResult::inclusive(b.word_ends(idx, count))
        } else {
            MotionResult::exclusive(b.words_forward(idx, count))
        }
    }

    fn last_on_line(&self, n: usize) -> (r: usize)
        requires
            self.wf(),
        ensures
            r == line_last(self@, n as int),
            r <= self@.text().len(),
    {
        proof {
            reveal(line_last);
            self.any_line_fits(n as int);
        }
        let s = self.buffer().line(n);
        let start: usize = self.start_of(n);
        let len: usize = s.as_str().as_bytes().len();
        start + prev_grapheme(s.as_str(), len)
    }

    fn to_line(&self, n: usize, axis: MoveAxis) -> (m: MotionResult)
        requires
            self.wf(),
        ensures
            as_landing(m) == line_landing(self@.start_of(n as int), axis),
            m.target <= self@.text().len(),
    {
        MotionResult::linewise(self.start_of(n), axis)
    }

    fn line_motion(&self, m: Motion) -> (r: Option<MotionResult>)
        requires
            self.wf(),
            m is GotoTop || m is GotoLine || m is LineEnd || m is Down || m is Up,
        ensures
            resolves(self@, r, motion_landing(self@, m, None)),
    {
        let pending = self.live().pending;
        let count: usize = effective_count(&pending);
        let raw: Option<usize> = if pending.operator.is_some() && pending.op_count.is_some() {
            pending.op_count
        } else {
            pending.count
        };
        let line: usize = self.line_no();
        let last: usize = self.buffer().last_line();
        let to: usize = match m {
            Motion::GotoTop => match raw {
                Some(n) => min_of(n.saturating_sub(1), last),
                None => 0,
            },
            Motion::GotoLine => match raw {
                Some(n) => min_of(n.saturating_sub(1), last),
                None => last,
            },
            Motion::LineEnd => {
                let l: usize = min_of(line.saturating_add(count.saturating_sub(1)), last);
                return Some(
                    MotionResult {
                        target: self.last_on_line(l),
                        kind: MotionKind::Inclusive,
                        axis: MoveAxis::EndOfLine,
                    },
                );
            },
            Motion::Down => {
                return Some(
                    self.to_line(
                        min_of(line.saturating_add(count), last),
                        MoveAxis::VerticalKeep,
                    ),
                );
            },
            _ => {
                return Some(self.to_line(line.saturating_sub(count), MoveAxis::VerticalKeep));
            },
        };
        Some(self.to_line(to, MoveAxis::LineAnchor))
    }

    /// Where a motion lands. Nothing where a find has no target, `;` has nothing to
    /// repeat, or a mark is not set.
    pub fn resolve_motion(&self, m: Motion, mark: Option<Point>) -> (r: Option<MotionResult>)
        requires
            self.wf(),
        ensures
            resolves(self@, r, motion_landing(self@, m, mark)),
    {
        let live = self.live();
        let count: usize = effective_count(&live.pending);
        match m {
            Motion::GotoTop
            | Motion::GotoLine
            | Motion::LineEnd
            | Motion::Down
            | Motion::Up => self.line_motion(m),
            Motion::FindRepeat { reverse } => match live.last_find {
                Some((kind, target)) => {
                    let k = if reverse {
                        kind.reversed()
                    } else {
                        kind
                    };
                    self.find_motion(k, target, count, true)
                },
                None => None,
            },
            Motion::Find(kind, target) => self.find_motion(kind, target, count, false),
            Motion::Left => {
                let s = self.line();
                let col: usize = step_back(s.as_str(), self.col(), count);
                Some(MotionResult::exclusive(self.on_line(col)))
            },
            Motion::Right => {
                let s = self.line();
                let col: usize = step_on(s.as_str(), self.col(), count);
                Some(MotionResult::exclusive(self.on_line(col)))
            },
            Motion::LineStart => Some(MotionResult::exclusive(self.on_line(0))),
            Motion::FirstNonBlank => {
                let n: usize = self.line_no();
                let col: usize = self.buffer().first_non_blank(n);
                proof {
                    reveal(Pane::line);
                }
                Some(MotionResult::exclusive(self.on_line(col)))
            },
            Motion::Word => Some(self.word_motion(count)),
            Motion::BackWord => {
                let idx: usize = self.spot();
                Some(MotionResult::exclusive(self.buffer().words_backward(idx, count)))
            },
            Motion::EndWord => {
                let idx: usize = self.spot();
                Some(MotionResult::inclusive(self.buffer().word_ends(idx, count)))
            },
            Motion::MarkJumpExact(_) => match mark {
                Some((line, col)) => Some(
                    MotionResult::exclusive(self.spot_of(Cursor { line, col })),
                ),
                None => None,
            },
            Motion::MarkJumpLine(_) => match mark {
                Some((line, _)) => {
                    let last: usize = self.buffer().last_line();
                    Some(self.to_line(min_of(line, last), MoveAxis::LineAnchor))
                },
                None => None,
            },
        }
    }

    /// The line of an offset, or the last one.
    pub fn line_at(&self, i: usize) -> (n: usize)
        requires
            self.wf(),
        ensures
            n == line_at(self@, i as int),
            n < edit_lines(self@.text()),
    {
        proof {
            reveal(line_at);
            self.text_is_settled();
            crate::nav::lemma_line_of_inside(self@.text(), least(i as int, last_idx(self@.text())));
        }
        let last: usize = self.buffer().last_char_idx();
        self.buffer().byte_to_line(min_of(i, last))
    }

    /// Move the cursor to where a motion lands.
    pub fn apply_movement(&mut self, m: MotionResult)
        requires
            old(self).wf(),
        ensures
            final(self).wf(),
            final(self)@ == movement(old(self)@, as_landing(m)),
    {
        match m.axis {
            MoveAxis::Horizontal => {
                self.set_cursor_char(m.target);
                self.clamp_cursor();
            },
            MoveAxis::EndOfLine => {
                self.set_cursor_char(m.target);
                self.clamp_cursor();
                let mut live = self.live();
                live.eol_request = true;
                self.set_live(live);
            },
            MoveAxis::LineAnchor => {
                let line: usize = self.line_at(m.target);
                let col: usize = self.buffer().first_non_blank(line);
                self.set_cursor(Cursor { line, col });
                self.clamp_cursor();
            },
            MoveAxis::VerticalKeep => {
                let line: usize = self.line_at(m.target);
                let c = self.live().cursor;
                self.set_cursor(Cursor { line, col: c.col });
                self.settle_desired_col(false);
                let mut live = self.live();
                live.preserve_desired = true;
                self.set_live(live);
            },
        }
    }
}

} // verus!
