//! Operators and text objects on the current buffer, and the selection.

use vstd::prelude::*;
use vstd::utf8::*;

use crate::buffer::{inserted, lemma_line_feed, normalized};
use crate::command::{clean_command, ObjectKind, PendingCommand, Stage};
use crate::desk::{deleted, dirty, grown, yanked, Desk, Pane};
use crate::layout::clip;
use crate::mode::{selecting, Mode};
use crate::motion::{MotionKind, MotionResult, MoveAxis};
use crate::motions::{
    as_landing, effective_count, line_at, line_landing, movement, total_count, Landing,
};
use crate::nav::{indent_len, last_idx, last_line_of};
use crate::num::{least, less, min_of};
use crate::objects::{
    lines_range, pair_range, paragraph_around, paragraph_lines, quote_range, sentence_range,
    word_range,
};
use crate::open::Live;
use crate::registers::{put_in, Reg};
use crate::text::{line_start, line_text};
use crate::window::Cursor;

verus! {

pub open spec fn with_pending(p: Pane, c: PendingCommand) -> Pane {
    Pane { live: Live { pending: c, ..p.live }, ..p }
}

/// Nothing is pending any more.
pub open spec fn pending_reset(p: Pane) -> Pane {
    with_pending(p, clean_command())
}

/// The cursor on the first character that is not blank of the line that took the
/// place of deleted ones.
#[verifier::opaque]
pub open spec fn after_lines_gone(p: Pane, first: int) -> Pane {
    let line = least(first, last_line_of(p.text()));
    p.with_cursor(
        Cursor { line: line as usize, col: indent_len(line_text(p.text(), line), 0) as usize },
    )
}

/// Whole lines give way to one empty line at `first`, with the cursor on it.
pub open spec fn lines_changed(p: Pane, lo: int, hi: int, first: usize) -> Pane {
    let q = deleted(p, lo, hi);
    q.with_buffer(
        dirty(normalized(inserted(q.open.buffer, q.start_of(first as int), seq!['\n']))),
    ).with_cursor(Cursor { line: first, col: 0 })
}

/// A range gone, with the cursor where it was.
pub open spec fn range_gone(p: Pane, lo: int, hi: int, linewise: bool, first: usize) -> Pane {
    let q = deleted(p, lo, hi);
    if linewise {
        after_lines_gone(q, first as int)
    } else {
        q.at(lo)
    }
}

/// A range changed: gone, or one empty line in its place, and typing begins there.
pub open spec fn range_changed(p: Pane, lo: int, hi: int, linewise: bool, first: usize) -> Pane {
    (if linewise {
        lines_changed(p, lo, hi, first)
    } else {
        deleted(p, lo, hi).at(lo)
    }).typing()
}

/// The cursor at the start of a range.
pub open spec fn at_range(p: Pane, lo: int, linewise: bool, first: usize) -> Pane {
    if linewise {
        p.with_cursor(Cursor { line: first, ..p.live.cursor })
    } else {
        p.at(lo)
    }
}

/// An operator on a range: `y` yanks it, `d` deletes it, `c` changes it. What any other is to
/// do is not known here.
pub open spec fn operated(
    p: Pane,
    op: char,
    lo: int,
    hi: int,
    linewise: bool,
    first: usize,
) -> Pane {
    let q = yanked(p, lo, hi, linewise);
    if lo >= hi {
        p
    } else if op == 'y' {
        at_range(q, lo, linewise, first).held()
    } else if op == 'd' {
        range_gone(q, lo, hi, linewise, first).held()
    } else if op == 'c' {
        range_changed(q, lo, hi, linewise, first)
    } else {
        p
    }
}

/// The range of an operator from the cursor to where a motion lands, and the first
/// line of it where it is whole lines.
pub open spec fn operator_range(p: Pane, m: Landing) -> (int, int, bool, int) {
    let cur = p.spot();
    let (a, z) = if cur < m.target {
        (cur, m.target)
    } else {
        (m.target, cur)
    };
    match m.kind {
        MotionKind::Exclusive => (a, z, false, 0),
        MotionKind::Inclusive => (a, clip(z + 1) as int, false, 0),
        MotionKind::Linewise => {
            let l1 = p.line_no();
            let l2 = line_at(p, m.target);
            let (f, l) = if l1 < l2 {
                (l1, l2)
            } else {
                (l2, l1)
            };
            (p.start_of(f), p.start_of(l + 1), true, f)
        },
    }
}

/// An operator on what lies between the cursor and where a motion lands.
pub open spec fn motion_operated(p: Pane, op: char, m: Landing) -> Pane {
    let (lo, hi, linewise, first) = operator_range(p, m);
    operated(p, op, lo, hi, linewise, first as usize)
}

/// A doubled operator: `count` lines from the cursor's on.
pub open spec fn doubled_operated(p: Pane, op: char) -> Pane {
    let count = total_count(p.live.pending) as int;
    let last = least(p.line_no() + less(count, 1), last_line_of(p.text()));
    let q = with_pending(p, PendingCommand { operator: None, ..p.live.pending });
    pending_reset(
        motion_operated(q, op, line_landing(p.start_of(last), MoveAxis::LineAnchor)),
    )
}

/// A motion applied: to the pending operator, or as movement.
pub open spec fn motion_applied(p: Pane, m: Landing) -> Pane {
    let q = with_pending(p, PendingCommand { operator: None, ..p.live.pending });
    pending_reset(
        match p.live.pending.operator {
            Some(op) => motion_operated(q, op, m),
            None => movement(
                Pane {
                    live: Live { scroll_from: Some((p.live.top, p.live.cursor.line)), ..q.live },
                    ..q
                },
                m,
            ),
        },
    )
}

/// The selected range, whether it is whole lines, and its first line if so.
pub open spec fn selected(p: Pane) -> (int, int, bool, int) {
    let other = p.with_cursor(p.live.visual_anchor);
    if p.live.mode == Mode::VisualLine {
        let (a, b) = if other.line_no() < p.line_no() {
            (other.line_no(), p.line_no())
        } else {
            (p.line_no(), other.line_no())
        };
        (p.start_of(a), p.start_of(b + 1), true, a)
    } else {
        let (lo, z) = if other.spot() < p.spot() {
            (other.spot(), p.spot())
        } else {
            (p.spot(), other.spot())
        };
        let last = last_idx(p.text());
        let most = if last > lo + 1 {
            last
        } else {
            lo + 1
        };
        (lo, least(z + 1, most), false, 0)
    }
}

/// An operator on the selection, which is left. One that is not known here does no more.
pub open spec fn selection_operated(p: Pane, op: char) -> Pane {
    let (lo, hi, linewise, f) = selected(p);
    let first = f as usize;
    let q = yanked(p.pushed(), lo, hi, linewise);
    pending_reset(
        if op == 'd' {
            range_gone(q, lo, hi, linewise, first).with_mode(Mode::Normal).held()
        } else if op == 'y' {
            at_range(q, lo, linewise, first).with_mode(Mode::Normal).held()
        } else if op == 'c' {
            range_changed(q, lo, hi, linewise, first)
        } else {
            p.with_mode(Mode::Normal).held()
        },
    )
}

/// The selection put on whole lines.
pub open spec fn lines_selected(p: Pane, lo: int, hi: int) -> Pane {
    let first = line_at(p, lo);
    let last = line_at(p, less(hi, 1));
    let q = p.with_cursor(Cursor { line: last as usize, col: 0 });
    Pane {
        live: Live { visual_anchor: Cursor { line: first as usize, col: 0 }, ..q.live },
        ..q
    }.held()
}

/// The selection put on a range.
pub open spec fn range_selected(p: Pane, lo: int, hi: int) -> Pane {
    let q = p.at(lo);
    let r = Pane { live: Live { visual_anchor: q.live.cursor, ..q.live }, ..q };
    r.at(
        if hi > lo {
            p.prev(hi)
        } else {
            lo
        },
    )
}

/// The range of a text object at the cursor, and whether it is whole lines.
#[verifier::opaque]
pub open spec fn object_range(
    p: Pane,
    ia: char,
    kind: ObjectKind,
    count: nat,
) -> Option<(int, int, bool)> {
    let inner = ia == 'i';
    let t = p.text();
    let line = p.line_no();
    match kind {
        ObjectKind::Word(big) => {
            let (lo, hi) = word_range(t, p.spot(), inner, count, big);
            Some((lo, hi, false))
        },
        ObjectKind::Pair(open, close) => pair_range(
            t,
            p.spot(),
            inner,
            open,
            close,
            selecting(p.live.mode),
        ),
        ObjectKind::Quote(q) => match quote_range(
            p.line(),
            p.spot() - p.start_of(line),
            inner,
            q as u8,
        ) {
            Some((lo, hi)) => Some((p.start_of(line) + lo, p.start_of(line) + hi, false)),
            None => None,
        },
        ObjectKind::Sentence => {
            let around = paragraph_around(t, line);
            let (a, z) = lines_range(t, around.0, around.1);
            match sentence_range(t, a, z, p.spot(), inner, count) {
                Some((lo, hi)) => Some((lo, hi, false)),
                None => None,
            }
        },
        ObjectKind::Paragraph => {
            let (first, last) = paragraph_lines(t, line, inner, count);
            let (lo, hi) = lines_range(t, first, last);
            Some((lo, hi, true))
        },
    }
}

/// A text object's range taken: by the selection, or by the pending operator.
pub open spec fn object_applied(p: Pane, lo: int, hi: int, linewise: bool) -> Pane {
    if selecting(p.live.mode) {
        let q = if linewise {
            lines_selected(p.with_mode(Mode::VisualLine), lo, hi)
        } else {
            range_selected(
                if p.live.mode == Mode::VisualLine {
                    p.with_mode(Mode::Visual)
                } else {
                    p
                },
                lo,
                hi,
            )
        };
        with_pending(q, PendingCommand { stage: Stage::Start, ..q.live.pending })
    } else {
        let q = with_pending(p, PendingCommand { operator: None, ..p.live.pending });
        pending_reset(
            match p.live.pending.operator {
                Some(op) => if linewise {
                    operated(q, op, lo, hi, true, line_at(p, lo) as usize)
                } else {
                    operated(q, op, lo, hi, false, 0)
                },
                None => q,
            },
        )
    }
}

impl Desk {
    pub fn set_pending(&mut self, c: PendingCommand)
        requires
            old(self).wf(),
        ensures
            final(self).wf(),
            final(self)@ == with_pending(old(self)@, c),
    {
        let mut live = self.live();
        live.pending = c;
        self.set_live(live);
    }

    pub fn reset_pending(&mut self)
        requires
            old(self).wf(),
        ensures
            final(self).wf(),
            final(self)@ == pending_reset(old(self)@),
    {
        self.set_pending(PendingCommand::default());
    }

    fn settle_after_linewise_delete(&mut self, first: usize)
        requires
            old(self).wf(),
        ensures
            final(self).wf(),
            final(self)@ == after_lines_gone(old(self)@, first as int),
    {
        proof {
            reveal(after_lines_gone);
        }
        let last: usize = self.buffer().last_line();
        let line: usize = min_of(first, last);
        let col: usize = self.buffer().first_non_blank(line);
        self.set_cursor(Cursor { line, col });
    }

    fn linewise_change(&mut self, lo: usize, hi: usize, first: usize)
        requires
            old(self).wf(),
        ensures
            final(self).wf(),
            final(self)@ == lines_changed(old(self)@, lo as int, hi as int, first),
    {
        proof {
            lemma_line_feed();
        }
        self.delete_range(lo, hi);
        let at: usize = self.start_of(first);
        self.insert_and_settle(at, "\n");
        self.set_cursor(Cursor { line: first, col: 0 });
    }

    fn remove_for_operator(&mut self, lo: usize, hi: usize, linewise: bool, first: usize)
        requires
            old(self).wf(),
        ensures
            final(self).wf(),
            final(self)@ == range_gone(old(self)@, lo as int, hi as int, linewise, first),
    {
        self.delete_range(lo, hi);
        if linewise {
            self.settle_after_linewise_delete(first);
        } else {
            self.set_cursor_char(lo);
        }
    }

    fn change_for_operator(&mut self, lo: usize, hi: usize, linewise: bool, first: usize)
        requires
            old(self).wf(),
        ensures
            final(self).wf(),
            final(self)@ == range_changed(old(self)@, lo as int, hi as int, linewise, first),
    {
        if linewise {
            self.linewise_change(lo, hi, first);
        } else {
            self.delete_range(lo, hi);
            self.set_cursor_char(lo);
        }
        self.begin_typing();
    }

    fn go_to_range(&mut self, lo: usize, linewise: bool, first: usize)
        requires
            old(self).wf(),
        ensures
            final(self).wf(),
            final(self)@ == at_range(old(self)@, lo as int, linewise, first),
    {
        if linewise {
            let c = self.live().cursor;
            self.set_cursor(Cursor { line: first, col: c.col });
        } else {
            self.set_cursor_char(lo);
        }
    }

    /// Apply an operator to a range of offsets.
    pub fn apply_operator_to_range(
        &mut self,
        op: char,
        lo: usize,
        hi: usize,
        linewise: bool,
        first: usize,
    )
        requires
            old(self).wf(),
        ensures
            final(self).wf(),
            final(self)@ == operated(old(self)@, op, lo as int, hi as int, linewise, first),
    {
        if lo >= hi {
            return;
        }
        match op {
            'y' => {
                self.yank_range(lo, hi, linewise);
                self.go_to_range(lo, linewise, first);
                self.clamp_cursor();
            },
            'd' => {
                self.yank_range(lo, hi, linewise);
                self.remove_for_operator(lo, hi, linewise, first);
                self.clamp_cursor();
            },
            'c' => {
                self.yank_range(lo, hi, linewise);
                self.change_for_operator(lo, hi, linewise, first);
            },
            _ => {},
        }
    }

    /// The range of an operator from the cursor to where a motion lands.
    fn motion_range(&self, m: MotionResult) -> (r: (usize, usize, bool, usize))
        requires
            self.wf(),
            m.target <= self@.text().len(),
        ensures
            ({
                let (lo, hi, linewise, first) = operator_range(self@, as_landing(m));
                &&& r.0 == lo
                &&& r.1 == hi
                &&& r.2 == linewise
                &&& r.3 == first
            }),
    {
        let cur: usize = self.spot();
        let (a, z): (usize, usize) = if cur < m.target {
            (cur, m.target)
        } else {
            (m.target, cur)
        };
        match m.kind {
            MotionKind::Exclusive => (a, z, false, 0),
            MotionKind::Inclusive => (a, z.saturating_add(1), false, 0),
            MotionKind::Linewise => {
                let l1: usize = self.line_no();
                let l2: usize = self.line_at(m.target);
                let (f, l): (usize, usize) = if l1 < l2 {
                    (l1, l2)
                } else {
                    (l2, l1)
                };
                let total: usize = self.buffer().line_count();
                assert(l < total);
                (self.start_of(f), self.start_of(l + 1), true, f)
            },
        }
    }

    /// Apply an operator to what lies between the cursor and where a motion lands.
    pub fn apply_operator(&mut self, op: char, m: MotionResult)
        requires
            old(self).wf(),
            m.target <= old(self)@.text().len(),
        ensures
            final(self).wf(),
            final(self)@ == motion_operated(old(self)@, op, as_landing(m)),
    {
        let (lo, hi, linewise, first) = self.motion_range(m);
        self.apply_operator_to_range(op, lo, hi, linewise, first);
    }

    /// A doubled operator.
    pub fn begin_operator(&mut self, op: char)
        requires
            old(self).wf(),
        ensures
            final(self).wf(),
            final(self)@ == doubled_operated(old(self)@, op),
    {
        let mut pending = self.live().pending;
        let count: usize = effective_count(&pending);
        let line: usize = self.line_no();
        let bottom: usize = self.buffer().last_line();
        let last: usize = min_of(line.saturating_add(count.saturating_sub(1)), bottom);
        let target: usize = self.start_of(last);
        pending.operator = None;
        self.set_pending(pending);
        self.apply_operator(op, MotionResult::linewise(target, MoveAxis::LineAnchor));
        self.reset_pending();
    }

    /// Apply a motion: to the pending operator, or as movement.
    pub fn apply_resolved_motion(&mut self, m: MotionResult)
        requires
            old(self).wf(),
            m.target <= old(self)@.text().len(),
        ensures
            final(self).wf(),
            final(self)@ == motion_applied(old(self)@, as_landing(m)),
    {
        let mut live = self.live();
        let op = live.pending.operator;
        live.pending.operator = None;
        match op {
            Some(op) => {
                self.set_live(live);
                self.apply_operator(op, m);
            },
            None => {
                live.scroll_from = Some((live.top, live.cursor.line));
                self.set_live(live);
                self.apply_movement(m);
            },
        }
        self.reset_pending();
    }

    /// The selected range.
    fn visual_range(&self) -> (r: (usize, usize, bool, usize))
        requires
            self.wf(),
        ensures
            ({
                let (lo, hi, linewise, first) = selected(self@);
                &&& r.0 == lo
                &&& r.1 == hi
                &&& r.2 == linewise
                &&& r.3 == first
            }),
    {
        let live = self.live();
        if live.mode == Mode::VisualLine {
            let l1: usize = self.line_no();
            let l2: usize = self.line_no_of(live.visual_anchor);
            let (a, b): (usize, usize) = if l2 < l1 {
                (l2, l1)
            } else {
                (l1, l2)
            };
            let total: usize = self.buffer().line_count();
            assert(b < total);
            (self.start_of(a), self.start_of(b + 1), true, a)
        } else {
            let ca: usize = self.spot_of(live.visual_anchor);
            let cb: usize = self.spot();
            let (lo, z): (usize, usize) = if ca < cb {
                (ca, cb)
            } else {
                (cb, ca)
            };
            let last: usize = self.buffer().last_char_idx();
            let most: usize = if last > lo + 1 {
                last
            } else {
                lo + 1
            };
            (lo, min_of(z + 1, most), false, 0)
        }
    }

    /// Apply an operator to the selection.
    pub fn visual_operate(&mut self, op: char)
        requires
            old(self).wf(),
        ensures
            final(self).wf(),
            final(self)@ == selection_operated(old(self)@, op),
    {
        if op != 'd' && op != 'y' && op != 'c' {
            self.set_mode(Mode::Normal);
            self.clamp_cursor();
            self.reset_pending();
            return;
        }
        let (lo, hi, linewise, first) = self.visual_range();
        self.push_undo();
        self.yank_range(lo, hi, linewise);
        match op {
            'd' => {
                self.remove_for_operator(lo, hi, linewise, first);
                self.set_mode(Mode::Normal);
                self.clamp_cursor();
            },
            'y' => {
                self.go_to_range(lo, linewise, first);
                self.set_mode(Mode::Normal);
                self.clamp_cursor();
            },
            'c' => {
                self.change_for_operator(lo, hi, linewise, first);
            },
            _ => {},
        }
        self.reset_pending();
    }

    fn set_visual_span_lines(&mut self, lo: usize, hi: usize)
        requires
            old(self).wf(),
        ensures
            final(self).wf(),
            final(self)@ == lines_selected(old(self)@, lo as int, hi as int),
    {
        let first: usize = self.line_at(lo);
        let last: usize = self.line_at(hi.saturating_sub(1));
        let mut live = self.live();
        live.visual_anchor = Cursor { line: first, col: 0 };
        live.cursor = Cursor { line: last, col: 0 };
        self.set_live(live);
        self.clamp_cursor();
    }

    fn set_visual_span(&mut self, lo: usize, hi: usize)
        requires
            old(self).wf(),
            hi <= old(self)@.text().len(),
        ensures
            final(self).wf(),
            final(self)@ == range_selected(old(self)@, lo as int, hi as int),
    {
        let end: usize = if hi > lo {
            self.prev(hi)
        } else {
            lo
        };
        self.set_cursor_char(lo);
        let mut live = self.live();
        live.visual_anchor = live.cursor;
        self.set_live(live);
        self.set_cursor_char(end);
    }

    /// The range of a text object at the cursor.
    pub fn text_object_range(&self, ia: char, kind: ObjectKind, count: usize) -> (r: Option<
        (usize, usize, bool),
    >)
        requires
            self.wf(),
        ensures
            match object_range(self@, ia, kind, count as nat) {
                Some((lo, hi, linewise)) => {
                    &&& r is Some
                    &&& (r->0).0 == lo
                    &&& (r->0).1 == hi
                    &&& (r->0).2 == linewise
                    &&& lo <= self@.text().len()
                    &&& hi <= self@.text().len()
                },
                None => r is None,
            },
    {
        proof {
            reveal(object_range);
            reveal(Pane::line);
            reveal(Pane::start_of);
        }
        let inner = ia == 'i';
        let cur: usize = self.spot();
        let line: usize = self.line_no();
        let visual = self.live().mode.is_visual();
        let b = self.buffer();
        match kind {
            ObjectKind::Word(big) => {
                let (lo, hi) = b.word_object(cur, inner, count, big);
                Some((lo, hi, false))
            },
            ObjectKind::Pair(open, close) => b.pair_object(cur, inner, open, close, visual),
            ObjectKind::Quote(q) => {
                proof {
                    self.spot_on_line();
                }
                let col: usize = cur - self.start_of(line);
                match b.quote_object(Cursor { line, col }, inner, q as u8) {
                    Some((lo, hi)) => Some((lo, hi, false)),
                    None => None,
                }
            },
            ObjectKind::Sentence => match b.sentence_object(line, cur, inner, count) {
                Some((lo, hi)) => Some((lo, hi, false)),
                None => None,
            },
            ObjectKind::Paragraph => {
                let (first, last) = b.paragraph_object(line, inner, count);
                let total: usize = b.line_count();
                assert(last < total);
                Some((b.line_start(first), b.line_start(last + 1), true))
            },
        }
    }

    /// Apply the pending operator to a text object's range, or select it.
    pub fn apply_text_object(&mut self, lo: usize, hi: usize, linewise: bool)
        requires
            old(self).wf(),
            hi <= old(self)@.text().len(),
        ensures
            final(self).wf(),
            final(self)@ == object_applied(old(self)@, lo as int, hi as int, linewise),
    {
        let live = self.live();
        if live.mode.is_visual() {
            if linewise {
                self.set_mode(Mode::VisualLine);
                self.set_visual_span_lines(lo, hi);
            } else {
                if live.mode == Mode::VisualLine {
                    self.set_mode(Mode::Visual);
                }
                self.set_visual_span(lo, hi);
            }
            let mut pending = self.live().pending;
            pending.stage = Stage::Start;
            self.set_pending(pending);
            return;
        }
        let op = live.pending.operator;
        let mut pending = live.pending;
        pending.operator = None;
        let first: usize = self.line_at(lo);
        self.set_pending(pending);
        if let Some(op) = op {
            if linewise {
                self.apply_operator_to_range(op, lo, hi, true, first);
            } else {
                self.apply_operator_to_range(op, lo, hi, false, 0);
            }
        }
        self.reset_pending();
    }
}

/// An operator that takes its range puts the text of it, as it was, in the register that is
/// named for it, and the registers hold nothing else that is new. Without a range, and for any
/// other operator, they stay as they are.
pub proof fn operator_fills_its_register(
    p: Pane,
    op: char,
    lo: int,
    hi: int,
    linewise: bool,
    first: usize,
)
    ensures
        ({
            let (a, z) = grown(p.text(), lo, hi);
            operated(p, op, lo, hi, linewise, first).regs == if lo < hi && a < z && (op == 'y'
                || op == 'd' || op == 'c') {
                put_in(
                    p.regs,
                    p.live.pending.register,
                    Reg { text: decode_utf8(p.text().subrange(a, z)), linewise },
                )
            } else {
                p.regs
            }
        }),
{
    reveal(yanked);
    reveal(deleted);
    reveal(after_lines_gone);
    reveal(Pane::pushed);
    reveal(Pane::held);
    reveal(Pane::at);
}

/// What an operator takes to the black hole is in no register.
pub proof fn black_hole_spares_registers(
    p: Pane,
    op: char,
    lo: int,
    hi: int,
    linewise: bool,
    first: usize,
)
    requires
        p.live.pending.register == Some('_'),
    ensures
        operated(p, op, lo, hi, linewise, first).regs == p.regs,
{
    operator_fills_its_register(p, op, lo, hi, linewise, first);
}

} // verus!
