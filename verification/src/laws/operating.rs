//! What operators take, and what they leave.

use vstd::prelude::*;
use vstd::utf8::*;

use crate::batch::is_fixed;
use crate::buffer::{lemma_normalized, lemma_removed};
use crate::command::{PendingCommand, ResolvedCommand};
use crate::desk::{deleted, grown, yanked, Pane};
use crate::editor::normal::{command_made, normal_keyed};
use crate::editor::World;
use crate::laws::pasting::ended;
use crate::laws::{
    adds, counted, key_of, leads, lemma_added, lemma_led, lemma_line_is, lemma_own, lemma_times,
    offset, on_text, ready, times,
};
use crate::mode::Mode;
use crate::motion::{MotionKind, MoveAxis};
use crate::motions::{line_at, line_landing, total_count, Landing};
use crate::nav::{floor_idx, lemma_line_offset, lemma_line_text, own_line, own_start};
use crate::open::Live;
use crate::operate::{
    after_lines_gone, doubled_operated, operated, operator_range, pending_reset, selected,
    selection_operated,
};
use crate::registers::held_in;
use crate::text::{
    buffer_text, edit_lines, lemma_buffer_lines, lemma_line_start, lemma_line_start_mono, line_of,
    line_start, line_text,
};
use crate::unicode::{bound, lemma_bound_ends, lemma_bound_upto};

verus! {

/// A grapheme begins at an offset, or a line ends there.
pub open spec fn stands(t: Seq<u8>, i: int) -> bool {
    let rel = i - own_start(t, i);
    0 <= i <= t.len() && rel <= own_line(t, i).len() && bound(own_line(t, i), rel)
}

pub proof fn lemma_grown(t: Seq<u8>, lo: int, hi: int)
    requires
        buffer_text(t),
        stands(t, lo),
        stands(t, hi),
        lo < hi,
    ensures
        grown(t, lo, hi) == (lo, hi),
{
    reveal(grown);
    crate::nav::lemma_own_line(t, lo);
    crate::nav::lemma_own_line(t, hi);
    lemma_bound_upto(own_line(t, lo), lo - own_start(t, lo));
    lemma_bound_upto(own_line(t, hi), hi - own_start(t, hi));
    assert(floor_idx(t, lo) == lo);
    assert(floor_idx(t, hi) == hi);
}

/// Every line begins at a grapheme.
pub proof fn lemma_line_start_stands(t: Seq<u8>, n: int)
    requires
        buffer_text(t),
        0 <= n,
    ensures
        stands(t, line_start(t, n)),
{
    lemma_line_start(t, n);
    lemma_buffer_lines(t);
    let i = line_start(t, n);
    if n < edit_lines(t) {
        lemma_line_text(t, n);
        lemma_line_is(t, n, i);
        lemma_bound_ends(line_text(t, n));
    } else {
        let m = edit_lines(t) as int;
        lemma_line_text(t, n);
        lemma_line_text(t, m);
        crate::nav::lemma_own_line(t, i);
        lemma_bound_ends(own_line(t, i));
    }
}

/// Yanking leaves the text and all that can be undone as they are.
pub proof fn yank_changes_no_text(p: Pane, lo: int, hi: int, linewise: bool, first: usize)
    ensures
        operated(p, 'y', lo, hi, linewise, first).open == p.open,
{
    reveal(yanked);
    reveal(Pane::held);
    reveal(Pane::at);
}

/// Deleting takes a range out of the text, and nothing else; undo can put it back. What is taken
/// is in the register, so that the text before, that of the register and the text after make up
/// what there was. A change takes the same, and goes on to typing at its start; of whole lines
/// it leaves an empty one.
pub proof fn delete_takes_the_range(p: Pane, lo: int, hi: int, linewise: bool, first: usize)
    requires
        buffer_text(p.text()),
        stands(p.text(), lo),
        stands(p.text(), hi),
        lo < hi,
        p.live.pending.register is None,
        !p.live.snapshot_taken,
    ensures
        ({
            let t = p.text();
            let d = operated(p, 'd', lo, hi, linewise, first);
            let c = operated(p, 'c', lo, hi, false, first);
            let r = held_in(d.regs, None);
            &&& d.text() == ended(t.take(lo) + t.skip(hi))
            &&& d.open.undo.len() == p.open.undo.len() + 1
            &&& d.open.undo.last().text == t
            &&& d.live.mode == p.live.mode
            &&& r is Some && r->0.linewise == linewise
            &&& valid_utf8(t.subrange(lo, hi)) ==> t == t.take(lo) + encode_utf8(r->0.text)
                + t.skip(hi)
            &&& c.text() == d.text()
            &&& c.live.mode == Mode::Insert
            &&& held_in(operated(p, 'y', lo, hi, linewise, first).regs, None) == r
        }),
{
    reveal(yanked);
    reveal(deleted);
    reveal(Pane::held);
    reveal(Pane::at);
    reveal(Pane::pushed);
    reveal(after_lines_gone);
    let t = p.text();
    lemma_grown(t, lo, hi);
    let q = yanked(p, lo, hi, linewise).pushed();
    lemma_removed(q.open.buffer, lo, hi);
    lemma_normalized(crate::buffer::removed(q.open.buffer, lo, hi));
    assert(crate::text::cut_out(t, lo, hi) =~= t.take(lo) + t.skip(hi));
    let s = t.subrange(lo, hi);
    if valid_utf8(s) {
        decode_utf8_encode_utf8(s);
        assert(t =~= t.take(lo) + s + t.skip(hi));
    }
    let q2 = yanked(p, lo, hi, false).pushed();
    lemma_removed(q2.open.buffer, lo, hi);
    lemma_normalized(crate::buffer::removed(q2.open.buffer, lo, hi));
}

/// An operator takes what lies between the cursor and where a motion lands, on either side of
/// it. The grapheme at the end of that is taken by a motion that takes its target in, and whole
/// lines, from the first to the last of the two, by one that goes by lines.
pub proof fn operator_reaches_the_target(p: Pane, m: Landing)
    requires
        buffer_text(p.text()),
        on_text(p),
        0 <= m.target < p.text().len(),
    ensures
        ({
            let (lo, hi, linewise, first) = operator_range(p, m);
            let (at, to) = (offset(p), m.target);
            let (l1, l2) = (p.live.cursor.line as int, line_of(p.text(), to) as int);
            let (a, z) = if at <= to {
                (at, to)
            } else {
                (to, at)
            };
            let (f, l) = if l1 <= l2 {
                (l1, l2)
            } else {
                (l2, l1)
            };
            match m.kind {
                MotionKind::Exclusive => lo == a && hi == z && !linewise,
                MotionKind::Inclusive => lo == a && hi == z + 1 && !linewise,
                MotionKind::Linewise => linewise && first == f && lo == line_start(p.text(), f)
                    && hi == line_start(p.text(), l + 1),
            }
        }),
{
    lemma_own(p);
    reveal(line_at);
    reveal(Pane::start_of);
    lemma_line_text(p.text(), p.live.cursor.line as int);
    lemma_line_offset(p.text(), p.live.cursor.line as int, p.live.cursor.col as int);
    crate::nav::lemma_line_ends_early(p.text(), p.live.cursor.line as int);
}

/// A selection is the same whichever of its ends the cursor is at, and holds both. One of whole
/// lines runs from the first of the two lines to the last, with both; any other from the first
/// of the two places on, over the character at the other.
pub proof fn selection_has_both_ends(p: Pane)
    requires
        buffer_text(p.text()),
        on_text(p),
        on_text(p.with_cursor(p.live.visual_anchor)),
    ensures
        ({
            let t = p.text();
            let (c, v) = (p.live.cursor, p.live.visual_anchor);
            let swapped = Pane { live: Live { cursor: v, visual_anchor: c, ..p.live }, ..p };
            let (lo, hi, linewise, first) = selected(p);
            let a = offset(p);
            let b = offset(p.with_cursor(v));
            let (low, high) = if a <= b {
                (a, b)
            } else {
                (b, a)
            };
            &&& selected(swapped) == selected(p)
            &&& linewise == (p.live.mode == Mode::VisualLine)
            &&& linewise ==> {
                let (f, l) = if c.line <= v.line {
                    (c.line as int, v.line as int)
                } else {
                    (v.line as int, c.line as int)
                };
                &&& first == f
                &&& lo == line_start(t, f)
                &&& hi == line_start(t, l + 1)
            }
            &&& !linewise ==> lo == low && hi > low
            &&& !linewise && high + 1 < t.len() ==> hi == high + 1
        }),
{
    let other = p.with_cursor(p.live.visual_anchor);
    let swapped = Pane {
        live: Live { cursor: p.live.visual_anchor, visual_anchor: p.live.cursor, ..p.live },
        ..p
    };
    lemma_own(p);
    lemma_own(other);
    lemma_own(swapped);
    lemma_own(swapped.with_cursor(p.live.cursor));
    reveal(Pane::start_of);
    lemma_line_offset(p.text(), p.live.cursor.line as int, p.live.cursor.col as int);
    lemma_line_offset(
        p.text(),
        p.live.visual_anchor.line as int,
        p.live.visual_anchor.col as int,
    );
}

/// A selection is deleted, yanked or changed as the operator on its range is: `d`
/// takes the range out and `y` leaves the text, and both end the selection.
pub proof fn selection_is_taken(p: Pane)
    requires
        buffer_text(p.text()),
        p.live.pending.register is None,
        ({
            let (lo, hi, linewise, first) = selected(p);
            &&& stands(p.text(), lo)
            &&& stands(p.text(), hi)
            &&& lo < hi
        }),
    ensures
        ({
            let (lo, hi, linewise, first) = selected(p);
            let t = p.text();
            let d = selection_operated(p, 'd');
            let y = selection_operated(p, 'y');
            let c = selection_operated(p, 'c');
            let r = held_in(d.regs, None);
            &&& d.text() == ended(t.take(lo) + t.skip(hi))
            &&& y.text() == t
            &&& !linewise ==> c.text() == d.text()
            &&& d.live.mode == Mode::Normal
            &&& y.live.mode == Mode::Normal
            &&& c.live.mode == Mode::Insert
            &&& r is Some && r->0.linewise == linewise
            &&& valid_utf8(t.subrange(lo, hi)) ==> encode_utf8(r->0.text) == t.subrange(lo, hi)
            &&& held_in(y.regs, None) == r
            &&& held_in(c.regs, None) == r
        }),
{
    reveal(yanked);
    reveal(deleted);
    reveal(Pane::held);
    reveal(Pane::at);
    reveal(Pane::pushed);
    reveal(after_lines_gone);
    let t = p.text();
    let (lo, hi, linewise, first) = selected(p);
    lemma_grown(t, lo, hi);
    let q = yanked(p.pushed(), lo, hi, linewise).pushed();
    lemma_removed(q.open.buffer, lo, hi);
    lemma_normalized(crate::buffer::removed(q.open.buffer, lo, hi));
    assert(crate::text::cut_out(t, lo, hi) =~= t.take(lo) + t.skip(hi));
    let s = t.subrange(lo, hi);
    if valid_utf8(s) {
        decode_utf8_encode_utf8(s);
    }
}

/// The keys of an operator, twice.
pub open spec fn doubled(w: World, op: char) -> World {
    normal_keyed(normal_keyed(w, key_of(op)), key_of(op))
}

/// An operator for which a count was typed before it.
pub open spec fn armed(n: Option<usize>, op: char) -> PendingCommand {
    PendingCommand { op_count: n, operator: Some(op), count: None, ..counted(n) }
}

/// The keys of the operators.
proof fn lemma_operator_keys(n: Option<usize>, op: char)
    requires
        op == 'd' || op == 'y' || op == 'c',
    ensures
        adds(counted(n), op, armed(n, op)),
        leads(armed(n, op), op, ResolvedCommand::DoubledOperator(op)),
{
    reveal(leads);
    reveal(adds);
}

proof fn lemma_doubled_made(w: World, op: char)
    ensures
        command_made(w, ResolvedCommand::DoubledOperator(op)) == w.with_pane(
            doubled_operated(w.pane(), op),
        ),
{
    reveal(command_made);
}

proof fn lemma_doubled(w: World, n: Option<usize>, op: char)
    requires
        ready(w, n),
        op == 'd' || op == 'y' || op == 'c',
        op == 'y' || !is_fixed(w.pane().open.buffer),
    ensures
        ({
            let v = Pane { live: Live { pending: armed(n, op), ..w.live }, ..w.pane() };
            doubled(w, op).pane() == doubled_operated(v, op)
        }),
{
    lemma_operator_keys(n, op);
    lemma_added(w, op, armed(n, op));
    let v = normal_keyed(w, key_of(op));
    lemma_led(v, op, ResolvedCommand::DoubledOperator(op));
    lemma_doubled_made(v.hushed(), op);
}

/// `dd` deletes as many whole lines as its count says, from the line of the cursor on, or all
/// that there are; `yy` yanks the same lines. The register holds them as lines.
pub proof fn doubled_operators_take_lines(w: World, n: Option<usize>)
    requires
        ready(w, n),
        on_text(w.pane()),
        n != Some(0usize),
        !is_fixed(w.pane().open.buffer),
        !w.live.snapshot_taken,
    ensures
        ({
            let p = w.pane();
            let t = p.text();
            let line = p.live.cursor.line as int;
            let total = edit_lines(t) as int;
            let a = line_start(t, line);
            let z = line_start(
                t,
                if line + times(n) <= total {
                    line + times(n)
                } else {
                    total
                },
            );
            let d = doubled(w, 'd').pane();
            let y = doubled(w, 'y').pane();
            let r = held_in(d.regs, None);
            &&& 0 <= a < z <= t.len()
            &&& d.text() == ended(t.take(a) + t.skip(z))
            &&& y.text() == t
            &&& r is Some && r->0.linewise
            &&& held_in(y.regs, None) == r
            &&& valid_utf8(t.subrange(a, z)) ==> encode_utf8(r->0.text) == t.subrange(a, z)
        }),
{
    let p = w.pane();
    let t = p.text();
    let line = p.live.cursor.line as int;
    let total = edit_lines(t) as int;
    let end = if line + times(n) <= total {
        line + times(n)
    } else {
        total
    };
    let a = line_start(t, line);
    let z = line_start(t, end);
    lemma_times(n);
    lemma_buffer_lines(t);
    lemma_line_start(t, line);
    lemma_line_start(t, line + 1);
    lemma_line_start_mono(t, line + 1, end);
    lemma_line_start(t, end);
    lemma_line_start_stands(t, line);
    lemma_line_start_stands(t, end);
    lemma_line_start(t, end - 1);
    lemma_line_is(t, end - 1, line_start(t, end - 1));
    lemma_doubled(w, n, 'd');
    lemma_doubled(w, n, 'y');
    lemma_doubled_range(p, n, 'd', end);
    lemma_doubled_range(p, n, 'y', end);
    let q = Pane {
        live: Live { pending: PendingCommand { op_count: n, ..counted(None) }, ..p.live },
        ..p
    };
    lemma_lines_taken(q, a, z, line as usize);
}

proof fn lemma_lines_taken(q: Pane, a: int, z: int, first: usize)
    requires
        buffer_text(q.text()),
        stands(q.text(), a),
        stands(q.text(), z),
        a < z,
        q.live.pending.register is None,
        !q.live.snapshot_taken,
    ensures
        ({
            let t = q.text();
            let d = pending_reset(operated(q, 'd', a, z, true, first));
            let y = pending_reset(operated(q, 'y', a, z, true, first));
            let r = held_in(d.regs, None);
            &&& d.text() == ended(t.take(a) + t.skip(z))
            &&& y.text() == t
            &&& r is Some && r->0.linewise
            &&& held_in(y.regs, None) == r
            &&& valid_utf8(t.subrange(a, z)) ==> encode_utf8(r->0.text) == t.subrange(a, z)
        }),
{
    let t = q.text();
    delete_takes_the_range(q, a, z, true, first);
    yank_changes_no_text(q, a, z, true, first);
    let r = held_in(operated(q, 'd', a, z, true, first).regs, None)->0;
    if valid_utf8(t.subrange(a, z)) {
        let s = encode_utf8(r.text);
        let u = t.take(a) + s + t.skip(z);
        assert(u.len() == t.len());
        assert(t.subrange(a, z) =~= u.subrange(a, z));
        assert(u.subrange(a, z) =~= s);
    }
}

proof fn lemma_doubled_range(p: Pane, n: Option<usize>, op: char, end: int)
    requires
        buffer_text(p.text()),
        on_text(p),
        n != Some(0usize),
        ({
            let line = p.live.cursor.line as int;
            let total = edit_lines(p.text()) as int;
            end == if line + times(n) <= total {
                line + times(n)
            } else {
                total
            }
        }),
    ensures
        ({
            let c = PendingCommand { op_count: n, operator: Some(op), count: None, ..counted(n) };
            let v = Pane { live: Live { pending: c, ..p.live }, ..p };
            let q = Pane {
                live: Live { pending: PendingCommand { op_count: n, ..counted(None) }, ..p.live },
                ..p
            };
            doubled_operated(v, op) == pending_reset(
                operated(
                    q,
                    op,
                    line_start(p.text(), p.live.cursor.line as int),
                    line_start(p.text(), end),
                    true,
                    p.live.cursor.line,
                ),
            )
        }),
{
    let c = PendingCommand { op_count: n, operator: Some(op), count: None, ..counted(n) };
    let v = Pane { live: Live { pending: c, ..p.live }, ..p };
    let q = Pane {
        live: Live { pending: PendingCommand { op_count: n, ..counted(None) }, ..p.live },
        ..p
    };
    let t = p.text();
    let line = p.live.cursor.line as int;
    assert(total_count(c) == times(n)) by {
        assert(times(n) * 1 == times(n)) by (nonlinear_arith);
        assert(total_count(c) == crate::layout::clip((times(n) as int) * 1));
    }
    lemma_own(v);
    lemma_own(q);
    lemma_buffer_lines(t);
    lemma_line_start(t, end - 1);
    lemma_line_start(t, end);
    lemma_line_is(t, end - 1, line_start(t, end - 1));
    reveal(Pane::start_of);
    reveal(line_at);
    let m = line_landing(v.start_of(end - 1), MoveAxis::LineAnchor);
    assert(line_at(q, m.target) == end - 1);
    assert(operator_range(q, m) == (line_start(t, line), line_start(t, end), true, line));
}

} // verus!
