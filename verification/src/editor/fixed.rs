//! Texts that may not be changed.

use vstd::prelude::*;

use crate::batch::is_fixed;
use crate::command::{Motion, NormalCmd, ObjectKind, PendingCommand, ResolvedCommand, WindowCmd};
use crate::desk::{yanked, Pane};
use crate::editor::buffers::{buffer_place, left, switched};
use crate::editor::files::{context_marked, first_modified};
use crate::editor::keys::typing_keyed;
use crate::editor::normal::{
    all_cancelled, command_done, command_made, find_noted, mark_visited, motion_done, motion_made,
    edit_done, motion_mark, move_done, normal_done, normal_keyed, object_done, reset, scroll_done, window_done,
    would_change,
};
use crate::editor::panes::{
    arrived, arrived_live, place_of, rearranged, saved_place, view_stashed,
    window_closed, window_focused,
};
use crate::editor::prompts::selection_marked;
use crate::editor::{
    bound_to, focus_on, frame, relaid, scroll_limit, seen, view_of, with_open, World,
};
use crate::input::Key;
use crate::layout::WindowId;
use crate::mode::{selecting, Mode};
use crate::motions::{movement, total_count, Landing};
use crate::nav::{indent_len, last_line_of};
use crate::num::{least, less};
use crate::open::Live;
use crate::operate::{
    at_range, doubled_operated, motion_applied, object_applied, operated, operator_range,
    selection_operated, with_pending,
};
use crate::text::line_text;
use crate::typing::typed_key;
use crate::window::{BufferId, WindowsModel};
use crate::wins::Place;

verus! {

/// Every buffer is still there, with the text that it had.
pub open spec fn keeps_texts(a: World, b: World) -> bool {
    forall|k: u64| #[trigger]
        a.buffers.contains_key(k) ==> b.buffers.contains_key(k) && b.buffers[k].buffer.text
            == a.buffers[k].buffer.text
}

/// The text at hand is the same.
pub open spec fn same_text(p: Pane, q: Pane) -> bool {
    p.open.buffer.text == q.open.buffer.text
}

proof fn lemma_chain(a: World, b: World, c: World)
    requires
        keeps_texts(a, b),
        keeps_texts(b, c),
    ensures
        keeps_texts(a, c),
{
    assert forall|k: u64| #[trigger] a.buffers.contains_key(k) implies c.buffers.contains_key(k)
        && c.buffers[k].buffer.text == a.buffers[k].buffer.text by {
        assert(b.buffers.contains_key(k));
    }
}

proof fn lemma_pane(w: World, p: Pane)
    requires
        same_text(w.pane(), p),
    ensures
        keeps_texts(w, w.with_pane(p)),
{
}

proof fn lemma_seen(w: World)
    ensures
        keeps_texts(w, seen(w)),
{
    reveal(seen);
    lemma_pane(w, view_of(w));
}

proof fn lemma_arrived(w: World, p: Place)
    ensures
        keeps_texts(w, arrived(w, p)),
{
    reveal(arrived);
    reveal(Pane::held);
    let a = World {
        live: arrived_live(w.live, p),
        pending_scroll: None,
        ..w
    }.hushed();
    lemma_pane(a, a.pane().held());
    lemma_seen(a.with_pane(a.pane().held()));
    lemma_chain(w, a.with_pane(a.pane().held()), arrived(w, p));
}

proof fn lemma_switched(w: World, id: BufferId)
    ensures
        keeps_texts(w, switched(w, id)),
{
    if id != w.cur() && w.buffers.contains_key(id.0) {
        let a = with_open(
            w,
            w.cur(),
            left(
                w.buffers[w.cur().0],
                place_of(w.live),
            ),
        );
        let b = World { alternate: Some(w.cur()), ..a };
        let c = bound_to(b, id);
        lemma_arrived(c, buffer_place(b.buffers[id.0]));
        assert(keeps_texts(w, c));
        lemma_chain(w, c, switched(w, id));
    }
}

proof fn lemma_held(p: Pane)
    ensures
        same_text(p, p.held()),
{
    reveal(Pane::held);
}

proof fn lemma_at(p: Pane, i: int)
    ensures
        same_text(p, p.at(i)),
{
    reveal(Pane::at);
}

proof fn lemma_yanked(p: Pane, lo: int, hi: int, linewise: bool)
    ensures
        same_text(p, yanked(p, lo, hi, linewise)),
{
    reveal(yanked);
}

proof fn lemma_yank_operated(
    p: Pane,
    lo: int,
    hi: int,
    linewise: bool,
    first: usize,
)
    ensures
        same_text(p, operated(p, 'y', lo, hi, linewise, first)),
{
    let q = yanked(p, lo, hi, linewise);
    lemma_yanked(p, lo, hi, linewise);
    lemma_at(q, lo);
    lemma_held(at_range(q, lo, linewise, first));
}

proof fn lemma_movement(p: Pane, m: Landing)
    ensures
        same_text(p, movement(p, m)),
{
    lemma_at(p, m.target);
    reveal(Pane::held);
}

proof fn lemma_motion_applied(p: Pane, m: Landing)
    requires
        p.live.pending.operator matches Some(op) ==> op == 'y',
    ensures
        same_text(p, motion_applied(p, m)),
{
    let q = with_pending(
        p,
        PendingCommand { operator: None, ..p.live.pending },
    );
    match p.live.pending.operator {
        Some(op) => {
            let (lo, hi, linewise, first) = operator_range(q, m);
            lemma_yank_operated(q, lo, hi, linewise, first as usize);
        },
        None => {
            let r = Pane {
                live: Live {
                    scroll_from: Some((p.live.top, p.live.cursor.line)),
                    ..q.live
                },
                ..q
            };
            lemma_movement(r, m);
        },
    }
}

proof fn lemma_motion(w: World, m: Motion)
    requires
        w.live.pending.operator matches Some(op) ==> op == 'y',
    ensures
        keeps_texts(w, motion_done(w, m)),
{
    reveal(motion_done);
    let v = find_noted(w, m);
    let at = motion_mark(v, m);
    let visits = at is Some && at->0.buf != v.cur();
    if visits {
        let c = context_marked(v);
        let k = at->0;
        let a = switched(c, k.buf);
        lemma_switched(c, k.buf);
        reveal(mark_visited);
        let p = a.pane();
        let line = least(k.line as int, last_line_of(p.text()));
        let col = if m is MarkJumpLine {
            indent_len(line_text(p.text(), line), 0) as int
        } else {
            k.col as int
        };
        let q = crate::changes::settled_at(p, line, col);
        lemma_at(
            p,
            p.start_of(least(line, last_line_of(p.text())))
                + least(
                col,
                line_text(
                    p.text(),
                    least(line, last_line_of(p.text())),
                ).len() as int,
            ),
        );
        lemma_pane(a, q);
        lemma_seen(a.with_pane(q));
        assert(keeps_texts(w, c));
        lemma_chain(w, c, a);
        lemma_chain(w, a, a.with_pane(q));
        lemma_chain(w, a.with_pane(q), seen(a.with_pane(q)));
    } else {
        reveal(motion_made);
        let mark = match at {
            Some(k) => Some((k.line, k.col)),
            None => None,
        };
        match crate::motions::motion_landing(v.pane(), m, mark) {
            Some(l) => {
                let a = if crate::command::jump_motion(m) && v.live.pending.operator is None {
                    context_marked(v)
                } else {
                    v
                };
                assert(keeps_texts(w, a));
                lemma_motion_applied(a.pane(), l);
                lemma_pane(a, motion_applied(a.pane(), l));
                lemma_chain(w, a, a.with_pane(motion_applied(a.pane(), l)));
            },
            None => {},
        }
    }
}

proof fn lemma_object(w: World, ia: char, kind: ObjectKind)
    requires
        w.live.pending.operator matches Some(op) ==> op == 'y',
    ensures
        keeps_texts(w, object_done(w, ia, kind)),
{
    reveal(object_done);
    let p = w.pane();
    match crate::operate::object_range(
        p,
        ia,
        kind,
        total_count(w.live.pending) as nat,
    ) {
        Some((lo, hi, linewise)) => {
            if selecting(p.live.mode) {
                reveal(Pane::held);
                reveal(Pane::at);
            } else {
                let q = with_pending(
                    p,
                    PendingCommand { operator: None, ..p.live.pending },
                );
                lemma_yank_operated(
                    q,
                    lo,
                    hi,
                    linewise,
                    if linewise {
                        crate::motions::line_at(p, lo) as usize
                    } else {
                        0
                    },
                );
            }
            lemma_pane(w, object_applied(p, lo, hi, linewise));
        },
        None => {},
    }
}

proof fn lemma_rearranged(w: World, t: WindowsModel)
    ensures
        keeps_texts(w, rearranged(w, t)),
{
    reveal(relaid);
    let a = relaid(World { windows: t, ..w });
    lemma_seen(a);
    lemma_chain(w, a, seen(a));
}

proof fn lemma_focused(w: World, id: WindowId)
    ensures
        keeps_texts(w, window_focused(w, id)),
{
    if id != w.windows.current && w.windows.windows.contains_key(id.0) {
        let s = view_stashed(w);
        lemma_arrived(focus_on(s, id), saved_place(s.windows.windows[id.0]));
    }
}

proof fn lemma_closed(w: World, id: WindowId)
    ensures
        keeps_texts(w, window_closed(w, id)),
{
    reveal(relaid);
    let t = crate::wins::window_removed(w.windows, id);
    if crate::wins::closable(w.windows, id) {
        if id == w.windows.current {
            let next = crate::wins::nearest_to(t, w.windows.windows[id.0].rect)->0;
            let laid = World {
                windows: crate::window::windows_laid(
                    t,
                    crate::editor::total_area(w),
                    (0, 0),
                ),
                ..w
            };
            lemma_arrived(focus_on(laid, next), saved_place(laid.windows.windows[next.0]));
        } else {
            lemma_rearranged(w, t);
        }
    }
}

proof fn lemma_window(w0: World, cmd: WindowCmd)
    ensures
        keeps_texts(w0, window_done(w0, cmd)),
{
    reveal(window_done);
    let n = crate::editor::normal::cells(total_count(w0.live.pending));
    let w = reset(w0);
    assert forall|t: WindowsModel| keeps_texts(w, #[trigger] rearranged(w, t)) by {
        lemma_rearranged(w, t);
    }
    assert forall|id: WindowId| keeps_texts(w, #[trigger] window_focused(w, id)) by {
        lemma_focused(w, id);
    }
    lemma_closed(w, w.windows.current);
    if cmd is Quit && w.windows.windows.dom().len() <= 1 {
        match first_modified(w, crate::editor::buffers::listed(w), 0) {
            Some(id) => lemma_switched(w, id),
            None => {},
        }
    }
}

proof fn lemma_move(w: World, cmd: NormalCmd, count: usize)
    requires
        !(cmd is Undo || cmd is Redo),
    ensures
        keeps_texts(w, move_done(w, cmd, count)),
{
    reveal(move_done);
    match cmd {
        NormalCmd::ScrollHalf(_) | NormalCmd::ScrollPage(_) | NormalCmd::ScrollLine(_) => {
            reveal(Pane::held);
            lemma_pane(w, scroll_done(w.pane(), cmd, frame(w), scroll_limit(w)));
        },
        NormalCmd::AltBuffer => {
            if w.alternate is Some {
                lemma_switched(w, w.alternate->0);
            }
        },
        _ => {},
    }
}

proof fn lemma_cancelled(w: World)
    ensures
        keeps_texts(w, all_cancelled(w)),
{
    let a = reset(w);
    if selecting(w.live.mode) {
        let b = selection_marked(a);
        let p = b.pane().with_mode(Mode::Normal).held();
        lemma_held(b.pane().with_mode(Mode::Normal));
        lemma_pane(b, p);
        assert(keeps_texts(w, b));
        lemma_chain(w, b, b.with_pane(p));
    }
}

proof fn lemma_lines_yanked(p: Pane)
    ensures
        same_text(p, doubled_operated(p, 'y')),
{
    let count = total_count(p.live.pending) as int;
    let last = least(
        p.line_no() + less(count, 1),
        last_line_of(p.text()),
    );
    let q = with_pending(p, PendingCommand { operator: None, ..p.live.pending });
    let m = crate::motions::line_landing(p.start_of(last), crate::motion::MoveAxis::LineAnchor);
    let (lo, hi, linewise, first) = operator_range(q, m);
    lemma_yank_operated(q, lo, hi, linewise, first as usize);
}

proof fn lemma_selection_yanked(p: Pane)
    ensures
        same_text(p, selection_operated(p, 'y')),
{
    let (lo, hi, linewise, f) = crate::operate::selected(p);
    let q = yanked(p.pushed(), lo, hi, linewise);
    reveal(Pane::pushed);
    lemma_yanked(p.pushed(), lo, hi, linewise);
    lemma_at(q, lo);
    lemma_held(at_range(q, lo, linewise, f as usize).with_mode(Mode::Normal));
}

proof fn lemma_normal(w: World, cmd: NormalCmd)
    requires
        !would_change(w.live.pending, ResolvedCommand::Normal(cmd)),
    ensures
        keeps_texts(w, normal_done(w, cmd)),
{
    reveal(normal_done);
    reveal(edit_done);
    lemma_move(w, cmd, total_count(w.live.pending));
    lemma_pane(w, crate::editor::normal::selection_entered(w.pane(), Mode::Visual));
    lemma_pane(w, crate::editor::normal::selection_entered(w.pane(), Mode::VisualLine));
}

proof fn lemma_rest_made(w: World, cmd: ResolvedCommand)
    requires
        cmd is SetMark || cmd is OperatorSearch,
    ensures
        keeps_texts(w, command_made(w, cmd)),
{
    reveal(command_made);
}

/// No command changes a text that may not be changed, nor any other text.
pub proof fn commands_keep_fixed_texts(w: World, cmd: ResolvedCommand)
    requires
        is_fixed(w.buffers[w.cur().0].buffer),
    ensures
        keeps_texts(w, command_done(w, cmd)),
{
    if would_change(w.live.pending, cmd) {
        lemma_cancelled(w);
        lemma_chain(w, all_cancelled(w), command_done(w, cmd));
    } else {
        reveal(command_made);
        let p = w.pane();
        match cmd {
            ResolvedCommand::Motion(m) => {
                lemma_motion(w, m);
            },
            ResolvedCommand::TextObject { ia, kind } => {
                lemma_object(w, ia, kind);
            },
            ResolvedCommand::DoubledOperator(op) => {
                lemma_lines_yanked(p);
                lemma_pane(w, doubled_operated(p, op));
            },
            ResolvedCommand::VisualOperate(op) => {
                lemma_selection_yanked(p);
                lemma_pane(w, selection_operated(p, op));
            },
            ResolvedCommand::Normal(c) => {
                lemma_normal(w, c);
            },
            ResolvedCommand::Window(c) => {
                lemma_window(w, c);
            },
            _ => lemma_rest_made(w, cmd),
        }
    }
}

/// No key in normal or visual mode changes a text that may not be changed, nor any other.
pub proof fn normal_keys_keep_fixed_texts(w: World, key: Key)
    requires
        is_fixed(w.buffers[w.cur().0].buffer),
    ensures
        keeps_texts(w, normal_keyed(w, key)),
{
    reveal(normal_keyed);
    let h = w.hushed();
    lemma_cancelled(h);
    match crate::command::step(h.live.mode, h.live.pending, key) {
        crate::command::ParseStep::Complete(cmd) => commands_keep_fixed_texts(h, cmd),
        _ => {},
    }
}

/// No key that is typed changes a text that may not be changed, nor any other.
pub proof fn typed_keys_keep_fixed_texts(w: World, key: Key)
    requires
        is_fixed(w.buffers[w.cur().0].buffer),
    ensures
        keeps_texts(w, typing_keyed(w, key)),
{
    if key.code is Esc {
        reveal(Pane::held);
        lemma_pane(w, typed_key(w.pane(), key));
    }
}

} // verus!
