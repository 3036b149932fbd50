//! What holds of the editor as a whole.

use vstd::prelude::*;

use crate::batch::is_fixed;
use crate::buffer::{empty_buffer, BufferModel, FileStat};
use crate::command::{NormalCmd, ResolvedCommand};
use crate::desk::Pane;
use crate::edit::{inline_pasted, lines_pasted, pasted};
use crate::editor::buffers::{
    beside, buffer_deleted, buffer_gone, buffer_place, deletable, documents, documents_among, left,
    lemma_beside, lemma_documents, lemma_listed, listed, replacement, switched,
};
use crate::editor::files::{change_action, first_modified, quit_all};
use crate::editor::keys::record_settled;
use crate::editor::normal::{
    command_done, fills_readonly, no_clipboard, normal_done, reset, to_paste, uses_clipboard,
    would_change,
};
use crate::editor::panels::panel_key;
use crate::editor::panes::{
    arrived, arrived_live, place_of, saved_place, view_stashed, window_focused,
};
use crate::editor::{
    bound_to, buffer_added, consistent, cursor_seg, focus_on, frame, relaid, rows_in_use, seen,
    with_open, World,
};
use crate::input::Key;
use crate::layout::WindowId;
use crate::mode::Mode;
use crate::motions::total_count;
use crate::open::{held_cursor, opened};
use crate::panel::panel_ask;
use crate::pending::FileChangeAction;
use crate::rows::{cursor_row_shows, lemma_row_at, settled_is_a_line, RowSight};
use crate::window::BufferId;
use crate::wins::Place;

verus! {

/// Moving the view changes no buffer and no window, and leaves the cursor where it is.
pub proof fn seeing_changes_the_view_alone(w: World)
    requires
        w.buffers.contains_key(w.cur().0),
    ensures
        seen(w).buffers == w.buffers,
        seen(w).windows == w.windows,
        seen(w).live.cursor == w.live.cursor,
        seen(w).live.mode == w.live.mode,
        seen(w) == (World { live: seen(w).live, ..w }),
{
    reveal(seen);
    assert(seen(w).buffers =~= w.buffers);
}

/// Where the host has told the rows of the text, with wrapped lines, closed folds and what is
/// drawn beside lines, the row of the cursor is on the screen once the view has moved, unless
/// the line of the cursor alone, with what is drawn above it, does not fit. A cursor in a
/// closed fold is at its start, with nothing above it.
pub proof fn cursor_row_is_seen(w: World, v: RowSight)
    requires
        rows_in_use(w) == Some(v),
        v.wf(),
        v.rows.upto(w.live.cursor.line as int, cursor_seg(w, v)) < frame(w).height,
        v.rows.fold_at(w.live.cursor.line as int) matches Some(f) ==> f.start
            == w.live.cursor.line && v.rows.upto(w.live.cursor.line as int, cursor_seg(w, v)) == 0,
    ensures
        seen(w).live.top <= w.live.cursor.line,
        v.rows.screen_row(
            seen(w).live.top as int,
            w.live.cursor.line as int,
            cursor_seg(w, v),
        ) < frame(w).height,
{
    reveal(seen);
    let f = frame(w);
    let line = w.live.cursor.line as int;
    let seg = cursor_seg(w, v);
    assert(v.breaks[line].len() == v.rows.lines[line].text);
    assert(v.rows.lines[line].text >= 1);
    lemma_row_at(v.breaks[line], w.live.cursor.col as int, v.breaks[line].len() as int);
    cursor_row_shows(
        v.rows,
        w.live.top as int,
        line,
        seg,
        f.scrolloff as nat,
        f.height as nat,
    );
    settled_is_a_line(v.rows, w.live.top as int, line, seg, f.scrolloff as nat, f.height as nat);
}

/// Laying the windows out changes no buffer and moves no cursor.
pub proof fn layout_changes_the_windows_alone(w: World)
    ensures
        relaid(w) == (World { windows: relaid(w).windows, ..w }),
{
    reveal(relaid);
}

/// A window that gets the focus shows its buffer as it was, with the cursor at the place
/// that it had as far as the text reaches.
proof fn lemma_arrived(w: World, p: Place)
    requires
        w.buffers.contains_key(w.cur().0),
    ensures
        arrived(w, p).buffers == w.buffers,
        arrived(w, p).windows == w.windows,
        arrived(w, p).alternate == w.alternate,
        arrived(w, p).next_buffer == w.next_buffer,
        arrived(w, p).live.mode == Mode::Normal,
        arrived(w, p).live.cursor == held_cursor(
            w.buffers[w.cur().0].buffer.text,
            p.cursor,
            Mode::Normal,
        ),
{
    reveal(arrived);
    reveal(Pane::held);
    let a = World { live: arrived_live(w.live, p), pending_scroll: None, ..w }.hushed();
    let b = a.with_pane(a.pane().held());
    assert(b.buffers =~= w.buffers);
    seeing_changes_the_view_alone(b);
}

/// Making another buffer current changes no text, and makes no buffer look edited: no
/// change is recorded, and what had no changes has none.
pub proof fn switching_edits_nothing(w: World, id: BufferId, k: u64)
    requires
        w.buffers.contains_key(w.cur().0),
        w.windows.windows.contains_key(w.windows.current.0),
        w.buffers.contains_key(k),
    ensures
        switched(w, id).buffers.dom() == w.buffers.dom(),
        switched(w, id).buffers[k].buffer == (BufferModel {
            marks: switched(w, id).buffers[k].buffer.marks,
            ..w.buffers[k].buffer
        }),
        switched(w, id).buffers[k].undo == w.buffers[k].undo,
        switched(w, id).buffers[k].redo == w.buffers[k].redo,
{
    if id != w.cur() && w.buffers.contains_key(id.0) {
        let a = with_open(w, w.cur(), left(w.buffers[w.cur().0], place_of(w.live)));
        let b = World { alternate: Some(w.cur()), ..a };
        let c = bound_to(b, id);
        assert(c.cur() == id);
        lemma_arrived(c, buffer_place(b.buffers[id.0]));
    }
    assert(switched(w, id).buffers.dom() =~= w.buffers.dom());
}

/// Going to another buffer and back leads to the same buffer, with the cursor where it was
/// as far as it may rest there, and the other buffer is the one to go to again.
pub proof fn switching_back_returns(w: World, id: BufferId)
    requires
        w.buffers.contains_key(w.cur().0),
        w.buffers.contains_key(id.0),
        w.windows.windows.contains_key(w.windows.current.0),
        id != w.cur(),
    ensures
        ({
            let b = switched(switched(w, id), w.cur());
            &&& b.cur() == w.cur()
            &&& b.alternate == Some(id)
            &&& b.buffers[w.cur().0].buffer.text == w.buffers[w.cur().0].buffer.text
            &&& b.live.cursor == held_cursor(
                w.buffers[w.cur().0].buffer.text,
                w.live.cursor,
                Mode::Normal,
            )
        }),
{
    let a0 = with_open(w, w.cur(), left(w.buffers[w.cur().0], place_of(w.live)));
    let a1 = World { alternate: Some(w.cur()), ..a0 };
    let a2 = bound_to(a1, id);
    assert(a2.cur() == id);
    lemma_arrived(a2, buffer_place(a1.buffers[id.0]));
    let a = switched(w, id);
    assert(a.cur() == id);
    let b0 = with_open(a, id, left(a.buffers[id.0], place_of(a.live)));
    let b1 = World { alternate: Some(id), ..b0 };
    let b2 = bound_to(b1, w.cur());
    assert(b2.cur() == w.cur());
    lemma_arrived(b2, buffer_place(b1.buffers[w.cur().0]));
}

/// Focusing another window and coming back leads to the same window on the same buffer, with
/// the cursor where it was as far as it may rest there.
pub proof fn focusing_back_returns(w: World, id: WindowId)
    requires
        consistent(w),
        w.windows.windows.contains_key(id.0),
        id != w.windows.current,
    ensures
        ({
            let b = window_focused(window_focused(w, id), w.windows.current);
            &&& b.windows.current == w.windows.current
            &&& b.cur() == w.cur()
            &&& b.buffers == w.buffers
            &&& b.live.cursor == held_cursor(
                w.buffers[w.cur().0].buffer.text,
                w.live.cursor,
                Mode::Normal,
            )
        }),
{
    reveal(consistent);
    let cur = w.windows.current;
    assert(w.windows.windows.contains_key(cur.0));
    let s = view_stashed(w);
    let f = focus_on(s, id);
    assert(f.cur() == w.windows.windows[id.0].buffer);
    lemma_arrived(f, saved_place(s.windows.windows[id.0]));
    let a = window_focused(w, id);
    assert(a.windows == f.windows);
    let s2 = view_stashed(a);
    let g = focus_on(s2, cur);
    assert(s2.windows.windows[cur.0] == s.windows.windows[cur.0]);
    assert(g.cur() == w.cur());
    lemma_arrived(g, saved_place(s2.windows.windows[cur.0]));
}

/// No number of a buffer is given out twice: the next one is no open buffer's, and closing a
/// buffer does not give its number back.
pub proof fn buffer_numbers_are_new(w: World, id: BufferId)
    requires
        consistent(w),
    ensures
        !w.buffers.contains_key(w.next_buffer),
        w.next_buffer < u64::MAX ==> buffer_added(w, opened(empty_buffer())).next_buffer
            > w.next_buffer,
        deletable(w, id) && w.next_buffer < u64::MAX ==> buffer_gone(w, id).next_buffer
            >= w.next_buffer,
{
    reveal(consistent);
    if deletable(w, id) && id == w.cur() {
        assert(w.windows.windows.contains_key(w.windows.current.0));
        assert(w.buffers.contains_key(w.cur().0));
        let a = World {
            alternate: if w.alternate == Some(w.cur()) {
                None
            } else {
                w.alternate
            },
            ..w
        };
        match replacement(w) {
            Some(r) => {
                lemma_replacement(w);
                let b = bound_to(a, r);
                assert(b.cur() == r);
                lemma_arrived(b, buffer_place(a.buffers[r.0]));
            },
            None => {},
        }
    }
}

/// What takes the place of the current buffer is another open buffer.
proof fn lemma_replacement(w: World)
    requires
        consistent(w),
        replacement(w) is Some,
    ensures
        w.buffers.contains_key((replacement(w)->0).0),
{
    if beside(w, w.cur()) is Some {
        lemma_beside(w, w.cur());
    }
}

proof fn lemma_document(w: World, s: Seq<u64>, n: int, i: int)
    requires
        0 <= i < n <= s.len(),
        !(w.buffers[s[i]].buffer.kind is View),
    ensures
        documents_among(w, s, n).contains(s[i]),
    decreases n,
{
    let r = documents_among(w, s, n - 1);
    if i < n - 1 {
        lemma_document(w, s, n - 1, i);
        let k = choose|k: int| 0 <= k < r.len() && r[k] == s[i];
        assert(documents_among(w, s, n)[k] == s[i]);
    } else {
        assert(documents_among(w, s, n)[r.len() as int] == s[i]);
    }
}

proof fn lemma_no_view(w: World, s: Seq<u64>, n: int, k: u64)
    requires
        0 <= n <= s.len(),
        documents_among(w, s, n).contains(k),
    ensures
        !(w.buffers[k].buffer.kind is View),
    decreases n,
{
    if n > 0 {
        let r = documents_among(w, s, n - 1);
        let q = documents_among(w, s, n);
        let i = choose|i: int| 0 <= i < q.len() && q[i] == k;
        if i < r.len() {
            assert(r[i] == k);
            lemma_no_view(w, s, n - 1, k);
        }
    }
}

/// The buffers that one walks through are all open ones but the views of plugins.
pub proof fn documents_are_all_but_views(w: World, k: u64)
    requires
        consistent(w),
    ensures
        documents(w).contains(k) <==> w.buffers.contains_key(k)
            && !(w.buffers[k].buffer.kind is View),
{
    reveal(consistent);
    lemma_listed(w);
    lemma_documents(w);
    let s = listed(w);
    let n = s.len() as int;
    if documents(w).contains(k) {
        lemma_no_view(w, s, n, k);
    }
    if w.buffers.contains_key(k) && !(w.buffers[k].buffer.kind is View) {
        assert(s.to_set().contains(k));
        let i = choose|i: int| 0 <= i < s.len() && s[i] == k;
        lemma_document(w, s, n, i);
    }
}

/// A buffer that has changes is closed only by force.
pub proof fn changes_are_not_closed(w: World, id: BufferId)
    requires
        w.buffers.contains_key(id.0),
        w.buffers[id.0].buffer.modified,
    ensures
        buffer_deleted(w, id, false).buffers == w.buffers,
{
}

proof fn lemma_none_modified(w: World, s: Seq<u64>, i: int, k: int)
    requires
        0 <= i <= k < s.len(),
        first_modified(w, s, i) is None,
    ensures
        !w.buffers[s[k]].buffer.modified,
    decreases k - i,
{
    if i < k {
        lemma_none_modified(w, s, i + 1, k);
    }
}

/// The editor quits without force only where no open buffer has changes.
pub proof fn quitting_loses_nothing(w: World, k: u64)
    requires
        consistent(w),
        !w.should_quit,
        quit_all(w, false).should_quit,
        w.buffers.contains_key(k),
    ensures
        !w.buffers[k].buffer.modified,
{
    reveal(consistent);
    let s = listed(w);
    lemma_listed(w);
    assert(w.windows.windows.contains_key(w.windows.current.0));
    match first_modified(w, s, 0) {
        Some(id) => {
            lemma_switch_quits_not(w, id);
        },
        None => {
            assert(s.to_set().contains(k));
            let i = s.index_of(k);
            assert(s[i] == k);
            lemma_none_modified(w, s, 0, i);
        },
    }
}

proof fn lemma_switch_quits_not(w: World, id: BufferId)
    ensures
        switched(w, id).should_quit == w.should_quit,
{
    reveal(arrived);
    reveal(seen);
}

/// A buffer that has changes is never read anew because its file changed.
pub proof fn changes_are_not_overwritten(w: World, id: BufferId, stat: Option<FileStat>)
    requires
        w.buffers.contains_key(id.0),
        w.buffers[id.0].buffer.modified,
    ensures
        change_action(w, id, stat) != FileChangeAction::Reloaded,
{
}

/// A command that is not to be repeated leaves the one that is.
pub proof fn repetition_is_kept(w: World)
    requires
        w.repeat.skip,
    ensures
        record_settled(w).repeat.last == w.repeat.last,
{
    reveal(record_settled);
}

/// While the panel is open no key changes a buffer, unless it is the one that jumps to a
/// place.
pub proof fn panel_keys_change_no_buffer(w: World, key: Key)
    requires
        w.buffers.contains_key(w.cur().0),
        consistent(w),
        w.panel is Some,
        !(panel_ask(w.panel->0, key) is Jump),
    ensures
        panel_key(w, key).buffers == w.buffers,
        panel_key(w, key).live.cursor == w.live.cursor,
{
    reveal(panel_key);
    let h = w.hushed();
    let p = h.panel->0;
    let a = World {
        panel: Some(
            crate::panel::panel_keyed(
                p,
                key,
                crate::editor::panels::panel_height(h),
                h.width as int,
            ),
        ),
        ..h
    };
    if panel_ask(p, key) is Close {
        let b = World { panel: None, last_panel: a.panel, ..a };
        crate::editor::lemma_same_but_panel(w, b);
        crate::editor::lemma_laid(b, relaid(b));
        layout_changes_the_windows_alone(b);
        seeing_changes_the_view_alone(relaid(b));
    }
}

/// A command that would fill a register that cannot be written does nothing but drop what is
/// pending, unless the text may not be changed and it is refused for that.
pub proof fn readonly_registers_stop_commands(w: World, cmd: ResolvedCommand)
    requires
        fills_readonly(w.live.pending, cmd),
        !(is_fixed(w.buffers[w.cur().0].buffer) && would_change(w.live.pending, cmd)),
    ensures
        command_done(w, cmd) == reset(w),
{
}

/// Where the host has no clipboard, a command that uses it says so and does nothing but drop
/// what is pending, unless the text may not be changed and it is refused for that.
pub proof fn missing_clipboard_is_said(w: World, cmd: ResolvedCommand)
    requires
        w.regs.clipboard is None,
        uses_clipboard(w.live.pending, cmd),
        !(is_fixed(w.buffers[w.cur().0].buffer) && would_change(w.live.pending, cmd)),
    ensures
        command_done(w, cmd) == reset(w).said(no_clipboard()),
{
}

/// A paste puts in what its register gives, and leaves all registers as they are.
pub proof fn paste_reads_its_register(w: World, after: bool)
    requires
        !(uses_clipboard(
            w.live.pending,
            ResolvedCommand::Normal(paste_command(after)),
        ) && w.regs.clipboard is None),
    ensures
        normal_done(w, paste_command(after)) == reset(
            w.with_pane(
                pasted(w.pane(), to_paste(w), after, total_count(w.live.pending) as nat),
            ),
        ),
        normal_done(w, paste_command(after)).regs == w.regs,
{
    reveal(normal_done);
    reveal(lines_pasted);
    reveal(inline_pasted);
    reveal(Pane::pushed);
    reveal(Pane::held);
    reveal(Pane::at);
}

/// `p` or `P`.
pub open spec fn paste_command(after: bool) -> NormalCmd {
    if after {
        NormalCmd::PasteAfter
    } else {
        NormalCmd::PasteBefore
    }
}

} // verus!
