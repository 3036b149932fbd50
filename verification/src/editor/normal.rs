//! Normal and visual mode of the editor.

use vstd::prelude::*;

use crate::again::{keys_again, repeat_keys};
use crate::batch::is_fixed;
use crate::buffer::{mark_key, BufferModel};
use crate::changes::{change_visited, miss_text, newer_change, older_change, settled_at, ChangeMiss};
use crate::command::{
    clean_command, clipboard_register, is_clipboard_register, is_jump_motion,
    is_readonly_register, is_settable_mark, jump_motion, parse_step, readonly_register,
    settable_mark, step, Motion, NamedOperator, NormalCmd, ParseStep, PendingCommand,
    ResolvedCommand, Stage, WindowCmd,
};
use crate::desk::{Desk, Pane};
use crate::edit::{
    case_toggled, deleted_before, deleted_to_eol, deleted_under, insert_entered, line_opened,
    lines_joined, pasted, replaced,
};
use crate::editor::buffers::{switched, to_alternate};
use crate::editor::files::{context_marked, quit_one};
use crate::editor::panes::{
    current_closed, focus_moved, maximized_along, rearranged, resized_by, window_only, window_split,
};
use crate::editor::prompts::{
    command_entered, inline_text, register_text, search_entered, selection_marked,
};
use crate::editor::searches::{search_repeated, word_searched};
use crate::editor::{
    frame, scroll_limit, seen, with_open, Editor, MarkAt, RepeatModel, SearchModel, World,
};
use crate::input::Key;
use crate::layout::SplitDir;
use crate::mode::{selecting, Mode};
use crate::motions::{effective_count, motion_landing, total_count};
use crate::nav::{indent_len, last_line_of};
use crate::num::least;
use crate::open::{clamped, restored, Live, OpenModel};
use crate::operate::{
    doubled_operated, motion_applied, object_applied, object_range, selection_operated,
};
use crate::pending::{OutModel, TabRequest};
use crate::points::Point;
use crate::registers::Reg;
use crate::scroll::{full_page, half_page, scrolled_by, scrolled_line, Frame};
use crate::text::line_text;
use crate::unicode::{next_bound, next_grapheme};
use crate::wins::{neighbour, next_window, windows_equalized};

verus! {

/// Nothing is pending any more.
pub open spec fn reset(w: World) -> World {
    World { live: Live { pending: clean_command(), ..w.live }, ..w }
}

/// A step back in the history of the text, or forward.
pub open spec fn stepped(w: World, undo: bool) -> World {
    match restored(w.buffers[w.cur().0], w.live, undo) {
        Some((o, live)) => World {
            live,
            ..with_open(w, w.cur(), o)
        },
        None => w.said(
            if undo {
                "Already at oldest change"@
            } else {
                "Already at newest change"@
            },
        ),
    }
}

/// An upper-case letter.
pub open spec fn upper(c: char) -> bool {
    'A' <= c <= 'Z'
}

/// Where a mark is. An upper-case letter names a place in any open buffer, and anything else
/// one in the current buffer.
pub open spec fn mark_place(w: World, name: char) -> Option<MarkAt> {
    if upper(name) {
        if w.marks.contains_key(name as u64) && w.buffers.contains_key(
            w.marks[name as u64].buf.0,
        ) {
            Some(w.marks[name as u64])
        } else {
            None
        }
    } else {
        let key = mark_key(
            if name == '`' {
                '\''
            } else {
                name
            },
        );
        let m = w.buffers[w.cur().0].buffer.marks;
        if m.contains_key(key) {
            Some(MarkAt { buf: w.cur(), line: m[key].0, col: m[key].1 })
        } else {
            None
        }
    }
}

/// A mark set at the cursor.
pub open spec fn marked(w: World, name: char) -> World {
    let c = w.live.cursor;
    if upper(name) {
        World {
            marks: w.marks.insert(
                name as u64,
                MarkAt { buf: w.cur(), line: c.line, col: c.col },
            ),
            ..w
        }
    } else {
        let o = w.buffers[w.cur().0];
        with_open(
            w,
            w.cur(),
            OpenModel {
                buffer: BufferModel {
                    marks: o.buffer.marks.insert(mark_key(name), (c.line, c.col)),
                    ..o.buffer
                },
                ..o
            },
        )
    }
}

/// A mark in another buffer visited: that buffer is current, with the cursor at the mark or
/// on the first character of its line that is not blank.
#[verifier::opaque]
pub open spec fn mark_visited(w: World, at: MarkAt, linewise: bool) -> World {
    let a = switched(w, at.buf);
    let p = a.pane();
    let line = least(at.line as int, last_line_of(p.text()));
    let col = if linewise {
        indent_len(line_text(p.text(), line), 0) as int
    } else {
        at.col as int
    };
    seen(a.with_pane(settled_at(p, line, col)))
}

/// The mark that a motion goes to.
pub open spec fn mark_of(m: Motion) -> Option<char> {
    match m {
        Motion::MarkJumpExact(c) => Some(c),
        Motion::MarkJumpLine(c) => Some(c),
        _ => None,
    }
}

/// A find remembered.
pub open spec fn find_noted(w: World, m: Motion) -> World {
    match m {
        Motion::Find(kind, target) => World {
            live: Live { last_find: Some((kind, target)), ..w.live },
            ..w
        },
        _ => w,
    }
}

/// A motion that leads nowhere.
pub open spec fn motion_missed(w: World, m: Motion) -> World {
    if m is Find && selecting(w.live.mode) {
        World {
            live: Live {
                pending: PendingCommand { stage: Stage::Start, ..w.live.pending },
                ..w.live
            },
            ..w
        }
    } else if mark_of(m) is Some {
        reset(w.said("E20: Mark not set"@))
    } else {
        reset(w)
    }
}

/// A motion within the current buffer, to a mark where it is one to a mark.
#[verifier::opaque]
pub open spec fn motion_made(w: World, m: Motion, mark: Option<Point>) -> World {
    match motion_landing(w.pane(), m, mark) {
        Some(l) => {
            let a = if jump_motion(m) && w.live.pending.operator is None {
                context_marked(w)
            } else {
                w
            };
            a.with_pane(motion_applied(a.pane(), l))
        },
        None => motion_missed(w, m),
    }
}

/// A motion, to a place where it is one to a mark that is set.
pub open spec fn motion_to(w: World, m: Motion, at: Option<MarkAt>) -> World {
    match at {
        Some(k) => if k.buf != w.cur() {
            reset(mark_visited(context_marked(w), k, m is MarkJumpLine))
        } else {
            motion_made(w, m, Some((k.line, k.col)))
        },
        None => motion_made(w, m, None),
    }
}

/// The place that a motion goes to, where it is one to a mark that is set.
pub open spec fn motion_mark(w: World, m: Motion) -> Option<MarkAt> {
    match mark_of(m) {
        Some(c) => mark_place(w, c),
        None => None,
    }
}

/// A motion: the cursor moves, or the pending operator is applied.
#[verifier::opaque]
pub open spec fn motion_done(w: World, m: Motion) -> World {
    motion_to(find_noted(w, m), m, motion_mark(find_noted(w, m), m))
}

/// A text object selected, or the pending operator applied to it.
#[verifier::opaque]
pub open spec fn object_done(
    w: World,
    ia: char,
    kind: crate::command::ObjectKind,
) -> World {
    let p = w.pane();
    match object_range(p, ia, kind, total_count(w.live.pending) as nat) {
        Some((lo, hi, linewise)) => w.with_pane(object_applied(p, lo, hi, linewise)),
        None => if selecting(w.live.mode) {
            World {
                live: Live {
                    pending: PendingCommand { stage: Stage::Start, ..w.live.pending },
                    ..w.live
                },
                ..w
            }
        } else {
            reset(w)
        },
    }
}

/// A count as the cells that a resize takes.
pub open spec fn cells(n: usize) -> int {
    if n > isize::MAX {
        isize::MAX as int
    } else {
        n as int
    }
}

/// A request about the tab pages.
pub open spec fn tab_asked(w: World, r: TabRequest) -> World {
    World { out: OutModel { tabs: w.out.tabs.push(r), ..w.out }, ..w }
}

/// What a window command does.
#[verifier::opaque]
pub open spec fn window_done(w0: World, cmd: WindowCmd) -> World {
    let n = cells(total_count(w0.live.pending));
    let w = reset(w0);
    let cur = w.windows.current;
    match cmd {
        WindowCmd::Split(dir) => window_split(w, dir),
        WindowCmd::FocusDir(dir) => focus_moved(w, neighbour(w.windows, dir)),
        WindowCmd::FocusCycle(forward) => focus_moved(w, next_window(w.windows, forward)),
        WindowCmd::Close => current_closed(w),
        WindowCmd::Only => window_only(w),
        WindowCmd::Quit => quit_one(w, false),
        WindowCmd::ToNewTab => tab_asked(w, TabRequest::NewFromWindow),
        WindowCmd::Equalize => rearranged(w, windows_equalized(w.windows)),
        WindowCmd::ResizeHeight(grow) => resized_by(
            w,
            cur,
            SplitDir::Horizontal,
            if grow {
                n
            } else {
                -n
            },
        ),
        WindowCmd::ResizeWidth(grow) => resized_by(
            w,
            cur,
            SplitDir::Vertical,
            if grow {
                n
            } else {
                -n
            },
        ),
        WindowCmd::MaxHeight => maximized_along(w, SplitDir::Horizontal),
        WindowCmd::MaxWidth => maximized_along(w, SplitDir::Vertical),
    }
}

/// A selection begun at the cursor, or the one there is given another shape.
pub open spec fn selection_entered(p: Pane, mode: Mode) -> Pane {
    Pane {
        live: Live {
            mode,
            visual_anchor: if selecting(p.live.mode) {
                p.live.visual_anchor
            } else {
                p.live.cursor
            },
            ..p.live
        },
        ..p
    }
}

/// What a command does that changes the text, or begins to.
#[verifier::opaque]
pub open spec fn edit_done(p: Pane, cmd: NormalCmd, count: nat) -> Pane {
    let c = p.live.cursor;
    match cmd {
        NormalCmd::InsertBefore => insert_entered(p, c.col as int),
        NormalCmd::InsertLineStart => insert_entered(
            p,
            indent_len(line_text(p.text(), c.line as int), 0) as int,
        ),
        NormalCmd::InsertAfter => insert_entered(p, next_bound(p.line(), c.col as int)),
        NormalCmd::InsertLineEnd => insert_entered(p, p.line().len() as int),
        NormalCmd::OpenBelow => line_opened(p, true),
        NormalCmd::OpenAbove => line_opened(p, false),
        NormalCmd::DeleteUnder => deleted_under(p, count),
        NormalCmd::DeleteBefore => deleted_before(p, count),
        NormalCmd::DeleteToEol => deleted_to_eol(p),
        NormalCmd::ChangeToEol => deleted_to_eol(p).typing(),
        NormalCmd::SubstituteChar => deleted_under(p, count).typing(),
        NormalCmd::Join => lines_joined(
            p,
            if count < 2 {
                2
            } else {
                count
            },
        ),
        NormalCmd::ToggleCase => case_toggled(p, count),
        NormalCmd::EnterReplace => {
            let q = p.pushed();
            Pane { live: Live { snapshot_taken: true, mode: Mode::Replace, ..q.live }, ..q }
        },
        NormalCmd::EnterVisual => selection_entered(p, Mode::Visual),
        NormalCmd::EnterVisualLine => selection_entered(p, Mode::VisualLine),
        _ => p,
    }
}

/// Whether a command is one that changes the text, or begins to.
pub open spec fn is_edit(cmd: NormalCmd) -> bool {
    match cmd {
        NormalCmd::InsertBefore | NormalCmd::InsertLineStart | NormalCmd::InsertAfter
        | NormalCmd::InsertLineEnd | NormalCmd::OpenBelow | NormalCmd::OpenAbove
        | NormalCmd::DeleteUnder | NormalCmd::DeleteBefore | NormalCmd::DeleteToEol
        | NormalCmd::ChangeToEol | NormalCmd::SubstituteChar | NormalCmd::PasteAfter
        | NormalCmd::PasteBefore | NormalCmd::Join | NormalCmd::ToggleCase
        | NormalCmd::EnterReplace | NormalCmd::EnterVisual | NormalCmd::EnterVisualLine => true,
        _ => false,
    }
}

/// A command that puts what it deletes in a register.
pub open spec fn fills_register(cmd: NormalCmd) -> bool {
    match cmd {
        NormalCmd::DeleteUnder | NormalCmd::DeleteBefore | NormalCmd::DeleteToEol
        | NormalCmd::ChangeToEol | NormalCmd::SubstituteChar => true,
        _ => false,
    }
}

/// A command that puts the text of a register in.
pub open spec fn pastes(cmd: NormalCmd) -> bool {
    cmd == NormalCmd::PasteAfter || cmd == NormalCmd::PasteBefore
}

/// Whether an operator puts its range in a register.
pub open spec fn takes_range(op: char) -> bool {
    op == 'y' || op == 'd' || op == 'c'
}

/// Whether a command puts a text in a register.
pub open spec fn fills(pending: PendingCommand, cmd: ResolvedCommand) -> bool {
    let operated = pending.operator is Some && takes_range(pending.operator->0);
    match cmd {
        ResolvedCommand::Motion(_) => operated,
        ResolvedCommand::TextObject { ia, kind } => operated,
        ResolvedCommand::DoubledOperator(op) => takes_range(op),
        ResolvedCommand::OperatorSearch { op, dir } => takes_range(op),
        ResolvedCommand::VisualOperate(op) => takes_range(op),
        ResolvedCommand::Normal(c) => fills_register(c),
        _ => false,
    }
}

/// Whether a command would fill a register that cannot be written.
pub open spec fn fills_readonly(pending: PendingCommand, cmd: ResolvedCommand) -> bool {
    let r = pending.register;
    r is Some && readonly_register(r->0) && fills(pending, cmd)
}

/// Whether a command uses the clipboard.
pub open spec fn uses_clipboard(pending: PendingCommand, cmd: ResolvedCommand) -> bool {
    clipboard_register(pending.register) && (fills(pending, cmd) || (cmd is Normal && pastes(
        cmd->Normal_0,
    )))
}

/// What is said where the host has no clipboard.
pub open spec fn no_clipboard() -> Seq<char> {
    "clipboard: No provider"@
}

/// What a command does that its register stands in the way of: nothing. That there is no
/// clipboard is said.
pub open spec fn register_bars(w: World, cmd: ResolvedCommand) -> Option<World> {
    let c = w.live.pending;
    if fills_readonly(c, cmd) {
        Some(reset(w))
    } else if uses_clipboard(c, cmd) && w.regs.clipboard is None {
        Some(reset(w).said(no_clipboard()))
    } else {
        None
    }
}

/// What is put in by a command that names a register.
pub open spec fn to_paste(w: World) -> Reg {
    match register_text(w, w.live.pending.register) {
        Some(r) => r,
        None => inline_text(Seq::empty()),
    }
}

/// The command under way is not to be repeated.
pub open spec fn unrepeatable(w: World) -> World {
    World { repeat: RepeatModel { skip: true, ..w.repeat }, ..w }
}

/// The last change to be made again.
pub open spec fn change_repeated(w: World) -> World {
    if w.repeat.last.len() == 0 {
        w
    } else {
        World {
            repeat: RepeatModel {
                skip: true,
                queue: keys_again(w.repeat.last, w.live.pending.count),
                ..w.repeat
            },
            ..w
        }
    }
}

/// What a command does that scrolls.
pub open spec fn scroll_done(p: Pane, cmd: NormalCmd, f: Frame, limit: int) -> Pane {
    match cmd {
        NormalCmd::ScrollHalf(down) => scrolled_by(
            p,
            if down {
                half_page(f)
            } else {
                -half_page(f)
            },
        ),
        NormalCmd::ScrollPage(down) => scrolled_by(
            p,
            if down {
                full_page(f)
            } else {
                -full_page(f)
            },
        ),
        NormalCmd::ScrollLine(down) => scrolled_line(p, down, f, limit),
        _ => p,
    }
}

/// What a command does that leaves the text as it is, or goes back in its history.
#[verifier::opaque]
pub open spec fn move_done(w: World, cmd: NormalCmd, count: usize) -> World {
    match cmd {
        NormalCmd::Undo => stepped(unrepeatable(w), true),
        NormalCmd::Redo => stepped(unrepeatable(w), false),
        NormalCmd::EnterCommand => command_entered(w),
        NormalCmd::EnterSearch(dir) => search_entered(w, dir, count),
        NormalCmd::SearchNext => search_repeated(w, true, count),
        NormalCmd::SearchPrev => search_repeated(w, false, count),
        NormalCmd::SearchWord { dir, whole_word } => word_searched(w, dir, whole_word, count),
        NormalCmd::ScrollHalf(_) => w.with_pane(
            scroll_done(w.pane(), cmd, frame(w), scroll_limit(w)),
        ),
        NormalCmd::ScrollPage(_) => w.with_pane(
            scroll_done(w.pane(), cmd, frame(w), scroll_limit(w)),
        ),
        NormalCmd::ScrollLine(_) => w.with_pane(
            scroll_done(w.pane(), cmd, frame(w), scroll_limit(w)),
        ),
        NormalCmd::AltBuffer => to_alternate(w),
        NormalCmd::TabNext(n) => tab_asked(w, TabRequest::Next(n)),
        NormalCmd::TabPrev(n) => tab_asked(w, TabRequest::Prev(n)),
        NormalCmd::DotRepeat => change_repeated(w),
        _ => w,
    }
}

/// What a command of a single key does, unless its register stands in the way.
#[verifier::opaque]
pub open spec fn normal_done(w: World, cmd: NormalCmd) -> World {
    let count = total_count(w.live.pending);
    let bar = register_bars(w, ResolvedCommand::Normal(cmd));
    if bar is Some {
        bar->0
    } else if pastes(cmd) {
        reset(
            w.with_pane(
                pasted(w.pane(), to_paste(w), cmd == NormalCmd::PasteAfter, count as nat),
            ),
        )
    } else if is_edit(cmd) {
        reset(w.with_pane(edit_done(w.pane(), cmd, count as nat)))
    } else {
        reset(move_done(w, cmd, count))
    }
}

/// What is said of a text that may not be changed.
pub open spec fn refusal() -> Seq<char> {
    "E21: Cannot make changes, 'modifiable' is off"@
}

/// Whether an operator changes the text.
pub open spec fn is_change(op: char) -> bool {
    op != 'y'
}

/// Whether a command would change the text, or begin to.
pub open spec fn would_change(pending: PendingCommand, cmd: ResolvedCommand) -> bool {
    let operated = pending.operator is Some && is_change(pending.operator->0);
    match cmd {
        ResolvedCommand::Motion(_) => operated,
        ResolvedCommand::TextObject { ia, kind } => operated,
        ResolvedCommand::DoubledOperator(op) => is_change(op),
        ResolvedCommand::OperatorSearch { op, dir } => is_change(op),
        ResolvedCommand::VisualOperate(op) => is_change(op),
        ResolvedCommand::Replace(_) => true,
        ResolvedCommand::Normal(c) => match c {
            NormalCmd::EnterVisual | NormalCmd::EnterVisualLine => false,
            NormalCmd::Undo | NormalCmd::Redo => true,
            _ => is_edit(c),
        },
        ResolvedCommand::SetMark(_) => false,
        ResolvedCommand::Window(_) => false,
    }
}

/// What a complete command does. One that would change a text that may not be changed is
/// refused, and so is one whose register stands in the way.
pub open spec fn command_done(w: World, cmd: ResolvedCommand) -> World {
    let bar = register_bars(w, cmd);
    if is_fixed(w.buffers[w.cur().0].buffer) && would_change(w.live.pending, cmd) {
        all_cancelled(w).said(refusal())
    } else if bar is Some {
        bar->0
    } else {
        command_made(w, cmd)
    }
}

/// What a complete command does where it is not refused.
#[verifier::opaque]
pub open spec fn command_made(w: World, cmd: ResolvedCommand) -> World {
    let count = total_count(w.live.pending);
    match cmd {
        ResolvedCommand::Motion(m) => motion_done(w, m),
        ResolvedCommand::DoubledOperator(op) => w.with_pane(doubled_operated(w.pane(), op)),
        ResolvedCommand::OperatorSearch { op, dir } => search_entered(
            World {
                search: SearchModel {
                    operator: Some(NamedOperator { op, register: w.live.pending.register }),
                    ..w.search
                },
                ..w
            },
            dir,
            count,
        ),
        ResolvedCommand::TextObject { ia, kind } => object_done(w, ia, kind),
        ResolvedCommand::Replace(c) => reset(w.with_pane(replaced(w.pane(), c, count as nat))),
        ResolvedCommand::SetMark(name) => reset(
            if settable_mark(name) {
                marked(w, name)
            } else {
                w.said("E191: Argument must be a letter or forward/backward quote"@)
            },
        ),
        ResolvedCommand::VisualOperate(op) => w.with_pane(selection_operated(w.pane(), op)),
        ResolvedCommand::Normal(cmd) => normal_done(w, cmd),
        ResolvedCommand::Window(cmd) => window_done(w, cmd),
    }
}

/// What is pending dropped, and a selection left, with its ends marked.
pub open spec fn all_cancelled(w: World) -> World {
    let a = reset(w);
    if selecting(w.live.mode) {
        let b = selection_marked(a);
        b.with_pane(b.pane().with_mode(Mode::Normal).held())
    } else {
        a
    }
}

/// A key in normal or visual mode.
#[verifier::opaque]
pub open spec fn normal_keyed(w0: World, key: Key) -> World {
    let w = w0.hushed();
    match step(w.live.mode, w.live.pending, key) {
        ParseStep::Prefix(p) => World { live: Live { pending: p, ..w.live }, ..w },
        ParseStep::Complete(cmd) => command_done(w, cmd),
        ParseStep::Cancel => all_cancelled(w),
        ParseStep::Reset => reset(w),
        ParseStep::AbortObject => if selecting(w.live.mode) {
            World {
                live: Live {
                    pending: PendingCommand { stage: Stage::Start, ..w.live.pending },
                    ..w.live
                },
                ..w
            }
        } else {
            reset(w)
        },
    }
}

/// A step through the change list.
pub open spec fn change_stepped(w: World, to: Result<int, ChangeMiss>) -> World {
    match to {
        Ok(_) => seen(w.with_pane(change_visited(w.pane(), to))),
        Err(e) => w.said(miss_text(e)),
    }
}

impl Desk {
    fn do_edit(&mut self, cmd: NormalCmd, count: usize)
        requires
            old(self).wf(),
        ensures
            final(self).wf(),
            final(self)@ == edit_done(old(self)@, cmd, count as nat),
    {
        proof {
            reveal(edit_done);
        }
        match cmd {
            NormalCmd::InsertBefore
            | NormalCmd::InsertLineStart
            | NormalCmd::InsertAfter
            | NormalCmd::InsertLineEnd => self.do_insert(cmd, count),
            NormalCmd::OpenBelow => self.open_line(true),
            NormalCmd::OpenAbove => self.open_line(false),
            NormalCmd::DeleteUnder => self.delete_under_cursor(count),
            NormalCmd::DeleteBefore => self.delete_before_cursor(count),
            NormalCmd::DeleteToEol => self.delete_to_eol(),
            NormalCmd::ChangeToEol => {
                self.delete_to_eol();
                self.begin_typing();
            },
            NormalCmd::SubstituteChar => {
                self.delete_under_cursor(count);
                self.begin_typing();
            },
            NormalCmd::Join => self.join_lines(
                if count < 2 {
                    2
                } else {
                    count
                },
            ),
            NormalCmd::ToggleCase => self.toggle_case(count),
            NormalCmd::EnterReplace => {
                self.push_undo();
                let mut live = self.live();
                live.snapshot_taken = true;
                live.mode = Mode::Replace;
                self.set_live(live);
            },
            NormalCmd::EnterVisual => self.enter_selection(Mode::Visual),
            NormalCmd::EnterVisualLine => self.enter_selection(Mode::VisualLine),
            _ => {},
        }
    }

    fn do_scroll(&mut self, cmd: NormalCmd, f: Frame, limit: usize)
        requires
            old(self).wf(),
        ensures
            final(self).wf(),
            final(self)@ == scroll_done(old(self)@, cmd, f, limit as int),
    {
        match cmd {
            NormalCmd::ScrollHalf(down) => self.scroll_half(down, f),
            NormalCmd::ScrollPage(down) => self.scroll_page(down, f),
            NormalCmd::ScrollLine(down) => self.scroll_line(down, f, limit),
            _ => {},
        }
    }

    fn enter_selection(&mut self, mode: Mode)
        requires
            old(self).wf(),
        ensures
            final(self).wf(),
            final(self)@ == selection_entered(old(self)@, mode),
    {
        let mut live = self.live();
        if !live.mode.is_visual() {
            live.visual_anchor = live.cursor;
        }
        live.mode = mode;
        self.set_live(live);
    }

    fn do_insert(&mut self, cmd: NormalCmd, count: usize)
        requires
            old(self).wf(),
            cmd is InsertBefore || cmd is InsertLineStart || cmd is InsertAfter
                || cmd is InsertLineEnd,
        ensures
            final(self).wf(),
            final(self)@ == edit_done(old(self)@, cmd, count as nat),
    {
        proof {
            reveal(edit_done);
        }
        let c = self.live().cursor;
        let col: usize = match cmd {
            NormalCmd::InsertBefore => c.col,
            NormalCmd::InsertLineStart => self.buffer().first_non_blank(c.line),
            NormalCmd::InsertAfter => {
                let s = self.line();
                next_grapheme(s.as_str(), c.col)
            },
            _ => self.line_len(),
        };
        self.enter_insert_at(col);
    }
}

impl Editor {
    /// Drop what is pending.
    pub(crate) fn reset_pending(&mut self)
        requires
            old(self).wf(),
        ensures
            final(self).wf(),
            final(self)@ == reset(old(self)@),
    {
        let mut live = self.desk().live();
        live.pending = PendingCommand::default();
        self.put_live(live);
    }

    fn restart_stage(&mut self)
        requires
            old(self).wf(),
        ensures
            final(self).wf(),
            final(self)@ == (World {
                live: Live {
                    pending: PendingCommand { stage: Stage::Start, ..old(self)@.live.pending },
                    ..old(self)@.live
                },
                ..old(self)@
            }),
    {
        let mut live = self.desk().live();
        live.pending.stage = Stage::Start;
        self.put_live(live);
    }

    fn restore(&mut self, undo: bool)
        requires
            old(self).wf(),
        ensures
            final(self).wf(),
            final(self)@ == stepped(old(self)@, undo),
    {
        let d = self.desk_mut();
        let mut live = d.live();
        let o = d.open_mut();
        let done = o.restore(&mut live, undo);
        d.set_live(live);
        if !done {
            proof {
                old(self).is_consistent();
                assert(self@.buffers =~= old(self)@.buffers);
            }
            let s = if undo {
                "Already at oldest change"
            } else {
                "Already at newest change"
            };
            self.echo(s.to_owned());
        }
    }

    /// Go one step back in the history of the text.
    pub fn undo(&mut self)
        requires
            old(self).wf(),
        ensures
            final(self).wf(),
            final(self)@ == stepped(old(self)@, true),
    {
        self.restore(true);
    }

    /// Go one step forward in the history of the text.
    pub fn redo(&mut self)
        requires
            old(self).wf(),
        ensures
            final(self).wf(),
            final(self)@ == stepped(old(self)@, false),
    {
        self.restore(false);
    }

    /// Where a mark is.
    pub fn mark_location(&self, name: char) -> (r: Option<MarkAt>)
        requires
            self.wf(),
        ensures
            r == mark_place(self@, name),
    {
        if 'A' <= name && name <= 'Z' {
            return match self.global_mark(name) {
                Some(m) => if self.buffer_is_valid(m.buf) {
                    Some(m)
                } else {
                    None
                },
                None => None,
            };
        }
        let key = if name == '`' {
            '\''
        } else {
            name
        };
        let b = self.desk().buffer();
        match b.marks.get(key as u64) {
            Some(p) => Some(MarkAt { buf: self.current_buffer_id(), line: p.0, col: p.1 }),
            None => None,
        }
    }

    /// Set a mark at the cursor.
    pub fn set_mark(&mut self, name: char)
        requires
            old(self).wf(),
        ensures
            final(self).wf(),
            final(self)@ == marked(old(self)@, name),
    {
        proof {
            self.is_consistent();
        }
        let c = self.desk().live().cursor;
        let id = self.current_buffer_id();
        if 'A' <= name && name <= 'Z' {
            self.set_global_mark(name, MarkAt { buf: id, line: c.line, col: c.col });
        } else {
            let o = self.open_at_mut(id);
            o.buffer.marks.insert(name as u64, (c.line, c.col));
        }
    }

    fn visit_mark(&mut self, at: MarkAt, linewise: bool)
        requires
            old(self).wf(),
        ensures
            final(self).wf(),
            final(self)@ == mark_visited(old(self)@, at, linewise),
    {
        proof {
            reveal(mark_visited);
        }
        self.switch_buffer(at.buf);
        let d = self.desk_mut();
        let last: usize = d.buffer().last_line();
        let line: usize = if at.line <= last {
            at.line
        } else {
            last
        };
        let col: usize = if linewise {
            d.buffer().first_non_blank(line)
        } else {
            at.col
        };
        d.settle_cursor_at(line, col);
        self.ensure_visible();
    }

    fn miss_motion(&mut self, m: Motion)
        requires
            old(self).wf(),
        ensures
            final(self).wf(),
            final(self)@ == motion_missed(old(self)@, m),
    {
        match m {
            Motion::Find(_, _) => {
                if self.desk().live().mode.is_visual() {
                    self.restart_stage();
                } else {
                    self.reset_pending();
                }
            },
            Motion::MarkJumpExact(_) | Motion::MarkJumpLine(_) => {
                self.echo("E20: Mark not set".to_owned());
                self.reset_pending();
            },
            _ => self.reset_pending(),
        }
    }

    fn make_motion(&mut self, m: Motion, mark: Option<Point>)
        requires
            old(self).wf(),
        ensures
            final(self).wf(),
            final(self)@ == motion_made(old(self)@, m, mark),
    {
        proof {
            reveal(motion_made);
        }
        match self.desk().resolve_motion(m, mark) {
            Some(r) => {
                if is_jump_motion(m) && self.desk().live().pending.operator.is_none() {
                    self.record_jump_context();
                }
                let d = self.desk_mut();
                d.apply_resolved_motion(r);
            },
            None => self.miss_motion(m),
        }
    }

    fn note_find(&mut self, m: Motion)
        requires
            old(self).wf(),
        ensures
            final(self).wf(),
            final(self)@ == find_noted(old(self)@, m),
    {
        if let Motion::Find(kind, target) = m {
            let mut live = self.desk().live();
            live.last_find = Some((kind, target));
            self.put_live(live);
        }
    }

    fn mark_of_motion(&self, m: Motion) -> (r: Option<MarkAt>)
        requires
            self.wf(),
        ensures
            r == motion_mark(self@, m),
    {
        match m {
            Motion::MarkJumpExact(c) => self.mark_location(c),
            Motion::MarkJumpLine(c) => self.mark_location(c),
            _ => None,
        }
    }

    fn move_to(&mut self, m: Motion, at: Option<MarkAt>)
        requires
            old(self).wf(),
        ensures
            final(self).wf(),
            final(self)@ == motion_to(old(self)@, m, at),
    {
        match at {
            Some(k) => {
                if k.buf != self.current_buffer_id() {
                    let linewise = matches!(m, Motion::MarkJumpLine(_));
                    self.record_jump_context();
                    self.visit_mark(k, linewise);
                    self.reset_pending();
                } else {
                    self.make_motion(m, Some((k.line, k.col)));
                }
            },
            None => self.make_motion(m, None),
        }
    }

    fn do_motion(&mut self, m: Motion)
        requires
            old(self).wf(),
        ensures
            final(self).wf(),
            final(self)@ == motion_done(old(self)@, m),
    {
        proof {
            reveal(motion_done);
        }
        self.note_find(m);
        let at = self.mark_of_motion(m);
        self.move_to(m, at);
    }

    fn do_object(&mut self, ia: char, kind: crate::command::ObjectKind)
        requires
            old(self).wf(),
        ensures
            final(self).wf(),
            final(self)@ == object_done(old(self)@, ia, kind),
    {
        proof {
            reveal(object_done);
        }
        let live = self.desk().live();
        let count: usize = effective_count(&live.pending);
        match self.desk().text_object_range(ia, kind, count) {
            Some((lo, hi, linewise)) => {
                let d = self.desk_mut();
                d.apply_text_object(lo, hi, linewise);
            },
            None => {
                if live.mode.is_visual() {
                    self.restart_stage();
                } else {
                    self.reset_pending();
                }
            },
        }
    }

    pub(crate) fn ask_tab(&mut self, r: TabRequest)
        requires
            old(self).wf(),
        ensures
            final(self).wf(),
            final(self)@ == tab_asked(old(self)@, r),
    {
        let o = self.outbox_mut();
        o.tabs.push(r);
    }

    /// Do a window command.
    pub fn execute_window(&mut self, cmd: WindowCmd)
        requires
            old(self).wf(),
        ensures
            final(self).wf(),
            final(self)@ == window_done(old(self)@, cmd),
    {
        proof {
            reveal(window_done);
        }
        let count: usize = effective_count(&self.desk().live().pending);
        let n: isize = if count > isize::MAX as usize {
            isize::MAX
        } else {
            count as isize
        };
        self.reset_pending();
        let cur = self.windows().current;
        match cmd {
            WindowCmd::Split(dir) => self.split(dir),
            WindowCmd::FocusDir(dir) => self.focus_dir(dir),
            WindowCmd::FocusCycle(forward) => self.focus_cycle(forward),
            WindowCmd::Close => self.close_window(),
            WindowCmd::Only => self.only_window(),
            WindowCmd::Quit => self.ex_quit(false),
            WindowCmd::ToNewTab => self.ask_tab(TabRequest::NewFromWindow),
            WindowCmd::Equalize => self.equalize_windows(),
            WindowCmd::ResizeHeight(grow) => self.resize_window_id(
                cur,
                SplitDir::Horizontal,
                if grow {
                    n
                } else {
                    -n
                },
            ),
            WindowCmd::ResizeWidth(grow) => self.resize_window_id(
                cur,
                SplitDir::Vertical,
                if grow {
                    n
                } else {
                    -n
                },
            ),
            WindowCmd::MaxHeight => self.maximize_window(SplitDir::Horizontal),
            WindowCmd::MaxWidth => self.maximize_window(SplitDir::Vertical),
        }
    }

    fn forbid_repeat(&mut self)
        requires
            old(self).wf(),
        ensures
            final(self).wf(),
            final(self)@ == unrepeatable(old(self)@),
    {
        let r = self.repeat_mut();
        r.skip = true;
    }

    /// Make the last change again: its keys are queued.
    fn repeat_change(&mut self)
        requires
            old(self).wf(),
        ensures
            final(self).wf(),
            final(self)@ == change_repeated(old(self)@),
    {
        let count = self.desk().live().pending.count;
        let r = self.repeat_mut();
        if r.last.len() == 0 {
            return;
        }
        r.skip = true;
        let keys = repeat_keys(&r.last, count);
        r.queue = keys;
    }

    fn scroll(&mut self, cmd: NormalCmd)
        requires
            old(self).wf(),
        ensures
            final(self).wf(),
            final(self)@ == old(self)@.with_pane(
                scroll_done(
                    old(self)@.pane(),
                    cmd,
                    frame(old(self)@),
                    scroll_limit(old(self)@),
                ),
            ),
    {
        let f = self.frame();
        let limit: usize = self.scroll_limit();
        let d = self.desk_mut();
        d.do_scroll(cmd, f, limit);
    }

    fn do_move(&mut self, cmd: NormalCmd, count: usize)
        requires
            old(self).wf(),
        ensures
            final(self).wf(),
            final(self)@ == move_done(old(self)@, cmd, count),
    {
        proof {
            reveal(move_done);
        }
        match cmd {
            NormalCmd::Undo => {
                self.forbid_repeat();
                self.undo();
            },
            NormalCmd::Redo => {
                self.forbid_repeat();
                self.redo();
            },
            NormalCmd::EnterCommand => self.enter_command(),
            NormalCmd::EnterSearch(dir) => self.enter_search(dir, count),
            NormalCmd::SearchNext => self.search_repeat(true, count),
            NormalCmd::SearchPrev => self.search_repeat(false, count),
            NormalCmd::SearchWord { dir, whole_word } => {
                self.search_word_under_cursor(dir, whole_word, count)
            },
            NormalCmd::ScrollHalf(_) | NormalCmd::ScrollPage(_) | NormalCmd::ScrollLine(_) => {
                self.scroll(cmd)
            },
            NormalCmd::AltBuffer => self.goto_alternate(),
            NormalCmd::TabNext(n) => self.ask_tab(TabRequest::Next(n)),
            NormalCmd::TabPrev(n) => self.ask_tab(TabRequest::Prev(n)),
            NormalCmd::DotRepeat => self.repeat_change(),
            _ => {},
        }
    }

    /// Say that the host has no clipboard.
    pub(crate) fn miss_clipboard(&mut self)
        requires
            old(self).wf(),
        ensures
            final(self).wf(),
            final(self)@ == old(self)@.said(no_clipboard()),
    {
        self.echo("clipboard: No provider".to_owned());
    }

    /// Drop a command whose register stands in the way. Says whether it was dropped.
    fn bar_by_register(&mut self, cmd: ResolvedCommand) -> (b: bool)
        requires
            old(self).wf(),
        ensures
            final(self).wf(),
            match register_bars(old(self)@, cmd) {
                Some(w) => b && final(self)@ == w,
                None => !b && *final(self) == *old(self),
            },
    {
        let pending = self.desk().live().pending;
        let fill = filled(&pending, cmd);
        let paste = match cmd {
            ResolvedCommand::Normal(c) => c == NormalCmd::PasteAfter || c
                == NormalCmd::PasteBefore,
            _ => false,
        };
        if let Some(c) = pending.register {
            if fill && is_readonly_register(c) {
                self.reset_pending();
                return true;
            }
        }
        if is_clipboard_register(pending.register) && (fill || paste)
            && !self.desk().has_clipboard() {
            self.reset_pending();
            self.miss_clipboard();
            return true;
        }
        false
    }

    /// Put in the text of the register that the pending command names.
    fn paste(&mut self, after: bool, count: usize)
        requires
            old(self).wf(),
        ensures
            final(self).wf(),
            final(self)@ == old(self)@.with_pane(
                pasted(old(self)@.pane(), to_paste(old(self)@), after, count as nat),
            ),
    {
        let register = self.desk().live().pending.register;
        match self.register_text(register) {
            Some(what) => {
                let d = self.desk_mut();
                d.paste(&what, after, count);
            },
            None => {
                proof {
                    self.is_consistent();
                    assert(self@.with_pane(self@.pane()).buffers =~= self@.buffers);
                }
            },
        }
    }

    /// Do a command of a single key.
    pub fn execute_normal(&mut self, cmd: NormalCmd)
        requires
            old(self).wf(),
        ensures
            final(self).wf(),
            final(self)@ == normal_done(old(self)@, cmd),
    {
        proof {
            reveal(normal_done);
        }
        let pending = self.desk().live().pending;
        let count: usize = effective_count(&pending);
        if self.bar_by_register(ResolvedCommand::Normal(cmd)) {
            return;
        }
        if cmd == NormalCmd::PasteAfter || cmd == NormalCmd::PasteBefore {
            self.paste(cmd == NormalCmd::PasteAfter, count);
        } else if editing(cmd) {
            let d = self.desk_mut();
            d.do_edit(cmd, count);
        } else {
            self.do_move(cmd, count);
        }
        self.reset_pending();
    }

    /// Whether the current text may be changed.
    pub fn modifiable(&self) -> (b: bool)
        requires
            self.wf(),
        ensures
            b == !is_fixed(self@.buffers[self@.cur().0].buffer),
    {
        proof {
            self.is_consistent();
        }
        !self.desk().buffer().is_fixed()
    }

    /// Say that the text may not be changed.
    pub(crate) fn refuse(&mut self)
        requires
            old(self).wf(),
        ensures
            final(self).wf(),
            final(self)@ == old(self)@.said(refusal()),
    {
        self.echo("E21: Cannot make changes, 'modifiable' is off".to_owned());
    }

    /// Do a complete command, unless it would change a text that may not be changed, or its
    /// register stands in the way.
    pub fn execute(&mut self, cmd: ResolvedCommand)
        requires
            old(self).wf(),
        ensures
            final(self).wf(),
            final(self)@ == command_done(old(self)@, cmd),
    {
        let pending = self.desk().live().pending;
        if changing(&pending, cmd) && !self.modifiable() {
            self.cancel_all();
            self.refuse();
        } else if !self.bar_by_register(cmd) {
            self.make(cmd);
        }
    }

    fn make(&mut self, cmd: ResolvedCommand)
        requires
            old(self).wf(),
        ensures
            final(self).wf(),
            final(self)@ == command_made(old(self)@, cmd),
    {
        proof {
            reveal(command_made);
        }
        let count: usize = effective_count(&self.desk().live().pending);
        match cmd {
            ResolvedCommand::Motion(m) => self.do_motion(m),
            ResolvedCommand::DoubledOperator(op) => {
                let d = self.desk_mut();
                d.begin_operator(op);
            },
            ResolvedCommand::OperatorSearch { op, dir } => {
                let register = self.desk().live().pending.register;
                let s = self.search_mut();
                s.operator = Some(NamedOperator { op, register });
                self.enter_search(dir, count);
            },
            ResolvedCommand::TextObject { ia, kind } => self.do_object(ia, kind),
            ResolvedCommand::Replace(c) => {
                let d = self.desk_mut();
                d.replace_char(c, count);
                self.reset_pending();
            },
            ResolvedCommand::SetMark(name) => {
                if is_settable_mark(name) {
                    self.set_mark(name);
                } else {
                    self.echo(
                        "E191: Argument must be a letter or forward/backward quote".to_owned(),
                    );
                }
                self.reset_pending();
            },
            ResolvedCommand::VisualOperate(op) => {
                let d = self.desk_mut();
                d.visual_operate(op);
            },
            ResolvedCommand::Normal(cmd) => self.execute_normal(cmd),
            ResolvedCommand::Window(cmd) => self.execute_window(cmd),
        }
    }

    fn cancel_all(&mut self)
        requires
            old(self).wf(),
        ensures
            final(self).wf(),
            final(self)@ == all_cancelled(old(self)@),
    {
        let selecting = self.desk().live().mode.is_visual();
        self.reset_pending();
        if selecting {
            self.record_visual_marks();
            let d = self.desk_mut();
            d.set_mode(Mode::Normal);
            d.clamp_cursor();
        }
    }

    /// Take a key in normal or visual mode.
    pub fn handle_normal(&mut self, key: Key)
        requires
            old(self).wf(),
        ensures
            final(self).wf(),
            final(self)@ == normal_keyed(old(self)@, key),
    {
        proof {
            reveal(normal_keyed);
        }
        self.hush();
        let live = self.desk().live();
        match parse_step(live.mode, &live.pending, key) {
            ParseStep::Prefix(p) => {
                let mut next = live;
                next.pending = p;
                self.put_live(next);
            },
            ParseStep::Complete(cmd) => self.execute(cmd),
            ParseStep::Cancel => self.cancel_all(),
            ParseStep::Reset => self.reset_pending(),
            ParseStep::AbortObject => {
                if live.mode.is_visual() {
                    self.restart_stage();
                } else {
                    self.reset_pending();
                }
            },
        }
    }

    /// Go back through the change list.
    pub fn change_older(&mut self, count: usize)
        requires
            old(self).wf(),
        ensures
            final(self).wf(),
            final(self)@ == change_stepped(
                old(self)@,
                older_change(old(self)@.pane(), count as int),
            ),
    {
        proof {
            self.is_consistent();
        }
        let d = self.desk_mut();
        let r = d.change_older(count);
        match r {
            Ok(_) => self.ensure_visible(),
            Err(e) => {
                assert(self@.buffers =~= old(self)@.buffers);
                self.echo(e.text());
            },
        }
    }

    /// Go on through the change list.
    pub fn change_newer(&mut self, count: usize)
        requires
            old(self).wf(),
        ensures
            final(self).wf(),
            final(self)@ == change_stepped(
                old(self)@,
                newer_change(old(self)@.pane(), count as int),
            ),
    {
        proof {
            self.is_consistent();
        }
        let d = self.desk_mut();
        let r = d.change_newer(count);
        match r {
            Ok(_) => self.ensure_visible(),
            Err(e) => {
                assert(self@.buffers =~= old(self)@.buffers);
                self.echo(e.text());
            },
        }
    }
}

fn editing(cmd: NormalCmd) -> (b: bool)
    ensures
        b == is_edit(cmd),
{
    match cmd {
        NormalCmd::InsertBefore
        | NormalCmd::InsertLineStart
        | NormalCmd::InsertAfter
        | NormalCmd::InsertLineEnd
        | NormalCmd::OpenBelow
        | NormalCmd::OpenAbove
        | NormalCmd::DeleteUnder
        | NormalCmd::DeleteBefore
        | NormalCmd::DeleteToEol
        | NormalCmd::ChangeToEol
        | NormalCmd::SubstituteChar
        | NormalCmd::PasteAfter
        | NormalCmd::PasteBefore
        | NormalCmd::Join
        | NormalCmd::ToggleCase
        | NormalCmd::EnterReplace
        | NormalCmd::EnterVisual
        | NormalCmd::EnterVisualLine => true,
        _ => false,
    }
}

fn changing(pending: &PendingCommand, cmd: ResolvedCommand) -> (b: bool)
    ensures
        b == would_change(*pending, cmd),
{
    let operated = match pending.operator {
        Some(op) => op != 'y',
        None => false,
    };
    match cmd {
        ResolvedCommand::Motion(_) | ResolvedCommand::TextObject { .. } => operated,
        ResolvedCommand::DoubledOperator(op)
        | ResolvedCommand::OperatorSearch { op, .. }
        | ResolvedCommand::VisualOperate(op) => op != 'y',
        ResolvedCommand::Replace(_) => true,
        ResolvedCommand::Normal(c) => match c {
            NormalCmd::EnterVisual | NormalCmd::EnterVisualLine => false,
            NormalCmd::Undo | NormalCmd::Redo => true,
            _ => editing(c),
        },
        ResolvedCommand::SetMark(_) | ResolvedCommand::Window(_) => false,
    }
}

fn filled(pending: &PendingCommand, cmd: ResolvedCommand) -> (b: bool)
    ensures
        b == fills(*pending, cmd),
{
    let operated = match pending.operator {
        Some(op) => matches!(op, 'y' | 'd' | 'c'),
        None => false,
    };
    match cmd {
        ResolvedCommand::Motion(_) | ResolvedCommand::TextObject { .. } => operated,
        ResolvedCommand::DoubledOperator(op)
        | ResolvedCommand::OperatorSearch { op, .. }
        | ResolvedCommand::VisualOperate(op) => matches!(op, 'y' | 'd' | 'c'),
        ResolvedCommand::Normal(c) => filling(c),
        _ => false,
    }
}

fn filling(cmd: NormalCmd) -> (b: bool)
    ensures
        b == fills_register(cmd),
{
    match cmd {
        NormalCmd::DeleteUnder
        | NormalCmd::DeleteBefore
        | NormalCmd::DeleteToEol
        | NormalCmd::ChangeToEol
        | NormalCmd::SubstituteChar => true,
        _ => false,
    }
}

/// Undo leads back to the state that was recorded, and redo from there to the state that was
/// undone: its text, its marks, its change list with the place in it, its number, what can be
/// redone, and the cursor, held to the text. All else but the buffer stays.
pub proof fn redo_follows_undo(w: World)
    requires
        w.buffers[w.cur().0].undo.len() > 0,
        w.buffers.contains_key(w.cur().0),
    ensures
        ({
            let o = w.buffers[w.cur().0];
            let u = stepped(w, true);
            let v = u.buffers[w.cur().0];
            let r = stepped(u, false);
            let q = r.buffers[w.cur().0];
            let s = o.undo.last();
            &&& v.buffer.text == s.text
            &&& v.buffer.marks == s.marks
            &&& v.buffer.changelist == s.changelist
            &&& v.cur_seq == s.seq
            &&& u.live == clamped(s.text, Live { cursor: s.cursor, ..w.live })
            &&& q.buffer.text == o.buffer.text
            &&& q.buffer.marks == o.buffer.marks
            &&& q.buffer.changelist == o.buffer.changelist
            &&& q.buffer.changelistidx == o.buffer.changelistidx
            &&& q.cur_seq == o.cur_seq
            &&& q.redo == o.redo
            &&& r.live == clamped(o.buffer.text, w.live)
            &&& r == (World { buffers: w.buffers.insert(w.cur().0, q), live: r.live, ..w })
        }),
{
    let o = w.buffers[w.cur().0];
    crate::open::redo_undoes_undo(o, w.live);
    let r = stepped(stepped(w, true), false);
    assert(r.buffers =~= w.buffers.insert(w.cur().0, r.buffers[w.cur().0]));
}

} // verus!
