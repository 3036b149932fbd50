//! Command-line mode of the editor: commands, searches, prompts and dialogs.

use vstd::prelude::*;
use vstd::utf8::*;

use crate::buffer::{mark_key, opt_chars, BufferModel};
use crate::cmdcomplete::{
    argument_replaced, complete_request, menu_begun, narrowing, CmdlineCompleteReq, CmdlineMenu,
    ReqModel,
};
use crate::cmdline::{
    char_inserted, cleared, confirm_answer, line_edited, menu_closed, opened_line, remembered,
    ring_remembered, str_inserted, typed_restored, with_line, CmdlineCompleteConfig, CmdlineKind,
    LineEdit, LineModel,
};
use crate::command::{clipboard_register, is_clipboard_register};
use crate::desk::Pane;
use crate::editor::exline::ex_done;
use crate::editor::normal::no_clipboard;
use crate::editor::searches::{one_at_least, preview_asked, search_submitted};
use crate::editor::{with_open, Editor, SearchModel, World};
use crate::input::{typed, Key, KeyCode};
use crate::mode::{selecting, Mode};
use crate::open::{Live, OpenModel};
use crate::pending::{word_asked, MenuMove, OutModel};
use crate::registers::{held_in, reg_of, Reg, Register};
use crate::search::SearchDir;
use crate::searching::word_at_column;
use crate::strings::{fmt_i64, int_text, joined_str, quote, quoted, same, texts, trimmed};
use crate::window::Cursor;

verus! {

/// One position before another, or at it.
pub open spec fn not_after(a: Cursor, b: Cursor) -> bool {
    a.line < b.line || (a.line == b.line && a.col <= b.col)
}

/// The ends of the selection marked.
pub open spec fn selection_marked(w: World) -> World {
    let o = w.buffers[w.cur().0];
    let (a, b) = (w.live.visual_anchor, w.live.cursor);
    let (lo, hi) = if not_after(a, b) {
        (a, b)
    } else {
        (b, a)
    };
    with_open(
        w,
        w.cur(),
        OpenModel {
            buffer: BufferModel {
                marks: o.buffer.marks.insert(mark_key('<'), (lo.line, lo.col)).insert(
                    mark_key('>'),
                    (hi.line, hi.col),
                ),
                ..o.buffer
            },
            ..o
        },
    )
}

/// A command line opened: command-line mode with nothing pending and no message.
pub open spec fn line_opened(w: World, l: LineModel) -> World {
    World { line: l, ..w }.hushed().with_live(
        Live {
            mode: Mode::Command,
            pending: crate::command::clean_command(),
            ..w.live
        },
    )
}

/// A command line for a command. From a selection it begins with the range of the selection,
/// which is marked.
pub open spec fn command_entered(w: World) -> World {
    let l = opened_line(
        w.line,
        CmdlineKind::Ex,
        if w.live.mode == Mode::MultiCursor {
            Mode::MultiCursor
        } else {
            Mode::Normal
        },
    );
    if selecting(w.live.mode) {
        line_opened(selection_marked(w), with_line(l, "'<,'>"@))
    } else {
        line_opened(w, l)
    }
}

/// A command line for a search, from which a selection is returned to.
pub open spec fn search_entered(w: World, dir: SearchDir, count: usize) -> World {
    let back = if selecting(w.live.mode) || w.live.mode == Mode::MultiCursor {
        w.live.mode
    } else {
        Mode::Normal
    };
    line_opened(
        World {
            search: SearchModel {
                count: one_at_least(count),
                origin: w.live.cursor,
                ..w.search
            },
            ..w
        },
        opened_line(w.line, CmdlineKind::Search(dir), back),
    )
}

/// An answer to a prompt.
pub open spec fn answered(w: World, s: Option<Seq<char>>) -> World {
    World {
        out: OutModel { prompt_results: w.out.prompt_results.push(s), ..w.out },
        ..w
    }
}

/// The command line left without doing anything: a search goes back to where it began, and
/// a prompt is answered with nothing.
#[verifier::opaque]
pub open spec fn line_cancelled(w: World) -> World {
    let a = match w.line.kind {
        CmdlineKind::Search(_) => {
            let b = w.with_pane(w.pane().with_cursor(w.search.origin).held());
            World { search: SearchModel { operator: None, ..b.search }, ..b }
        },
        CmdlineKind::Prompt => answered(
            World { line: LineModel { prompt: Seq::empty(), ..w.line }, ..w },
            None,
        ),
        _ => w,
    };
    World {
        line: menu_closed(cleared(a.line)),
        live: Live { mode: w.line.return_mode, ..a.live },
        ..a
    }
}

/// The histories with a command added.
pub open spec fn command_remembered(l: LineModel, cmd: Seq<char>) -> LineModel {
    LineModel {
        ex_history: if trimmed(cmd).len() == 0 {
            l.ex_history
        } else {
            remembered(l.ex_history, trimmed(cmd))
        },
        ..l
    }
}

/// The histories with the line of a prompt added, of which the last `cap` lines are kept.
pub open spec fn prompt_remembered(l: LineModel, text: Seq<char>, cap: nat) -> LineModel {
    LineModel {
        prompt_history: match l.prompt_key {
            Some(k) => if text.len() == 0 {
                l.prompt_history
            } else {
                ring_remembered(l.prompt_history, k, text, cap, 0)
            },
            None => l.prompt_history,
        },
        ..l
    }
}

/// The command line submitted: the command is done, the search begins from where the cursor
/// was, or the prompt is answered.
#[verifier::opaque]
pub open spec fn line_submitted(w: World) -> World {
    let text = w.line.chars;
    let a = World {
        line: menu_closed(cleared(w.line)),
        live: Live { mode: w.line.return_mode, ..w.live },
        ..w
    };
    match w.line.kind {
        CmdlineKind::Ex => ex_done(
            World { line: command_remembered(a.line, text), ..a },
            text,
        ),
        CmdlineKind::Search(dir) => search_submitted(
            a.with_pane(a.pane().with_cursor(a.search.origin)),
            text,
            dir,
        ),
        CmdlineKind::Prompt => {
            let l = prompt_remembered(a.line, text, a.options.history as nat);
            answered(World { line: LineModel { prompt: Seq::empty(), ..l }, ..a }, Some(text))
        },
        CmdlineKind::Confirm => a,
    }
}

/// What a key or a name does in the command line.
#[derive(Debug, Clone, Copy, PartialEq, Eq, Structural)]
pub enum LineAction {
    Cancel,
    Submit,
    Complete,
    CompletePrev,
    Edit(LineEdit),
    InsertRegister,
}

/// The action of a name.
pub open spec fn action_named(s: Seq<char>) -> Option<LineAction> {
    if s == "complete"@ {
        Some(LineAction::Complete)
    } else if s == "complete_prev"@ {
        Some(LineAction::CompletePrev)
    } else if s == "cancel"@ {
        Some(LineAction::Cancel)
    } else if s == "submit"@ {
        Some(LineAction::Submit)
    } else if s == "backspace"@ {
        Some(LineAction::Edit(LineEdit::Backspace))
    } else if s == "delete"@ {
        Some(LineAction::Edit(LineEdit::Delete))
    } else if s == "left"@ {
        Some(LineAction::Edit(LineEdit::Left))
    } else if s == "right"@ {
        Some(LineAction::Edit(LineEdit::Right))
    } else if s == "to_start"@ {
        Some(LineAction::Edit(LineEdit::ToStart))
    } else if s == "to_end"@ {
        Some(LineAction::Edit(LineEdit::ToEnd))
    } else if s == "history_prev"@ {
        Some(LineAction::Edit(LineEdit::HistoryPrev))
    } else if s == "history_next"@ {
        Some(LineAction::Edit(LineEdit::HistoryNext))
    } else if s == "insert_register"@ {
        Some(LineAction::InsertRegister)
    } else {
        None
    }
}

/// The action of a key.
pub open spec fn action_of_key(key: Key) -> Option<LineAction> {
    match key.code {
        KeyCode::Esc => Some(LineAction::Cancel),
        KeyCode::Enter => Some(LineAction::Submit),
        KeyCode::Tab => if key.shift {
            Some(LineAction::CompletePrev)
        } else {
            Some(LineAction::Complete)
        },
        KeyCode::Backspace => Some(LineAction::Edit(LineEdit::Backspace)),
        KeyCode::Delete => Some(LineAction::Edit(LineEdit::Delete)),
        KeyCode::Left => Some(LineAction::Edit(LineEdit::Left)),
        KeyCode::Right => Some(LineAction::Edit(LineEdit::Right)),
        KeyCode::Home => Some(LineAction::Edit(LineEdit::ToStart)),
        KeyCode::End => Some(LineAction::Edit(LineEdit::ToEnd)),
        KeyCode::Up => Some(LineAction::Edit(LineEdit::HistoryPrev)),
        KeyCode::Down => Some(LineAction::Edit(LineEdit::HistoryNext)),
        KeyCode::Char(c) => if !key.ctrl {
            None
        } else if c == 'b' {
            Some(LineAction::Edit(LineEdit::ToStart))
        } else if c == 'e' {
            Some(LineAction::Edit(LineEdit::ToEnd))
        } else if c == 'p' {
            Some(LineAction::Edit(LineEdit::HistoryPrev))
        } else if c == 'n' {
            Some(LineAction::Edit(LineEdit::HistoryNext))
        } else if c == 'r' {
            Some(LineAction::InsertRegister)
        } else {
            None
        },
        _ => None,
    }
}

/// The place of a search that is being typed shown anew.
pub open spec fn search_previewed(w: World) -> World {
    match w.line.kind {
        CmdlineKind::Search(dir) => preview_asked(w, dir),
        _ => w,
    }
}

/// A request for completions, in place of the one before.
pub open spec fn completion_asked(w: World, r: ReqModel) -> World {
    World { out: word_asked(w.out, r, w.line.kind == CmdlineKind::Prompt), ..w }
}

/// A step through the open menu.
pub open spec fn menu_moved(w: World, m: MenuMove) -> World {
    World { out: OutModel { menu_moves: w.out.menu_moves.push(m), ..w.out }, ..w }
}

/// The open menu after a change of the line: it is narrowed, or it closes. The line is what
/// it shows.
pub open spec fn menu_refreshed(w: World) -> World {
    match w.line.menu {
        Some(anchor) => {
            let l = LineModel { saved: None, ..w.line };
            match narrowing(l, anchor as int) {
                Some(r) => completion_asked(World { line: l, ..w }, r),
                None => World { line: menu_closed(l), ..w },
            }
        },
        None => w,
    }
}

/// The step through the open menu that an action stands for.
pub open spec fn menu_step(a: LineAction) -> Option<MenuMove> {
    match a {
        LineAction::Complete => Some(MenuMove::Next),
        LineAction::Edit(LineEdit::HistoryNext) => Some(MenuMove::Next),
        LineAction::CompletePrev => Some(MenuMove::Prev),
        LineAction::Edit(LineEdit::HistoryPrev) => Some(MenuMove::Prev),
        _ => None,
    }
}

/// The command line after a change. Backspace in an empty line leaves it, but not a prompt.
#[verifier::opaque]
pub open spec fn line_changed(w: World, e: LineEdit) -> World {
    if e == LineEdit::Backspace && w.line.chars.len() == 0 {
        if w.line.kind == CmdlineKind::Prompt {
            w
        } else {
            line_cancelled(w)
        }
    } else {
        menu_refreshed(search_previewed(World { line: line_edited(w.line, e), ..w }))
    }
}

/// The command line after an action. While a menu is open, some actions walk it, and to
/// cancel brings back the line that was typed and closes the menu.
pub open spec fn line_acted(w: World, a: LineAction) -> World {
    if w.line.menu is Some && menu_step(a) is Some {
        menu_moved(w, menu_step(a)->0)
    } else if w.line.menu is Some && a == LineAction::Cancel {
        World { line: menu_closed(typed_restored(w.line)), ..w }
    } else {
        match a {
            LineAction::Cancel => line_cancelled(w),
            LineAction::Submit => line_submitted(w),
            LineAction::Complete | LineAction::CompletePrev => match complete_request(
                w.line,
                false,
            ) {
                Some(r) => completion_asked(w, r),
                None => w,
            },
            LineAction::Edit(e) => line_changed(w, e),
            LineAction::InsertRegister => menu_refreshed(
                search_previewed(
                    World { line: LineModel { awaiting_register: true, ..w.line }, ..w },
                ),
            ),
        }
    }
}

/// A text that is a part of a line.
pub open spec fn inline_text(s: Seq<char>) -> Reg {
    Reg { text: s, linewise: false }
}

/// What a register gives: the path of the current buffer, the last pattern, the last command,
/// or what was put in it. Without a name it is the unnamed one.
pub open spec fn register_text(w: World, name: Option<char>) -> Option<Reg> {
    if name == Some('%') {
        match w.buffers[w.cur().0].buffer.path {
            Some(s) => Some(inline_text(s)),
            None => None,
        }
    } else if name == Some('/') {
        match w.search.last {
            Some(s) => Some(inline_text(s.pattern)),
            None => None,
        }
    } else if name == Some(':') {
        if w.line.ex_history.len() > 0 {
            Some(inline_text(w.line.ex_history.last()))
        } else {
            None
        }
    } else {
        held_in(w.regs, name)
    }
}

/// A text put in the command line, if there is one.
pub open spec fn text_put(w: World, s: Option<Seq<char>>) -> World {
    match s {
        Some(s) => World { line: str_inserted(w.line, s), ..w },
        None => w,
    }
}

/// The text of a register put in the command line, if there is one. The clipboard is missed
/// aloud where the host has none.
pub open spec fn named_put(w: World, name: char) -> World {
    if clipboard_register(Some(name)) && w.regs.clipboard is None {
        w.said(no_clipboard())
    } else {
        text_put(
            w,
            match register_text(w, Some(name)) {
                Some(r) => Some(r.text),
                None => None,
            },
        )
    }
}

/// The key that names the text to be put in the command line: a register, or the word under
/// the cursor.
pub open spec fn register_put(w: World, key: Key) -> World {
    let a = World { line: LineModel { awaiting_register: false, ..w.line }, ..w };
    let p = a.pane();
    if key.ctrl && key.code == KeyCode::Char('w') {
        text_put(a, word_at_column(decode_utf8(p.line()), p.live.cursor.col as int))
    } else {
        match typed(key) {
            Some(name) => named_put(a, name),
            None => a,
        }
    }
}

/// A dialog after a key: answered, where the key is an answer.
pub open spec fn dialog_keyed(w: World, key: Key) -> World {
    match confirm_answer(w.line, key) {
        Some(n) => answered(
            World {
                line: LineModel {
                    prompt: Seq::empty(),
                    accelerators: Seq::empty(),
                    ..w.line
                },
                live: Live { mode: Mode::Normal, ..w.live },
                ..w
            },
            Some(
                int_text(
                    if n > i64::MAX {
                        i64::MAX as int
                    } else {
                        n
                    },
                ),
            ),
        ),
        None => w,
    }
}

/// What a key does in the command line.
#[verifier::opaque]
pub open spec fn line_keyed(w: World, key: Key) -> World {
    if w.line.kind == CmdlineKind::Confirm {
        dialog_keyed(w, key)
    } else if w.line.awaiting_register {
        search_previewed(register_put(w, key))
    } else {
        match action_of_key(key) {
            Some(a) => line_acted(w, a),
            None => match key.code {
                KeyCode::Char(c) => if !key.ctrl {
                    menu_refreshed(
                        search_previewed(World { line: char_inserted(w.line, c), ..w }),
                    )
                } else {
                    w
                },
                _ => w,
            },
        }
    }
}

/// The sign of the open command line.
pub open spec fn line_sign(w: World) -> Seq<char> {
    if w.live.mode != Mode::Command {
        ""@
    } else {
        match w.line.kind {
            CmdlineKind::Ex => ":"@,
            CmdlineKind::Search(SearchDir::Forward) => "/"@,
            CmdlineKind::Search(SearchDir::Backward) => "?"@,
            _ => "@"@,
        }
    }
}

fn named_action(s: &str) -> (r: Option<LineAction>)
    ensures
        r == action_named(s@),
{
    if same(s, "complete") {
        Some(LineAction::Complete)
    } else if same(s, "complete_prev") {
        Some(LineAction::CompletePrev)
    } else if same(s, "cancel") {
        Some(LineAction::Cancel)
    } else if same(s, "submit") {
        Some(LineAction::Submit)
    } else if same(s, "backspace") {
        Some(LineAction::Edit(LineEdit::Backspace))
    } else if same(s, "delete") {
        Some(LineAction::Edit(LineEdit::Delete))
    } else if same(s, "left") {
        Some(LineAction::Edit(LineEdit::Left))
    } else if same(s, "right") {
        Some(LineAction::Edit(LineEdit::Right))
    } else if same(s, "to_start") {
        Some(LineAction::Edit(LineEdit::ToStart))
    } else if same(s, "to_end") {
        Some(LineAction::Edit(LineEdit::ToEnd))
    } else if same(s, "history_prev") {
        Some(LineAction::Edit(LineEdit::HistoryPrev))
    } else if same(s, "history_next") {
        Some(LineAction::Edit(LineEdit::HistoryNext))
    } else if same(s, "insert_register") {
        Some(LineAction::InsertRegister)
    } else {
        None
    }
}

fn key_action(key: Key) -> (r: Option<LineAction>)
    ensures
        r == action_of_key(key),
{
    match key.code {
        KeyCode::Esc => Some(LineAction::Cancel),
        KeyCode::Enter => Some(LineAction::Submit),
        KeyCode::Tab => if key.shift {
            Some(LineAction::CompletePrev)
        } else {
            Some(LineAction::Complete)
        },
        KeyCode::Backspace => Some(LineAction::Edit(LineEdit::Backspace)),
        KeyCode::Delete => Some(LineAction::Edit(LineEdit::Delete)),
        KeyCode::Left => Some(LineAction::Edit(LineEdit::Left)),
        KeyCode::Right => Some(LineAction::Edit(LineEdit::Right)),
        KeyCode::Home => Some(LineAction::Edit(LineEdit::ToStart)),
        KeyCode::End => Some(LineAction::Edit(LineEdit::ToEnd)),
        KeyCode::Up => Some(LineAction::Edit(LineEdit::HistoryPrev)),
        KeyCode::Down => Some(LineAction::Edit(LineEdit::HistoryNext)),
        KeyCode::Char(c) => if !key.ctrl {
            None
        } else if c == 'b' {
            Some(LineAction::Edit(LineEdit::ToStart))
        } else if c == 'e' {
            Some(LineAction::Edit(LineEdit::ToEnd))
        } else if c == 'p' {
            Some(LineAction::Edit(LineEdit::HistoryPrev))
        } else if c == 'n' {
            Some(LineAction::Edit(LineEdit::HistoryNext))
        } else if c == 'r' {
            Some(LineAction::InsertRegister)
        } else {
            None
        },
        _ => None,
    }
}

impl Editor {
    /// Replace the state of the focused window.
    pub(crate) fn put_live(&mut self, live: Live)
        requires
            old(self).wf(),
        ensures
            final(self).wf(),
            final(self)@ == old(self)@.with_live(live),
    {
        proof {
            self.is_consistent();
        }
        let d = self.desk_mut();
        d.set_live(live);
        assert(self@.buffers =~= old(self)@.buffers);
    }

    /// Mark the ends of the selection.
    pub(crate) fn record_visual_marks(&mut self)
        requires
            old(self).wf(),
        ensures
            final(self).wf(),
            final(self)@ == selection_marked(old(self)@),
    {
        proof {
            self.is_consistent();
        }
        let live = self.desk().live();
        let (a, b) = (live.visual_anchor, live.cursor);
        let (lo, hi) = if a.line < b.line || (a.line == b.line && a.col <= b.col) {
            (a, b)
        } else {
            (b, a)
        };
        let id = self.current_buffer_id();
        let o = self.open_at_mut(id);
        o.buffer.marks.insert('<' as u64, (lo.line, lo.col));
        o.buffer.marks.insert('>' as u64, (hi.line, hi.col));
    }

    fn begin_line(&mut self)
        requires
            old(self).wf(),
        ensures
            final(self).wf(),
            final(self)@ == line_opened(old(self)@, old(self)@.line),
    {
        self.hush();
        let mut live = self.desk().live();
        live.mode = Mode::Command;
        live.pending = crate::command::PendingCommand::default();
        self.put_live(live);
    }

    /// Open the command line for a command.
    pub fn enter_command(&mut self)
        requires
            old(self).wf(),
        ensures
            final(self).wf(),
            final(self)@ == command_entered(old(self)@),
    {
        let from_selection = self.desk().live().mode.is_visual();
        if from_selection {
            self.record_visual_marks();
        }
        let back = if self.desk().live().mode == Mode::MultiCursor {
            Mode::MultiCursor
        } else {
            Mode::Normal
        };
        let l = self.line_mut();
        l.open(CmdlineKind::Ex, back);
        if from_selection {
            l.set_text("'<,'>");
        }
        self.begin_line();
    }

    /// Open the command line for a search.
    pub fn enter_search(&mut self, dir: SearchDir, count: usize)
        requires
            old(self).wf(),
        ensures
            final(self).wf(),
            final(self)@ == search_entered(old(self)@, dir, count),
    {
        let live = self.desk().live();
        let back = if live.mode.is_visual() || live.mode == Mode::MultiCursor {
            live.mode
        } else {
            Mode::Normal
        };
        let s = self.search_mut();
        s.count = if count < 1 {
            1
        } else {
            count
        };
        s.origin = live.cursor;
        let l = self.line_mut();
        l.open(CmdlineKind::Search(dir), back);
        self.begin_line();
    }

    /// Open the command line as a prompt.
    pub fn open_prompt(
        &mut self,
        label: String,
        default: String,
        history: Option<String>,
        complete: bool,
        complete_docs: bool,
    )
        requires
            old(self).wf(),
        ensures
            final(self).wf(),
            final(self)@ == (World {
                line: LineModel {
                    kind: CmdlineKind::Prompt,
                    prompt: label@,
                    prompt_key: opt_chars(history),
                    prompt_complete: CmdlineCompleteConfig {
                        enabled: complete,
                        docs: complete_docs,
                    },
                    hist_idx: None,
                    return_mode: Mode::Normal,
                    ..with_line(old(self)@.line, default@)
                },
                live: Live { mode: Mode::Command, ..old(self)@.live },
                ..old(self)@
            }),
    {
        let l = self.line_mut();
        l.open_prompt(
            label,
            default,
            history,
            CmdlineCompleteConfig { enabled: complete, docs: complete_docs },
        );
        let mut live = self.desk().live();
        live.mode = Mode::Command;
        self.put_live(live);
    }

    /// Open the command line as a dialog.
    pub fn open_confirm(&mut self, label: String, accelerators: Vec<String>, default: i64)
        requires
            old(self).wf(),
        ensures
            final(self).wf(),
            final(self)@ == (World {
                line: LineModel {
                    kind: CmdlineKind::Confirm,
                    prompt: label@,
                    accelerators: texts(accelerators@),
                    confirm_default: default,
                    return_mode: Mode::Normal,
                    ..cleared(old(self)@.line)
                },
                live: Live { mode: Mode::Command, ..old(self)@.live },
                ..old(self)@
            }),
    {
        let l = self.line_mut();
        l.open_confirm(label, accelerators, default);
        let mut live = self.desk().live();
        live.mode = Mode::Command;
        self.put_live(live);
    }

    fn answer(&mut self, s: Option<String>)
        requires
            old(self).wf(),
        ensures
            final(self).wf(),
            final(self)@ == answered(old(self)@, opt_chars(s)),
    {
        let o = self.outbox_mut();
        o.push_answer(s);
    }

    fn leave_line(&mut self)
        requires
            old(self).wf(),
        ensures
            final(self).wf(),
            final(self)@ == (World {
                line: menu_closed(cleared(old(self)@.line)),
                live: Live { mode: old(self)@.line.return_mode, ..old(self)@.live },
                ..old(self)@
            }),
    {
        let l = self.line_mut();
        l.clear();
        l.close_cmdline_menu();
        let back = l.return_mode();
        let mut live = self.desk().live();
        live.mode = back;
        self.put_live(live);
    }

    /// Leave the command line without doing anything.
    pub fn cancel_cmdline(&mut self)
        requires
            old(self).wf(),
        ensures
            final(self).wf(),
            final(self)@ == line_cancelled(old(self)@),
    {
        proof {
            reveal(line_cancelled);
        }
        match self.line().kind() {
            CmdlineKind::Search(_) => {
                let origin = self.search().origin;
                let d = self.desk_mut();
                d.set_cursor(origin);
                d.clamp_cursor();
                let s = self.search_mut();
                s.operator = None;
            },
            CmdlineKind::Prompt => {
                let l = self.line_mut();
                l.clear_prompt();
                self.answer(None);
            },
            _ => {},
        }
        self.leave_line();
    }

    fn answer_prompt(&mut self, text: String)
        requires
            old(self).wf(),
        ensures
            final(self).wf(),
            ({
                let w = old(self)@;
                let l = prompt_remembered(w.line, text@, w.options.history as nat);
                final(self)@ == answered(
                    World { line: LineModel { prompt: Seq::empty(), ..l }, ..w },
                    Some(text@),
                )
            }),
    {
        let cap: usize = self.global_options().history;
        let l = self.line_mut();
        l.remember_prompt(text.as_str(), cap);
        l.clear_prompt();
        self.answer(Some(text));
    }

    /// Submit the command line.
    pub fn submit_cmdline(&mut self)
        requires
            old(self).wf(),
        ensures
            final(self).wf(),
            final(self)@ == line_submitted(old(self)@),
    {
        proof {
            reveal(line_submitted);
        }
        let kind = self.line().kind();
        let text = self.line().text();
        self.leave_line();
        match kind {
            CmdlineKind::Ex => {
                let l = self.line_mut();
                l.remember_ex(text.as_str());
                self.execute_ex(text.as_str());
            },
            CmdlineKind::Search(dir) => {
                let origin = self.search().origin;
                let d = self.desk_mut();
                d.set_cursor(origin);
                self.submit_search(text.as_str(), dir);
            },
            CmdlineKind::Prompt => self.answer_prompt(text),
            CmdlineKind::Confirm => {},
        }
    }

    fn preview_search(&mut self)
        requires
            old(self).wf(),
        ensures
            final(self).wf(),
            final(self)@ == search_previewed(old(self)@),
    {
        if let CmdlineKind::Search(dir) = self.line().kind() {
            self.update_incsearch_preview(dir);
        }
    }

    fn edit_line(&mut self, e: LineEdit)
        requires
            old(self).wf(),
        ensures
            final(self).wf(),
            final(self)@ == line_changed(old(self)@, e),
    {
        proof {
            reveal(line_changed);
        }
        if e == LineEdit::Backspace && self.line().is_empty() {
            if self.line().kind() != CmdlineKind::Prompt {
                self.cancel_cmdline();
            }
            return;
        }
        self.change_line(e);
        self.preview_search();
        self.refresh_menu();
    }

    fn ask_completion(&mut self, r: CmdlineCompleteReq)
        requires
            old(self).wf(),
        ensures
            final(self).wf(),
            final(self)@ == completion_asked(old(self)@, r@),
    {
        let prompt = self.line().kind() == CmdlineKind::Prompt;
        let o = self.outbox_mut();
        o.ask_completion(r, prompt);
    }

    fn move_in_menu(&mut self, m: MenuMove)
        requires
            old(self).wf(),
        ensures
            final(self).wf(),
            final(self)@ == menu_moved(old(self)@, m),
    {
        let o = self.outbox_mut();
        o.menu_moves.push(m);
    }

    /// Narrow the open menu, or close it.
    fn refresh_menu(&mut self)
        requires
            old(self).wf(),
        ensures
            final(self).wf(),
            final(self)@ == menu_refreshed(old(self)@),
    {
        if let Some(anchor) = self.line().cmdline_menu_anchor() {
            let l = self.line_mut();
            match l.cmdline_complete_refresh(anchor) {
                Some(r) => self.ask_completion(r),
                None => {
                    let l = self.line_mut();
                    l.close_cmdline_menu();
                },
            }
        }
    }

    fn dismiss_menu(&mut self)
        requires
            old(self).wf(),
        ensures
            final(self).wf(),
            final(self)@ == (World {
                line: menu_closed(typed_restored(old(self)@.line)),
                ..old(self)@
            }),
    {
        let l = self.line_mut();
        l.cmdline_complete_revert();
        l.close_cmdline_menu();
    }

    /// The host has opened a menu for the word of the command line from a byte on.
    pub fn open_cmdline_menu(&mut self, anchor: usize)
        requires
            old(self).wf(),
        ensures
            final(self).wf(),
            final(self)@ == (World {
                line: LineModel { menu: Some(anchor), ..old(self)@.line },
                ..old(self)@
            }),
    {
        let l = self.line_mut();
        l.open_cmdline_menu(anchor);
    }

    /// Open the menu of a prompt.
    pub fn open_prompt_complete_menu(&mut self, spans: &Vec<Option<(usize, usize)>>) -> (r: Option<
        CmdlineMenu,
    >)
        requires
            old(self).wf(),
        ensures
            final(self).wf(),
            menu_begun(old(self)@.line, spans@, final(self)@.line, r),
            final(self)@ == (World { line: final(self)@.line, ..old(self)@ }),
    {
        let l = self.line_mut();
        l.open_prompt_complete_menu(spans)
    }

    /// Put a text in place of the argument before the cursor of the command line.
    pub fn cmdline_replace_arg(&mut self, text: &str)
        requires
            old(self).wf(),
        ensures
            final(self).wf(),
            final(self)@ == (World {
                line: argument_replaced(old(self)@.line, text@),
                ..old(self)@
            }),
    {
        let l = self.line_mut();
        l.cmdline_replace_arg(text);
    }

    /// Whether a menu is open in the command line.
    pub fn cmdline_menu_open(&self) -> (b: bool)
        requires
            self.wf(),
        ensures
            b == (self@.line.menu is Some),
    {
        self.line().cmdline_menu_anchor().is_some()
    }

    fn change_line(&mut self, e: LineEdit)
        requires
            old(self).wf(),
        ensures
            final(self).wf(),
            final(self)@ == (World {
                line: line_edited(old(self)@.line, e),
                ..old(self)@
            }),
    {
        let l = self.line_mut();
        l.edit(e);
    }

    fn act_on_line(&mut self, a: LineAction)
        requires
            old(self).wf(),
        ensures
            final(self).wf(),
            final(self)@ == line_acted(old(self)@, a),
    {
        if self.cmdline_menu_open() {
            match a {
                LineAction::Complete | LineAction::Edit(LineEdit::HistoryNext) => {
                    self.move_in_menu(MenuMove::Next);
                    return;
                },
                LineAction::CompletePrev | LineAction::Edit(LineEdit::HistoryPrev) => {
                    self.move_in_menu(MenuMove::Prev);
                    return;
                },
                LineAction::Cancel => {
                    self.dismiss_menu();
                    return;
                },
                _ => {},
            }
        }
        match a {
            LineAction::Cancel => self.cancel_cmdline(),
            LineAction::Submit => self.submit_cmdline(),
            LineAction::Complete | LineAction::CompletePrev => {
                if let Some(r) = self.line().cmdline_complete_trigger(false) {
                    self.ask_completion(r);
                }
            },
            LineAction::Edit(e) => self.edit_line(e),
            LineAction::InsertRegister => {
                let l = self.line_mut();
                l.set_awaiting_register(true);
                self.preview_search();
                self.refresh_menu();
            },
        }
    }

    /// Do the action of a name in the command line.
    pub fn apply_cmdline_action(&mut self, action: &str) -> (r: Result<(), String>)
        requires
            old(self).wf(),
        ensures
            final(self).wf(),
            match action_named(action@) {
                Some(a) => r is Ok && final(self)@ == line_acted(old(self)@, a),
                None => r is Err && r->Err_0@ == "unknown cmdline action "@ + quoted(action@)
                    && final(self)@ == old(self)@,
            },
    {
        match named_action(action) {
            Some(a) => {
                self.act_on_line(a);
                Ok(())
            },
            None => Err(joined_str("unknown cmdline action ", quote(action).as_str())),
        }
    }

    /// What a register gives, the unnamed one where no name is given.
    pub fn register_text(&self, name: Option<char>) -> (r: Option<Register>)
        requires
            self.wf(),
        ensures
            reg_of(r) == register_text(self@, name),
    {
        match name {
            Some('%') => match &self.desk().buffer().path {
                Some(p) => Some(Register { text: p.clone(), linewise: false }),
                None => None,
            },
            Some('/') => match &self.search().last {
                Some(s) => Some(Register { text: s.pattern.clone(), linewise: false }),
                None => None,
            },
            Some(':') => match self.line().last_command() {
                Some(text) => Some(Register { text, linewise: false }),
                None => None,
            },
            _ => match self.desk().register(name) {
                Some(r) => Some(r.copy()),
                None => None,
            },
        }
    }

    fn put_text(&mut self, s: Option<String>)
        requires
            old(self).wf(),
        ensures
            final(self).wf(),
            final(self)@ == text_put(old(self)@, opt_chars(s)),
    {
        if let Some(t) = s {
            let l = self.line_mut();
            l.insert_str(t.as_str());
        }
    }

    fn put_named(&mut self, name: char)
        requires
            old(self).wf(),
        ensures
            final(self).wf(),
            final(self)@ == named_put(old(self)@, name),
    {
        if is_clipboard_register(Some(name)) && !self.desk().has_clipboard() {
            self.miss_clipboard();
        } else if let Some(r) = self.register_text(Some(name)) {
            self.put_text(Some(r.text));
        }
    }

    fn put_register(&mut self, key: Key)
        requires
            old(self).wf(),
        ensures
            final(self).wf(),
            final(self)@ == register_put(old(self)@, key),
    {
        let l = self.line_mut();
        l.set_awaiting_register(false);
        if key.ctrl && key.code == KeyCode::Char('w') {
            let word = self.desk().word_under_cursor();
            self.put_text(word);
        } else if let Some(name) = key.as_char() {
            self.put_named(name);
        }
    }

    /// Take a key while a dialog is open.
    fn handle_confirm(&mut self, key: Key)
        requires
            old(self).wf(),
        ensures
            final(self).wf(),
            final(self)@ == dialog_keyed(old(self)@, key),
    {
        if let Some(n) = self.line().answer(key) {
            let mut live = self.desk().live();
            live.mode = Mode::Normal;
            self.put_live(live);
            let l = self.line_mut();
            l.clear_prompt();
            l.clear_buttons();
            self.answer(Some(fmt_i64(n)));
        }
    }

    /// Take a key in command-line mode.
    pub fn handle_command(&mut self, key: Key)
        requires
            old(self).wf(),
        ensures
            final(self).wf(),
            final(self)@ == line_keyed(old(self)@, key),
    {
        proof {
            reveal(line_keyed);
        }
        if self.line().kind() == CmdlineKind::Confirm {
            self.handle_confirm(key);
            return;
        }
        if self.line().is_awaiting_register() {
            self.put_register(key);
            self.preview_search();
            return;
        }
        if let Some(a) = key_action(key) {
            self.act_on_line(a);
            return;
        }
        if let KeyCode::Char(c) = key.code {
            if !key.ctrl {
                let l = self.line_mut();
                l.insert(c);
                self.preview_search();
                self.refresh_menu();
            }
        }
    }

    /// The sign of the open command line.
    pub fn cmdline_type(&self) -> (s: &'static str)
        requires
            self.wf(),
        ensures
            s@ == line_sign(self@),
    {
        if self.desk().live().mode != Mode::Command {
            return "";
        }
        match self.line().kind() {
            CmdlineKind::Ex => ":",
            CmdlineKind::Search(SearchDir::Forward) => "/",
            CmdlineKind::Search(SearchDir::Backward) => "?",
            CmdlineKind::Prompt | CmdlineKind::Confirm => "@",
        }
    }

    /// Whether the next key is read by the command line as it is: it answers a dialog, or
    /// names a register.
    pub fn cmdline_reads_raw(&self) -> (b: bool)
        requires
            self.wf(),
        ensures
            b == (self@.live.mode == Mode::Command && (self@.line.awaiting_register
                || self@.line.kind == CmdlineKind::Confirm)),
    {
        self.desk().live().mode == Mode::Command && (self.line().is_awaiting_register()
            || self.line().kind() == CmdlineKind::Confirm)
    }
}

/// A search line that is cancelled leaves the cursor where it was, as far as the text
/// reaches, and the text untouched.
pub proof fn cancelling_changes_no_text(w: World)
    requires
        w.buffers.contains_key(w.cur().0),
    ensures
        line_cancelled(w).buffers == w.buffers,
{
    reveal(Pane::held);
    reveal(line_cancelled);
    let b = w.with_pane(w.pane().with_cursor(w.search.origin).held());
    assert(b.buffers =~= w.buffers);
}

} // verus!
