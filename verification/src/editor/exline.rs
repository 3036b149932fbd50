//! Ex commands of the editor.

use vstd::prelude::*;

use crate::buffer::{empty_buffer, Buffer, BufferModel};
use crate::editor::api::column_noted;
use crate::editor::buffers::{
    buffer_deleted, end_document, moved_to, named_buffer, places_on, switched,
};
use crate::editor::files::{
    edit_asked, quit_all, quit_one, throwaway, wall_asked, write_asked, write_quit_all,
};
use crate::editor::panels::{buffers_shown, messages_shown, panel_reopened};
use crate::editor::panes::{
    current_closed, maximized_along, resized_by, window_only, window_split, with_window_options,
};
use crate::editor::{buffer_added, seen, with_open, Editor, SearchModel, World};
use crate::ex::{
    count_arg, ex_name, name_of, number_of, parse_count_arg, parse_number, parse_resize,
    parse_sleep, parts_of, resize_ask, sleep_of, split_ex, ExName, ResizeAsk,
};
use crate::layout::SplitDir;
use crate::nav::{indent_len, last_line_of};
use crate::num::{least, less};
use crate::open::{opened, OpenModel};
use crate::options::BufferOptions;
use crate::pending::OutModel;
use crate::setting::{
    bool_applied, num_applied, resolve_set, set_cmd, spaced_words, split_spaces, SetCmd, Settings,
};
use crate::strings::{joined_str, same, texts, trim, trimmed};
use crate::text::line_text;
use crate::window::{BufferId, Cursor};

verus! {

/// The cursor on the first character that is not blank of a line, counted from one.
pub open spec fn line_visited(w: World, n: usize) -> World {
    let p = w.pane();
    let line = least(less(n as int, 1), last_line_of(p.text()));
    w.with_pane(
        p.with_cursor(
            Cursor {
                line: line as usize,
                col: indent_len(line_text(p.text(), line), 0) as usize,
            },
        ),
    )
}

/// An empty buffer current, unless the one that is would be one.
pub open spec fn emptied(w: World) -> World {
    if throwaway(w.buffers[w.cur().0].buffer) || w.next_buffer == u64::MAX {
        w
    } else {
        switched(buffer_added(w, opened(empty_buffer())), BufferId(w.next_buffer))
    }
}

/// The focused window split, with a file in the new one where one is named.
pub open spec fn split_on(w: World, dir: SplitDir, args: Seq<char>) -> World {
    let a = window_split(w, dir);
    if trimmed(args).len() == 0 {
        a
    } else {
        edit_asked(a, trimmed(args), false)
    }
}

/// The extent of the focused window along an axis; its status line does not count.
pub open spec fn extent(w: World, axis: SplitDir) -> usize {
    match axis {
        SplitDir::Horizontal => less(w.win().rect.height as int, 1) as usize,
        SplitDir::Vertical => w.win().rect.width,
    }
}

/// The focused window resized as an argument asks for.
pub open spec fn resize_command(w: World, axis: SplitDir, args: Seq<char>) -> World {
    match resize_ask(args, extent(w, axis) as int) {
        ResizeAsk::Maximize => maximized_along(w, axis),
        ResizeAsk::By(d) => resized_by(w, w.windows.current, axis, d as int),
        ResizeAsk::Bad => w.said("E487: Argument must be a number"@),
    }
}

/// A command left to the host.
pub open spec fn deferred(w: World, cmd: Seq<char>) -> World {
    World {
        out: OutModel { deferred_commands: w.out.deferred_commands.push(cmd), ..w.out },
        ..w
    }
}

/// `:vertical`: a command in its form that divides the width.
pub open spec fn vertical_command(w: World, args: Seq<char>) -> World {
    let c = parts_of(trimmed(args));
    match name_of(c.name) {
        ExName::Resize => resize_command(w, SplitDir::Vertical, c.args),
        ExName::Split => split_on(w, SplitDir::Vertical, c.args),
        ExName::New => emptied(window_split(w, SplitDir::Vertical)),
        _ => if c.name.len() == 0 {
            w.said("E471: Argument required"@)
        } else {
            deferred(w, "vertical "@ + args)
        },
    }
}

/// The options that a `:set` command reaches.
pub open spec fn settings_of(w: World) -> Settings {
    Settings {
        win: w.win().options,
        global: w.options,
        buf: w.buffers[w.cur().0].buffer.options,
    }
}

/// A buffer with other options.
pub open spec fn with_buffer_options(o: OpenModel, b: BufferOptions) -> OpenModel {
    OpenModel { buffer: BufferModel { options: b, ..o.buffer }, ..o }
}

/// The options replaced.
pub open spec fn with_settings(w: World, s: Settings) -> World {
    let a = with_window_options(World { options: s.global, ..w }, w.windows.current, s.win);
    with_open(a, w.cur(), with_buffer_options(w.buffers[w.cur().0], s.buf))
}

/// The options after one word of a `:set` command, and what is said.
pub open spec fn set_word(w: World, word: Seq<char>) -> World {
    match set_cmd(word) {
        None => w.said("E518: Unknown option: "@ + word),
        Some(c) => {
            let (s, msg) = match c {
                SetCmd::Bool(n, op) => bool_applied(settings_of(w), n, op),
                SetCmd::Num(n, op) => num_applied(settings_of(w), n, op),
            };
            let a = with_settings(w, s);
            match msg {
                Some(m) => a.said(m),
                None => a,
            }
        },
    }
}

/// The options after the first `n` words of a `:set` command.
pub open spec fn set_words(w: World, words: Seq<Seq<char>>, n: int) -> World
    decreases n,
{
    if n <= 0 {
        w
    } else {
        set_word(set_words(w, words, n - 1), words[n - 1])
    }
}

/// What a command about files, windows or quitting does.
pub open spec fn file_command(w: World, name: ExName, bang: bool, args: Seq<char>) -> World {
    match name {
        ExName::Write => write_asked(w, args, None),
        ExName::Quit => quit_one(w, bang),
        ExName::WriteQuit => write_asked(w, args, Some(bang)),
        ExName::QuitAll => quit_all(w, bang),
        ExName::WriteAll => wall_asked(w),
        ExName::WriteQuitAll => write_quit_all(w, bang),
        ExName::Edit => edit_asked(w, args, bang),
        ExName::Enew => emptied(w),
        ExName::Split => split_on(w, SplitDir::Horizontal, args),
        ExName::Vsplit => split_on(w, SplitDir::Vertical, args),
        ExName::New => emptied(window_split(w, SplitDir::Horizontal)),
        ExName::Vnew => emptied(window_split(w, SplitDir::Vertical)),
        ExName::Close => current_closed(w),
        ExName::Only => window_only(w),
        ExName::Resize => resize_command(w, SplitDir::Horizontal, args),
        ExName::Vertical => vertical_command(w, args),
        _ => w,
    }
}

/// Whether a command is one about files, windows or quitting.
pub open spec fn is_file_command(name: ExName) -> bool {
    match name {
        ExName::Write | ExName::Quit | ExName::WriteQuit | ExName::QuitAll | ExName::WriteAll
        | ExName::WriteQuitAll | ExName::Edit | ExName::Enew | ExName::Split | ExName::Vsplit
        | ExName::New | ExName::Vnew | ExName::Close | ExName::Only | ExName::Resize
        | ExName::Vertical => true,
        _ => false,
    }
}

/// What a command about the buffers does.
pub open spec fn buffer_command(w: World, name: ExName, bang: bool, args: Seq<char>) -> World {
    match name {
        ExName::Buffers => buffers_shown(w),
        ExName::Buffer => match named_buffer(w, args) {
            Ok(id) => switched(w, id),
            Err(e) => w.said(e),
        },
        ExName::Bnext => moved_to(w, places_on(w, count_arg(args) as int)),
        ExName::Bprev => moved_to(w, places_on(w, -(count_arg(args) as int))),
        ExName::Bfirst => moved_to(w, end_document(w, false)),
        ExName::Blast => moved_to(w, end_document(w, true)),
        ExName::Bdelete => match named_buffer(w, args) {
            Ok(id) => buffer_deleted(w, id, bang),
            Err(e) => w.said(e),
        },
        _ => w,
    }
}

/// Whether a command is one about the buffers.
pub open spec fn is_buffer_command(name: ExName) -> bool {
    match name {
        ExName::Buffers | ExName::Buffer | ExName::Bnext | ExName::Bprev | ExName::Bfirst
        | ExName::Blast | ExName::Bdelete => true,
        _ => false,
    }
}

/// What any other command does. One that is not known, and one that clears highlights, is
/// left to the host.
pub open spec fn other_command(w: World, cmd: Seq<char>, name: ExName, args: Seq<char>) -> World {
    match name {
        ExName::Lua => World {
            out: OutModel { lua_queue: w.out.lua_queue.push(args), ..w.out },
            ..w
        },
        ExName::Sleep => match sleep_of(args) {
            Ok(ms) => World { out: OutModel { sleep: Some(ms), ..w.out }, ..w },
            Err(e) => w.said(e),
        },
        ExName::Messages => messages_shown(w),
        ExName::PanelOpen => if w.last_panel is Some {
            panel_reopened(w)
        } else {
            w.said("No panel to reopen"@)
        },
        ExName::Setting => set_words(w, spaced_words(args), spaced_words(args).len() as int),
        ExName::NoHighlight => World { search: SearchModel { active: false, ..w.search }, ..w },
        ExName::Highlight => if trimmed(args) == "clear"@ {
            World { out: OutModel { clear_highlights: true, ..w.out }, ..w }
        } else {
            w
        },
        _ => deferred(w, cmd),
    }
}

/// What an ex command does.
#[verifier::opaque]
pub open spec fn ex_done(w: World, raw: Seq<char>) -> World {
    let cmd = trimmed(raw);
    if cmd.len() == 0 {
        w
    } else {
        match number_of(cmd) {
            Some(n) => line_visited(w, n),
            None => {
                let c = parts_of(cmd);
                let name = name_of(c.name);
                if is_file_command(name) {
                    file_command(w, name, c.bang, c.args)
                } else if is_buffer_command(name) {
                    buffer_command(w, name, c.bang, c.args)
                } else {
                    other_command(w, cmd, name, c.args)
                }
            },
        }
    }
}

impl Editor {
    fn visit_line(&mut self, n: usize)
        requires
            old(self).wf(),
        ensures
            final(self).wf(),
            final(self)@ == line_visited(old(self)@, n),
    {
        let d = self.desk_mut();
        let last: usize = d.buffer().last_line();
        let to: usize = n.saturating_sub(1);
        let line: usize = if to <= last {
            to
        } else {
            last
        };
        let col: usize = d.buffer().first_non_blank(line);
        d.set_cursor(Cursor { line, col });
    }

    /// `:enew`: make an empty buffer current.
    pub fn ex_enew(&mut self)
        requires
            old(self).wf(),
        ensures
            final(self).wf(),
            final(self)@ == emptied(old(self)@),
    {
        if self.current_is_throwaway() {
            return;
        }
        if let Some(id) = self.add_buffer(Buffer::empty()) {
            self.switch_buffer(id);
        }
    }

    /// `:split`: split the focused window, with a file in the new one.
    pub fn ex_split(&mut self, dir: SplitDir, args: &str)
        requires
            old(self).wf(),
        ensures
            final(self).wf(),
            final(self)@ == split_on(old(self)@, dir, args@),
    {
        self.split(dir);
        let file = trim(args);
        if !file.as_str().is_empty() {
            self.ex_edit(file.as_str(), false);
        }
    }

    /// `:new`: split the focused window, with an empty buffer in the new one.
    pub fn ex_new(&mut self, dir: SplitDir)
        requires
            old(self).wf(),
        ensures
            final(self).wf(),
            final(self)@ == emptied(window_split(old(self)@, dir)),
    {
        self.split(dir);
        self.ex_enew();
    }

    /// `:resize`: resize the focused window.
    pub fn ex_resize(&mut self, axis: SplitDir, args: &str)
        requires
            old(self).wf(),
        ensures
            final(self).wf(),
            final(self)@ == resize_command(old(self)@, axis, args@),
    {
        let rect = self.windows().cur().rect;
        let current: usize = match axis {
            SplitDir::Horizontal => rect.height.saturating_sub(1),
            SplitDir::Vertical => rect.width,
        };
        match parse_resize(args, current) {
            ResizeAsk::Maximize => self.maximize_window(axis),
            ResizeAsk::By(d) => {
                let id = self.windows().current;
                self.resize_window_id(id, axis, d);
            },
            ResizeAsk::Bad => self.echo("E487: Argument must be a number".to_owned()),
        }
    }

    fn defer(&mut self, cmd: String)
        requires
            old(self).wf(),
        ensures
            final(self).wf(),
            final(self)@ == deferred(old(self)@, cmd@),
    {
        let o = self.outbox_mut();
        o.defer_command(cmd);
    }

    /// `:vertical`: do a command in its form that divides the width.
    pub fn ex_vertical(&mut self, args: &str)
        requires
            old(self).wf(),
        ensures
            final(self).wf(),
            final(self)@ == vertical_command(old(self)@, args@),
    {
        let t = trim(args);
        let (name, _bang, rest) = split_ex(t.as_str());
        proof {
            lemma_parts(t@, name@, _bang, rest@);
        }
        match ex_name(name.as_str()) {
            ExName::Resize => self.ex_resize(SplitDir::Vertical, rest.as_str()),
            ExName::Split => self.ex_split(SplitDir::Vertical, rest.as_str()),
            ExName::New => self.ex_new(SplitDir::Vertical),
            _ => if name.as_str().is_empty() {
                self.echo("E471: Argument required".to_owned());
            } else {
                self.defer(joined_str("vertical ", args));
            },
        }
    }

    fn settings(&self) -> (s: Settings)
        requires
            self.wf(),
        ensures
            s == settings_of(self@),
    {
        Settings {
            win: self.windows().cur().options,
            global: self.global_options(),
            buf: self.desk().buffer().options,
        }
    }

    fn put_settings(&mut self, s: Settings)
        requires
            old(self).wf(),
        ensures
            final(self).wf(),
            final(self)@ == with_settings(old(self)@, s),
    {
        proof {
            self.is_consistent();
        }
        let ghost w = self@;
        self.set_global_options(s.global);
        let id = self.windows().current;
        self.put_window_options(id, s.win);
        proof {
            assert(self@.cur() == w.cur());
        }
        let b = self.current_buffer_id();
        let o = self.open_at_mut(b);
        o.buffer.options = s.buf;
    }

    fn set_one(&mut self, word: &str)
        requires
            old(self).wf(),
        ensures
            final(self).wf(),
            final(self)@ == set_word(old(self)@, word@),
    {
        let cmd = match resolve_set(word) {
            Some(c) => c,
            None => {
                self.echo(joined_str("E518: Unknown option: ", word));
                return;
            },
        };
        let mut s = self.settings();
        let said = match cmd {
            SetCmd::Bool(n, op) => s.apply_set_bool(n, op),
            SetCmd::Num(n, op) => s.apply_set_num(n, op),
        };
        self.put_settings(s);
        if let Some(m) = said {
            self.echo(m);
        }
    }

    /// `:set`: set or show options.
    pub fn ex_set(&mut self, args: &str)
        requires
            old(self).wf(),
        ensures
            final(self).wf(),
            final(self)@ == set_words(
                old(self)@,
                spaced_words(args@),
                spaced_words(args@).len() as int,
            ),
    {
        let words = split_spaces(args);
        let ghost all = texts(words@);
        let mut i: usize = 0;
        assert(all.len() == words@.len());
        while i < words.len()
            invariant
                self.wf(),
                all == texts(words@),
                all.len() == words@.len(),
                i <= words@.len(),
                self@ == set_words(old(self)@, all, i as int),
            decreases words@.len() - i,
        {
            assert(all[i as int] == words@[i as int]@);
            self.set_one(words[i].as_str());
            i += 1;
        }
    }

    fn do_file_command(&mut self, name: ExName, bang: bool, args: &str)
        requires
            old(self).wf(),
        ensures
            final(self).wf(),
            final(self)@ == file_command(old(self)@, name, bang, args@),
    {
        match name {
            ExName::Write => self.ex_write(args, None),
            ExName::Quit => self.ex_quit(bang),
            ExName::WriteQuit => self.ex_write(args, Some(bang)),
            ExName::QuitAll => self.ex_quit_all(bang),
            ExName::WriteAll => {
                let _seqs = self.ex_write_all();
            },
            ExName::WriteQuitAll => self.ex_write_quit_all(bang),
            ExName::Edit => self.ex_edit(args, bang),
            ExName::Enew => self.ex_enew(),
            ExName::Split => self.ex_split(SplitDir::Horizontal, args),
            ExName::Vsplit => self.ex_split(SplitDir::Vertical, args),
            ExName::New => self.ex_new(SplitDir::Horizontal),
            ExName::Vnew => self.ex_new(SplitDir::Vertical),
            ExName::Close => self.close_window(),
            ExName::Only => self.only_window(),
            ExName::Resize => self.ex_resize(SplitDir::Horizontal, args),
            ExName::Vertical => self.ex_vertical(args),
            _ => {},
        }
    }

    fn do_buffer_command(&mut self, name: ExName, bang: bool, args: &str)
        requires
            old(self).wf(),
        ensures
            final(self).wf(),
            final(self)@ == buffer_command(old(self)@, name, bang, args@),
    {
        match name {
            ExName::Buffers => self.ex_buffers(),
            ExName::Buffer => {
                if let Some(id) = self.resolve_buffer(args) {
                    self.switch_buffer(id);
                }
            },
            ExName::Bnext => self.ex_bnext(parse_count_arg(args)),
            ExName::Bprev => self.ex_bprev(parse_count_arg(args)),
            ExName::Bfirst => self.ex_bfirst(),
            ExName::Blast => self.ex_blast(),
            ExName::Bdelete => self.ex_bdelete(args, bang),
            _ => {},
        }
    }

    fn do_other_command(&mut self, cmd: &str, name: ExName, args: &str)
        requires
            old(self).wf(),
        ensures
            final(self).wf(),
            final(self)@ == other_command(old(self)@, cmd@, name, args@),
    {
        match name {
            ExName::Lua => {
                let o = self.outbox_mut();
                o.push_lua(args.to_owned());
            },
            ExName::Sleep => match parse_sleep(args) {
                Ok(ms) => {
                    let o = self.outbox_mut();
                    o.sleep = Some(ms);
                },
                Err(e) => self.echo(e),
            },
            ExName::Messages => self.ex_messages(),
            ExName::PanelOpen => {
                if !self.reopen_last_panel() {
                    self.echo("No panel to reopen".to_owned());
                }
            },
            ExName::Setting => self.ex_set(args),
            ExName::NoHighlight => {
                let s = self.search_mut();
                s.active = false;
            },
            ExName::Highlight => {
                if same(trim(args).as_str(), "clear") {
                    let o = self.outbox_mut();
                    o.clear_highlights = true;
                }
            },
            _ => self.defer(cmd.to_owned()),
        }
    }

    /// Do an ex command.
    pub fn execute_ex(&mut self, raw: &str)
        requires
            old(self).wf(),
        ensures
            final(self).wf(),
            final(self)@ == ex_done(old(self)@, raw@),
    {
        proof {
            reveal(ex_done);
        }
        let cmd = trim(raw);
        if cmd.as_str().is_empty() {
            return;
        }
        if let Some(n) = parse_number(cmd.as_str()) {
            self.visit_line(n);
            return;
        }
        let (word, bang, args) = split_ex(cmd.as_str());
        proof {
            lemma_parts(cmd@, word@, bang, args@);
        }
        let name = ex_name(word.as_str());
        match name {
            ExName::Write | ExName::Quit | ExName::WriteQuit | ExName::QuitAll
            | ExName::WriteAll | ExName::WriteQuitAll | ExName::Edit | ExName::Enew
            | ExName::Split | ExName::Vsplit | ExName::New | ExName::Vnew | ExName::Close
            | ExName::Only | ExName::Resize | ExName::Vertical => {
                self.do_file_command(name, bang, args.as_str())
            },
            ExName::Buffers | ExName::Buffer | ExName::Bnext | ExName::Bprev | ExName::Bfirst
            | ExName::Blast | ExName::Bdelete => {
                self.do_buffer_command(name, bang, args.as_str())
            },
            _ => self.do_other_command(cmd.as_str(), name, args.as_str()),
        }
    }

    /// Do an ex command for the host, with the cursor in view after it.
    pub fn command(&mut self, cmd: &str)
        requires
            old(self).wf(),
        ensures
            final(self).wf(),
            ({
                let w = ex_done(old(self)@, cmd@);
                final(self)@ == seen(w.with_pane(column_noted(w.pane())))
            }),
    {
        self.execute_ex(cmd);
        let d = self.desk_mut();
        let mut live = d.live();
        live.desired_col = d.column(live.cursor.col);
        live.desired_eol = false;
        d.set_live(live);
        self.ensure_visible();
    }
}

/// The parts of a command are what they were split into.
proof fn lemma_parts(s: Seq<char>, name: Seq<char>, bang: bool, args: Seq<char>)
    requires
        (crate::ex::ExParts { name, bang, args }) == parts_of(s),
    ensures
        parts_of(s).name == name,
        parts_of(s).bang == bang,
        parts_of(s).args == args,
{
}

} // verus!
