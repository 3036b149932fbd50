//! What the host asks of the editor's buffers and windows.

use vstd::prelude::*;
use vstd::utf8::*;

use crate::batch::{
    batch_carried, is_fixed, open_edited, open_lines_set, replacements, Replacement, TextEdit,
};
use crate::buffer::{
    drained, edits_of, empty_buffer, opt_chars, Buffer, BufferModel, EditBatch, FileStat,
};
use crate::bufopts::{bool_set, num_set, str_set, with_options};
use crate::changes::settled_at;
use crate::desk::Pane;
use crate::editor::buffers::switched;
use crate::editor::files::{at_start, text_loaded, throwaway};
use crate::editor::normal::refusal;
use crate::editor::panes::{
    resized_by, window_focused, window_option_set, window_split, with_window_options,
};
use crate::editor::{
    buffer_added, consistent, relaid, seen, with_open, Editor, World,
};
use crate::ex::clip_signed;
use crate::layout::{Rect, Separator, SplitDir, WindowId};
use crate::num::less;
use crate::open::{opened, Live, OpenModel};
use crate::options::{Options, WindowOptions};
use crate::strings::{fmt_u64, joined_str, nat_text, same, texts};
use crate::text::{edit_lines, line_text};
use crate::window::{BorderStyle, BufferId, Cursor, FloatConfig, Window, WindowsModel};
use crate::wins::{all_windows, float_opened};

verus! {

/// The cursor's screen column remembered.
pub open spec fn column_noted(p: Pane) -> Pane {
    Pane {
        live: Live {
            desired_col: p.column(p.live.cursor.col as int) as usize,
            desired_eol: false,
            ..p.live
        },
        ..p
    }
}

/// Changes made to the current buffer, with the cursor at an offset.
pub open spec fn edits_made(w: World, s: Seq<Replacement>, byte: int) -> World {
    let p = w.pane();
    let q = Pane { open: open_edited(p.open, p.live.cursor, p.live.snapshot_taken, s), ..p };
    seen(w.with_pane(column_noted(q.at(byte))))
}

/// Changes made to a buffer, on their own. The cursor of the current one follows the text.
pub open spec fn edits_made_to(w: World, id: BufferId, s: Seq<Replacement>) -> World {
    if s.len() == 0 || !w.buffers.contains_key(id.0) {
        w
    } else {
        let o = w.buffers[id.0];
        let at = if id == w.cur() {
            w.live.cursor
        } else {
            o.saved_cursor
        };
        let a = with_open(w, id, open_edited(o, at, false, s));
        if id == w.cur() {
            let c = batch_carried(o.buffer.text, s, at);
            seen(a.with_pane(settled_at(a.pane(), c.line as int, c.col as int)))
        } else {
            a
        }
    }
}

/// Lines of a buffer replaced, where it may be changed.
pub open spec fn lines_replaced(
    w: World,
    id: BufferId,
    start: int,
    end: int,
    lines: Seq<Seq<char>>,
) -> Result<World, Seq<char>> {
    if !w.buffers.contains_key(id.0) {
        Err("invalid buffer id: "@ + nat_text(id.0 as nat))
    } else if is_fixed(w.buffers[id.0].buffer) {
        Err(refusal())
    } else {
        let o = w.buffers[id.0];
        let at = if id == w.cur() {
            w.live.cursor
        } else {
            o.saved_cursor
        };
        let a = with_open(w, id, open_lines_set(o, at, start, end, lines));
        if id == w.cur() {
            Ok(a.with_pane(a.pane().held()))
        } else {
            Ok(a)
        }
    }
}

/// The text of a file put in the current buffer, or in a new one where something would be
/// lost with it.
pub open spec fn text_opened(w: World, name: Option<Seq<char>>, s: Seq<char>) -> World {
    let a = if throwaway(w.buffers[w.cur().0].buffer) || w.next_buffer == u64::MAX {
        w
    } else {
        switched(
            buffer_added(w, opened(empty_buffer())),
            BufferId(w.next_buffer),
        )
    };
    let b = at_start(a);
    with_open(b, b.cur(), text_loaded(b.buffers[b.cur().0], name, s))
}

/// A window's view of its buffer, as it is to be drawn.
pub struct WindowLayout {
    pub buffer: BufferId,
    pub cursor: Cursor,
    pub top: usize,
    pub leftcol: usize,
    pub rect: Rect,
    pub focused: bool,
    pub options: WindowOptions,
    pub floating: bool,
    pub border: BorderStyle,
    pub title: Option<String>,
}

/// What a [`WindowLayout`] says.
pub ghost struct LayoutModel {
    pub buffer: BufferId,
    pub cursor: Cursor,
    pub top: usize,
    pub leftcol: usize,
    pub rect: Rect,
    pub focused: bool,
    pub options: WindowOptions,
    pub floating: bool,
    pub border: BorderStyle,
    pub title: Option<Seq<char>>,
}

impl View for WindowLayout {
    type V = LayoutModel;

    open spec fn view(&self) -> LayoutModel {
        LayoutModel {
            buffer: self.buffer,
            cursor: self.cursor,
            top: self.top,
            leftcol: self.leftcol,
            rect: self.rect,
            focused: self.focused,
            options: self.options,
            floating: self.floating,
            border: self.border,
            title: opt_chars(self.title),
        }
    }
}

/// A window as it is to be drawn: the focused one at the place where it is, another at the
/// place that it had.
pub open spec fn layout_of(w: World, id: WindowId) -> LayoutModel {
    let v = w.windows.windows[id.0];
    let here = id == w.windows.current;
    LayoutModel {
        buffer: v.buffer,
        cursor: if here {
            w.live.cursor
        } else {
            v.saved_cursor
        },
        top: if here {
            w.live.top
        } else {
            v.saved_top
        },
        leftcol: if here {
            w.live.leftcol
        } else {
            v.saved_leftcol
        },
        rect: v.rect,
        focused: here,
        options: v.options,
        floating: v.float is Some,
        border: match v.float {
            Some(cfg) => cfg.border,
            None => BorderStyle::Borderless,
        },
        title: match v.float {
            Some(cfg) => opt_chars(cfg.title),
            None => None,
        },
    }
}

/// A window on another buffer.
pub open spec fn window_rebound(w: World, id: WindowId, buf: BufferId) -> World {
    if !w.windows.windows.contains_key(id.0) || !w.buffers.contains_key(buf.0) {
        w
    } else if id == w.windows.current {
        switched(w, buf)
    } else {
        let lines = edit_lines(w.buffers[buf.0].buffer.text);
        let v = w.windows.windows[id.0];
        World {
            windows: WindowsModel {
                windows: w.windows.windows.insert(
                    id.0,
                    Window {
                        buffer: buf,
                        saved_cursor: if v.saved_cursor.line >= lines {
                            Cursor { line: less(lines as int, 1) as usize, col: 0 }
                        } else {
                            v.saved_cursor
                        },
                        ..v
                    },
                ),
                ..w.windows
            },
            ..w
        }
    }
}

/// The cursor of a window moved.
pub open spec fn window_cursor_set(w: World, id: WindowId, line: usize, col: usize) -> World {
    if !w.windows.windows.contains_key(id.0) {
        w
    } else if id == w.windows.current {
        let p = w.pane().with_cursor(Cursor { line, col }).held();
        seen(
            w.with_pane(
                Pane {
                    live: Live {
                        desired_col: p.column(p.live.cursor.col as int) as usize,
                        ..p.live
                    },
                    ..p
                },
            ),
        )
    } else {
        let v = w.windows.windows[id.0];
        let last = less(edit_lines(w.buffers[v.buffer.0].buffer.text) as int, 1);
        World {
            windows: WindowsModel {
                windows: w.windows.windows.insert(
                    id.0,
                    Window {
                        saved_cursor: Cursor {
                            line: if line <= last {
                                line
                            } else {
                                last as usize
                            },
                            col,
                        },
                        ..v
                    },
                ),
                ..w.windows
            },
            ..w
        }
    }
}

/// A float opened on a buffer, and focused where that is asked for.
pub open spec fn float_made(w: World, buf: BufferId, cfg: FloatConfig, enter: bool) -> World {
    if !w.buffers.contains_key(buf.0) || w.windows.next_id == u64::MAX {
        w
    } else {
        let a = World { windows: float_opened(w.windows, buf, cfg), ..w };
        if enter {
            seen(relaid(window_focused(a, WindowId(w.windows.next_id))))
        } else {
            relaid(a)
        }
    }
}

impl Editor {
    /// An open buffer.
    pub fn buffer_of(&self, id: BufferId) -> (r: Option<&Buffer>)
        requires
            self.wf(),
        ensures
            match r {
                Some(b) => b.settled() && self@.buffers.contains_key(id.0) && b@
                    == self@.buffers[id.0].buffer,
                None => !self@.buffers.contains_key(id.0),
            },
    {
        match self.open_at(id) {
            Some(o) => Some(&o.buffer),
            None => None,
        }
    }

    /// Give a number option of a buffer a value.
    pub fn set_buffer_option_num(&mut self, id: BufferId, name: &str, value: i64)
        requires
            old(self).wf(),
        ensures
            final(self).wf(),
            final(self)@ == if old(self)@.buffers.contains_key(id.0) {
                let o = old(self)@.buffers[id.0];
                with_open(
                    old(self)@,
                    id,
                    with_options(o, num_set(o.buffer.options, name@, value)),
                )
            } else {
                old(self)@
            },
    {
        if self.buffer_is_valid(id) {
            let o = self.open_at_mut(id);
            o.set_option_num(name, value);
        }
    }

    /// Turn an option of a buffer on or off.
    pub fn set_buffer_option_bool(&mut self, id: BufferId, name: &str, value: bool)
        requires
            old(self).wf(),
        ensures
            final(self).wf(),
            final(self)@ == if old(self)@.buffers.contains_key(id.0) {
                with_open(
                    old(self)@,
                    id,
                    bool_set(old(self)@.buffers[id.0], name@, value),
                )
            } else {
                old(self)@
            },
    {
        if self.buffer_is_valid(id) {
            let o = self.open_at_mut(id);
            o.set_option_bool(name, value);
        }
    }

    /// Give a text option of a buffer a value. The encodings that there are to choose from
    /// are given.
    pub fn set_buffer_option_str(
        &mut self,
        id: BufferId,
        name: &str,
        value: &str,
        encodings: &Vec<String>,
    )
        requires
            old(self).wf(),
        ensures
            final(self).wf(),
            final(self)@ == if old(self)@.buffers.contains_key(id.0) {
                with_open(
                    old(self)@,
                    id,
                    str_set(
                        old(self)@.buffers[id.0],
                        name@,
                        value@,
                        id == old(self)@.cur(),
                        texts(encodings@),
                    ),
                )
            } else {
                old(self)@
            },
    {
        if self.buffer_is_valid(id) {
            let current = id == self.current_buffer_id();
            let o = self.open_at_mut(id);
            o.set_option_str(name, value, current, encodings);
        }
    }

    /// Make changes to the current buffer that do not overlap, as one step that undo takes
    /// back, and put the cursor at an offset.
    pub fn apply_edits(&mut self, edits: Vec<TextEdit>, cursor_byte: usize)
        requires
            old(self).wf(),
        ensures
            final(self).wf(),
            final(self)@ == edits_made(
                old(self)@,
                replacements(edits@),
                cursor_byte as int,
            ),
    {
        let d = self.desk_mut();
        let live = d.live();
        let o = d.open_mut();
        let _carried = o.apply_edits(&live, edits);
        d.set_cursor_char(cursor_byte);
        let mut after = d.live();
        after.desired_col = d.column(after.cursor.col);
        after.desired_eol = false;
        d.set_live(after);
        self.ensure_visible();
    }

    /// Make changes to a buffer that do not overlap, as one step that undo takes back. The
    /// cursor of the current buffer follows the text that it was on.
    pub fn apply_edits_to(&mut self, id: BufferId, edits: Vec<TextEdit>)
        requires
            old(self).wf(),
        ensures
            final(self).wf(),
            final(self)@ == edits_made_to(old(self)@, id, replacements(edits@)),
    {
        assert(replacements(edits@).len() == edits@.len());
        if edits.len() == 0 || !self.buffer_is_valid(id) {
            return;
        }
        proof {
            self.is_consistent();
        }
        let here = id == self.current_buffer_id();
        let mut live = self.desk().live();
        live.snapshot_taken = false;
        let o = self.open_at_mut(id);
        if !here {
            live.cursor = o.saved_cursor;
        }
        let to = o.apply_edits(&live, edits);
        if here {
            let d = self.desk_mut();
            d.settle_cursor_at(to.line, to.col);
            self.ensure_visible();
        }
    }

    /// Replace lines of a buffer, as one step that undo takes back. That fails where there
    /// is no such buffer, and where it may not be changed.
    pub fn api_set_lines(
        &mut self,
        id: BufferId,
        start: usize,
        end: usize,
        replacement: &Vec<String>,
    ) -> (r: Result<(), String>)
        requires
            old(self).wf(),
        ensures
            final(self).wf(),
            match lines_replaced(
                old(self)@,
                id,
                start as int,
                end as int,
                texts(replacement@),
            ) {
                Ok(w) => r is Ok && final(self)@ == w,
                Err(e) => r is Err && r->Err_0@ == e && final(self)@ == old(self)@,
            },
    {
        let fixed = match self.open_at(id) {
            Some(o) => o.buffer.is_fixed(),
            None => {
                return Err(joined_str("invalid buffer id: ", fmt_u64(id.0).as_str()));
            },
        };
        if fixed {
            return Err("E21: Cannot make changes, 'modifiable' is off".to_owned());
        }
        proof {
            self.is_consistent();
        }
        let here = id == self.current_buffer_id();
        let mut live = self.desk().live();
        live.snapshot_taken = false;
        let o = self.open_at_mut(id);
        if !here {
            live.cursor = o.saved_cursor;
        }
        o.set_lines(&live, start, end, replacement);
        if here {
            let d = self.desk_mut();
            d.clamp_cursor();
        }
        Ok(())
    }

    /// The lines of a buffer.
    pub fn lines_of(&self, id: BufferId) -> (r: Option<Vec<String>>)
        requires
            self.wf(),
        ensures
            r is Some == self@.buffers.contains_key(id.0),
            r is Some ==> (r->0)@.len() == edit_lines(self@.buffers[id.0].buffer.text) && forall|
                i: int,
            |
                0 <= i < (r->0)@.len() ==> encode_utf8((#[trigger] (r->0)@[i])@) == line_text(
                    self@.buffers[id.0].buffer.text,
                    i,
                ),
    {
        match self.buffer_of(id) {
            Some(b) => Some(b.lines()),
            None => None,
        }
    }

    /// How many lines a buffer has.
    pub fn line_count_of(&self, id: BufferId) -> (r: Option<usize>)
        requires
            self.wf(),
        ensures
            match r {
                Some(n) => self@.buffers.contains_key(id.0) && n == edit_lines(
                    self@.buffers[id.0].buffer.text,
                ),
                None => !self@.buffers.contains_key(id.0),
            },
    {
        match self.buffer_of(id) {
            Some(b) => Some(b.line_count()),
            None => None,
        }
    }

    /// The tick of a buffer, which every change advances.
    pub fn changedtick_of(&self, id: BufferId) -> (r: Option<u64>)
        requires
            self.wf(),
        ensures
            r == if self@.buffers.contains_key(id.0) {
                Some(self@.buffers[id.0].buffer.changedtick)
            } else {
                None
            },
    {
        match self.buffer_of(id) {
            Some(b) => Some(b.changedtick),
            None => None,
        }
    }

    /// Whether a buffer has changes.
    pub fn buffer_modified(&self, id: BufferId) -> (b: bool)
        requires
            self.wf(),
        ensures
            b == (self@.buffers.contains_key(id.0) && self@.buffers[id.0].buffer.modified),
    {
        match self.buffer_of(id) {
            Some(b) => b.modified,
            None => false,
        }
    }

    /// Whether a buffer has a path and no file there.
    pub fn buffer_is_new_file(&self, id: BufferId) -> (b: bool)
        requires
            self.wf(),
        ensures
            b == (self@.buffers.contains_key(id.0) && self@.buffers[id.0].buffer.path is Some
                && self@.buffers[id.0].buffer.disk is None),
    {
        match self.buffer_of(id) {
            Some(b) => b.path.is_some() && b.disk_stat().is_none(),
            None => false,
        }
    }

    /// The path of a buffer and what its file looked like when it was last seen.
    pub fn buffer_watch_key(&self, id: BufferId) -> (r: Option<(String, Option<FileStat>)>)
        requires
            self.wf(),
        ensures
            match r {
                Some((p, stat)) => self@.buffers.contains_key(id.0)
                    && self@.buffers[id.0].buffer.path == Some(p@) && stat
                    == self@.buffers[id.0].buffer.disk,
                None => !self@.buffers.contains_key(id.0)
                    || self@.buffers[id.0].buffer.path is None,
            },
    {
        match self.buffer_of(id) {
            Some(b) => match &b.path {
                Some(p) => Some((p.clone(), b.disk_stat())),
                None => None,
            },
            None => None,
        }
    }

    /// Take the journal of a buffer that is kept for language servers.
    pub fn take_lsp_edits_of(&mut self, id: BufferId) -> (r: Option<EditBatch>)
        requires
            old(self).wf(),
        ensures
            final(self).wf(),
            match r {
                Some(batch) => {
                    let o = old(self)@.buffers[id.0];
                    &&& old(self)@.buffers.contains_key(id.0)
                    &&& edits_of(batch.edits@) == o.buffer.lsp.edits
                    &&& batch.resync == o.buffer.lsp.resync
                    &&& final(self)@ == with_open(
                        old(self)@,
                        id,
                        OpenModel { buffer: BufferModel { lsp: drained(), ..o.buffer }, ..o },
                    )
                },
                None => !old(self)@.buffers.contains_key(id.0) && final(self)@ == old(self)@,
            },
    {
        if !self.buffer_is_valid(id) {
            return None;
        }
        let o = self.open_at_mut(id);
        Some(o.buffer.take_lsp_edits())
    }

    /// Take the journal of a buffer that is kept for syntax trees of scripts.
    pub fn take_lua_ts_edits_of(&mut self, id: BufferId) -> (r: Option<EditBatch>)
        requires
            old(self).wf(),
        ensures
            final(self).wf(),
            match r {
                Some(batch) => {
                    let o = old(self)@.buffers[id.0];
                    &&& old(self)@.buffers.contains_key(id.0)
                    &&& edits_of(batch.edits@) == o.buffer.lua.edits
                    &&& batch.resync == o.buffer.lua.resync
                    &&& final(self)@ == with_open(
                        old(self)@,
                        id,
                        OpenModel { buffer: BufferModel { lua: drained(), ..o.buffer }, ..o },
                    )
                },
                None => !old(self)@.buffers.contains_key(id.0) && final(self)@ == old(self)@,
            },
    {
        if !self.buffer_is_valid(id) {
            return None;
        }
        let o = self.open_at_mut(id);
        Some(o.buffer.take_lua_ts_edits())
    }

    /// Record what the file of a buffer looked like when it was read. Where that is not
    /// known, its size is taken from the text.
    pub fn mark_replica_read_from_disk(&mut self, id: BufferId, stat: Option<FileStat>)
        requires
            old(self).wf(),
        ensures
            final(self).wf(),
            final(self)@ == if old(self)@.buffers.contains_key(id.0)
                && old(self)@.buffers[id.0].buffer.path is Some {
                let o = old(self)@.buffers[id.0];
                with_open(
                    old(self)@,
                    id,
                    OpenModel {
                        buffer: BufferModel {
                            disk: Some(
                                match stat {
                                    Some(s) => s,
                                    None => FileStat {
                                        mtime: None,
                                        size: o.buffer.text.len() as u64,
                                    },
                                },
                            ),
                            ..o.buffer
                        },
                        ..o
                    },
                )
            } else {
                old(self)@
            },
    {
        let size: u64 = match self.buffer_of(id) {
            Some(b) => {
                if b.path.is_none() {
                    return;
                }
                b.len_bytes() as u64
            },
            None => {
                return;
            },
        };
        let o = self.open_at_mut(id);
        let seen = match stat {
            Some(s) => s,
            None => FileStat { mtime: None, size },
        };
        o.buffer.set_disk_stat(Some(seen));
    }

    /// Open an empty buffer without making it current.
    pub fn create_buffer(&mut self) -> (r: Option<BufferId>)
        requires
            old(self).wf(),
        ensures
            final(self).wf(),
            r == if old(self)@.next_buffer < u64::MAX {
                Some(BufferId(old(self)@.next_buffer))
            } else {
                None
            },
            final(self)@ == if old(self)@.next_buffer < u64::MAX {
                buffer_added(old(self)@, opened(empty_buffer()))
            } else {
                old(self)@
            },
    {
        self.add_buffer(Buffer::empty())
    }

    /// Make a buffer current.
    pub fn set_current_buffer(&mut self, id: BufferId)
        requires
            old(self).wf(),
        ensures
            final(self).wf(),
            final(self)@ == switched(old(self)@, id),
    {
        self.switch_buffer(id);
    }

    /// Show a text under a name, in the current buffer or, where something would be lost
    /// with it, in a new one.
    pub fn load_str(&mut self, name: Option<String>, contents: &str)
        requires
            old(self).wf(),
        ensures
            final(self).wf(),
            final(self)@ == text_opened(old(self)@, opt_chars(name), contents@),
    {
        if !self.current_is_throwaway() {
            if let Some(id) = self.add_buffer(Buffer::empty()) {
                self.switch_buffer(id);
            }
        }
        self.go_to_start();
        proof {
            self.is_consistent();
        }
        let id = self.current_buffer_id();
        let o = self.open_at_mut(id);
        o.load_text(name, contents);
    }

    /// Record that the current buffer was saved, under a name where one is given.
    pub fn mark_saved(&mut self, name: Option<String>)
        requires
            old(self).wf(),
        ensures
            final(self).wf(),
            ({
                let o = old(self)@.buffers[old(self)@.cur().0];
                final(self)@ == with_open(
                    old(self)@,
                    old(self)@.cur(),
                    OpenModel {
                        buffer: BufferModel {
                            path: if name is Some {
                                opt_chars(name)
                            } else {
                                o.buffer.path
                            },
                            modified: false,
                            save_tick: o.buffer.changedtick,
                            ..o.buffer
                        },
                        ..o
                    },
                )
            }),
    {
        proof {
            self.is_consistent();
        }
        let id = self.current_buffer_id();
        let o = self.open_at_mut(id);
        if name.is_some() {
            o.buffer.set_path(name);
        }
        o.buffer.mark_clean();
    }

    /// The focused window.
    pub fn current_window_id(&self) -> (id: WindowId)
        requires
            self.wf(),
        ensures
            id == self@.windows.current,
    {
        self.windows().current
    }

    /// All windows: the tiled ones in the order of the tree, then the floats.
    pub fn window_ids(&self) -> (r: Vec<WindowId>)
        requires
            self.wf(),
        ensures
            r@ == all_windows(self@.windows),
    {
        self.windows().window_ids()
    }

    /// How many windows are open.
    pub fn window_count(&self) -> (n: usize)
        requires
            self.wf(),
        ensures
            n == self@.windows.windows.dom().len(),
    {
        self.windows().count()
    }

    /// The id of the next window.
    pub fn next_window_id(&self) -> (id: WindowId)
        requires
            self.wf(),
        ensures
            id == WindowId(self@.windows.next_id),
    {
        WindowId(self.windows().next_id)
    }

    /// Focus a window.
    pub fn set_current_window(&mut self, id: WindowId)
        requires
            old(self).wf(),
        ensures
            final(self).wf(),
            final(self)@ == window_focused(old(self)@, id),
    {
        self.focus_window(id);
    }

    /// The buffer of a window.
    pub fn window_buffer(&self, id: WindowId) -> (r: Option<BufferId>)
        requires
            self.wf(),
        ensures
            r == if self@.windows.windows.contains_key(id.0) {
                Some(self@.windows.windows[id.0].buffer)
            } else {
                None
            },
    {
        match self.windows().windows.get(id.0) {
            Some(w) => Some(w.buffer),
            None => None,
        }
    }

    /// The options of a window.
    pub fn window_options(&self, id: WindowId) -> (r: Option<WindowOptions>)
        requires
            self.wf(),
        ensures
            r == if self@.windows.windows.contains_key(id.0) {
                Some(self@.windows.windows[id.0].options)
            } else {
                None
            },
    {
        match self.windows().windows.get(id.0) {
            Some(w) => Some(w.options),
            None => None,
        }
    }

    /// Turn an option of a window on or off.
    pub fn set_window_option_bool(&mut self, id: WindowId, name: &str, value: bool)
        requires
            old(self).wf(),
        ensures
            final(self).wf(),
            final(self)@ == if old(self)@.windows.windows.contains_key(id.0) {
                with_window_options(
                    old(self)@,
                    id,
                    window_option_set(
                        old(self)@.windows.windows[id.0].options,
                        name@,
                        value,
                    ),
                )
            } else {
                old(self)@
            },
    {
        if let Some(o) = self.window_options(id) {
            let mut n = o;
            if same(name, "number") {
                n.number = value;
            } else if same(name, "relativenumber") {
                n.relativenumber = value;
            } else if same(name, "wrap") {
                n.wrap = value;
            }
            self.put_window_options(id, n);
        }
    }

    /// Turn an option of the editor on or off.
    pub fn set_global_option_bool(&mut self, name: &str, value: bool)
        requires
            old(self).wf(),
        ensures
            final(self).wf(),
            final(self)@ == (World {
                options: global_option_set(old(self)@.options, name@, value),
                ..old(self)@
            }),
    {
        let mut o = self.global_options();
        if same(name, "ignorecase") {
            o.ignorecase = value;
        } else if same(name, "smartcase") {
            o.smartcase = value;
        } else if same(name, "wrapscan") {
            o.wrapscan = value;
        } else if same(name, "hlsearch") {
            o.hlsearch = value;
        } else if same(name, "incsearch") {
            o.incsearch = value;
        }
        self.set_global_options(o);
    }

    /// The cursor of a window: line and column.
    pub fn window_cursor(&self, id: WindowId) -> (r: Option<(usize, usize)>)
        requires
            self.wf(),
        ensures
            r == if self@.windows.windows.contains_key(id.0) {
                let c = layout_of(self@, id).cursor;
                Some((c.line, c.col))
            } else {
                None
            },
    {
        match self.windows().windows.get(id.0) {
            Some(w) => {
                let c = if id == self.windows().current {
                    self.desk().live().cursor
                } else {
                    w.saved_cursor
                };
                Some((c.line, c.col))
            },
            None => None,
        }
    }

    /// The area of a window: left, top, width and height.
    pub fn window_rect(&self, id: WindowId) -> (r: Option<(usize, usize, usize, usize)>)
        requires
            self.wf(),
        ensures
            r == if self@.windows.windows.contains_key(id.0) {
                let a = self@.windows.windows[id.0].rect;
                Some((a.x, a.y, a.width, a.height))
            } else {
                None
            },
    {
        match self.windows().windows.get(id.0) {
            Some(w) => Some((w.rect.x, w.rect.y, w.rect.width, w.rect.height)),
            None => None,
        }
    }

    /// Give a window a width.
    pub fn set_window_width(&mut self, id: WindowId, width: usize)
        requires
            old(self).wf(),
        ensures
            final(self).wf(),
            final(self)@ == resized_by(
                old(self)@,
                id,
                SplitDir::Vertical,
                clip_signed(width - old(self)@.windows.windows[id.0].rect.width) as int,
            ),
    {
        if let Some((_, _, w, _)) = self.window_rect(id) {
            self.resize_window_id(id, SplitDir::Vertical, signed_gap(width as i128 - w as i128));
        }
    }

    /// Give a window so many rows of text; its status line takes one more.
    pub fn set_window_height(&mut self, id: WindowId, height: usize)
        requires
            old(self).wf(),
        ensures
            final(self).wf(),
            final(self)@ == resized_by(
                old(self)@,
                id,
                SplitDir::Horizontal,
                clip_signed(height + 1 - old(self)@.windows.windows[id.0].rect.height) as int,
            ),
    {
        if let Some((_, _, _, h)) = self.window_rect(id) {
            self.resize_window_id(
                id,
                SplitDir::Horizontal,
                signed_gap(height as i128 + 1 - h as i128),
            );
        }
    }

    /// Split the focused window, and show a buffer in the new one. The result is the
    /// focused window.
    pub fn open_split_window(&mut self, buf: BufferId, vertical: bool) -> (id: WindowId)
        requires
            old(self).wf(),
        ensures
            final(self).wf(),
            final(self)@ == switched(
                window_split(
                    old(self)@,
                    if vertical {
                        SplitDir::Vertical
                    } else {
                        SplitDir::Horizontal
                    },
                ),
                buf,
            ),
            id == final(self)@.windows.current,
    {
        self.split(
            if vertical {
                SplitDir::Vertical
            } else {
                SplitDir::Horizontal
            },
        );
        self.switch_buffer(buf);
        self.windows().current
    }

    /// Show a window on another buffer without changing the focus.
    pub fn set_window_buffer(&mut self, id: WindowId, buf: BufferId)
        requires
            old(self).wf(),
        ensures
            final(self).wf(),
            final(self)@ == window_rebound(old(self)@, id, buf),
    {
        if !self.windows().windows.contains(id.0) {
            return;
        }
        let lines: usize = match self.buffer_of(buf) {
            Some(b) => b.line_count(),
            None => {
                return;
            },
        };
        if id == self.windows().current {
            self.switch_buffer(buf);
            return;
        }
        proof {
            self.is_consistent();
        }
        let ghost w = self@;
        let v = self.windows.get_mut(id);
        v.buffer = buf;
        if v.saved_cursor.line >= lines {
            v.saved_cursor = Cursor { line: lines.saturating_sub(1), col: 0 };
        }
        proof {
            lemma_other_window(w, self@, id);
        }
    }

    /// Move the cursor of a window.
    pub fn set_window_cursor(&mut self, id: WindowId, line: usize, col: usize)
        requires
            old(self).wf(),
        ensures
            final(self).wf(),
            final(self)@ == window_cursor_set(old(self)@, id, line, col),
    {
        if !self.windows().windows.contains(id.0) {
            return;
        }
        if id == self.windows().current {
            let d = self.desk_mut();
            d.set_cursor(Cursor { line, col });
            d.clamp_cursor();
            let mut live = d.live();
            live.desired_col = d.column(live.cursor.col);
            d.set_live(live);
            self.ensure_visible();
            return;
        }
        proof {
            self.is_consistent();
            reveal(consistent);
        }
        let ghost w = self@;
        let buf = self.windows().get(id).buffer;
        let lines: usize = match self.buffer_of(buf) {
            Some(b) => b.line_count(),
            None => 0,
        };
        let last: usize = lines.saturating_sub(1);
        let v = self.windows.get_mut(id);
        v.saved_cursor = Cursor {
            line: if line <= last {
                line
            } else {
                last
            },
            col,
        };
        proof {
            lemma_other_window(w, self@, id);
        }
    }

    /// Open a float on a buffer, and focus it where that is asked for. The result is its
    /// id; there is none where there is no such buffer.
    pub fn open_float_window(&mut self, buf: BufferId, config: FloatConfig, enter: bool) -> (r:
        Option<WindowId>)
        requires
            old(self).wf(),
        ensures
            final(self).wf(),
            final(self)@ == float_made(old(self)@, buf, config, enter),
            r == if old(self)@.buffers.contains_key(buf.0) && old(self)@.windows.next_id
                < u64::MAX {
                Some(WindowId(old(self)@.windows.next_id))
            } else {
                None
            },
    {
        if !self.buffer_is_valid(buf) || self.windows().next_id == u64::MAX {
            return None;
        }
        proof {
            self.is_consistent();
            reveal(consistent);
        }
        let ghost w = self@;
        let id = self.windows.open_float(buf, config);
        proof {
            assert(!w.windows.windows.contains_key(id.0)) by {
                reveal(crate::wins::arranged);
            }
            assert(self@.cur() == w.cur());
            lemma_float_added(w, self@, id);
        }
        if enter {
            self.focus_window(id);
        }
        self.relayout();
        if enter {
            self.ensure_visible();
        }
        Some(id)
    }

    /// The placement of a float.
    pub fn window_float_config(&self, id: WindowId) -> (r: Option<FloatConfig>)
        requires
            self.wf(),
        ensures
            match r {
                Some(c) => self@.windows.windows.contains_key(id.0) && same_config(
                    self@.windows.windows[id.0].float,
                    c,
                ),
                None => !self@.windows.windows.contains_key(id.0)
                    || self@.windows.windows[id.0].float is None,
            },
    {
        match self.windows().windows.get(id.0) {
            Some(w) => match &w.float {
                Some(c) => Some(
                    FloatConfig {
                        relative: c.relative,
                        anchor: c.anchor,
                        row: c.row,
                        col: c.col,
                        width: c.width,
                        height: c.height,
                        zindex: c.zindex,
                        focusable: c.focusable,
                        border: c.border,
                        title: match &c.title {
                            Some(t) => Some(t.clone()),
                            None => None,
                        },
                    },
                ),
                None => None,
            },
            None => None,
        }
    }

    fn layout_one(&self, id: WindowId) -> (l: WindowLayout)
        requires
            self.wf(),
            self@.windows.windows.contains_key(id.0),
        ensures
            l@ == layout_of(self@, id),
    {
        let w = self.windows().get(id);
        let here = id == self.windows().current;
        let live = self.desk().live();
        let (floating, border, title) = match &w.float {
            Some(c) => (
                true,
                c.border,
                match &c.title {
                    Some(t) => Some(t.clone()),
                    None => None,
                },
            ),
            None => (false, BorderStyle::Borderless, None),
        };
        WindowLayout {
            buffer: w.buffer,
            cursor: if here {
                live.cursor
            } else {
                w.saved_cursor
            },
            top: if here {
                live.top
            } else {
                w.saved_top
            },
            leftcol: if here {
                live.leftcol
            } else {
                w.saved_leftcol
            },
            rect: w.rect,
            focused: here,
            options: w.options,
            floating,
            border,
            title,
        }
    }

    /// All windows as they are to be drawn: the tiled ones, then the floats from the lowest
    /// to the highest.
    pub fn window_layouts(&self) -> (v: Vec<WindowLayout>)
        requires
            self.wf(),
        ensures
            v@.len() == all_windows(self@.windows).len(),
            forall|i: int|
                0 <= i < v@.len() ==> (#[trigger] v@[i])@ == layout_of(
                    self@,
                    all_windows(self@.windows)[i],
                ),
    {
        let ids = self.window_ids();
        let mut v: Vec<WindowLayout> = Vec::new();
        let mut i: usize = 0;
        while i < ids.len()
            invariant
                self.wf(),
                ids@ == all_windows(self@.windows),
                i <= ids@.len(),
                v@.len() == i,
                forall|k: int| 0 <= k < i ==> (#[trigger] v@[k])@ == layout_of(self@, ids@[k]),
            decreases ids@.len() - i,
        {
            let id = ids[i];
            proof {
                self.is_consistent();
                assert(all_windows(self@.windows).contains(id));
                crate::wins::all_windows_are_listed(self@.windows, id);
            }
            v.push(self.layout_one(id));
            i += 1;
        }
        v
    }

    /// The borders between the windows.
    pub fn separators(&self) -> (s: &Vec<Separator>)
        requires
            self.wf(),
        ensures
            s@ == self@.windows.separators,
    {
        &self.windows().separators
    }
}

/// The options of the editor with the one of a name on or off; another name changes nothing.
pub open spec fn global_option_set(o: Options, name: Seq<char>, v: bool) -> Options {
    if name == "ignorecase"@ {
        Options { ignorecase: v, ..o }
    } else if name == "smartcase"@ {
        Options { smartcase: v, ..o }
    } else if name == "wrapscan"@ {
        Options { wrapscan: v, ..o }
    } else if name == "hlsearch"@ {
        Options { hlsearch: v, ..o }
    } else if name == "incsearch"@ {
        Options { incsearch: v, ..o }
    } else {
        o
    }
}

/// A placement says the same as another.
pub open spec fn same_config(a: Option<FloatConfig>, b: FloatConfig) -> bool {
    &&& a is Some
    &&& opt_chars(a->0.title) == opt_chars(b.title)
    &&& b == (FloatConfig { title: b.title, ..a->0 })
}

fn signed_gap(n: i128) -> (r: isize)
    ensures
        r == clip_signed(n as int),
{
    if n > isize::MAX as i128 {
        isize::MAX
    } else if n < isize::MIN as i128 {
        isize::MIN
    } else {
        n as isize
    }
}

/// Changing one window that has not the focus, to another open buffer at most, keeps a world
/// consistent.
proof fn lemma_other_window(a: World, b: World, id: WindowId)
    requires
        consistent(a),
        b == (World { windows: b.windows, ..a }),
        b.windows == (WindowsModel { windows: b.windows.windows, ..a.windows }),
        a.windows.windows.contains_key(id.0),
        b.windows.windows == a.windows.windows.insert(id.0, b.windows.windows[id.0]),
        (b.windows.windows[id.0].float is Some) == (a.windows.windows[id.0].float is Some),
        a.buffers.contains_key(b.windows.windows[id.0].buffer.0),
    ensures
        consistent(b),
{
    reveal(consistent);
    assert(b.windows.windows.dom() =~= a.windows.windows.dom());
    crate::wins::lemma_same_windows(a.windows, b.windows.windows);
    assert forall|k: u64| #[trigger]
        b.windows.windows.contains_key(k) implies b.buffers.contains_key(
        b.windows.windows[k].buffer.0,
    ) by {
        assert(a.windows.windows.contains_key(k));
    }
}

/// A float on an open buffer keeps a world consistent.
proof fn lemma_float_added(a: World, b: World, id: WindowId)
    requires
        consistent(a),
        b == (World { windows: b.windows, ..a }),
        crate::wins::focused(b.windows),
        forall|k: u64| #[trigger]
            b.windows.windows.contains_key(k) && k != id.0 ==> a.windows.windows.contains_key(k)
                && b.windows.windows[k] == a.windows.windows[k],
        a.buffers.contains_key(b.windows.windows[id.0].buffer.0),
    ensures
        consistent(b),
{
    reveal(consistent);
}

} // verus!
