//! What the host takes from the editor, and what it brings.

use vstd::prelude::*;
use vstd::utf8::*;

use crate::buffer::{empty_buffer, resynced, tick, Buffer, BufferModel};
use crate::complete::{action_of, completion, default_config, CompleteAction};
use crate::decor::{
    generation_of, invalidated, recomputed, DecorModel, DecorScope, DecorViewport, Sight,
};
use crate::editor::files::{
    at_start, cursor_settled, edited_here, file_asked, found_by_path, landed,
};
use crate::editor::panels::panel_opened;
use crate::editor::panes::window_split;
use crate::editor::prompts::register_text;
use crate::editor::{
    buffer_added, fresh_world, relaid, seen, text_rows, with_open, Editor, World,
};
use crate::input::Key;
use crate::layout::{SplitDir, WindowId};
use crate::nav::last_line_of;
use crate::num::{least, less};
use crate::open::{opened, Live, OpenBuffer, OpenModel, Snap};
use crate::options::tab_width;
use crate::panel::new_panel;
use crate::pending::{
    awaited, opens_of, saves_of, OutModel, PendingOpen, PendingQuitAll, PendingSave, SearchRequest,
};
use crate::registers::{reg_of, Register, Regs};
use crate::strings::{chars_of, is_whitespace, joined_str, texts, whitespace};
use crate::text::{edit_lines, line_text};
use crate::window::{BufferId, Cursor};
use crate::wins::all_windows;

verus! {

/// A buffer that has been read anew: it has no changes and nothing can be undone.
#[verifier::opaque]
pub open spec fn read_anew(o: OpenModel, b: BufferModel) -> OpenModel {
    OpenModel {
        buffer: BufferModel { modified: false, ..resynced(b) },
        undo: Seq::empty(),
        redo: Seq::empty(),
        cur_seq: o.next_seq,
        saved_seq: Some(o.next_seq),
        next_seq: tick(o.next_seq),
        ..o
    }
}

/// A buffer read anew, with its place held to the text.
pub open spec fn reloaded(w: World, id: BufferId, b: BufferModel) -> World {
    let o = read_anew(w.buffers[id.0], b);
    let last = last_line_of(o.buffer.text);
    if id == w.cur() {
        let a = with_open(w, id, o);
        let p = a.pane().held();
        a.with_pane(
            crate::desk::Pane {
                live: Live { top: least(p.live.top as int, last) as usize, ..p.live },
                ..p
            },
        )
    } else {
        with_open(
            w,
            id,
            OpenModel {
                saved_cursor: Cursor {
                    line: least(o.saved_cursor.line as int, last) as usize,
                    ..o.saved_cursor
                },
                saved_top: least(o.saved_top as int, last) as usize,
                ..o
            },
        )
    }
}

/// What the host read: a buffer, or what went wrong.
pub open spec fn read_of(r: Result<Buffer, String>) -> Result<BufferModel, Seq<char>> {
    match r {
        Ok(b) => Ok(b@),
        Err(e) => Err(e@),
    }
}

/// What is to be seen of a window.
pub open spec fn sight_of(w: World, id: WindowId) -> Sight {
    let v = w.windows.windows[id.0];
    let b = w.buffers[v.buffer.0].buffer;
    Sight {
        win: id,
        buf: v.buffer,
        top: if id == w.windows.current {
            w.live.top
        } else {
            v.saved_top
        },
        height: text_rows(v),
        last_line: less(edit_lines(b.text) as int, 1) as usize,
        tick: b.changedtick,
    }
}

/// What is to be seen of the first `n` windows.
pub open spec fn sights_of(w: World, ids: Seq<WindowId>, n: int) -> Seq<Sight>
    decreases n,
{
    if n <= 0 {
        Seq::empty()
    } else {
        sights_of(w, ids, n - 1).push(sight_of(w, ids[n - 1]))
    }
}

/// The windows that have to be decorated anew found.
#[verifier::opaque]
pub open spec fn views_noted(w: World) -> World {
    let ids = all_windows(w.windows);
    World { decor: recomputed(w.decor, sights_of(w, ids, ids.len() as int)), ..w }
}

/// The first `n` windows with their buffers.
pub open spec fn shown_in(w: World, ids: Seq<WindowId>, n: int) -> Seq<(WindowId, BufferId)>
    decreases n,
{
    if n <= 0 {
        Seq::empty()
    } else {
        shown_in(w, ids, n - 1).push((ids[n - 1], w.windows.windows[ids[n - 1].0].buffer))
    }
}

/// A screen of another size, one cell at least.
pub open spec fn resized_screen(w: World, width: usize, height: usize) -> World {
    views_noted(
        seen(
            relaid(
                World {
                    width: if width < 1 {
                        1
                    } else {
                        width
                    },
                    height: if height < 1 {
                        1
                    } else {
                        height
                    },
                    ..w
                },
            ),
        ),
    )
}

/// A text in one line, with a mark for each line break.
pub open spec fn in_one_line(s: Seq<char>) -> Seq<char>
    decreases s.len(),
{
    if s.len() == 0 {
        Seq::empty()
    } else if s.last() == '\n' {
        in_one_line(s.drop_last()) + seq!['^', 'J']
    } else {
        in_one_line(s.drop_last()).push(s.last())
    }
}

/// The row of a register in the list: whether it holds whole lines, its name and its text.
pub open spec fn register_row(name: char, text: Seq<char>, linewise: bool) -> Seq<char> {
    seq![
        ' ',
        ' ',
        if linewise {
            'l'
        } else {
            'c'
        },
        ' ',
        ' ',
        '"',
        name,
        ' ',
        ' ',
        ' ',
    ] + in_one_line(text)
}

/// Whether a list of names asks for a register; one of white space alone asks for all.
pub open spec fn asks_for(args: Seq<char>, name: char) -> bool {
    (args.contains(name) && !whitespace(name)) || forall|i: int|
        0 <= i < args.len() ==> whitespace(#[trigger] args[i])
}

/// The rows with that of a register, where it is asked for and not empty.
pub open spec fn with_register(
    w: World,
    rows: Seq<Seq<char>>,
    args: Seq<char>,
    name: char,
) -> Seq<Seq<char>> {
    match register_text(w, Some(name)) {
        Some(r) => if asks_for(args, name) && r.text.len() > 0 {
            rows.push(register_row(name, r.text, r.linewise))
        } else {
            rows
        },
        None => rows,
    }
}

/// The registers that are listed, in their order: the unnamed one, the numbered ones, that of
/// small deletes, the named ones, and those that cannot be written.
pub open spec fn listed_registers() -> Seq<char> {
    "\"0123456789-abcdefghijklmnopqrstuvwxyz%/:"@
}

/// The rows with those of some registers.
pub open spec fn with_registers(
    w: World,
    rows: Seq<Seq<char>>,
    args: Seq<char>,
    names: Seq<char>,
) -> Seq<Seq<char>>
    decreases names.len(),
{
    if names.len() == 0 {
        rows
    } else {
        with_register(w, with_registers(w, rows, args, names.drop_last()), args, names.last())
    }
}

/// The list of the registers.
pub open spec fn register_rows(w: World, args: Seq<char>) -> Seq<Seq<char>> {
    with_registers(w, seq!["Type Name Content"@], args, listed_registers())
}

/// The row of a register in the list.
pub fn format_register_line(name: char, text: &str, linewise: bool) -> (s: String)
    ensures
        s@ == register_row(name, text@, linewise),
{
    let v = chars_of(text);
    let mut s = "  ".to_owned();
    s.push(
        if linewise {
            'l'
        } else {
            'c'
        },
    );
    s.append("  \"");
    s.push(name);
    s.append("   ");
    let ghost head = s@;
    let mut i: usize = 0;
    proof {
        reveal_strlit("  ");
        reveal_strlit("  \"");
        reveal_strlit("   ");
        assert(text@.take(0) =~= Seq::<char>::empty());
        assert(head + in_one_line(text@.take(0)) =~= head);
        assert(register_row(name, text@, linewise) =~= head + in_one_line(text@));
    }
    while i < v.len()
        invariant
            v@ == text@,
            i <= v@.len(),
            s@ == head + in_one_line(text@.take(i as int)),
        decreases v@.len() - i,
    {
        let ghost before = s@;
        proof {
            assert(text@.take(i + 1).drop_last() =~= text@.take(i as int));
        }
        if v[i] == '\n' {
            s.push('^');
            s.push('J');
        } else {
            s.push(v[i]);
        }
        assert(s@ =~= head + in_one_line(text@.take(i + 1)));
        i += 1;
    }
    assert(text@.take(i as int) =~= text@);
    s
}

fn wants(args: &Vec<char>, name: char) -> (b: bool)
    ensures
        b == asks_for(args@, name),
{
    let mut blank = true;
    let mut i: usize = 0;
    while i < args.len()
        invariant
            i <= args@.len(),
            blank == forall|j: int| 0 <= j < i ==> whitespace(#[trigger] args@[j]),
            forall|j: int| 0 <= j < i ==> #[trigger] args@[j] != name || whitespace(name),
        decreases args@.len() - i,
    {
        if !is_whitespace(args[i]) {
            if args[i] == name {
                assert(args@.contains(name));
                return true;
            }
            blank = false;
        }
        i += 1;
    }
    blank
}

impl OpenBuffer {
    /// Put a buffer that was read anew in place of this one.
    pub fn replace_buffer(&mut self, b: Buffer)
        requires
            old(self).wf(),
            b.settled(),
        ensures
            final(self).wf(),
            final(self)@ == read_anew(old(self)@, b@),
    {
        proof {
            reveal(read_anew);
        }
        self.buffer = b;
        self.buffer.mark_resync();
        self.buffer.modified = false;
        self.undo_stack = Vec::new();
        self.redo_stack = Vec::new();
        self.cur_seq = self.next_seq;
        self.saved_seq = Some(self.next_seq);
        self.next_seq = self.next_seq.wrapping_add(1);
        assert(crate::open::snaps(self.undo_stack@) =~= Seq::<Snap>::empty());
        assert(crate::open::snaps(self.redo_stack@) =~= Seq::<Snap>::empty());
    }
}

impl Editor {
    /// An editor on the file that the host read, or what went wrong.
    pub fn open(read: Result<Buffer, String>) -> (r: Result<Self, String>)
        requires
            read is Ok ==> read->Ok_0.settled(),
        ensures
            match read_of(read) {
                Ok(b) => {
                    &&& r is Ok
                    &&& r->Ok_0.wf()
                    &&& r->Ok_0@ == relaid(fresh_world(opened(b), r->Ok_0@.complete))
                    &&& default_config(r->Ok_0@.complete)
                },
                Err(e) => r is Err && r->Err_0@ == e,
            },
    {
        match read {
            Ok(b) => Ok(Editor::with_buffer(b)),
            Err(e) => Err(e),
        }
    }

    /// Whether a buffer waits for its file.
    pub fn has_pending_open(&self, id: BufferId) -> (b: bool)
        requires
            self.wf(),
        ensures
            b == awaited(self@.out, id),
    {
        self.outbox().has_pending_open(id)
    }

    /// An editor on the file that the host read, or on an empty buffer of that name with
    /// what went wrong as a message.
    pub fn open_or_named(path: String, read: Result<Buffer, String>) -> (e: Self)
        requires
            read is Ok ==> read->Ok_0.settled(),
        ensures
            e.wf(),
            e@ == match read_of(read) {
                Ok(b) => relaid(fresh_world(opened(b), e@.complete)),
                Err(m) => relaid(
                    fresh_world(
                        opened(BufferModel { path: Some(path@), ..empty_buffer() }),
                        e@.complete,
                    ),
                ).said("E484: Can't open file "@ + path@ + ": "@ + m),
            },
            default_config(e@.complete),
    {
        match read {
            Ok(b) => Editor::with_buffer(b),
            Err(m) => {
                let mut s = joined_str("E484: Can't open file ", path.as_str());
                s.append(": ");
                s.append(m.as_str());
                let mut e = Editor::with_buffer(Buffer::named(path));
                e.echo(s);
                e
            },
        }
    }

    /// Put what the host read in place of a buffer; its place is held to the new text.
    pub fn reload_buffer(&mut self, id: BufferId, read: Result<Buffer, String>)
        requires
            old(self).wf(),
            read is Ok ==> read->Ok_0.settled(),
        ensures
            final(self).wf(),
            final(self)@ == if !old(self)@.buffers.contains_key(id.0)
                || old(self)@.buffers[id.0].buffer.path is None {
                old(self)@
            } else {
                match read_of(read) {
                    Ok(b) => reloaded(old(self)@, id, b),
                    Err(e) => old(self)@.said(e),
                }
            },
    {
        match self.open_at(id) {
            Some(o) => {
                if o.buffer.path.is_none() {
                    return;
                }
            },
            None => {
                return;
            },
        }
        let b = match read {
            Ok(b) => b,
            Err(e) => {
                self.echo(e);
                return;
            },
        };
        proof {
            self.is_consistent();
        }
        let here = id == self.current_buffer_id();
        let o = self.open_at_mut(id);
        o.replace_buffer(b);
        let last: usize = o.buffer.last_line();
        if !here {
            if o.saved_cursor.line > last {
                o.saved_cursor.line = last;
            }
            if o.saved_top > last {
                o.saved_top = last;
            }
        } else {
            let d = self.desk_mut();
            d.clamp_cursor();
            let mut live = d.live();
            if live.top > last {
                live.top = last;
            }
            d.set_live(live);
        }
    }

    /// Put what the host read in the current buffer, with the cursor at the start. That it
    /// was read in place is noted.
    pub fn load_into_current(&mut self, read: Result<Buffer, String>)
        requires
            old(self).wf(),
            read is Ok ==> read->Ok_0.settled(),
        ensures
            final(self).wf(),
            final(self)@ == match read_of(read) {
                Ok(b) => {
                    let w = at_start(old(self)@);
                    World {
                        out: OutModel { loaded: w.out.loaded.push(w.cur()), ..w.out },
                        ..with_open(w, w.cur(), read_anew(w.buffers[w.cur().0], b))
                    }
                },
                Err(e) => old(self)@.said(e),
            },
    {
        match read {
            Ok(b) => {
                self.go_to_start();
                proof {
                    self.is_consistent();
                }
                let id = self.current_buffer_id();
                let o = self.open_at_mut(id);
                o.replace_buffer(b);
                let out = self.outbox_mut();
                out.loaded.push(id);
            },
            Err(e) => self.echo(e),
        }
    }

    /// Put what the host read in the buffer that asked for it. Nothing happens where it has
    /// been closed.
    pub fn load_pending_open(&mut self, open: &PendingOpen, read: Result<Buffer, String>)
        requires
            old(self).wf(),
            read is Ok ==> read->Ok_0.settled(),
        ensures
            final(self).wf(),
            final(self)@ == if !old(self)@.buffers.contains_key(open@.buffer.0) {
                old(self)@
            } else {
                match read_of(read) {
                    Ok(b) => cursor_settled(
                        with_open(
                            old(self)@,
                            open@.buffer,
                            read_anew(old(self)@.buffers[open@.buffer.0], b),
                        ),
                        open@.buffer,
                    ),
                    Err(e) => old(self)@.said(e),
                }
            },
    {
        let id = open.buffer;
        if !self.buffer_is_valid(id) {
            return;
        }
        match read {
            Ok(b) => {
                let o = self.open_at_mut(id);
                o.replace_buffer(b);
                self.settle_loaded_cursor(id);
            },
            Err(e) => self.echo(e),
        }
    }

    /// The buffer of a path, opened where it is not open yet, with its file asked for. It
    /// does not become current.
    pub fn enqueue_replica_open(&mut self, path: &str) -> (r: Option<BufferId>)
        requires
            old(self).wf(),
        ensures
            final(self).wf(),
            match found_by_path(old(self)@, path@) {
                Some(id) => r == Some(id) && final(self)@ == old(self)@,
                None => if old(self)@.next_buffer < u64::MAX {
                    let id = BufferId(old(self)@.next_buffer);
                    let b = BufferModel { path: Some(path@), ..empty_buffer() };
                    r == Some(id) && final(self)@ == file_asked(
                        buffer_added(old(self)@, opened(b)),
                        id,
                        path@,
                    )
                } else {
                    r is None && final(self)@ == old(self)@
                },
            },
    {
        if let Some(id) = self.find_buffer_by_path(path) {
            return Some(id);
        }
        let r = self.add_buffer(Buffer::named(path.to_owned()));
        if let Some(id) = r {
            self.ask_for_file(id, path);
        }
        r
    }

    /// Show a buffer in a new window beside or above the focused one.
    pub fn open_buffer_in_split(&mut self, buf: BufferId, vertical: bool)
        requires
            old(self).wf(),
        ensures
            final(self).wf(),
            final(self)@ == if old(self)@.buffers.contains_key(buf.0) {
                crate::editor::buffers::switched(
                    window_split(
                        old(self)@,
                        if vertical {
                            SplitDir::Vertical
                        } else {
                            SplitDir::Horizontal
                        },
                    ),
                    buf,
                )
            } else {
                old(self)@
            },
    {
        if !self.buffer_is_valid(buf) {
            return;
        }
        let _id = self.open_split_window(buf, vertical);
    }

    /// Visit a place in a file in a new window.
    pub fn jump_to_split(&mut self, path: &str, line: usize, col: usize, vertical: bool)
        requires
            old(self).wf(),
        ensures
            final(self).wf(),
            final(self)@ == landed(
                edited_here(
                    window_split(
                        old(self)@,
                        if vertical {
                            SplitDir::Vertical
                        } else {
                            SplitDir::Horizontal
                        },
                    ),
                    path@,
                ),
                line,
                col,
            ),
    {
        self.split(
            if vertical {
                SplitDir::Vertical
            } else {
                SplitDir::Horizontal
            },
        );
        self.edit_in_current_window(path);
        self.land_cursor(line, col);
    }

    /// Ask for a look at the file of a buffer.
    pub fn checktime_buffer(&mut self, id: BufferId)
        requires
            old(self).wf(),
        ensures
            final(self).wf(),
            final(self)@ == if old(self)@.buffers.contains_key(id.0) {
                World {
                    out: OutModel {
                        checktime: old(self)@.out.checktime.push(id),
                        ..old(self)@.out
                    },
                    ..old(self)@
                }
            } else {
                old(self)@
            },
    {
        if self.buffer_is_valid(id) {
            let o = self.outbox_mut();
            o.checktime.push(id);
        }
    }

    /// Take the time to wait, in milliseconds.
    pub fn take_sleep(&mut self) -> (r: Option<u64>)
        requires
            old(self).wf(),
        ensures
            final(self).wf(),
            r == old(self)@.out.sleep,
            final(self)@ == (World {
                out: OutModel { sleep: None, ..old(self)@.out },
                ..old(self)@
            }),
    {
        let o = self.outbox_mut();
        let r = o.sleep;
        o.sleep = None;
        r
    }

    /// Take the writes that are asked for.
    pub fn take_pending_saves(&mut self) -> (v: Vec<PendingSave>)
        requires
            old(self).wf(),
        ensures
            final(self).wf(),
            saves_of(v@) == old(self)@.out.saves,
            final(self)@ == (World {
                out: OutModel { saves: Seq::empty(), ..old(self)@.out },
                ..old(self)@
            }),
    {
        let o = self.outbox_mut();
        let mut v: Vec<PendingSave> = Vec::new();
        core::mem::swap(&mut v, &mut o.saves);
        assert(saves_of(o.saves@) =~= Seq::empty());
        v
    }

    /// Take the quit that waits for writes.
    pub fn take_pending_quit_all(&mut self) -> (r: Option<PendingQuitAll>)
        requires
            old(self).wf(),
        ensures
            final(self).wf(),
            match r {
                Some(q) => old(self)@.out.quit_all == Some(q@),
                None => old(self)@.out.quit_all is None,
            },
            final(self)@ == (World {
                out: OutModel { quit_all: None, ..old(self)@.out },
                ..old(self)@
            }),
    {
        let o = self.outbox_mut();
        let mut r: Option<PendingQuitAll> = None;
        core::mem::swap(&mut r, &mut o.quit_all);
        r
    }

    /// Take the files that are asked for.
    pub fn take_pending_opens(&mut self) -> (v: Vec<PendingOpen>)
        requires
            old(self).wf(),
        ensures
            final(self).wf(),
            opens_of(v@) == old(self)@.out.opens,
            final(self)@ == (World {
                out: OutModel { opens: Seq::empty(), ..old(self)@.out },
                ..old(self)@
            }),
    {
        let o = self.outbox_mut();
        let mut v: Vec<PendingOpen> = Vec::new();
        core::mem::swap(&mut v, &mut o.opens);
        assert(opens_of(o.opens@) =~= Seq::empty());
        v
    }

    /// Take the buffers whose files are to be looked at.
    pub fn take_pending_checktime(&mut self) -> (v: Vec<BufferId>)
        requires
            old(self).wf(),
        ensures
            final(self).wf(),
            v@ == old(self)@.out.checktime,
            final(self)@ == (World {
                out: OutModel { checktime: Seq::empty(), ..old(self)@.out },
                ..old(self)@
            }),
    {
        let o = self.outbox_mut();
        let mut v: Vec<BufferId> = Vec::new();
        core::mem::swap(&mut v, &mut o.checktime);
        v
    }

    /// Whether files are to be looked at.
    pub fn has_pending_checktime(&self) -> (b: bool)
        ensures
            b == (self@.out.checktime.len() > 0),
    {
        self.outbox().checktime.len() > 0
    }

    /// Take the searches that are asked for.
    pub fn take_searches(&mut self) -> (v: Vec<SearchRequest>)
        requires
            old(self).wf(),
        ensures
            final(self).wf(),
            crate::pending::asks_of(v@) == old(self)@.out.searches,
            final(self)@ == (World {
                out: OutModel { searches: Seq::empty(), ..old(self)@.out },
                ..old(self)@
            }),
    {
        let o = self.outbox_mut();
        let mut v: Vec<SearchRequest> = Vec::new();
        core::mem::swap(&mut v, &mut o.searches);
        assert(crate::pending::asks_of(o.searches@) =~= Seq::empty());
        v
    }

    /// Take the writes that have been done: the buffers, and where they were written to.
    pub fn take_write_events(&mut self) -> (v: Vec<(BufferId, String)>)
        requires
            old(self).wf(),
        ensures
            final(self).wf(),
            crate::pending::written_of(v@) == old(self)@.out.written,
            final(self)@ == (World {
                out: OutModel { written: Seq::empty(), ..old(self)@.out },
                ..old(self)@
            }),
    {
        let o = self.outbox_mut();
        let mut v: Vec<(BufferId, String)> = Vec::new();
        core::mem::swap(&mut v, &mut o.written);
        assert(crate::pending::written_of(o.written@) =~= Seq::empty());
        v
    }

    /// Whether writes have been done that were not taken.
    pub fn has_write_events(&self) -> (b: bool)
        ensures
            b == (self@.out.written.len() > 0),
    {
        let o = self.outbox();
        assert(o@.written.len() == o.written@.len());
        o.written.len() > 0
    }

    /// Whether buffers without changes are read anew when their files change.
    pub fn autoread(&self) -> (b: bool)
        ensures
            b == self@.options.autoread,
    {
        self.global_options().autoread
    }

    /// The width of a tab in the current buffer.
    pub fn tabstop(&self) -> (n: usize)
        requires
            self.wf(),
        ensures
            n == tab_width(self@.buffers[self@.cur().0].buffer.options),
    {
        self.desk().buffer().options.effective_tabstop()
    }

    /// The current buffer.
    pub fn buffer(&self) -> (b: &Buffer)
        requires
            self.wf(),
        ensures
            b.settled(),
            b@ == self@.buffers[self@.cur().0].buffer,
    {
        self.desk().buffer()
    }

    /// The lines of the current buffer.
    pub fn lines(&self) -> (v: Vec<String>)
        requires
            self.wf(),
        ensures
            v@.len() == edit_lines(self@.pane().text()),
            forall|i: int|
                0 <= i < v@.len() ==> encode_utf8((#[trigger] v@[i])@) == line_text(
                    self@.pane().text(),
                    i,
                ),
    {
        self.desk().buffer().lines()
    }

    /// The state of the focused window.
    pub fn live(&self) -> (l: Live)
        requires
            self.wf(),
        ensures
            l == self@.live,
    {
        self.desk().live()
    }

    /// Set completion in the command line up.
    pub fn configure_cmdline_complete(&mut self, docs: bool)
        requires
            old(self).wf(),
        ensures
            final(self).wf(),
            final(self)@ == (World {
                line: crate::cmdline::LineModel {
                    complete: crate::cmdline::CmdlineCompleteConfig { enabled: true, docs },
                    ..old(self)@.line
                },
                ..old(self)@
            }),
    {
        let l = self.line_mut();
        l.configure_complete(docs);
    }

    /// Whether completion in the command line shows what the commands do.
    pub fn cmdline_complete_docs(&self) -> (b: bool)
        requires
            self.wf(),
        ensures
            b == self@.line.complete.docs,
    {
        self.line().completion().0.docs
    }

    /// What a key does to a completion menu, if it is one of its keys.
    pub fn complete_action(&self, key: Key) -> (r: Option<CompleteAction>)
        ensures
            r == action_of(self@.complete.keys, key),
    {
        self.complete_config().keys.complete_action(key)
    }

    /// The candidates that complete the word before the cursor; nothing where no menu is to
    /// be open.
    pub fn complete_trigger(&self) -> (r: Option<(usize, String, Vec<String>)>)
        requires
            self.wf(),
        ensures
            match completion(
                self@.pane(),
                self@.complete.enabled,
                self@.complete.min_chars,
            ) {
                Some((anchor, prefix, found)) => r is Some && (r->0).0 == anchor && (r->0).1@
                    == prefix && texts((r->0).2@) == found,
                None => r is None,
            },
    {
        self.desk().complete_trigger(self.complete_config())
    }

    fn list_register(&self, rows: &mut Vec<String>, args: &Vec<char>, name: char)
        requires
            self.wf(),
        ensures
            texts(final(rows)@) == with_register(self@, texts(old(rows)@), args@, name),
    {
        if let Some(r) = self.register_text(Some(name)) {
            if wants(args, name) && !r.text.as_str().is_empty() {
                let row = format_register_line(name, r.text.as_str(), r.linewise);
                let ghost c = row@;
                rows.push(row);
                assert(texts(rows@) =~= texts(old(rows)@).push(c));
            }
        }
    }

    /// Note what the clipboard of the host holds; none where the host has no clipboard.
    pub fn set_clipboard(&mut self, held: Option<Register>)
        requires
            old(self).wf(),
        ensures
            final(self).wf(),
            final(self)@ == (World {
                regs: Regs { clipboard: reg_of(held), ..old(self)@.regs },
                ..old(self)@
            }),
    {
        proof {
            self.is_consistent();
        }
        let d = self.desk_mut();
        d.set_clipboard(held);
        assert(self@.buffers =~= old(self)@.buffers);
    }

    /// Take what is to be put in the clipboard of the host.
    pub fn take_copied(&mut self) -> (r: Option<Register>)
        requires
            old(self).wf(),
        ensures
            final(self).wf(),
            reg_of(r) == old(self)@.regs.copied,
            final(self)@ == (World {
                regs: Regs { copied: None, ..old(self)@.regs },
                ..old(self)@
            }),
    {
        proof {
            self.is_consistent();
        }
        let d = self.desk_mut();
        let r = d.take_copied();
        assert(self@.buffers =~= old(self)@.buffers);
        r
    }

    /// `:registers`: show the registers that are asked for.
    pub fn ex_registers(&mut self, args: &str)
        requires
            old(self).wf(),
        ensures
            final(self).wf(),
            final(self)@ == panel_opened(
                old(self)@,
                new_panel("[Registers]"@, register_rows(old(self)@, args@), false, 0),
            ),
    {
        let v = chars_of(args);
        let mut rows: Vec<String> = Vec::new();
        rows.push("Type Name Content".to_owned());
        assert(texts(rows@) =~= seq!["Type Name Content"@]);
        let names = chars_of("\"0123456789-abcdefghijklmnopqrstuvwxyz%/:");
        let ghost head = texts(rows@);
        let mut i: usize = 0;
        while i < names.len()
            invariant
                self.wf(),
                *self == *old(self),
                v@ == args@,
                i <= names@.len(),
                texts(rows@) == with_registers(self@, head, args@, names@.take(i as int)),
            decreases names@.len() - i,
        {
            self.list_register(&mut rows, &v, names[i]);
            assert(names@.take(i + 1).drop_last() =~= names@.take(i as int));
            i += 1;
        }
        assert(names@.take(i as int) =~= names@);
        self.open_panel("[Registers]".to_owned(), rows, false, 0);
    }

    fn sight(&self, id: WindowId) -> (s: Sight)
        requires
            self.wf(),
            self@.windows.windows.contains_key(id.0),
        ensures
            s == sight_of(self@, id),
    {
        proof {
            reveal(crate::editor::consistent);
            self.is_consistent();
        }
        let v = self.windows().get(id);
        let (last_line, tick) = match self.buffer_of(v.buffer) {
            Some(b) => (b.line_count().saturating_sub(1), b.changedtick),
            None => (0, 0),
        };
        Sight {
            win: id,
            buf: v.buffer,
            top: if id == self.windows().current {
                self.desk().live().top
            } else {
                v.saved_top
            },
            height: crate::editor::rows_of_text(v),
            last_line,
            tick,
        }
    }

    /// Find the windows that have to be decorated anew.
    pub fn recompute_decor_dirty(&mut self)
        requires
            old(self).wf(),
        ensures
            final(self).wf(),
            final(self)@ == views_noted(old(self)@),
    {
        proof {
            reveal(views_noted);
        }
        let ids = self.window_ids();
        let mut sights: Vec<Sight> = Vec::new();
        let mut i: usize = 0;
        while i < ids.len()
            invariant
                self.wf(),
                *self == *old(self),
                ids@ == all_windows(self@.windows),
                i <= ids@.len(),
                sights@ == sights_of(self@, ids@, i as int),
            decreases ids@.len() - i,
        {
            let id = ids[i];
            proof {
                self.is_consistent();
                assert(all_windows(self@.windows).contains(id));
                crate::wins::all_windows_are_listed(self@.windows, id);
            }
            sights.push(self.sight(id));
            i += 1;
        }
        let d = self.decor_mut();
        d.recompute_decor_dirty(&sights);
    }

    /// Ask for windows to be decorated anew.
    pub fn invalidate_decor(&mut self, scope: DecorScope)
        requires
            old(self).wf(),
        ensures
            final(self).wf(),
            ({
                let ids = all_windows(old(self)@.windows);
                final(self)@ == (World {
                    decor: invalidated(
                        old(self)@.decor,
                        shown_in(old(self)@, ids, ids.len() as int),
                        scope,
                    ),
                    ..old(self)@
                })
            }),
    {
        let ids = self.window_ids();
        let mut wins: Vec<(WindowId, BufferId)> = Vec::new();
        let mut i: usize = 0;
        while i < ids.len()
            invariant
                self.wf(),
                *self == *old(self),
                ids@ == all_windows(self@.windows),
                i <= ids@.len(),
                wins@ == shown_in(self@, ids@, i as int),
            decreases ids@.len() - i,
        {
            let id = ids[i];
            proof {
                self.is_consistent();
                assert(all_windows(self@.windows).contains(id));
                crate::wins::all_windows_are_listed(self@.windows, id);
            }
            let buf = self.windows().get(id).buffer;
            wins.push((id, buf));
            i += 1;
        }
        let d = self.decor_mut();
        d.invalidate_decor(&wins, scope);
    }

    /// End the pass of decoration under way.
    pub fn settle_decor_pass(&mut self)
        requires
            old(self).wf(),
        ensures
            final(self).wf(),
            final(self)@ == (World {
                decor: DecorModel { served: Map::empty(), ..old(self)@.decor },
                ..old(self)@
            }),
    {
        let d = self.decor_mut();
        d.settle_decor_pass();
    }

    /// Whether a decoration anew was asked for.
    pub fn decor_invalidation_pending(&self) -> (b: bool)
        requires
            self.wf(),
        ensures
            b == self@.decor.invalidated,
    {
        self.decor().decor_invalidation_pending()
    }

    /// Take the list of the views that are to be decorated.
    pub fn take_decor_dirty(&mut self) -> (v: Vec<DecorViewport>)
        requires
            old(self).wf(),
        ensures
            final(self).wf(),
            v@ == old(self)@.decor.dirty,
            final(self)@ == (World {
                decor: DecorModel {
                    dirty: Seq::empty(),
                    invalidated: false,
                    ..old(self)@.decor
                },
                ..old(self)@
            }),
    {
        let d = self.decor_mut();
        d.take_decor_dirty()
    }

    /// The number of a window's view.
    pub fn decor_generation(&self, win: WindowId) -> (n: u64)
        requires
            self.wf(),
        ensures
            n == generation_of(self@.decor, win.0),
    {
        self.decor().decor_generation(win)
    }

    /// Change the size of the screen.
    pub fn resize(&mut self, width: usize, height: usize)
        requires
            old(self).wf(),
        ensures
            final(self).wf(),
            final(self)@ == resized_screen(old(self)@, width, height),
    {
        self.set_size(
            if width < 1 {
                1
            } else {
                width
            },
            if height < 1 {
                1
            } else {
                height
            },
        );
        self.relayout();
        self.ensure_visible();
        self.recompute_decor_dirty();
    }
}

} // verus!
