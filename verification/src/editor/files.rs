//! Files of the editor: opening, writing and quitting. The host reads and writes.

use vstd::prelude::*;
use vstd::utf8::*;

use crate::buffer::{
    disk_change_of, empty_buffer, inserted, lemma_normalized, mark_key, normalized, opt_chars,
    removed, resynced, Buffer, BufferModel, DiskChange, FileStat,
};
use crate::changes::settled_at;
use crate::editor::buffers::{listed, named_buffer, switched};
use crate::editor::panes::current_closed;
use crate::editor::{buffer_added, numbered, seen, with_open, Editor, World};
use crate::eol::{detect_fileformat, format_from, normalize_eol, with_breaks, with_line_feeds};
use crate::open::{opened, Live, OpenBuffer, OpenModel, Snap};
use crate::options::BufferOptions;
use crate::paths::{full_path, same_path};
use crate::pending::{
    awaited, open_asked, save_asked, FileChangeAction, FileChangeReason, OpenAsk, OutModel,
    PendingQuitAll, QuitModel, SaveModel,
};
use crate::strings::{fmt_u64, fmt_usize, joined_str, nat_text};
use crate::text::{edit_lines, line_text};
use crate::window::{BufferId, Cursor};

verus! {

/// A buffer that nothing would be lost with: no path, no changes, and one empty line.
pub open spec fn throwaway(b: BufferModel) -> bool {
    b.path is None && !b.modified && edit_lines(b.text) == 1 && line_text(b.text, 0).len() == 0
}

/// The first of the buffers from the `i`th on whose path says the same as another.
pub open spec fn by_path(w: World, s: Seq<u64>, path: Seq<char>, i: int) -> Option<BufferId>
    decreases s.len() - i,
{
    if i < 0 || i >= s.len() {
        None
    } else if w.buffers[s[i]].buffer.path is Some && full_path(
        w.cwd,
        w.buffers[s[i]].buffer.path->0,
    ) == full_path(w.cwd, path) {
        Some(BufferId(s[i]))
    } else {
        by_path(w, s, path, i + 1)
    }
}

/// The open buffer of a path.
pub open spec fn found_by_path(w: World, path: Seq<char>) -> Option<BufferId> {
    by_path(w, listed(w), path, 0)
}

/// The current buffer is that of a path.
pub open spec fn current_is(w: World, path: Seq<char>) -> bool {
    let p = w.buffers[w.cur().0].buffer.path;
    p is Some && full_path(w.cwd, p->0) == full_path(w.cwd, path)
}

/// A file asked for.
pub open spec fn file_asked(w: World, id: BufferId, path: Seq<char>) -> World {
    World { out: open_asked(w.out, OpenAsk { buffer: id, path }), ..w }
}

/// A buffer bound to a path.
pub open spec fn named_as(o: OpenModel, path: Option<Seq<char>>) -> OpenModel {
    OpenModel { buffer: BufferModel { path, ..o.buffer }, ..o }
}

/// A file opened in the focused window: the buffer that it is open in, the current one where
/// nothing would be lost with it, or a new one. Its text is asked for.
pub open spec fn edited_here(w: World, path: Seq<char>) -> World {
    match found_by_path(w, path) {
        Some(id) => switched(w, id),
        None => if throwaway(w.buffers[w.cur().0].buffer) {
            file_asked(
                with_open(w, w.cur(), named_as(w.buffers[w.cur().0], Some(path))),
                w.cur(),
                path,
            )
        } else if w.next_buffer < u64::MAX {
            let id = BufferId(w.next_buffer);
            let b = BufferModel { path: Some(path), ..empty_buffer() };
            switched(file_asked(buffer_added(w, opened(b)), id, path), id)
        } else {
            w
        },
    }
}

/// The changes of the current buffer are not written.
pub open spec fn unwritten() -> Seq<char> {
    "E37: No write since last change (add ! to override)"@
}

/// `:edit`: a file opened, or the current one read anew.
pub open spec fn edit_asked(w: World, path: Seq<char>, bang: bool) -> World {
    if path.len() == 0 {
        w.said("E32: No file name"@)
    } else if current_is(w, path) {
        if w.buffers[w.cur().0].buffer.modified && !bang {
            w.said(unwritten())
        } else {
            file_asked(w, w.cur(), path)
        }
    } else {
        edited_here(w, path)
    }
}

/// A buffer that holds what was read. The breaks of the text become line feeds, and its
/// format is the one that they are of.
#[verifier::opaque]
pub open spec fn buffer_loaded(
    b: BufferModel,
    path: Option<Seq<char>>,
    s: Seq<char>,
) -> BufferModel {
    let ff = format_from(encode_utf8(s), 0);
    let n = normalized(
        inserted(removed(b, 0, b.text.len() as int), 0, with_line_feeds(s, ff)),
    );
    let r = resynced(
        BufferModel { path, options: BufferOptions { fileformat: ff, ..n.options }, ..n },
    );
    BufferModel { modified: false, save_tick: r.changedtick, ..r }
}

/// A buffer that holds what was read: it has no changes and nothing can be undone.
#[verifier::opaque]
pub open spec fn text_loaded(o: OpenModel, path: Option<Seq<char>>, s: Seq<char>) -> OpenModel {
    OpenModel {
        buffer: buffer_loaded(o.buffer, path, s),
        undo: Seq::empty(),
        redo: Seq::empty(),
        cur_seq: o.next_seq,
        saved_seq: Some(o.next_seq),
        next_seq: crate::buffer::tick(o.next_seq),
        ..o
    }
}

/// The cursor at the start of the text.
pub open spec fn at_start(w: World) -> World {
    World {
        live: Live { cursor: Cursor { line: 0, col: 0 }, top: 0, leftcol: 0, ..w.live },
        ..w
    }
}

/// The cursor at a line and a column as far as the text reaches. Where the text is still to
/// come, the place is remembered.
pub open spec fn landed(w: World, line: usize, col: usize) -> World {
    let a = if awaited(w.out, w.cur()) {
        World { waiting: Some((w.cur(), line, col)), ..w }
    } else {
        w
    };
    seen(a.with_pane(settled_at(a.pane(), line as int, col as int)))
}

/// The cursor in a buffer whose text has come: where it was to go, or at the start.
pub open spec fn cursor_settled(w: World, id: BufferId) -> World {
    if id != w.cur() {
        w
    } else {
        match w.waiting {
            Some((b, line, col)) => if b == id {
                landed(at_start(World { waiting: None, ..w }), line, col)
            } else {
                at_start(w)
            },
            None => at_start(w),
        }
    }
}

/// What was read put in a buffer.
pub open spec fn loaded_into(
    w: World,
    id: BufferId,
    path: Option<Seq<char>>,
    s: Seq<char>,
) -> World {
    if w.buffers.contains_key(id.0) {
        cursor_settled(with_open(w, id, text_loaded(w.buffers[id.0], path, s)), id)
    } else {
        w
    }
}

/// The place of the cursor marked before a jump.
pub open spec fn context_marked(w: World) -> World {
    let o = w.buffers[w.cur().0];
    with_open(
        w,
        w.cur(),
        OpenModel {
            buffer: BufferModel {
                marks: o.buffer.marks.insert(
                    mark_key('\''),
                    (w.live.cursor.line, w.live.cursor.col),
                ),
                ..o.buffer
            },
            ..o
        },
    )
}

/// A place in a file visited.
pub open spec fn jumped(w: World, path: Seq<char>, line: usize, col: usize) -> World {
    let here = current_is(w, path);
    let a = if !here || line != w.live.cursor.line {
        context_marked(w)
    } else {
        w
    };
    landed(
        if here {
            a
        } else {
            edited_here(a, path)
        },
        line,
        col,
    )
}

/// The write of a buffer as the host is asked for it.
pub open spec fn save_of(w: World, id: BufferId, path: Seq<char>, quit: Option<bool>) -> SaveModel {
    let b = w.buffers[id.0].buffer;
    SaveModel {
        seq: w.out.next_save,
        buffer: id,
        path,
        text: with_breaks(decode_utf8(b.text), b.options.fileformat),
        lines: edit_lines(b.text) as usize,
        then_quit: quit,
    }
}

/// A write asked for.
pub open spec fn saving(w: World, id: BufferId, path: Seq<char>, quit: Option<bool>) -> World {
    World { out: save_asked(w.out, save_of(w, id, path, quit)), ..w }
}

/// `:write`: the current buffer is to be written, to the path given or to its own.
pub open spec fn write_asked(w: World, args: Seq<char>, quit: Option<bool>) -> World {
    let p = w.buffers[w.cur().0].buffer.path;
    if args.len() > 0 {
        saving(w, w.cur(), args, quit)
    } else if p is Some {
        saving(w, w.cur(), p->0, quit)
    } else {
        w.said("E32: No file name"@)
    }
}

/// A buffer that is written with all others: it has changes and a path.
pub open spec fn writable(o: OpenModel) -> bool {
    o.buffer.modified && o.buffer.path is Some
}

/// The first `n` buffers that have changes and paths to be written.
pub open spec fn all_saving(w: World, s: Seq<u64>, n: int) -> World
    decreases n,
{
    if n <= 0 {
        w
    } else {
        let a = all_saving(w, s, n - 1);
        let o = w.buffers[s[n - 1]];
        if writable(o) {
            saving(a, BufferId(s[n - 1]), o.buffer.path->0, None)
        } else {
            a
        }
    }
}

/// How many of the first `n` buffers are to be written.
pub open spec fn saves_among(w: World, s: Seq<u64>, n: int) -> nat
    decreases n,
{
    if n <= 0 {
        0
    } else {
        saves_among(w, s, n - 1) + if writable(w.buffers[s[n - 1]]) {
            1nat
        } else {
            0nat
        }
    }
}

/// The numbers of the first `n` writes from a number on.
pub open spec fn numbers_from(first: u64, n: nat) -> Seq<u64>
    decreases n,
{
    if n == 0 {
        Seq::empty()
    } else {
        seq![first] + numbers_from(crate::buffer::tick(first), (n - 1) as nat)
    }
}

/// `:wall`: all buffers that have changes and paths are to be written.
pub open spec fn wall_asked(w: World) -> World {
    let s = listed(w);
    let n = s.len() as int;
    all_saving(w, s, n).said(nat_text(saves_among(w, s, n)) + " buffer(s) written"@)
}

/// The first of the buffers from the `i`th on that has changes.
pub open spec fn first_modified(w: World, s: Seq<u64>, i: int) -> Option<BufferId>
    decreases s.len() - i,
{
    if i < 0 || i >= s.len() {
        None
    } else if w.buffers[s[i]].buffer.modified {
        Some(BufferId(s[i]))
    } else {
        first_modified(w, s, i + 1)
    }
}

/// The editor quits, unless a buffer has changes and force is not asked for; that buffer
/// then shows.
pub open spec fn quit_all(w: World, bang: bool) -> World {
    if bang {
        World { should_quit: true, ..w }
    } else if w.buffers[w.cur().0].buffer.modified {
        w.said(unwritten())
    } else {
        match first_modified(w, listed(w), 0) {
            Some(id) => switched(w, id).said(
                "E37: No write since last change for buffer "@ + nat_text(id.0 as nat)
                    + " (add ! to override)"@,
            ),
            None => World { should_quit: true, ..w },
        }
    }
}

/// The focused window closed; the last one quits the editor.
pub open spec fn quit_one(w: World, bang: bool) -> World {
    if w.windows.windows.dom().len() > 1 {
        current_closed(w)
    } else {
        quit_all(w, bang)
    }
}

/// `:wqall`: all buffers are to be written, and the editor quits once they are, or at once
/// where nothing is to be written.
pub open spec fn write_quit_all(w: World, bang: bool) -> World {
    let s = listed(w);
    let n = saves_among(w, s, s.len() as int);
    let a = wall_asked(w);
    if n == 0 {
        quit_all(a, bang)
    } else {
        World {
            out: OutModel {
                quit_all: Some(
                    QuitModel { bang, seqs: numbers_from(w.out.next_save, n) },
                ),
                ..a.out
            },
            ..a
        }
    }
}

/// A buffer that has been written.
pub open spec fn written(o: OpenModel, path: Seq<char>, stat: Option<FileStat>) -> OpenModel {
    OpenModel {
        buffer: BufferModel {
            disk: stat,
            path: Some(path),
            modified: false,
            save_tick: crate::buffer::tick(o.buffer.save_tick),
            ..o.buffer
        },
        saved_seq: Some(o.cur_seq),
        ..o
    }
}

/// A write that has been done.
pub open spec fn save_finished(
    w: World,
    id: BufferId,
    path: Seq<char>,
    stat: Option<FileStat>,
) -> World {
    if w.buffers.contains_key(id.0) {
        let a = with_open(w, id, written(w.buffers[id.0], path, stat));
        World { out: OutModel { written: a.out.written.push((id, path)), ..a.out }, ..a }
    } else {
        w
    }
}

/// The buffers whose files are to be looked at: all, or the one that an argument names.
pub open spec fn check_asked(w: World, target: Seq<char>) -> World {
    if crate::strings::trimmed(target).len() == 0 {
        World {
            out: OutModel { checktime: w.out.checktime + numbered(listed(w)), ..w.out },
            ..w
        }
    } else {
        match named_buffer(w, target) {
            Ok(id) => World {
                out: OutModel { checktime: w.out.checktime.push(id), ..w.out },
                ..w
            },
            Err(e) => w.said(e),
        }
    }
}

/// The file of a buffer to be read anew, where it has one.
pub open spec fn reload_asked(w: World, id: BufferId) -> World {
    if w.buffers.contains_key(id.0) && w.buffers[id.0].buffer.path is Some {
        file_asked(w, id, w.buffers[id.0].buffer.path->0)
    } else {
        w
    }
}

/// What is to be done about a file that looks like that now. A buffer without changes is
/// read anew where that is allowed; of anything else the host decides.
pub open spec fn change_action(
    w: World,
    id: BufferId,
    stat: Option<FileStat>,
) -> FileChangeAction {
    if !w.buffers.contains_key(id.0) {
        FileChangeAction::Nothing
    } else {
        let b = w.buffers[id.0].buffer;
        match disk_change_of(b, stat) {
            DiskChange::Unchanged => FileChangeAction::Nothing,
            DiskChange::Vanished => FileChangeAction::Autocmd(FileChangeReason::Deleted),
            DiskChange::Changed => if b.modified {
                FileChangeAction::Autocmd(FileChangeReason::Conflict)
            } else if w.options.autoread {
                FileChangeAction::Reloaded
            } else {
                FileChangeAction::Autocmd(FileChangeReason::Changed)
            },
        }
    }
}

/// The path of a buffer; nothing for one that has none.
pub open spec fn name_of(w: World, id: BufferId) -> Seq<char> {
    if w.buffers.contains_key(id.0) && w.buffers[id.0].buffer.path is Some {
        w.buffers[id.0].buffer.path->0
    } else {
        Seq::empty()
    }
}

/// What is said of a file that changed.
pub open spec fn change_warning(name: Seq<char>, reason: FileChangeReason) -> Seq<char> {
    match reason {
        FileChangeReason::Deleted => "E211: File \""@ + name + "\" no longer available"@,
        FileChangeReason::Conflict => "W12: Warning: File \""@ + name
            + "\" has changed and the buffer was changed in Vim as well"@,
        FileChangeReason::Changed => "W11: Warning: File \""@ + name
            + "\" has changed since editing started"@,
    }
}

/// What is said of a write that has been done.
pub open spec fn written_text(name: Seq<char>, lines: nat, bytes: nat) -> Seq<char> {
    "\""@ + name + "\" "@ + nat_text(lines) + "L, "@ + nat_text(bytes) + "B written"@
}

/// What is said of a write that has been done.
pub fn written_message(name: &str, lines: usize, bytes: usize) -> (s: String)
    ensures
        s@ == written_text(name@, lines as nat, bytes as nat),
{
    let mut s = joined_str("\"", name);
    s.append("\" ");
    s.append(fmt_usize(lines).as_str());
    s.append("L, ");
    s.append(fmt_usize(bytes).as_str());
    s.append("B written");
    s
}

impl Buffer {
    fn load(&mut self, path: Option<String>, text: &str)
        requires
            old(self).settled(),
        ensures
            final(self).settled(),
            final(self)@ == buffer_loaded(old(self)@, opt_chars(path), text@),
    {
        let len: usize = self.len_bytes();
        proof {
            is_char_boundary_start_end_of_seq(self@.text);
        }
        self.remove(0, len);
        proof {
            is_char_boundary_start_end_of_seq(self@.text);
        }
        let ff = detect_fileformat(text);
        let lines = normalize_eol(text, ff);
        self.insert(0, lines.as_str());
        proof {
            lemma_normalized(self@);
            reveal(buffer_loaded);
        }
        self.normalize();
        self.options.fileformat = ff;
        self.set_path(path);
        self.mark_resync();
        self.mark_clean();
    }
}

impl OpenBuffer {
    /// Put what was read in the buffer.
    pub fn load_text(&mut self, path: Option<String>, text: &str)
        requires
            old(self).wf(),
        ensures
            final(self).wf(),
            final(self)@ == text_loaded(old(self)@, opt_chars(path), text@),
    {
        proof {
            reveal(text_loaded);
        }
        self.buffer.load(path, text);
        self.undo_stack = Vec::new();
        self.redo_stack = Vec::new();
        self.cur_seq = self.next_seq;
        self.saved_seq = Some(self.next_seq);
        self.next_seq = self.next_seq.wrapping_add(1);
        assert(crate::open::snaps(self.undo_stack@) =~= Seq::<Snap>::empty());
        assert(crate::open::snaps(self.redo_stack@) =~= Seq::<Snap>::empty());
    }

    /// Record a write that has been done.
    pub fn mark_written(&mut self, path: String, stat: Option<FileStat>)
        requires
            old(self).wf(),
        ensures
            final(self).wf(),
            final(self)@ == written(old(self)@, path@, stat),
    {
        self.buffer.mark_written(path, stat);
        self.saved_seq = Some(self.cur_seq);
    }
}

impl Editor {
    /// The open buffer of a path.
    pub fn find_buffer_by_path(&self, path: &str) -> (r: Option<BufferId>)
        requires
            self.wf(),
        ensures
            r == found_by_path(self@, path@),
    {
        let ids = self.buffer_ids();
        let ghost s = listed(self@);
        let mut i: usize = 0;
        assert(ids@.len() == s.len());
        while i < ids.len()
            invariant
                self.wf(),
                s == listed(self@),
                ids@ == numbered(s),
                ids@.len() == s.len(),
                i <= s.len(),
                by_path(self@, s, path@, 0) == by_path(self@, s, path@, i as int),
            decreases s.len() - i,
        {
            proof {
                self.listed_is_whole();
                assert(ids@[i as int] == BufferId(s[i as int]));
            }
            let hit = match self.open_at(ids[i]) {
                Some(o) => match &o.buffer.path {
                    Some(p) => same_path(self.cwd().as_str(), p.as_str(), path),
                    None => false,
                },
                None => false,
            };
            if hit {
                return Some(ids[i]);
            }
            i += 1;
        }
        None
    }

    /// Whether the current buffer is that of a path.
    pub fn current_buffer_is(&self, path: &str) -> (b: bool)
        requires
            self.wf(),
        ensures
            b == current_is(self@, path@),
    {
        match &self.desk().buffer().path {
            Some(p) => same_path(self.cwd().as_str(), p.as_str(), path),
            None => false,
        }
    }

    /// Whether nothing would be lost with the current buffer.
    pub fn current_is_throwaway(&self) -> (b: bool)
        requires
            self.wf(),
        ensures
            b == throwaway(self@.buffers[self@.cur().0].buffer),
    {
        let b = self.desk().buffer();
        b.path.is_none() && !b.modified && b.line_count() == 1 && b.line_len(0) == 0
    }

    pub(crate) fn ask_for_file(&mut self, id: BufferId, path: &str)
        requires
            old(self).wf(),
        ensures
            final(self).wf(),
            final(self)@ == file_asked(old(self)@, id, path@),
    {
        let o = self.outbox_mut();
        o.push_open(id, path.to_owned());
    }

    /// Open a file in the focused window.
    pub fn edit_in_current_window(&mut self, path: &str)
        requires
            old(self).wf(),
        ensures
            final(self).wf(),
            final(self)@ == edited_here(old(self)@, path@),
    {
        if let Some(id) = self.find_buffer_by_path(path) {
            self.switch_buffer(id);
            return;
        }
        if self.current_is_throwaway() {
            let id = self.current_buffer_id();
            proof {
                self.is_consistent();
            }
            let o = self.open_at_mut(id);
            o.buffer.set_path(Some(path.to_owned()));
            self.ask_for_file(id, path);
            return;
        }
        if let Some(id) = self.add_buffer(Buffer::named(path.to_owned())) {
            self.ask_for_file(id, path);
            self.switch_buffer(id);
        }
    }

    /// `:edit`: open a file, or read the current one anew.
    pub fn ex_edit(&mut self, path: &str, bang: bool)
        requires
            old(self).wf(),
        ensures
            final(self).wf(),
            final(self)@ == edit_asked(old(self)@, path@, bang),
    {
        if path.is_empty() {
            self.echo("E32: No file name".to_owned());
            return;
        }
        if self.current_buffer_is(path) {
            if self.desk().buffer().modified && !bang {
                self.echo("E37: No write since last change (add ! to override)".to_owned());
                return;
            }
            let id = self.current_buffer_id();
            self.ask_for_file(id, path);
            return;
        }
        self.edit_in_current_window(path);
    }

    pub(crate) fn go_to_start(&mut self)
        requires
            old(self).wf(),
        ensures
            final(self).wf(),
            final(self)@ == at_start(old(self)@),
    {
        proof {
            self.is_consistent();
        }
        let d = self.desk_mut();
        let mut live = d.live();
        live.cursor = Cursor::default();
        live.top = 0;
        live.leftcol = 0;
        d.set_live(live);
        assert(self@.buffers =~= old(self)@.buffers);
    }

    /// Put the cursor at a line and a column as far as the text reaches.
    pub fn land_cursor(&mut self, line: usize, col: usize)
        requires
            old(self).wf(),
        ensures
            final(self).wf(),
            final(self)@ == landed(old(self)@, line, col),
    {
        let id = self.current_buffer_id();
        if self.outbox().has_pending_open(id) {
            self.set_waiting(Some((id, line, col)));
        }
        let d = self.desk_mut();
        d.settle_cursor_at(line, col);
        self.ensure_visible();
    }

    pub(crate) fn settle_loaded_cursor(&mut self, id: BufferId)
        requires
            old(self).wf(),
        ensures
            final(self).wf(),
            final(self)@ == cursor_settled(old(self)@, id),
    {
        if id != self.current_buffer_id() {
            return;
        }
        if let Some((b, line, col)) = self.waiting() {
            if b == id {
                self.set_waiting(None);
                self.go_to_start();
                self.land_cursor(line, col);
                return;
            }
        }
        self.go_to_start();
    }

    /// Put what was read in a buffer. Nothing happens where it has been closed.
    pub fn load_str_into(&mut self, id: BufferId, name: Option<String>, contents: &str)
        requires
            old(self).wf(),
        ensures
            final(self).wf(),
            final(self)@ == loaded_into(old(self)@, id, opt_chars(name), contents@),
    {
        if !self.buffer_is_valid(id) {
            return;
        }
        let o = self.open_at_mut(id);
        o.load_text(name, contents);
        self.settle_loaded_cursor(id);
    }

    /// Mark the place of the cursor before a jump.
    pub(crate) fn record_jump_context(&mut self)
        requires
            old(self).wf(),
        ensures
            final(self).wf(),
            final(self)@ == context_marked(old(self)@),
    {
        proof {
            self.is_consistent();
        }
        let c = self.desk().live().cursor;
        let id = self.current_buffer_id();
        let o = self.open_at_mut(id);
        o.buffer.marks.insert('\'' as u64, (c.line, c.col));
    }

    /// Visit a place in a file.
    pub fn jump_to(&mut self, path: &str, line: usize, col: usize)
        requires
            old(self).wf(),
        ensures
            final(self).wf(),
            final(self)@ == jumped(old(self)@, path@, line, col),
    {
        let here = self.current_buffer_is(path);
        if !here || line != self.desk().live().cursor.line {
            self.record_jump_context();
        }
        if !here {
            self.edit_in_current_window(path);
        }
        self.land_cursor(line, col);
    }

    /// Ask for the write of a buffer. The result is the number of the request.
    pub fn enqueue_save_of(&mut self, id: BufferId, path: String, quit: Option<bool>) -> (seq: u64)
        requires
            old(self).wf(),
            old(self)@.buffers.contains_key(id.0),
        ensures
            final(self).wf(),
            final(self)@ == saving(old(self)@, id, path@, quit),
            seq == old(self)@.out.next_save,
    {
        let (text, lines) = match self.open_at(id) {
            Some(o) => (o.buffer.to_save_text(), o.buffer.line_count()),
            None => (String::new(), 0),
        };
        let o = self.outbox_mut();
        o.push_save(id, path, text, lines, quit)
    }

    /// `:write`: ask for the write of the current buffer.
    pub fn ex_write(&mut self, args: &str, quit: Option<bool>)
        requires
            old(self).wf(),
        ensures
            final(self).wf(),
            final(self)@ == write_asked(old(self)@, args@, quit),
    {
        proof {
            self.is_consistent();
        }
        let path = if args.is_empty() {
            None
        } else {
            Some(args.to_owned())
        };
        let id = self.current_buffer_id();
        match self.desk().buffer().save_target(path) {
            Ok(p) => {
                let _seq = self.enqueue_save_of(id, p, quit);
            },
            Err(e) => self.echo(e),
        }
    }

    /// Ask for the writes of all buffers that have changes and paths. The result is the
    /// numbers of the requests.
    fn save_all(&mut self) -> (seqs: Vec<u64>)
        requires
            old(self).wf(),
        ensures
            final(self).wf(),
            final(self)@ == all_saving(
                old(self)@,
                listed(old(self)@),
                listed(old(self)@).len() as int,
            ),
            seqs@ == numbers_from(
                old(self)@.out.next_save,
                saves_among(old(self)@, listed(old(self)@), listed(old(self)@).len() as int),
            ),
            seqs@.len() == saves_among(
                old(self)@,
                listed(old(self)@),
                listed(old(self)@).len() as int,
            ),
    {
        let ids = self.buffer_ids();
        let ghost w = self@;
        let ghost s = listed(w);
        let mut seqs: Vec<u64> = Vec::new();
        let mut i: usize = 0;
        proof {
            self.listed_is_whole();
            assert(ids@.len() == s.len());
            assert(seqs@ =~= numbers_from(w.out.next_save, 0));
        }
        while i < ids.len()
            invariant
                self.wf(),
                s == listed(w),
                ids@ == numbered(s),
                ids@.len() == s.len(),
                i <= s.len(),
                forall|k: int| 0 <= k < s.len() ==> w.buffers.contains_key(#[trigger] s[k]),
                self@ == all_saving(w, s, i as int),
                self@.buffers == w.buffers,
                seqs@.len() == saves_among(w, s, i as int),
                seqs@ == numbers_from(w.out.next_save, seqs@.len()),
                self@.out.next_save == ticked(w.out.next_save, seqs@.len()),
            decreases s.len() - i,
        {
            assert(ids@[i as int] == BufferId(s[i as int]));
            let path = match self.open_at(ids[i]) {
                Some(o) => if o.buffer.modified {
                    match &o.buffer.path {
                        Some(p) => Some(p.clone()),
                        None => None,
                    }
                } else {
                    None
                },
                None => None,
            };
            if let Some(p) = path {
                let seq: u64 = self.enqueue_save_of(ids[i], p, None);
                proof {
                    lemma_numbers_push(w.out.next_save, seqs@.len());
                }
                seqs.push(seq);
            }
            i += 1;
        }
        seqs
    }

    /// `:wall`: ask for the writes of all buffers that have changes and paths. The result
    /// is the numbers of the requests.
    pub fn ex_write_all(&mut self) -> (seqs: Vec<u64>)
        requires
            old(self).wf(),
        ensures
            final(self).wf(),
            final(self)@ == wall_asked(old(self)@),
            seqs@ == numbers_from(
                old(self)@.out.next_save,
                saves_among(old(self)@, listed(old(self)@), listed(old(self)@).len() as int),
            ),
            seqs@.len() == saves_among(
                old(self)@,
                listed(old(self)@),
                listed(old(self)@).len() as int,
            ),
    {
        let seqs = self.save_all();
        let mut s = fmt_usize(seqs.len());
        s.append(" buffer(s) written");
        self.echo(s);
        seqs
    }

    /// The first buffer that has changes.
    pub fn first_modified_buffer(&self) -> (r: Option<BufferId>)
        requires
            self.wf(),
        ensures
            r == first_modified(self@, listed(self@), 0),
    {
        let ids = self.buffer_ids();
        let ghost s = listed(self@);
        let mut i: usize = 0;
        assert(ids@.len() == s.len());
        while i < ids.len()
            invariant
                self.wf(),
                s == listed(self@),
                ids@ == numbered(s),
                ids@.len() == s.len(),
                i <= s.len(),
                first_modified(self@, s, 0) == first_modified(self@, s, i as int),
            decreases s.len() - i,
        {
            proof {
                self.listed_is_whole();
                assert(ids@[i as int] == BufferId(s[i as int]));
            }
            let hit = match self.open_at(ids[i]) {
                Some(o) => o.buffer.modified,
                None => false,
            };
            if hit {
                return Some(ids[i]);
            }
            i += 1;
        }
        None
    }

    /// `:qall`: quit, unless a buffer has changes and force is not asked for.
    pub fn ex_quit_all(&mut self, bang: bool)
        requires
            old(self).wf(),
        ensures
            final(self).wf(),
            final(self)@ == quit_all(old(self)@, bang),
    {
        if bang {
            self.quit();
            return;
        }
        if self.desk().buffer().modified {
            self.echo("E37: No write since last change (add ! to override)".to_owned());
            return;
        }
        match self.first_modified_buffer() {
            Some(id) => {
                self.switch_buffer(id);
                let mut s = joined_str(
                    "E37: No write since last change for buffer ",
                    fmt_u64(id.0).as_str(),
                );
                s.append(" (add ! to override)");
                self.echo(s);
            },
            None => self.quit(),
        }
    }

    /// `:quit`: close the focused window; the last one quits the editor.
    pub fn ex_quit(&mut self, bang: bool)
        requires
            old(self).wf(),
        ensures
            final(self).wf(),
            final(self)@ == quit_one(old(self)@, bang),
    {
        if self.windows().count() > 1 {
            self.close_window();
            return;
        }
        self.ex_quit_all(bang);
    }

    /// `:wqall`: ask for all writes, and quit once they are done.
    pub fn ex_write_quit_all(&mut self, bang: bool)
        requires
            old(self).wf(),
        ensures
            final(self).wf(),
            final(self)@ == write_quit_all(old(self)@, bang),
    {
        let seqs = self.ex_write_all();
        if seqs.len() == 0 {
            self.ex_quit_all(bang);
            return;
        }
        let o = self.outbox_mut();
        o.quit_all = Some(PendingQuitAll { bang, seqs });
    }

    /// Record a write that has been done. Nothing happens where the buffer was closed.
    pub fn finalize_save(&mut self, id: BufferId, path: String, stat: Option<FileStat>)
        requires
            old(self).wf(),
        ensures
            final(self).wf(),
            final(self)@ == save_finished(old(self)@, id, path@, stat),
    {
        if !self.buffer_is_valid(id) {
            return;
        }
        let o = self.open_at_mut(id);
        o.mark_written(path.clone(), stat);
        let out = self.outbox_mut();
        out.push_written(id, path);
    }

    /// `:checktime`: ask for a look at the files of all buffers, or of one.
    pub fn checktime(&mut self, target: &str)
        requires
            old(self).wf(),
        ensures
            final(self).wf(),
            final(self)@ == check_asked(old(self)@, target@),
    {
        if crate::strings::trim(target).as_str().is_empty() {
            let mut ids = self.buffer_ids();
            let o = self.outbox_mut();
            o.checktime.append(&mut ids);
        } else if let Some(id) = self.resolve_buffer(target) {
            let o = self.outbox_mut();
            o.checktime.push(id);
        }
    }

    /// Ask for the file of a buffer to be read anew. The result says whether it has one.
    pub fn enqueue_reload(&mut self, id: BufferId) -> (r: bool)
        requires
            old(self).wf(),
        ensures
            final(self).wf(),
            final(self)@ == reload_asked(old(self)@, id),
            r == (old(self)@.buffers.contains_key(id.0)
                && old(self)@.buffers[id.0].buffer.path is Some),
    {
        let path = match self.open_at(id) {
            Some(o) => match &o.buffer.path {
                Some(p) => p.clone(),
                None => {
                    return false;
                },
            },
            None => {
                return false;
            },
        };
        self.ask_for_file(id, path.as_str());
        true
    }

    /// Decide what is to be done about a file that looks like that now, and ask for it to
    /// be read anew where that is what is to be done.
    pub fn begin_file_change(&mut self, id: BufferId, stat: Option<FileStat>) -> (r:
        FileChangeAction)
        requires
            old(self).wf(),
        ensures
            final(self).wf(),
            r == change_action(old(self)@, id, stat),
            final(self)@ == if r == FileChangeAction::Reloaded {
                reload_asked(old(self)@, id)
            } else {
                old(self)@
            },
    {
        let (change, modified) = match self.open_at(id) {
            Some(o) => (o.buffer.disk_change(stat), o.buffer.modified),
            None => {
                return FileChangeAction::Nothing;
            },
        };
        match change {
            DiskChange::Unchanged => FileChangeAction::Nothing,
            DiskChange::Vanished => FileChangeAction::Autocmd(FileChangeReason::Deleted),
            DiskChange::Changed => if modified {
                FileChangeAction::Autocmd(FileChangeReason::Conflict)
            } else if self.global_options().autoread {
                let _asked = self.enqueue_reload(id);
                FileChangeAction::Reloaded
            } else {
                FileChangeAction::Autocmd(FileChangeReason::Changed)
            },
        }
    }

    /// The path of a buffer; empty for one that has none.
    pub fn buffer_name(&self, id: BufferId) -> (r: Option<String>)
        requires
            self.wf(),
        ensures
            opt_chars(r) == if self@.buffers.contains_key(id.0) {
                Some(name_of(self@, id))
            } else {
                None
            },
    {
        match self.open_at(id) {
            Some(o) => match &o.buffer.path {
                Some(p) => Some(p.clone()),
                None => Some(String::new()),
            },
            None => None,
        }
    }

    /// Say that the file of a buffer changed.
    pub fn warn_file_change(&mut self, id: BufferId, reason: FileChangeReason)
        requires
            old(self).wf(),
        ensures
            final(self).wf(),
            final(self)@ == old(self)@.said(change_warning(name_of(old(self)@, id), reason)),
    {
        let name = match self.buffer_name(id) {
            Some(n) => n,
            None => String::new(),
        };
        let mut s = match reason {
            FileChangeReason::Deleted => joined_str("E211: File \"", name.as_str()),
            FileChangeReason::Conflict => joined_str("W12: Warning: File \"", name.as_str()),
            FileChangeReason::Changed => joined_str("W11: Warning: File \"", name.as_str()),
        };
        match reason {
            FileChangeReason::Deleted => s.append("\" no longer available"),
            FileChangeReason::Conflict => s.append(
                "\" has changed and the buffer was changed in Vim as well",
            ),
            FileChangeReason::Changed => s.append("\" has changed since editing started"),
        }
        self.echo(s);
    }
}

/// The number `n` requests on.
pub open spec fn ticked(first: u64, n: nat) -> u64
    decreases n,
{
    if n == 0 {
        first
    } else {
        ticked(crate::buffer::tick(first), (n - 1) as nat)
    }
}

proof fn lemma_numbers_push(first: u64, n: nat)
    ensures
        numbers_from(first, n + 1) == numbers_from(first, n).push(ticked(first, n)),
        ticked(first, n + 1) == crate::buffer::tick(ticked(first, n)),
    decreases n,
{
    let next = crate::buffer::tick(first);
    if n == 0 {
        assert(numbers_from(next, 0) =~= Seq::<u64>::empty());
        assert(numbers_from(first, 1) =~= seq![first]);
        assert(numbers_from(first, 0).push(first) =~= seq![first]);
        assert(ticked(next, 0) == next);
    } else {
        lemma_numbers_push(next, (n - 1) as nat);
        assert(numbers_from(first, n + 1) =~= numbers_from(first, n).push(ticked(first, n)));
    }
}

} // verus!
