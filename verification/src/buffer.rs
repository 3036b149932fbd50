//! Text buffers over a rope.
//!
//! Offsets are byte offsets into UTF-8. Every change goes through
//! [`Buffer::insert`] or [`Buffer::remove`], which journal it, move the marks and
//! the change list along, and advance `changedtick`.

use ropey::Rope;
use vstd::prelude::*;
use vstd::utf8::*;

use crate::eol::{
    apply_eol, detect_fileformat, format_from, normalize_eol, strip_eol, with_breaks,
    with_line_feeds,
};
use crate::idmap::IdMap;
use crate::options::{default_buffer_options, BufferOptions};
use crate::points::{
    add_to_changelist, list_added, list_shifted, marks_shifted, newest_change_is_last,
    shift_changelist, shift_marks, shifting_adds_no_entry, Point, CHANGELIST_SIZE,
};
use crate::rope::{
    get_char, lemma_char_at_ascii, rope_bytes, rope_char, rope_from_str, rope_insert, rope_len,
    rope_len_lines, rope_line, rope_line_of, rope_line_start, rope_remove, rope_to_string,
};
use crate::text::{
    buffer_text, cut_out, edit_lines, full_line, lemma_after_ascii_on_char, lemma_line_of,
    lemma_line_start, line_of, line_start, line_text, line_total, on_char, point_of, spliced_in,
    CR, LF,
};

verus! {

/// One change of the text: the bytes from `start_byte` to `old_end_byte` became
/// those from `start_byte` to `new_end_byte`. The points are lines and byte columns.
#[derive(Debug)]
pub struct BufferEdit {
    pub start_byte: usize,
    pub old_end_byte: usize,
    pub new_end_byte: usize,
    /// The point of `start_byte`, before the edit.
    pub start_point: Point,
    /// The point of `old_end_byte`, before the edit.
    pub old_end_point: Point,
    /// The point of `new_end_byte`, after the edit.
    pub new_end_point: Point,
    /// What was inserted.
    pub text: String,
}

/// What a [`BufferEdit`] says.
pub ghost struct Edit {
    pub start_byte: usize,
    pub old_end_byte: usize,
    pub new_end_byte: usize,
    pub start_point: Point,
    pub old_end_point: Point,
    pub new_end_point: Point,
    pub text: Seq<char>,
}

impl View for BufferEdit {
    type V = Edit;

    open spec fn view(&self) -> Edit {
        Edit {
            start_byte: self.start_byte,
            old_end_byte: self.old_end_byte,
            new_end_byte: self.new_end_byte,
            start_point: self.start_point,
            old_end_point: self.old_end_point,
            new_end_point: self.new_end_point,
            text: self.text@,
        }
    }
}

/// What a list of edits says.
pub open spec fn edits_of(v: Seq<BufferEdit>) -> Seq<Edit> {
    v.map_values(|e: BufferEdit| e@)
}

impl Clone for BufferEdit {
    fn clone(&self) -> (r: Self)
        ensures
            r == *self,
    {
        BufferEdit {
            start_byte: self.start_byte,
            old_end_byte: self.old_end_byte,
            new_end_byte: self.new_end_byte,
            start_point: self.start_point,
            old_end_point: self.old_end_point,
            new_end_point: self.new_end_point,
            text: self.text.clone(),
        }
    }
}

/// The edits since a journal was last drained. `resync` says that the whole text
/// was replaced, so that the edits do not tell the story.
#[derive(Debug)]
pub struct EditBatch {
    pub edits: Vec<BufferEdit>,
    pub resync: bool,
}

impl EditBatch {
    /// Nothing changed since the last drain.
    pub fn is_empty(&self) -> (r: bool)
        ensures
            r == (self.edits@.len() == 0 && !self.resync),
    {
        self.edits.len() == 0 && !self.resync
    }
}

/// What a file looked like on disk.
#[derive(Debug, Clone, Copy, PartialEq, Eq, Structural)]
pub struct FileStat {
    pub mtime: Option<u64>,
    pub size: u64,
}

/// How a file on disk compares to what was last seen of it.
#[derive(Debug, Clone, Copy, PartialEq, Eq, Structural)]
pub enum DiskChange {
    /// As it was last read or written.
    Unchanged,
    /// Still there, but changed by something else.
    Changed,
    /// Gone.
    Vanished,
}

/// What a buffer holds. Every kind but the ordinary one is filled by something
/// other than the user, and read-only.
#[derive(Debug)]
pub enum BufferKind {
    /// A file or a scratch text.
    Ordinary,
    /// A listing of the directory at this path.
    Directory(String),
    /// A plugin's view, by its handle.
    View(u64),
    /// The screen of a terminal job.
    Terminal,
    /// A picture, which is shown and not read as text.
    Image,
}

/// A directory's entry.
#[derive(Debug)]
pub struct DirEntry {
    pub is_dir: bool,
    pub name: String,
}

/// A text buffer. Between commands its text ends in a line feed; the last line,
/// which is then empty, is neither shown nor edited.
pub struct Buffer {
    pub text: Rope,
    pub path: Option<String>,
    pub modified: bool,
    pub options: BufferOptions,
    /// The label of the encoding that the file is written in.
    pub fileencoding: String,
    /// Advances with every change.
    pub changedtick: u64,
    /// Advances with every write.
    pub save_tick: u64,
    pub edits: Vec<BufferEdit>,
    pub resync: bool,
    pub lsp_edits: Vec<BufferEdit>,
    pub lsp_resync: bool,
    pub lua_ts_edits: Vec<BufferEdit>,
    pub lua_ts_resync: bool,
    pub jump_edits: Vec<BufferEdit>,
    /// The marks, by the number of the character that names them.
    pub marks: IdMap<Point>,
    /// Where changes were made, the oldest first.
    pub changelist: Vec<Point>,
    /// Where the walk through the change list stands; its length where there is none.
    pub changelistidx: usize,
    pub kind: BufferKind,
    pub terminal_title: Option<String>,
    pub view_name: Option<String>,
    pub image_gen: u64,
    pub disk: Option<FileStat>,
}

/// A journal: its edits, and whether the whole text was replaced.
pub ghost struct Journal {
    pub edits: Seq<Edit>,
    pub resync: bool,
}

/// What a [`Buffer`] holds.
pub ghost struct BufferModel {
    pub text: Seq<u8>,
    pub path: Option<Seq<char>>,
    pub modified: bool,
    pub options: BufferOptions,
    pub fileencoding: Seq<char>,
    pub changedtick: u64,
    pub save_tick: u64,
    /// The journal of the syntax tree.
    pub edits: Journal,
    /// The journal of the language server.
    pub lsp: Journal,
    /// The journal of the scripting side.
    pub lua: Journal,
    /// The journal of the jump list.
    pub jumps: Seq<Edit>,
    pub marks: Map<u64, Point>,
    pub changelist: Seq<Point>,
    pub changelistidx: usize,
    pub kind: BufferKind,
    pub terminal_title: Option<String>,
    pub view_name: Option<String>,
    pub image_gen: u64,
    pub disk: Option<FileStat>,
}

pub open spec fn opt_chars(s: Option<String>) -> Option<Seq<char>> {
    match s {
        Some(s) => Some(s@),
        None => None,
    }
}

impl View for Buffer {
    type V = BufferModel;

    open spec fn view(&self) -> BufferModel {
        BufferModel {
            text: rope_bytes(self.text),
            path: opt_chars(self.path),
            modified: self.modified,
            options: self.options,
            fileencoding: self.fileencoding@,
            changedtick: self.changedtick,
            save_tick: self.save_tick,
            edits: Journal { edits: edits_of(self.edits@), resync: self.resync },
            lsp: Journal { edits: edits_of(self.lsp_edits@), resync: self.lsp_resync },
            lua: Journal { edits: edits_of(self.lua_ts_edits@), resync: self.lua_ts_resync },
            jumps: edits_of(self.jump_edits@),
            marks: self.marks@,
            changelist: self.changelist@,
            changelistidx: self.changelistidx,
            kind: self.kind,
            terminal_title: self.terminal_title,
            view_name: self.view_name,
            image_gen: self.image_gen,
            disk: self.disk,
        }
    }
}

/// The tick after this one.
pub open spec fn tick(n: u64) -> u64 {
    if n == u64::MAX {
        0
    } else {
        (n + 1) as u64
    }
}

/// The number under which a mark is kept.
pub open spec fn mark_key(c: char) -> u64 {
    c as u64
}

pub open spec fn to_point(p: (int, int)) -> Point {
    (p.0 as usize, p.1 as usize)
}

pub open spec fn journal_with(j: Journal, e: Edit) -> Journal {
    Journal { edits: j.edits.push(e), resync: j.resync }
}

/// A buffer whose text has just changed by edit `e`: every journal has the edit, the
/// marks and the change list have moved along and end at the change, and the buffer
/// is modified.
#[verifier::opaque]
pub open spec fn recorded(b: BufferModel, e: Edit) -> BufferModel {
    let (s, oe, ne) = (e.start_point, e.old_end_point, e.new_end_point);
    let list = list_added(list_shifted(b.changelist, s, oe, ne), s);
    BufferModel {
        marks: marks_shifted(b.marks, s, oe, ne).insert(mark_key('.'), s),
        changelist: list,
        changelistidx: list.len() as usize,
        edits: journal_with(b.edits, e),
        lsp: journal_with(b.lsp, e),
        lua: journal_with(b.lua, e),
        jumps: b.jumps.push(e),
        changedtick: tick(b.changedtick),
        modified: true,
        ..b
    }
}

/// The edit that inserts `s` at `at`.
pub open spec fn insertion(t: Seq<u8>, at: int, s: Seq<char>) -> Edit {
    let n = at + encode_utf8(s).len();
    let after = spliced_in(t, at, encode_utf8(s));
    Edit {
        start_byte: at as usize,
        old_end_byte: at as usize,
        new_end_byte: n as usize,
        start_point: to_point(point_of(t, at)),
        old_end_point: to_point(point_of(t, at)),
        new_end_point: to_point(point_of(after, n)),
        text: s,
    }
}

/// The edit that removes the bytes from `a` to `z`.
pub open spec fn removal(t: Seq<u8>, a: int, z: int) -> Edit {
    Edit {
        start_byte: a as usize,
        old_end_byte: z as usize,
        new_end_byte: a as usize,
        start_point: to_point(point_of(t, a)),
        old_end_point: to_point(point_of(t, z)),
        new_end_point: to_point(point_of(t, a)),
        text: Seq::empty(),
    }
}

/// A buffer with `s` inserted at `at`. Nothing changes where `s` is empty.
#[verifier::opaque]
pub open spec fn inserted(b: BufferModel, at: int, s: Seq<char>) -> BufferModel {
    if s.len() == 0 {
        b
    } else {
        recorded(
            BufferModel { text: spliced_in(b.text, at, encode_utf8(s)), ..b },
            insertion(b.text, at, s),
        )
    }
}

/// A buffer without the bytes from `a` to `z`. Nothing changes where there are none.
#[verifier::opaque]
pub open spec fn removed(b: BufferModel, a: int, z: int) -> BufferModel {
    if a >= z {
        b
    } else {
        recorded(BufferModel { text: cut_out(b.text, a, z), ..b }, removal(b.text, a, z))
    }
}

/// A buffer whose text ends in a line feed. One that is added for that is no change
/// of the user's: the last change and the change list stay as they are.
#[verifier::opaque]
pub open spec fn normalized(b: BufferModel) -> BufferModel {
    if b.text.len() > 0 && b.text.last() == LF {
        b
    } else {
        let n = inserted(b, b.text.len() as int, "\n"@);
        let dot = mark_key('.');
        BufferModel {
            marks: if b.marks.contains_key(dot) {
                n.marks.insert(dot, b.marks[dot])
            } else {
                n.marks.remove(dot)
            },
            changelist: b.changelist,
            changelistidx: b.changelistidx,
            ..n
        }
    }
}

/// A buffer whose whole text was replaced: the journals say so and nothing else, and
/// there are no marks and no change list.
pub open spec fn resynced(b: BufferModel) -> BufferModel {
    BufferModel {
        edits: Journal { edits: Seq::empty(), resync: true },
        lsp: Journal { edits: Seq::empty(), resync: true },
        lua: Journal { edits: Seq::empty(), resync: true },
        jumps: Seq::empty(),
        marks: Map::empty(),
        changelist: Seq::empty(),
        changelistidx: 0,
        changedtick: tick(b.changedtick),
        modified: true,
        ..b
    }
}

/// A drained journal.
pub open spec fn drained() -> Journal {
    Journal { edits: Seq::empty(), resync: false }
}

/// A buffer with one empty line.
pub open spec fn empty_buffer() -> BufferModel {
    BufferModel {
        text: encode_utf8("\n"@),
        path: None,
        modified: false,
        options: default_buffer_options(),
        fileencoding: "utf-8"@,
        changedtick: 0,
        save_tick: 0,
        edits: drained(),
        lsp: drained(),
        lua: drained(),
        jumps: Seq::empty(),
        marks: Map::empty(),
        changelist: Seq::empty(),
        changelistidx: 0,
        kind: BufferKind::Ordinary,
        terminal_title: None,
        view_name: None,
        image_gen: 0,
        disk: None,
    }
}

/// `s`, and a line feed after it where it does not end in one.
pub open spec fn ended(s: Seq<char>) -> Seq<char> {
    if s.len() > 0 && s.last() == '\n' {
        s
    } else {
        s.push('\n')
    }
}

/// How the bound file compares to the last snapshot.
pub open spec fn disk_change_of(b: BufferModel, stat: Option<FileStat>) -> DiskChange {
    if b.path is None || stat == b.disk {
        DiskChange::Unchanged
    } else if stat is None {
        DiskChange::Vanished
    } else {
        DiskChange::Changed
    }
}

/// What inserting does to the text, and to nothing else but the journals, the marks,
/// the change list, the tick and the modified flag.
pub proof fn lemma_inserted(b: BufferModel, at: int, s: Seq<char>)
    ensures
        inserted(b, at, s).text == if s.len() == 0 {
            b.text
        } else {
            spliced_in(b.text, at, encode_utf8(s))
        },
        inserted(b, at, s).options == b.options,
        inserted(b, at, s).path == b.path,
        inserted(b, at, s).kind == b.kind,
        inserted(b, at, s).disk == b.disk,
        s.len() > 0 ==> inserted(b, at, s).modified,
{
    reveal(inserted);
    reveal(recorded);
}

/// What removing does to the text, and to nothing else but the journals, the marks,
/// the change list, the tick and the modified flag.
pub proof fn lemma_removed(b: BufferModel, a: int, z: int)
    ensures
        removed(b, a, z).text == if a >= z {
            b.text
        } else {
            cut_out(b.text, a, z)
        },
        removed(b, a, z).options == b.options,
        removed(b, a, z).path == b.path,
        removed(b, a, z).kind == b.kind,
        removed(b, a, z).disk == b.disk,
        a < z ==> removed(b, a, z).modified,
{
    reveal(removed);
    reveal(recorded);
}

/// Normalising makes a text end in a line feed.
pub proof fn lemma_normalized(b: BufferModel)
    ensures
        normalized(b).text.len() > 0,
        normalized(b).text.last() == LF,
        normalized(b).text == if b.text.len() > 0 && b.text.last() == LF {
            b.text
        } else {
            b.text.push(LF)
        },
        b.text.len() > 0 && b.text.last() == LF ==> normalized(b) == b,
        normalized(b).options == b.options,
        normalized(b).path == b.path,
        normalized(b).kind == b.kind,
        normalized(b).disk == b.disk,
{
    reveal(normalized);
    lemma_line_feed();
    lemma_inserted(b, b.text.len() as int, "\n"@);
    if !(b.text.len() > 0 && b.text.last() == LF) {
        let n = b.text.len() as int;
        assert(spliced_in(b.text, n, seq![LF]) =~= b.text.push(LF));
    }
}

/// Removing what was inserted gives the text back.
pub proof fn remove_undoes_insert(b: BufferModel, at: int, s: Seq<char>)
    requires
        0 <= at <= b.text.len(),
    ensures
        removed(inserted(b, at, s), at, at + encode_utf8(s).len()).text == b.text,
{
    lemma_inserted(b, at, s);
    let i = inserted(b, at, s);
    lemma_removed(i, at, at + encode_utf8(s).len());
    if s.len() == 0 {
        assert(encode_utf8(s).len() == 0);
    } else {
        encode_utf8_first_scalar(s);
        assert(encode_utf8(s).len() > 0);
        assert(cut_out(i.text, at, at + encode_utf8(s).len()) =~= b.text);
    }
}

/// Every change is in each of the four journals, is where the last-change mark is and
/// is the newest entry of the change list, and advances the tick.
pub proof fn every_change_is_recorded(b: BufferModel, e: Edit)
    ensures
        recorded(b, e).edits.edits.last() == e,
        recorded(b, e).lsp.edits.last() == e,
        recorded(b, e).lua.edits.last() == e,
        recorded(b, e).jumps.last() == e,
        recorded(b, e).marks[mark_key('.')] == e.start_point,
        recorded(b, e).changelist.last() == e.start_point,
        recorded(b, e).changedtick != b.changedtick,
        recorded(b, e).modified,
        recorded(b, e).text == b.text,
        recorded(b, e).disk == b.disk,
        b.changelist.len() <= CHANGELIST_SIZE ==> recorded(b, e).changelist.len()
            <= CHANGELIST_SIZE,
{
    reveal(recorded);
    let (s, oe, ne) = (e.start_point, e.old_end_point, e.new_end_point);
    newest_change_is_last(list_shifted(b.changelist, s, oe, ne), s);
    shifting_adds_no_entry(b.changelist, s, oe, ne);
}

/// A text with the bytes that an edit names replaced by what it put in.
pub open spec fn replayed_one(t: Seq<u8>, e: Edit) -> Seq<u8> {
    t.subrange(0, e.start_byte as int) + encode_utf8(e.text) + t.subrange(
        e.old_end_byte as int,
        t.len() as int,
    )
}

/// A text after edits, made one after the other.
pub open spec fn replayed(t: Seq<u8>, s: Seq<Edit>) -> Seq<u8>
    decreases s.len(),
{
    if s.len() == 0 {
        t
    } else {
        replayed_one(replayed(t, s.drop_last()), s.last())
    }
}

/// A journal tells how a text came to be from another.
pub open spec fn tells(j: Journal, from: Seq<u8>, to: Seq<u8>) -> bool {
    !j.resync && replayed(from, j.edits) == to
}

/// A journal that was drained tells that the text is the same.
pub proof fn drained_journal_tells_nothing(t: Seq<u8>)
    ensures
        tells(drained(), t, t),
{
}

proof fn lemma_tells_one(j: Journal, from: Seq<u8>, to: Seq<u8>, e: Edit)
    requires
        tells(j, from, to),
    ensures
        tells(journal_with(j, e), from, replayed_one(to, e)),
{
    assert(j.edits.push(e).drop_last() =~= j.edits);
}

/// Inserting keeps a journal true: where it told how the text came to be, it does so of the
/// new text. So does every journal that is not drained in between.
pub proof fn insertion_is_told(b: BufferModel, at: int, s: Seq<char>, from: Seq<u8>)
    requires
        0 <= at <= b.text.len() <= usize::MAX,
    ensures
        tells(b.edits, from, b.text) ==> tells(
            inserted(b, at, s).edits,
            from,
            inserted(b, at, s).text,
        ),
        tells(b.lsp, from, b.text) ==> tells(inserted(b, at, s).lsp, from, inserted(b, at, s).text),
        tells(b.lua, from, b.text) ==> tells(inserted(b, at, s).lua, from, inserted(b, at, s).text),
{
    reveal(inserted);
    reveal(recorded);
    let e = insertion(b.text, at, s);
    assert(replayed_one(b.text, e) =~= spliced_in(b.text, at, encode_utf8(s)));
    if tells(b.edits, from, b.text) {
        lemma_tells_one(b.edits, from, b.text, e);
    }
    if tells(b.lsp, from, b.text) {
        lemma_tells_one(b.lsp, from, b.text, e);
    }
    if tells(b.lua, from, b.text) {
        lemma_tells_one(b.lua, from, b.text, e);
    }
}

/// Removing keeps a journal true.
pub proof fn removal_is_told(b: BufferModel, a: int, z: int, from: Seq<u8>)
    requires
        0 <= a <= z <= b.text.len() <= usize::MAX,
    ensures
        tells(b.edits, from, b.text) ==> tells(
            removed(b, a, z).edits,
            from,
            removed(b, a, z).text,
        ),
        tells(b.lsp, from, b.text) ==> tells(removed(b, a, z).lsp, from, removed(b, a, z).text),
        tells(b.lua, from, b.text) ==> tells(removed(b, a, z).lua, from, removed(b, a, z).text),
{
    reveal(removed);
    reveal(recorded);
    let e = removal(b.text, a, z);
    assert(encode_utf8(Seq::<char>::empty()) =~= Seq::<u8>::empty());
    assert(replayed_one(b.text, e) =~= cut_out(b.text, a, z));
    if tells(b.edits, from, b.text) {
        lemma_tells_one(b.edits, from, b.text, e);
    }
    if tells(b.lsp, from, b.text) {
        lemma_tells_one(b.lsp, from, b.text, e);
    }
    if tells(b.lua, from, b.text) {
        lemma_tells_one(b.lua, from, b.text, e);
    }
}

/// Normalising keeps a journal true.
pub proof fn normalizing_is_told(b: BufferModel, from: Seq<u8>)
    requires
        b.text.len() <= usize::MAX,
    ensures
        tells(b.edits, from, b.text) ==> tells(normalized(b).edits, from, normalized(b).text),
        tells(b.lsp, from, b.text) ==> tells(normalized(b).lsp, from, normalized(b).text),
        tells(b.lua, from, b.text) ==> tells(normalized(b).lua, from, normalized(b).text),
{
    reveal(normalized);
    insertion_is_told(b, b.text.len() as int, "\n"@, from);
}

/// A change of a buffer by one of the calls that edit its text, or the drain of a journal
/// that is not the syntax tree's.
pub ghost enum Change {
    Insert(int, Seq<char>),
    Remove(int, int),
    Normalize,
    DrainLsp,
    DrainLua,
    DrainJumps,
}

/// Whether a change may be made: its offsets lie in the text, and the text is one that there
/// can be.
pub open spec fn may_change(b: BufferModel, c: Change) -> bool {
    &&& b.text.len() <= usize::MAX
    &&& match c {
        Change::Insert(at, _) => 0 <= at <= b.text.len(),
        Change::Remove(a, z) => 0 <= a <= z <= b.text.len(),
        _ => true,
    }
}

/// A buffer after a change.
pub open spec fn changed(b: BufferModel, c: Change) -> BufferModel {
    match c {
        Change::Insert(at, s) => inserted(b, at, s),
        Change::Remove(a, z) => removed(b, a, z),
        Change::Normalize => normalized(b),
        Change::DrainLsp => BufferModel { lsp: drained(), ..b },
        Change::DrainLua => BufferModel { lua: drained(), ..b },
        Change::DrainJumps => BufferModel { jumps: Seq::empty(), ..b },
    }
}

/// A buffer after changes, made one after the other.
pub open spec fn all_changed(b: BufferModel, s: Seq<Change>) -> BufferModel
    decreases s.len(),
{
    if s.len() == 0 {
        b
    } else {
        changed(all_changed(b, s.drop_last()), s.last())
    }
}

/// Whether changes may be made one after the other.
pub open spec fn may_all_change(b: BufferModel, s: Seq<Change>) -> bool
    decreases s.len(),
{
    s.len() == 0 || (may_all_change(b, s.drop_last()) && may_change(
        all_changed(b, s.drop_last()),
        s.last(),
    ))
}

/// What is drained from the journal after any changes turns the text of the last drain into
/// the present one: each edit, in order, replaces the bytes that it names.
pub proof fn drained_edits_replay(b: BufferModel, s: Seq<Change>)
    requires
        b.edits == drained(),
        may_all_change(b, s),
    ensures
        !all_changed(b, s).edits.resync,
        replayed(b.text, all_changed(b, s).edits.edits) == all_changed(b, s).text,
    decreases s.len(),
{
    if s.len() > 0 {
        drained_edits_replay(b, s.drop_last());
        let m = all_changed(b, s.drop_last());
        match s.last() {
            Change::Insert(at, t) => insertion_is_told(m, at, t, b.text),
            Change::Remove(a, z) => removal_is_told(m, a, z, b.text),
            Change::Normalize => normalizing_is_told(m, b.text),
            _ => {},
        }
    }
}

/// A line feed alone is one byte.
pub proof fn lemma_line_feed()
    ensures
        "\n"@ == seq!['\n'],
        encode_utf8("\n"@) == seq![LF],
{
    reveal_strlit("\n");
    assert("\n"@ =~= seq!['\n']);
    is_ascii_chars_encode_utf8("\n"@);
    assert(encode_utf8("\n"@) =~= seq![LF]);
}

/// UTF-8 stays so when UTF-8 is put in between characters.
pub proof fn lemma_spliced_utf8(t: Seq<u8>, b: int, s: Seq<u8>)
    requires
        valid_utf8(t),
        valid_utf8(s),
        on_char(t, b),
    ensures
        valid_utf8(spliced_in(t, b, s)),
{
    valid_utf8_split(t, b);
    valid_utf8_concat(t.subrange(0, b), s);
    valid_utf8_concat(t.subrange(0, b) + s, t.subrange(b, t.len() as int));
}

/// UTF-8 stays so when whole characters are cut out.
pub proof fn lemma_cut_utf8(t: Seq<u8>, a: int, b: int)
    requires
        valid_utf8(t),
        on_char(t, a),
        on_char(t, b),
    ensures
        valid_utf8(cut_out(t, a, b)),
{
    valid_utf8_split(t, a);
    valid_utf8_split(t, b);
    valid_utf8_concat(t.subrange(0, a), t.subrange(b, t.len() as int));
}

impl Buffer {
    /// The marks are in order, and the text is UTF-8 of a length that can be counted.
    pub open spec fn wf(&self) -> bool {
        &&& self.marks.wf()
        &&& valid_utf8(rope_bytes(self.text))
        &&& rope_bytes(self.text).len() <= usize::MAX
    }

    pub fn empty() -> (b: Buffer)
        ensures
            b.wf(),
            buffer_text(b@.text),
            b@ == empty_buffer(),
    {
        proof {
            lemma_line_feed();
            encode_utf8_valid_utf8("\n"@);
        }
        Buffer::over(rope_from_str("\n"), None, BufferKind::Ordinary, None)
    }

    /// An unmodified buffer over a text.
    fn over(
        text: Rope,
        path: Option<String>,
        kind: BufferKind,
        disk: Option<FileStat>,
    ) -> (b: Buffer)
        requires
            valid_utf8(rope_bytes(text)),
            rope_bytes(text).len() <= usize::MAX,
        ensures
            b.wf(),
            b@ == (BufferModel {
                text: rope_bytes(text),
                path: opt_chars(path),
                kind,
                disk,
                ..empty_buffer()
            }),
    {
        let b = Buffer {
            text,
            path,
            modified: false,
            options: BufferOptions::default(),
            fileencoding: "utf-8".to_owned(),
            changedtick: 0,
            save_tick: 0,
            edits: Vec::new(),
            resync: false,
            lsp_edits: Vec::new(),
            lsp_resync: false,
            lua_ts_edits: Vec::new(),
            lua_ts_resync: false,
            jump_edits: Vec::new(),
            marks: IdMap::new(),
            changelist: Vec::new(),
            changelistidx: 0,
            kind,
            terminal_title: None,
            view_name: None,
            image_gen: 0,
            disk,
        };
        assert(edits_of(b.edits@) =~= Seq::<Edit>::empty());
        assert(edits_of(b.lsp_edits@) =~= Seq::<Edit>::empty());
        assert(edits_of(b.lua_ts_edits@) =~= Seq::<Edit>::empty());
        assert(edits_of(b.jump_edits@) =~= Seq::<Edit>::empty());
        b
    }

    /// An empty buffer bound to a path.
    pub fn named(path: String) -> (b: Buffer)
        ensures
            b.wf(),
            buffer_text(b@.text),
            b@ == (BufferModel { path: Some(path@), ..empty_buffer() }),
    {
        proof {
            lemma_line_feed();
            encode_utf8_valid_utf8("\n"@);
        }
        Buffer::over(rope_from_str("\n"), Some(path), BufferKind::Ordinary, None)
    }

    /// A buffer for a file. `decoded` is its text, as read, with the label of its
    /// encoding and whether it began with a byte order mark; there is none for a file
    /// that does not exist. The line breaks become line feeds, and the text ends in one.
    pub fn from_file(
        path: String,
        decoded: Option<(String, String, bool)>,
        disk: Option<FileStat>,
    ) -> (b: Buffer)
        ensures
            b.wf(),
            buffer_text(b@.text),
            b@ == match decoded {
                None => BufferModel { path: Some(path@), disk, ..empty_buffer() },
                Some((text, label, bomb)) => {
                    let ff = format_from(encode_utf8(text@), 0);
                    BufferModel {
                        text: encode_utf8(ended(with_line_feeds(text@, ff))),
                        path: Some(path@),
                        options: BufferOptions {
                            fileformat: ff,
                            bomb,
                            ..default_buffer_options()
                        },
                        fileencoding: label@,
                        disk,
                        ..empty_buffer()
                    }
                },
            },
    {
        match decoded {
            None => {
                proof {
                    lemma_line_feed();
                    encode_utf8_valid_utf8("\n"@);
                }
                Buffer::over(rope_from_str("\n"), Some(path), BufferKind::Ordinary, disk)
            },
            Some((text, label, bomb)) => {
                let ff = detect_fileformat(text.as_str());
                let mut s = normalize_eol(text.as_str(), ff);
                ensure_trailing_newline(&mut s);
                proof {
                    lemma_ends_in_line_feed(s@);
                    encode_utf8_valid_utf8(s@);
                }
                let mut b = Buffer::over(
                    rope_from_str(s.as_str()),
                    Some(path),
                    BufferKind::Ordinary,
                    disk,
                );
                b.options.fileformat = ff;
                b.options.bomb = bomb;
                b.fileencoding = label;
                b
            },
        }
    }

    /// A preview of the picture at `path`: a buffer bound to it, whose text is empty.
    pub fn from_image_file(path: String, disk: Option<FileStat>) -> (b: Buffer)
        ensures
            b.wf(),
            buffer_text(b@.text),
            b@ == (BufferModel {
                path: Some(path@),
                kind: BufferKind::Image,
                disk,
                ..empty_buffer()
            }),
    {
        proof {
            lemma_line_feed();
            encode_utf8_valid_utf8("\n"@);
        }
        Buffer::over(rope_from_str("\n"), Some(path), BufferKind::Image, disk)
    }

    /// Bind the buffer to a path, or to none.
    pub fn set_path(&mut self, path: Option<String>)
        requires
            old(self).wf(),
        ensures
            final(self).wf(),
            final(self)@ == (BufferModel { path: opt_chars(path), ..old(self)@ }),
    {
        self.path = path;
    }

    /// Whether the buffer is read-only by its kind.
    pub fn read_only(&self) -> (r: bool)
        ensures
            r == !(self@.kind is Ordinary),
    {
        !matches!(self.kind, BufferKind::Ordinary)
    }

    /// The path of the directory that the buffer lists.
    pub fn dir(&self) -> (r: Option<&String>)
        ensures
            r == match self@.kind {
                BufferKind::Directory(p) => Some(&p),
                _ => None,
            },
    {
        match &self.kind {
            BufferKind::Directory(p) => Some(p),
            _ => None,
        }
    }

    /// The handle of the view that the buffer shows.
    pub fn view_id(&self) -> (r: Option<u64>)
        ensures
            r == match self@.kind {
                BufferKind::View(id) => Some(id),
                _ => None,
            },
    {
        match &self.kind {
            BufferKind::View(id) => Some(*id),
            _ => None,
        }
    }

    pub fn is_terminal(&self) -> (r: bool)
        ensures
            r == self@.kind is Terminal,
    {
        matches!(self.kind, BufferKind::Terminal)
    }

    pub fn is_image(&self) -> (r: bool)
        ensures
            r == self@.kind is Image,
    {
        matches!(self.kind, BufferKind::Image)
    }

    /// The text is that of the file again.
    pub fn mark_clean(&mut self)
        requires
            old(self).wf(),
        ensures
            final(self).wf(),
            final(self)@ == (BufferModel {
                modified: false,
                save_tick: old(self)@.changedtick,
                ..old(self)@
            }),
    {
        self.modified = false;
        self.save_tick = self.changedtick;
    }

    /// The number of lines that can be edited.
    pub fn line_count(&self) -> (n: usize)
        requires
            self.wf(),
        ensures
            n == edit_lines(self@.text),
    {
        rope_len_lines(&self.text).saturating_sub(1)
    }

    /// Line `idx` without its line break; nothing past the last line.
    pub fn line(&self, idx: usize) -> (s: String)
        requires
            self.wf(),
        ensures
            encode_utf8(s@) == line_text(self@.text, idx as int),
    {
        if idx >= self.line_count() {
            let s = String::new();
            assert(encode_utf8(s@) =~= Seq::<u8>::empty());
            return s;
        }
        let s = rope_line(&self.text, idx);
        strip_eol(s.as_str()).to_owned()
    }

    /// The number of bytes of line `idx` without its line break.
    pub fn line_len(&self, idx: usize) -> (n: usize)
        requires
            self.wf(),
        ensures
            n == line_text(self@.text, idx as int).len(),
    {
        if idx >= self.line_count() {
            return 0;
        }
        let ghost t = self@.text;
        let start: usize = rope_line_start(&self.text, idx);
        let end: usize = rope_line_start(&self.text, idx + 1);
        proof {
            lemma_line_start(t, idx as int);
            lemma_line_start(t, idx + 1);
        }
        let mut n: usize = end - start;
        let ghost l = full_line(t, idx as int);
        if n > 0 {
            assert(l.last() == t[end - 1]);
            proof {
                lemma_ascii_char(t, end - 1, '\n', LF);
            }
            if matches!(rope_char(&self.text, end - 1), Some('\n')) {
                n -= 1;
                if n > 0 {
                    assert(l.drop_last().last() == t[end - 2]);
                    proof {
                        lemma_ascii_char(t, end - 2, '\r', CR);
                    }
                    if matches!(rope_char(&self.text, end - 2), Some('\r')) {
                        n -= 1;
                    }
                }
            }
        }
        n
    }

    /// The byte offset at which line `idx` begins; the end of the text for a line past
    /// the last.
    pub fn line_start(&self, idx: usize) -> (b: usize)
        requires
            self.wf(),
        ensures
            b == line_start(self@.text, idx as int),
            b <= self@.text.len(),
    {
        proof {
            lemma_line_start(self@.text, idx as int);
        }
        if idx < rope_len_lines(&self.text) {
            rope_line_start(&self.text, idx)
        } else {
            rope_len(&self.text)
        }
    }

    /// The line of a byte offset.
    pub fn byte_to_line(&self, byte: usize) -> (n: usize)
        requires
            self.wf(),
            byte <= self@.text.len(),
        ensures
            n == line_of(self@.text, byte as int),
            n < line_total(self@.text),
    {
        proof {
            lemma_line_of(self@.text, byte as int);
        }
        rope_line_of(&self.text, byte)
    }

    /// The byte offset of a column of a line.
    pub fn byte_at(&self, line: usize, col: usize) -> (b: usize)
        requires
            self.wf(),
            line_start(self@.text, line as int) + col <= usize::MAX,
        ensures
            b == line_start(self@.text, line as int) + col,
    {
        self.line_start(line) + col
    }

    pub fn len_bytes(&self) -> (n: usize)
        requires
            self.wf(),
        ensures
            n == self@.text.len(),
    {
        rope_len(&self.text)
    }

    /// The character at a byte offset, if one begins there.
    pub fn char_at(&self, byte: usize) -> (c: Option<char>)
        requires
            self.wf(),
        ensures
            c == get_char(self@.text, byte as int),
    {
        rope_char(&self.text, byte)
    }

    /// All lines.
    pub fn lines(&self) -> (v: Vec<String>)
        requires
            self.wf(),
        ensures
            v@.len() == edit_lines(self@.text),
            forall|i: int|
                0 <= i < v@.len() ==> encode_utf8((#[trigger] v@[i])@) == line_text(self@.text, i),
    {
        let n: usize = self.line_count();
        let mut v: Vec<String> = Vec::new();
        let mut i: usize = 0;
        while i < n
            invariant
                i <= n,
                self.wf(),
                n == edit_lines(self@.text),
                v@.len() == i,
                forall|k: int|
                    0 <= k < i ==> encode_utf8((#[trigger] v@[k])@) == line_text(self@.text, k),
            decreases n - i,
        {
            v.push(self.line(i));
            i += 1;
        }
        v
    }

    /// The whole text.
    pub fn text_string(&self) -> (s: String)
        requires
            self.wf(),
        ensures
            encode_utf8(s@) == self@.text,
    {
        rope_to_string(&self.text)
    }

    fn point_at(&self, byte: usize) -> (p: Point)
        requires
            self.wf(),
            byte <= self@.text.len(),
        ensures
            p == to_point(point_of(self@.text, byte as int)),
    {
        proof {
            lemma_line_of(self@.text, byte as int);
        }
        let row: usize = self.byte_to_line(byte);
        let col: usize = byte - self.line_start(row);
        (row, col)
    }

    fn record(&mut self, edit: BufferEdit)
        requires
            old(self).wf(),
        ensures
            final(self).wf(),
            final(self)@ == recorded(old(self)@, edit@),
    {
        proof {
            reveal(recorded);
        }
        let (s, oe, ne) = (edit.start_point, edit.old_end_point, edit.new_end_point);
        shift_marks(&mut self.marks, s, oe, ne);
        self.marks.insert('.' as u64, s);
        shift_changelist(&mut self.changelist, s, oe, ne);
        add_to_changelist(&mut self.changelist, s);
        self.changelistidx = self.changelist.len();
        self.edits.push(edit.clone());
        self.lsp_edits.push(edit.clone());
        self.jump_edits.push(edit.clone());
        let ghost e = edit@;
        self.lua_ts_edits.push(edit);
        self.changedtick = if self.changedtick == u64::MAX {
            0
        } else {
            self.changedtick + 1
        };
        self.modified = true;
        assert(edits_of(self.edits@) =~= edits_of(old(self).edits@).push(e));
        assert(edits_of(self.lsp_edits@) =~= edits_of(old(self).lsp_edits@).push(e));
        assert(edits_of(self.lua_ts_edits@) =~= edits_of(old(self).lua_ts_edits@).push(e));
        assert(edits_of(self.jump_edits@) =~= edits_of(old(self).jump_edits@).push(e));
    }

    /// Insert `s` at a byte offset between characters.
    pub fn insert(&mut self, byte: usize, s: &str)
        requires
            old(self).wf(),
            on_char(old(self)@.text, byte as int),
        ensures
            final(self).wf(),
            final(self)@ == inserted(old(self)@, byte as int, s@),
    {
        proof {
            reveal(inserted);
        }
        if s.is_empty() {
            return;
        }
        let n: usize = s.as_bytes().len();
        let start_point = self.point_at(byte);
        let ghost t = self@.text;
        proof {
            encode_utf8_valid_utf8(s@);
            lemma_spliced_utf8(t, byte as int, encode_utf8(s@));
        }
        rope_insert(&mut self.text, byte, s);
        let new_end_byte: usize = byte + n;
        let new_end_point = self.point_at(new_end_byte);
        let edit = BufferEdit {
            start_byte: byte,
            old_end_byte: byte,
            new_end_byte,
            start_point,
            old_end_point: start_point,
            new_end_point,
            text: s.to_owned(),
        };
        assert(edit@ == insertion(t, byte as int, s@));
        self.record(edit);
    }

    /// Insert a character at a byte offset between characters.
    pub fn insert_char(&mut self, byte: usize, c: char)
        requires
            old(self).wf(),
            on_char(old(self)@.text, byte as int),
        ensures
            final(self).wf(),
            final(self)@ == inserted(old(self)@, byte as int, seq![c]),
    {
        let mut s = String::new();
        s.push(c);
        assert(s@ =~= seq![c]);
        self.insert(byte, s.as_str());
    }

    /// Remove the bytes of a range whose ends lie between characters. A range with
    /// nothing in it changes nothing.
    pub fn remove(&mut self, start: usize, end: usize)
        requires
            old(self).wf(),
            start < end ==> on_char(old(self)@.text, start as int) && on_char(
                old(self)@.text,
                end as int,
            ),
        ensures
            final(self).wf(),
            final(self)@ == removed(old(self)@, start as int, end as int),
    {
        proof {
            reveal(removed);
        }
        if start >= end {
            return;
        }
        let ghost t = self@.text;
        let start_point = self.point_at(start);
        let old_end_point = self.point_at(end);
        proof {
            lemma_cut_utf8(t, start as int, end as int);
        }
        rope_remove(&mut self.text, start, end);
        let edit = BufferEdit {
            start_byte: start,
            old_end_byte: end,
            new_end_byte: start,
            start_point,
            old_end_point,
            new_end_point: start_point,
            text: String::new(),
        };
        assert(edit@ == removal(t, start as int, end as int));
        self.record(edit);
    }

    /// Put another text in place of the whole one. The journals tell of it once
    /// [`Buffer::mark_resync`] is called.
    pub fn replace_text(&mut self, text: Rope)
        requires
            old(self).wf(),
            valid_utf8(rope_bytes(text)),
            rope_bytes(text).len() <= usize::MAX,
        ensures
            final(self).wf(),
            final(self)@ == (BufferModel { text: rope_bytes(text), ..old(self)@ }),
    {
        self.text = text;
    }

    /// Record that the whole text was replaced.
    pub fn mark_resync(&mut self)
        requires
            old(self).wf(),
        ensures
            final(self).wf(),
            final(self)@ == resynced(old(self)@),
    {
        self.edits.clear();
        self.lsp_edits.clear();
        self.lua_ts_edits.clear();
        self.jump_edits.clear();
        self.resync = true;
        self.lsp_resync = true;
        self.lua_ts_resync = true;
        self.marks = IdMap::new();
        self.changelist.clear();
        self.changelistidx = 0;
        self.changedtick = if self.changedtick == u64::MAX {
            0
        } else {
            self.changedtick + 1
        };
        self.modified = true;
        assert(edits_of(self.edits@) =~= Seq::<Edit>::empty());
        assert(edits_of(self.lsp_edits@) =~= Seq::<Edit>::empty());
        assert(edits_of(self.lua_ts_edits@) =~= Seq::<Edit>::empty());
        assert(edits_of(self.jump_edits@) =~= Seq::<Edit>::empty());
    }

    /// Drain the syntax tree's journal.
    pub fn take_edits(&mut self) -> (r: EditBatch)
        requires
            old(self).wf(),
        ensures
            final(self).wf(),
            final(self)@ == (BufferModel { edits: drained(), ..old(self)@ }),
            edits_of(r.edits@) == old(self)@.edits.edits,
            r.resync == old(self)@.edits.resync,
    {
        let mut edits: Vec<BufferEdit> = Vec::new();
        core::mem::swap(&mut edits, &mut self.edits);
        let resync = self.resync;
        self.resync = false;
        assert(edits_of(self.edits@) =~= Seq::<Edit>::empty());
        EditBatch { edits, resync }
    }

    /// Drain the language server's journal.
    pub fn take_lsp_edits(&mut self) -> (r: EditBatch)
        requires
            old(self).wf(),
        ensures
            final(self).wf(),
            final(self)@ == (BufferModel { lsp: drained(), ..old(self)@ }),
            edits_of(r.edits@) == old(self)@.lsp.edits,
            r.resync == old(self)@.lsp.resync,
    {
        let mut edits: Vec<BufferEdit> = Vec::new();
        core::mem::swap(&mut edits, &mut self.lsp_edits);
        let resync = self.lsp_resync;
        self.lsp_resync = false;
        assert(edits_of(self.lsp_edits@) =~= Seq::<Edit>::empty());
        EditBatch { edits, resync }
    }

    /// Drain the scripting side's journal.
    pub fn take_lua_ts_edits(&mut self) -> (r: EditBatch)
        requires
            old(self).wf(),
        ensures
            final(self).wf(),
            final(self)@ == (BufferModel { lua: drained(), ..old(self)@ }),
            edits_of(r.edits@) == old(self)@.lua.edits,
            r.resync == old(self)@.lua.resync,
    {
        let mut edits: Vec<BufferEdit> = Vec::new();
        core::mem::swap(&mut edits, &mut self.lua_ts_edits);
        let resync = self.lua_ts_resync;
        self.lua_ts_resync = false;
        assert(edits_of(self.lua_ts_edits@) =~= Seq::<Edit>::empty());
        EditBatch { edits, resync }
    }

    /// Drain the jump list's journal.
    pub fn take_jump_edits(&mut self) -> (r: Vec<BufferEdit>)
        requires
            old(self).wf(),
        ensures
            final(self).wf(),
            final(self)@ == (BufferModel { jumps: Seq::empty(), ..old(self)@ }),
            edits_of(r@) == old(self)@.jumps,
    {
        let mut edits: Vec<BufferEdit> = Vec::new();
        core::mem::swap(&mut edits, &mut self.jump_edits);
        assert(edits_of(self.jump_edits@) =~= Seq::<Edit>::empty());
        edits
    }

    /// Make the text end in a line feed again. Adding one is no change of the user's.
    pub fn normalize(&mut self)
        requires
            old(self).wf(),
        ensures
            final(self).wf(),
            final(self)@ == normalized(old(self)@),
    {
        let n: usize = rope_len(&self.text);
        let ghost t = self@.text;
        proof {
            reveal(normalized);
            is_char_boundary_start_end_of_seq(t);
            if n > 0 {
                lemma_ascii_char(t, n - 1, '\n', LF);
            }
        }
        if n > 0 && matches!(rope_char(&self.text, n - 1), Some('\n')) {
            return;
        }
        let dot: u64 = '.' as u64;
        let saved_dot: Option<Point> = match self.marks.get(dot) {
            Some(p) => Some(*p),
            None => None,
        };
        let mut saved_list: Vec<Point> = Vec::new();
        let mut i: usize = 0;
        while i < self.changelist.len()
            invariant
                i <= self.changelist@.len(),
                saved_list@ =~= self.changelist@.take(i as int),
                *self == *old(self),
            decreases self.changelist@.len() - i,
        {
            saved_list.push(self.changelist[i]);
            i += 1;
        }
        assert(saved_list@ =~= self.changelist@);
        let saved_idx: usize = self.changelistidx;
        proof {
            lemma_inserted(self@, n as int, "\n"@);
        }
        self.insert(n, "\n");
        match saved_dot {
            Some(p) => {
                self.marks.insert(dot, p);
            },
            None => {
                let _claimed = self.marks.remove(dot);
            },
        }
        self.changelist = saved_list;
        self.changelistidx = saved_idx;
    }

    /// Where a write goes: the path given, else the bound one. Without either there is
    /// nothing to write to.
    pub fn save_target(&self, path: Option<String>) -> (r: Result<String, String>)
        ensures
            match r {
                Ok(p) => Some(p@) == if path is Some {
                    opt_chars(path)
                } else {
                    self@.path
                },
                Err(e) => path is None && self@.path is None && e@ == "E32: No file name"@,
            },
    {
        match path {
            Some(p) => Ok(p),
            None => match &self.path {
                Some(p) => Ok(p.clone()),
                None => Err("E32: No file name".to_owned()),
            },
        }
    }

    /// The text as it is written, with the line breaks of the buffer's format.
    pub fn to_save_text(&self) -> (s: String)
        requires
            self.wf(),
        ensures
            s@ == with_breaks(decode_utf8(self@.text), self@.options.fileformat),
    {
        let raw = rope_to_string(&self.text);
        proof {
            encode_utf8_decode_utf8(raw@);
        }
        apply_eol(raw.as_str(), self.options.fileformat)
    }

    /// Record a write to `path` that has been done, after which the file looks like
    /// `stat`.
    pub fn mark_written(&mut self, path: String, stat: Option<FileStat>)
        requires
            old(self).wf(),
        ensures
            final(self).wf(),
            final(self)@ == (BufferModel {
                disk: stat,
                path: Some(path@),
                modified: false,
                save_tick: tick(old(self)@.save_tick),
                ..old(self)@
            }),
    {
        self.disk = stat;
        self.path = Some(path);
        self.modified = false;
        self.save_tick = if self.save_tick == u64::MAX {
            0
        } else {
            self.save_tick + 1
        };
    }

    /// What the file looked like when it was last read or written.
    pub fn disk_stat(&self) -> (r: Option<FileStat>)
        ensures
            r == self@.disk,
    {
        self.disk
    }

    pub fn set_disk_stat(&mut self, stat: Option<FileStat>)
        requires
            old(self).wf(),
        ensures
            final(self).wf(),
            final(self)@ == (BufferModel { disk: stat, ..old(self)@ }),
    {
        self.disk = stat;
    }

    /// Whether something else touched the file, which now looks like `stat`.
    pub fn disk_changed(&self, stat: Option<FileStat>) -> (r: bool)
        ensures
            r == (disk_change_of(self@, stat) != DiskChange::Unchanged),
    {
        !matches!(self.disk_change(stat), DiskChange::Unchanged)
    }

    /// How the file, which now looks like `stat`, compares to what was last seen of it.
    /// A buffer without a path has no file.
    pub fn disk_change(&self, stat: Option<FileStat>) -> (r: DiskChange)
        ensures
            r == disk_change_of(self@, stat),
    {
        if self.path.is_none() {
            return DiskChange::Unchanged;
        }
        match (stat, self.disk) {
            (None, None) => DiskChange::Unchanged,
            (None, Some(_)) => DiskChange::Vanished,
            (Some(_), None) => DiskChange::Changed,
            (Some(a), Some(b)) => {
                let same_time = match (a.mtime, b.mtime) {
                    (None, None) => true,
                    (Some(x), Some(y)) => x == y,
                    _ => false,
                };
                if same_time && a.size == b.size {
                    DiskChange::Unchanged
                } else {
                    DiskChange::Changed
                }
            },
        }
    }
}

impl Default for Buffer {
    fn default() -> (b: Self)
        ensures
            b.wf(),
            b@ == empty_buffer(),
    {
        Buffer::empty()
    }
}

/// The character at a byte offset is an ASCII one exactly if the byte is.
pub proof fn lemma_ascii_char(t: Seq<u8>, b: int, c: char, byte: u8)
    requires
        valid_utf8(t),
        0 <= b < t.len(),
        byte < 0x80,
        c == byte as char,
    ensures
        get_char(t, b) == Some(c) <==> t[b] == byte,
{
    if t[b] == byte {
        lemma_after_ascii_on_char(t, b);
    }
    if is_char_boundary(t, b) {
        lemma_char_at_ascii(t, b);
    }
}

fn ensure_trailing_newline(s: &mut String)
    ensures
        final(s)@ == ended(old(s)@),
{
    let b = s.as_str().as_bytes();
    let n: usize = b.len();
    let ended_already = n > 0 && b[n - 1] == LF;
    proof {
        lemma_ends_in_line_feed(s@);
    }
    if !ended_already {
        s.push('\n');
    }
}

/// A string ends in a line feed exactly if its bytes do.
pub proof fn lemma_ends_in_line_feed(s: Seq<char>)
    ensures
        s.len() > 0 && s.last() == '\n' <==> encode_utf8(s).len() > 0 && encode_utf8(s).last()
            == LF,
    decreases s.len(),
{
    if s.len() > 0 {
        let rest = s.drop_first();
        lemma_ends_in_line_feed(rest);
        encode_utf8_first_scalar(s);
        let first = encode_scalar(s[0] as u32);
        assert(encode_utf8(s) == first + encode_utf8(rest));
        char_is_scalar(s[0]);
        if rest.len() > 0 {
            assert(s.last() == rest.last());
            encode_utf8_first_scalar(rest);
            assert(encode_utf8(rest).len() > 0);
            assert(encode_utf8(s).last() == encode_utf8(rest).last());
        } else {
            assert(s.last() == s[0]);
            assert(encode_utf8(rest) =~= Seq::<u8>::empty());
            assert(encode_utf8(s) =~= first);
            encode_utf8_valid_utf8(s);
            let t = encode_utf8(s);
            if t.last() == LF {
                lemma_after_ascii_on_char(t, t.len() - 1);
                if t.len() > 1 {
                    assert(length_of_first_scalar(t) == t.len());
                    reveal_with_fuel(is_char_boundary, 2);
                    assert(false);
                }
                lemma_char_at_ascii(t, 0);
                assert(t.subrange(0, t.len() as int) =~= t);
                char_u32_cast(s[0], decode_first_scalar(t));
            }
            if s[0] == '\n' {
                is_ascii_chars_encode_utf8(s);
            }
        }
    }
}

} // verus!
