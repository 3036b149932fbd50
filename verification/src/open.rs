//! An open buffer: its text with what is kept beside it, and its undo history.

use ropey::Rope;
use vstd::prelude::*;
use vstd::utf8::*;

use crate::buffer::{resynced, tick, Buffer, BufferModel};
use crate::command::{FindKind, PendingCommand};
use crate::idmap::IdMap;
use crate::mode::{typing, Mode};
use crate::nav::{last_line_of, lemma_line_offset, lemma_line_text, snapped};
use crate::points::Point;
use crate::rope::{floor_char, rope_bytes, rope_clone};
use crate::text::{buffer_text, lemma_buffer_lines, line_start, line_text, on_char};
use crate::window::Cursor;

verus! {

/// What the focused window and the keys typed so far amount to.
#[derive(Clone, Copy)]
pub struct Live {
    pub mode: Mode,
    pub cursor: Cursor,
    /// The first visible line.
    pub top: usize,
    /// The first visible screen column.
    pub leftcol: usize,
    /// The screen column that vertical motions keep to.
    pub desired_col: usize,
    /// Vertical motions keep to the end of the line.
    pub desired_eol: bool,
    /// The key at hand kept the remembered column.
    pub preserve_desired: bool,
    /// The key at hand asked for the end of the line.
    pub eol_request: bool,
    pub pending: PendingCommand,
    /// The last find, for `;` and `,`.
    pub last_find: Option<(FindKind, char)>,
    /// The state to undo to has been recorded for the change under way.
    pub snapshot_taken: bool,
    /// The line and the first column of the blanks that the last key, a tab, put in.
    pub soft_tab: Option<(usize, usize)>,
    /// The fixed end of the selection.
    pub visual_anchor: Cursor,
    /// The first visible line and the cursor's line before a scroll or a jump.
    pub scroll_from: Option<(usize, usize)>,
}

/// A state of the text that undo can return to.
pub struct Snapshot {
    pub text: Rope,
    pub cursor: Cursor,
    /// The number of the state.
    pub seq: u64,
    pub marks: IdMap<Point>,
    pub changelist: Vec<Point>,
    pub changelistidx: usize,
}

/// What a [`Snapshot`] holds.
pub ghost struct Snap {
    pub text: Seq<u8>,
    pub cursor: Cursor,
    pub seq: u64,
    pub marks: Map<u64, Point>,
    pub changelist: Seq<Point>,
    pub changelistidx: usize,
}

impl View for Snapshot {
    type V = Snap;

    open spec fn view(&self) -> Snap {
        Snap {
            text: rope_bytes(self.text),
            cursor: self.cursor,
            seq: self.seq,
            marks: self.marks@,
            changelist: self.changelist@,
            changelistidx: self.changelistidx,
        }
    }
}

impl Snapshot {
    pub open spec fn wf(&self) -> bool {
        self.marks.wf() && buffer_text(rope_bytes(self.text))
    }
}

pub open spec fn snaps(v: Seq<Snapshot>) -> Seq<Snap> {
    v.map_values(|s: Snapshot| s@)
}

/// A buffer with its undo history, and with the place that a window showing it last
/// had.
pub struct OpenBuffer {
    pub buffer: Buffer,
    pub undo_stack: Vec<Snapshot>,
    pub redo_stack: Vec<Snapshot>,
    /// The number of the text's state.
    pub cur_seq: u64,
    /// The number of the state that was last written, if it can be returned to.
    pub saved_seq: Option<u64>,
    /// The number of the next state.
    pub next_seq: u64,
    pub saved_cursor: Cursor,
    pub saved_top: usize,
    pub saved_leftcol: usize,
    pub filetype: String,
    pub commentstring: String,
    pub foldexpr: String,
    pub fold_open: String,
    pub fold_close: String,
    /// Whether the syntax tree colours the text.
    pub ts_highlight: bool,
}

/// What an [`OpenBuffer`] holds.
pub ghost struct OpenModel {
    pub buffer: BufferModel,
    pub undo: Seq<Snap>,
    pub redo: Seq<Snap>,
    pub cur_seq: u64,
    pub saved_seq: Option<u64>,
    pub next_seq: u64,
    pub saved_cursor: Cursor,
    pub saved_top: usize,
    pub saved_leftcol: usize,
    pub filetype: Seq<char>,
    pub commentstring: Seq<char>,
    pub foldexpr: Seq<char>,
    pub fold_open: Seq<char>,
    pub fold_close: Seq<char>,
    pub ts_highlight: bool,
}

impl View for OpenBuffer {
    type V = OpenModel;

    open spec fn view(&self) -> OpenModel {
        OpenModel {
            buffer: self.buffer@,
            undo: snaps(self.undo_stack@),
            redo: snaps(self.redo_stack@),
            cur_seq: self.cur_seq,
            saved_seq: self.saved_seq,
            next_seq: self.next_seq,
            saved_cursor: self.saved_cursor,
            saved_top: self.saved_top,
            saved_leftcol: self.saved_leftcol,
            filetype: self.filetype@,
            commentstring: self.commentstring@,
            foldexpr: self.foldexpr@,
            fold_open: self.fold_open@,
            fold_close: self.fold_close@,
            ts_highlight: self.ts_highlight,
        }
    }
}

/// A buffer just opened: its state is the one on disk.
pub open spec fn opened(b: BufferModel) -> OpenModel {
    OpenModel {
        buffer: b,
        undo: Seq::empty(),
        redo: Seq::empty(),
        cur_seq: 0,
        saved_seq: Some(0u64),
        next_seq: 1,
        saved_cursor: Cursor { line: 0, col: 0 },
        saved_top: 0,
        saved_leftcol: 0,
        filetype: Seq::empty(),
        commentstring: Seq::empty(),
        foldexpr: Seq::empty(),
        fold_open: "{{{"@,
        fold_close: "}}}"@,
        ts_highlight: true,
    }
}

/// The offset of a position, as far as the text reaches: the line is held to the last
/// one, the column to the end of the line and to the start of a character.
pub open spec fn spot(t: Seq<u8>, c: Cursor) -> int {
    let n = if c.line < last_line_of(t) {
        c.line as int
    } else {
        last_line_of(t)
    };
    let l = line_text(t, n);
    line_start(t, n) + floor_char(
        l,
        if c.col < l.len() {
            c.col as int
        } else {
            l.len() as int
        },
    )
}

/// The offset of a position lies inside the text, between characters.
pub proof fn lemma_spot(t: Seq<u8>, c: Cursor)
    requires
        buffer_text(t),
    ensures
        0 <= spot(t, c) < t.len(),
        on_char(t, spot(t, c)),
{
    lemma_buffer_lines(t);
    let n = if c.line < last_line_of(t) {
        c.line as int
    } else {
        last_line_of(t)
    };
    lemma_line_text(t, n);
    let l = line_text(t, n);
    let col = if c.col < l.len() {
        c.col as int
    } else {
        l.len() as int
    };
    crate::nav::lemma_floor_char(l, col);
    lemma_line_offset(t, n, floor_char(l, col));
    crate::nav::lemma_line_ends_early(t, n);
}

/// The furthest column that the cursor rests at on a line: past the end while typing,
/// else before the last byte.
pub open spec fn rest_col(len: int, mode: Mode) -> int {
    if typing(mode) {
        len
    } else if len > 0 {
        len - 1
    } else {
        0
    }
}

/// The position that a cursor is held to: an editable line, a column where the mode
/// lets it rest, and a grapheme's start.
pub open spec fn held_cursor(t: Seq<u8>, c: Cursor, mode: Mode) -> Cursor {
    let line = if c.line < last_line_of(t) {
        c.line
    } else {
        last_line_of(t) as usize
    };
    let most = rest_col(line_text(t, line as int).len() as int, mode);
    snapped(
        t,
        Cursor {
            line,
            col: if c.col < most {
                c.col
            } else {
                most as usize
            },
        },
    )
}

/// The state with its cursor held to the text.
pub open spec fn clamped(t: Seq<u8>, live: Live) -> Live {
    Live { cursor: held_cursor(t, live.cursor, live.mode), ..live }
}

/// The state of a buffer, to be returned to.
pub open spec fn snap_of(o: OpenModel, cursor: Cursor) -> Snap {
    Snap {
        text: o.buffer.text,
        cursor,
        seq: o.cur_seq,
        marks: o.buffer.marks,
        changelist: o.buffer.changelist,
        changelistidx: o.buffer.changelistidx,
    }
}

/// A buffer about to be changed: its state can be returned to, nothing can be redone,
/// and the change makes a new state. Nothing is done where the state was recorded
/// already.
pub open spec fn undo_pushed(o: OpenModel, cursor: Cursor, taken: bool) -> OpenModel {
    if taken {
        o
    } else {
        OpenModel {
            undo: o.undo.push(snap_of(o, cursor)),
            redo: Seq::empty(),
            cur_seq: o.next_seq,
            next_seq: tick(o.next_seq),
            ..o
        }
    }
}

/// A buffer put in the state `s`: modified unless that is the state last written.
pub open spec fn in_state(o: OpenModel, s: Snap) -> OpenModel {
    let b = resynced(BufferModel { text: s.text, ..o.buffer });
    OpenModel {
        buffer: BufferModel {
            modified: o.saved_seq != Some(s.seq),
            marks: s.marks,
            changelist: s.changelist,
            changelistidx: s.changelistidx,
            ..b
        },
        cur_seq: s.seq,
        ..o
    }
}

/// A step back or forward in the history, if there is one.
pub open spec fn restored(o: OpenModel, live: Live, undo: bool) -> Option<(OpenModel, Live)> {
    let from = if undo {
        o.undo
    } else {
        o.redo
    };
    if from.len() == 0 {
        None
    } else {
        let s = from.last();
        let here = snap_of(o, live.cursor);
        let o2 = if undo {
            OpenModel { undo: o.undo.drop_last(), redo: o.redo.push(here), ..o }
        } else {
            OpenModel { redo: o.redo.drop_last(), undo: o.undo.push(here), ..o }
        };
        Some((in_state(o2, s), clamped(s.text, Live { cursor: s.cursor, ..live })))
    }
}

/// Redoing what was undone gives back the text, its marks, its change list with the place in
/// it, its number, both histories, and the cursor, held to the text.
pub proof fn redo_undoes_undo(o: OpenModel, live: Live)
    requires
        o.undo.len() > 0,
    ensures
        restored(o, live, true) matches Some((p, l)) && restored(p, l, false) matches Some((q, m))
            && {
            &&& q.buffer.text == o.buffer.text
            &&& q.buffer.marks == o.buffer.marks
            &&& q.buffer.changelist == o.buffer.changelist
            &&& q.buffer.changelistidx == o.buffer.changelistidx
            &&& q.buffer.modified == (o.saved_seq != Some(o.cur_seq))
            &&& q.cur_seq == o.cur_seq
            &&& m == clamped(o.buffer.text, live)
            &&& q.redo == o.redo
            &&& q.undo.len() == o.undo.len()
            &&& q.undo.drop_last() == o.undo.drop_last()
            &&& q.undo.last().text == o.undo.last().text
            &&& q.undo.last().seq == o.undo.last().seq
        },
{
    let (p, l) = restored(o, live, true)->0;
    let (q, _) = restored(p, l, false)->0;
    assert(q.redo =~= o.redo);
    assert(q.undo.drop_last() =~= o.undo.drop_last());
}

/// Undoing a change returns to the state that was recorded for it, whatever the
/// change was.
pub proof fn undo_returns_to_recorded_state(o: OpenModel, live: Live, after: OpenModel, later: Live)
    requires
        after.undo == undo_pushed(o, live.cursor, false).undo,
    ensures
        restored(after, later, true) matches Some((r, l)) && {
            &&& r.buffer.text == o.buffer.text
            &&& r.buffer.marks == o.buffer.marks
            &&& r.buffer.changelist == o.buffer.changelist
            &&& r.buffer.changelistidx == o.buffer.changelistidx
            &&& r.cur_seq == o.cur_seq
            &&& r.undo == o.undo
            &&& l.cursor == held_cursor(o.buffer.text, live.cursor, later.mode)
        },
{
    assert(o.undo.push(snap_of(o, live.cursor)).drop_last() =~= o.undo);
}

/// A buffer returned to the state last written counts as not modified.
pub proof fn undo_to_saved_state_is_clean(o: OpenModel, live: Live)
    requires
        o.undo.len() > 0,
        o.saved_seq == Some(o.undo.last().seq),
    ensures
        restored(o, live, true) matches Some((r, _)) && !r.buffer.modified,
{
}

impl OpenBuffer {
    /// The buffer's text is UTF-8 and ends in a line feed, and so do the states that
    /// undo and redo can return to.
    pub open spec fn wf(&self) -> bool {
        &&& self.buffer.settled()
        &&& forall|i: int| 0 <= i < self.undo_stack@.len() ==> (#[trigger] self.undo_stack@[i]).wf()
        &&& forall|i: int| 0 <= i < self.redo_stack@.len() ==> (#[trigger] self.redo_stack@[i]).wf()
    }

    pub fn new(buffer: Buffer) -> (o: Self)
        requires
            buffer.settled(),
        ensures
            o.wf(),
            o@ == opened(buffer@),
    {
        let o = OpenBuffer {
            buffer,
            undo_stack: Vec::new(),
            redo_stack: Vec::new(),
            cur_seq: 0,
            saved_seq: Some(0),
            next_seq: 1,
            saved_cursor: Cursor::default(),
            saved_top: 0,
            saved_leftcol: 0,
            filetype: String::new(),
            commentstring: String::new(),
            foldexpr: String::new(),
            fold_open: "{{{".to_owned(),
            fold_close: "}}}".to_owned(),
            ts_highlight: true,
        };
        assert(snaps(o.undo_stack@) =~= Seq::<Snap>::empty());
        assert(snaps(o.redo_stack@) =~= Seq::<Snap>::empty());
        o
    }

    /// The offset of a position, as far as the text reaches.
    pub fn spot(&self, c: Cursor) -> (r: usize)
        requires
            self.buffer.settled(),
        ensures
            r == spot(self@.buffer.text, c),
            r < self@.buffer.text.len(),
            on_char(self@.buffer.text, r as int),
    {
        proof {
            lemma_spot(self@.buffer.text, c);
        }
        let last: usize = self.buffer.last_line();
        let n: usize = if c.line < last {
            c.line
        } else {
            last
        };
        let s = self.buffer.line(n);
        let len: usize = s.as_str().as_bytes().len();
        let col: usize = if c.col < len {
            c.col
        } else {
            len
        };
        proof {
            lemma_line_text(self@.buffer.text, n as int);
        }
        self.buffer.line_start(n) + floor_column(s.as_str(), col)
    }

    /// Hold the cursor to the text.
    pub fn clamp_cursor(&self, live: &mut Live)
        requires
            self.buffer.settled(),
        ensures
            *final(live) == clamped(self@.buffer.text, *old(live)),
            crate::nav::valid_cursor(self@.buffer.text, final(live).cursor),
    {
        let last: usize = self.buffer.last_line();
        let line: usize = if live.cursor.line < last {
            live.cursor.line
        } else {
            last
        };
        let len: usize = self.buffer.line_len(line);
        let most: usize = if live.mode.is_insert() {
            len
        } else {
            len.saturating_sub(1)
        };
        let col: usize = if live.cursor.col < most {
            live.cursor.col
        } else {
            most
        };
        live.cursor = self.buffer.snap(Cursor { line, col });
    }

    fn snapshot(&self, cursor: Cursor) -> (s: Snapshot)
        requires
            self.buffer.settled(),
        ensures
            s.wf(),
            s@ == snap_of(self@, cursor),
    {
        Snapshot {
            text: rope_clone(&self.buffer.text),
            cursor,
            seq: self.cur_seq,
            marks: copy_marks(&self.buffer.marks),
            changelist: copy_points(&self.buffer.changelist),
            changelistidx: self.buffer.changelistidx,
        }
    }

    /// Record the state that a change is about to leave.
    pub fn push_undo(&mut self, live: &Live)
        requires
            old(self).wf(),
        ensures
            final(self).wf(),
            final(self)@ == undo_pushed(old(self)@, live.cursor, live.snapshot_taken),
    {
        if live.snapshot_taken {
            return;
        }
        let snap = self.snapshot(live.cursor);
        let ghost s = snap@;
        self.undo_stack.push(snap);
        self.redo_stack.clear();
        self.cur_seq = self.next_seq;
        self.next_seq = if self.next_seq == u64::MAX {
            0
        } else {
            self.next_seq + 1
        };
        assert(snaps(self.undo_stack@) =~= snaps(old(self).undo_stack@).push(s));
        assert(snaps(self.redo_stack@) =~= Seq::<Snap>::empty());
    }

    /// Go one step back in the history, or forward. The result says whether there was
    /// one.
    pub fn restore(&mut self, live: &mut Live, undo: bool) -> (r: bool)
        requires
            old(self).wf(),
        ensures
            final(self).wf(),
            r == restored(old(self)@, *old(live), undo) is Some,
            (final(self)@, *final(live)) == match restored(old(self)@, *old(live), undo) {
                Some(p) => p,
                None => (old(self)@, *old(live)),
            },
    {
        let popped = if undo {
            self.undo_stack.pop()
        } else {
            self.redo_stack.pop()
        };
        let snap = match popped {
            Some(s) => s,
            None => {
                assert(self.undo_stack@ == old(self).undo_stack@);
                assert(self.redo_stack@ == old(self).redo_stack@);
                return false;
            },
        };
        let here = self.snapshot(live.cursor);
        let ghost h = here@;
        let ghost s = snap@;
        if undo {
            assert(snaps(self.undo_stack@) =~= snaps(old(self).undo_stack@).drop_last());
            assert(snaps(old(self).undo_stack@).last() == s);
            self.redo_stack.push(here);
            assert(snaps(self.redo_stack@) =~= snaps(old(self).redo_stack@).push(h));
        } else {
            assert(snaps(self.redo_stack@) =~= snaps(old(self).redo_stack@).drop_last());
            assert(snaps(old(self).redo_stack@).last() == s);
            self.undo_stack.push(here);
            assert(snaps(self.undo_stack@) =~= snaps(old(self).undo_stack@).push(h));
        }
        self.buffer.replace_text(snap.text);
        self.cur_seq = snap.seq;
        let clean = match self.saved_seq {
            Some(n) => n == snap.seq,
            None => false,
        };
        live.cursor = snap.cursor;
        self.buffer.mark_resync();
        self.buffer.modified = !clean;
        self.buffer.marks = snap.marks;
        self.buffer.changelist = snap.changelist;
        self.buffer.changelistidx = snap.changelistidx;
        self.clamp_cursor(live);
        true
    }
}

/// The last offset of a string not after `col` that lies between characters.
pub fn floor_column(s: &str, col: usize) -> (r: usize)
    requires
        col <= encode_utf8(s@).len(),
    ensures
        r == floor_char(encode_utf8(s@), col as int),
        r <= col,
        on_char(encode_utf8(s@), r as int),
{
    let mut i: usize = col;
    proof {
        encode_utf8_valid_utf8(s@);
        crate::nav::lemma_floor_char(encode_utf8(s@), col as int);
    }
    while i > 0 && !s.is_char_boundary(i)
        invariant
            i <= col <= encode_utf8(s@).len(),
            floor_char(encode_utf8(s@), col as int) == floor_char(encode_utf8(s@), i as int),
        decreases i,
    {
        i -= 1;
    }
    i
}

fn copy_points(v: &Vec<Point>) -> (r: Vec<Point>)
    ensures
        r@ == v@,
{
    let mut r: Vec<Point> = Vec::new();
    let mut i: usize = 0;
    while i < v.len()
        invariant
            i <= v@.len(),
            r@ =~= v@.take(i as int),
        decreases v@.len() - i,
    {
        r.push(v[i]);
        i += 1;
    }
    assert(v@.take(i as int) =~= v@);
    r
}

fn copy_marks(m: &IdMap<Point>) -> (r: IdMap<Point>)
    requires
        m.wf(),
    ensures
        r.wf(),
        r@ == m@,
{
    let mut r: IdMap<Point> = IdMap::new();
    let mut i: usize = 0;
    let ghost ids = m.ids();
    proof {
        m.ids_are_keys();
    }
    while i < m.len()
        invariant
            i <= ids.len(),
            m.wf(),
            r.wf(),
            ids == m.ids(),
            forall|k: u64| m@.contains_key(k) <==> ids.contains(k),
            forall|k: u64| #[trigger] r@.contains_key(k) <==> ids.take(i as int).contains(k),
            forall|k: u64| #[trigger] r@.contains_key(k) ==> r@[k] == m@[k],
        decreases ids.len() - i,
    {
        let id: u64 = m.id_at(i);
        r.insert(id, *m.at(id));
        proof {
            let a = ids.take(i as int);
            assert(ids.take(i + 1) =~= a.push(id));
            assert forall|k: u64| #[trigger] r@.contains_key(k) <==> a.push(id).contains(k) by {
                if a.contains(k) {
                    let j = choose|j: int| 0 <= j < a.len() && a[j] == k;
                    assert(a.push(id)[j] == k);
                }
                if k == id {
                    assert(a.push(id)[a.len() as int] == k);
                }
                if a.push(id).contains(k) && k != id {
                    let j = choose|j: int| 0 <= j < a.push(id).len() && a.push(id)[j] == k;
                    assert(a[j] == k);
                }
            }
        }
        i += 1;
    }
    proof {
        assert(ids.take(i as int) =~= ids);
        assert(r@ =~= m@);
    }
    r
}

} // verus!
