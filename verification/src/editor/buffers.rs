//! The buffers of the editor: going from one to another, and closing them.

use vstd::prelude::*;

use crate::buffer::{empty_buffer, mark_key, opt_chars, Buffer, BufferModel};
use crate::changes::{align_right, right_aligned};
use crate::editor::panes::{arrived, arrived_live, place_of};
use crate::editor::{
    bound_to, buffer_added, consistent, numbered, ordered, with_open, Editor, World,
};
use crate::layout::clip;
use crate::mode::Mode;
use crate::open::{opened, OpenModel};
use crate::strings::{
    chars_of, decimal, fmt_u64, fmt_usize, joined_str, nat_text, parse_u64, same, texts, trim,
    trimmed,
};
use crate::text::edit_lines;
use crate::window::{BufferId, Cursor, Window, WindowsModel};
use crate::wins::Place;

verus! {

/// The place that a buffer had when it was last current.
pub open spec fn buffer_place(o: OpenModel) -> Place {
    Place { cursor: o.saved_cursor, top: o.saved_top, leftcol: o.saved_leftcol }
}

/// The focused window on a buffer, at the place that the buffer had.
pub open spec fn entered_buffer(w: World, id: BufferId) -> World {
    arrived(bound_to(w, id), buffer_place(w.buffers[id.0]))
}

/// A buffer that is being left: its place is saved, and marked.
pub open spec fn left(o: OpenModel, p: Place) -> OpenModel {
    OpenModel {
        saved_cursor: p.cursor,
        saved_top: p.top,
        saved_leftcol: p.leftcol,
        buffer: BufferModel {
            marks: o.buffer.marks.insert(mark_key('"'), (p.cursor.line, p.cursor.col)),
            ..o.buffer
        },
        ..o
    }
}

/// Another buffer current; the one that was keeps its place and can be returned to.
pub open spec fn switched(w: World, id: BufferId) -> World {
    if id == w.cur() || !w.buffers.contains_key(id.0) {
        w
    } else {
        let a = with_open(w, w.cur(), left(w.buffers[w.cur().0], place_of(w.live)));
        entered_buffer(World { alternate: Some(w.cur()), ..a }, id)
    }
}

/// The buffer that was current before made current.
pub open spec fn to_alternate(w: World) -> World {
    match w.alternate {
        Some(id) => switched(w, id),
        None => w.said("E23: No alternate file"@),
    }
}

/// The position of an id in a list.
pub open spec fn position(s: Seq<u64>, id: u64, i: int) -> int
    decreases s.len() - i,
{
    if i < 0 || i >= s.len() || s[i] == id {
        i
    } else {
        position(s, id, i + 1)
    }
}

/// The buffers in the order of their numbers.
pub open spec fn listed(w: World) -> Seq<u64> {
    ordered(w.buffers.dom())
}

/// The documents among the first `n` of some buffers: all but the views of plugins.
pub open spec fn documents_among(w: World, s: Seq<u64>, n: int) -> Seq<u64>
    decreases n,
{
    if n <= 0 {
        Seq::empty()
    } else {
        let r = documents_among(w, s, n - 1);
        if w.buffers[s[n - 1]].buffer.kind is View {
            r
        } else {
            r.push(s[n - 1])
        }
    }
}

/// The documents in the order of their numbers. These are the buffers that are listed, and
/// that one walks through.
pub open spec fn documents(w: World) -> Seq<u64> {
    documents_among(w, listed(w), listed(w).len() as int)
}

/// The first place from `i` on of a number that is not smaller than another.
pub open spec fn rank(s: Seq<u64>, id: u64, i: int) -> int
    decreases s.len() - i,
{
    if i < 0 || i >= s.len() || s[i] >= id {
        i
    } else {
        rank(s, id, i + 1)
    }
}

/// The document before a buffer in the order of their numbers, or the one after it.
#[verifier::opaque]
pub open spec fn beside(w: World, id: BufferId) -> Option<BufferId> {
    let s = documents(w);
    let i = rank(s, id.0, 0);
    let next = if i < s.len() && s[i] == id.0 {
        i + 1
    } else {
        i
    };
    if i > 0 {
        Some(BufferId(s[i - 1]))
    } else if next < s.len() {
        Some(BufferId(s[next]))
    } else {
        None
    }
}

/// The document `n` places on from the current one in the order of their numbers, going
/// round.
pub open spec fn places_on(w: World, n: int) -> Option<BufferId> {
    let s = documents(w);
    let i = position(s, w.cur().0, 0);
    if i < s.len() {
        Some(BufferId(s[(i + n) % s.len() as int]))
    } else {
        None
    }
}

/// The first document, or the last one.
pub open spec fn end_document(w: World, last: bool) -> Option<BufferId> {
    let s = documents(w);
    if s.len() == 0 {
        None
    } else if last {
        Some(BufferId(s.last()))
    } else {
        Some(BufferId(s[0]))
    }
}

/// A buffer made current, where there is one.
pub open spec fn moved_to(w: World, to: Option<BufferId>) -> World {
    match to {
        Some(id) => switched(w, id),
        None => w,
    }
}

/// The place of the current buffer among the documents, the first where it is none.
pub open spec fn current_row(w: World) -> int {
    let i = position(documents(w), w.cur().0, 0);
    if i < documents(w).len() {
        i
    } else {
        0
    }
}

/// A text occurs in another.
pub open spec fn occurs(s: Seq<char>, part: Seq<char>) -> bool {
    exists|i: int|
        0 <= i && i + part.len() <= s.len() && #[trigger] s.subrange(i, i + part.len()) == part
}

/// A buffer whose path holds a text.
pub open spec fn path_holds(o: OpenModel, part: Seq<char>) -> bool {
    o.buffer.path is Some && occurs(o.buffer.path->0, part)
}

/// The first `n` buffers whose paths hold a text.
pub open spec fn holding(w: World, s: Seq<u64>, part: Seq<char>, n: int) -> Seq<u64>
    decreases n,
{
    if n <= 0 {
        Seq::empty()
    } else {
        let r = holding(w, s, part, n - 1);
        if path_holds(w.buffers[s[n - 1]], part) {
            r.push(s[n - 1])
        } else {
            r
        }
    }
}

/// The buffer that an argument names: the current one for nothing, the one before for `#`,
/// that of a number, or the only one whose path holds the text. Otherwise what is to be
/// said.
pub open spec fn named_buffer(w: World, arg: Seq<char>) -> Result<BufferId, Seq<char>> {
    let a = trimmed(arg);
    if a.len() == 0 {
        Ok(w.cur())
    } else if a == "#"@ {
        match w.alternate {
            Some(id) => Ok(id),
            None => Err("E23: No alternate file"@),
        }
    } else if decimal(a) is Some && decimal(a)->0 <= u64::MAX {
        let n = decimal(a)->0;
        if w.buffers.contains_key(n as u64) {
            Ok(BufferId(n as u64))
        } else {
            Err("E86: Buffer "@ + nat_text(n) + " does not exist"@)
        }
    } else {
        let m = holding(w, listed(w), a, listed(w).len() as int);
        if m.len() == 0 {
            Err("E94: No matching buffer for "@ + a)
        } else if m.len() == 1 {
            Ok(BufferId(m[0]))
        } else {
            Err("E93: More than one match for "@ + a)
        }
    }
}

/// The message of a failed answer.
pub open spec fn complained<T>(w: World, r: Result<T, Seq<char>>) -> World {
    match r {
        Ok(_) => w,
        Err(e) => w.said(e),
    }
}

/// What takes the place of the current buffer when it is closed: the one that was current
/// before, else the one beside it.
pub open spec fn replacement(w: World) -> Option<BufferId> {
    if w.alternate is Some && w.alternate->0 != w.cur() && w.buffers.contains_key(
        (w.alternate->0).0,
    ) {
        w.alternate
    } else {
        beside(w, w.cur())
    }
}

/// A window moved off a buffer that is being closed.
pub open spec fn moved_off(v: Window, from: BufferId, to: BufferId, lines: nat) -> Window {
    if v.buffer == from {
        if v.saved_cursor.line >= lines {
            Window {
                buffer: to,
                saved_cursor: Cursor {
                    line: if lines == 0 {
                        0
                    } else {
                        (lines - 1) as usize
                    },
                    col: 0,
                },
                ..v
            }
        } else {
            Window { buffer: to, ..v }
        }
    } else {
        v
    }
}

/// All windows moved off a buffer, to the current one.
pub open spec fn rebound(w: World, from: BufferId) -> World {
    let to = w.cur();
    let lines = edit_lines(w.buffers[to.0].buffer.text);
    World {
        windows: WindowsModel {
            windows: w.windows.windows.map_values(|v: Window| moved_off(v, from, to, lines)),
            ..w.windows
        },
        ..w
    }
}

/// The focused window on an empty buffer of its own.
pub open spec fn on_empty(w: World) -> World {
    let a = bound_to(
        buffer_added(w, opened(empty_buffer())),
        BufferId(w.next_buffer),
    );
    World {
        alternate: None,
        live: arrived_live(
            w.live,
            Place { cursor: Cursor { line: 0, col: 0 }, top: 0, leftcol: 0 },
        ),
        pending_scroll: None,
        ..a
    }
}

/// The current buffer left for the one that takes its place.
pub open spec fn moved_away(w: World) -> World {
    let a = World {
        alternate: if w.alternate == Some(w.cur()) {
            None
        } else {
            w.alternate
        },
        ..w
    };
    match replacement(w) {
        Some(id) => entered_buffer(a, id),
        None => on_empty(a),
    }
}

/// Whether a buffer can be closed: it is open, and there is a number for an empty one where
/// that has to take its place.
pub open spec fn deletable(w: World, id: BufferId) -> bool {
    &&& w.buffers.contains_key(id.0)
    &&& id == w.cur() && replacement(w) is None ==> w.next_buffer < u64::MAX
}

/// A buffer closed. The focused window moves to the one that takes its place, and the other
/// windows on it follow.
pub open spec fn buffer_gone(w: World, id: BufferId) -> World {
    let a = if id == w.cur() {
        moved_away(w)
    } else {
        World {
            alternate: if w.alternate == Some(id) {
                None
            } else {
                w.alternate
            },
            ..w
        }
    };
    let b = rebound(a, id);
    World { buffers: b.buffers.remove(id.0), ..b }
}

/// A buffer closed, unless it has changes and force is not asked for.
pub open spec fn buffer_deleted(w: World, id: BufferId, force: bool) -> World {
    if !deletable(w, id) {
        w
    } else if w.buffers[id.0].buffer.modified && !force {
        w.said(
            "E89: No write since last change for buffer "@ + nat_text(id.0 as nat)
                + " (add ! to override)"@,
        )
    } else {
        buffer_gone(w, id)
    }
}

/// A row of the list of buffers: the number, whether it is current or was before, whether it
/// shows, whether it has changes, the path and the line of the cursor.
pub open spec fn row_text(
    id: u64,
    here: bool,
    before: bool,
    shown: bool,
    modified: bool,
    path: Option<Seq<char>>,
    line: usize,
) -> Seq<char> {
    right_aligned(nat_text(id as nat), 3) + seq![
        ' ',
        if here {
            '%'
        } else if before {
            '#'
        } else {
            ' '
        },
        if shown {
            'a'
        } else {
            'h'
        },
        ' ',
        if modified {
            '+'
        } else {
            ' '
        },
        ' ',
        '"',
    ] + match path {
        Some(p) => p,
        None => "[No Name]"@,
    } + "\" line "@ + nat_text(clip(line + 1) as nat)
}

/// Whether a window shows a buffer.
pub open spec fn is_shown(w: World, id: u64) -> bool {
    exists|k: u64| #[trigger]
        w.windows.windows.contains_key(k) && w.windows.windows[k].buffer.0 == id
}

/// The row of a buffer in the list.
pub open spec fn buffer_row(w: World, id: u64) -> Seq<char> {
    let o = w.buffers[id];
    let here = id == w.cur().0;
    row_text(
        id,
        here,
        w.alternate == Some(BufferId(id)),
        is_shown(w, id),
        o.buffer.modified,
        o.buffer.path,
        if here {
            w.live.cursor.line
        } else {
            o.saved_cursor.line
        },
    )
}

/// The rows of the first `n` buffers.
pub open spec fn buffer_rows(w: World, s: Seq<u64>, n: int) -> Seq<Seq<char>>
    decreases n,
{
    if n <= 0 {
        Seq::empty()
    } else {
        buffer_rows(w, s, n - 1).push(buffer_row(w, s[n - 1]))
    }
}

fn list_row(
    id: u64,
    here: bool,
    before: bool,
    shown: bool,
    modified: bool,
    path: &Option<String>,
    line: usize,
) -> (s: String)
    ensures
        s@ == row_text(id, here, before, shown, modified, opt_chars(*path), line),
{
    let mut s = align_right(fmt_u64(id).as_str(), 3);
    s.push(' ');
    s.push(
        if here {
            '%'
        } else if before {
            '#'
        } else {
            ' '
        },
    );
    s.push(
        if shown {
            'a'
        } else {
            'h'
        },
    );
    s.push(' ');
    s.push(
        if modified {
            '+'
        } else {
            ' '
        },
    );
    s.push(' ');
    s.push('"');
    match path {
        Some(p) => s.append(p.as_str()),
        None => s.append("[No Name]"),
    }
    s.append("\" line ");
    s.append(fmt_usize(line.saturating_add(1)).as_str());
    assert(s@ =~= row_text(id, here, before, shown, modified, opt_chars(*path), line));
    s
}

/// Whether a text occurs in another.
pub fn holds_part(s: &str, part: &str) -> (b: bool)
    ensures
        b == occurs(s@, part@),
{
    let v = chars_of(s);
    let p = chars_of(part);
    if p.len() > v.len() {
        return false;
    }
    let mut i: usize = 0;
    while i <= v.len() - p.len()
        invariant
            v@ == s@,
            p@ == part@,
            p@.len() <= v@.len(),
            i <= v@.len() - p@.len() + 1,
            forall|k: int|
                0 <= k < i ==> #[trigger] s@.subrange(k, k + part@.len()) != part@,
        decreases v@.len() - p@.len() + 1 - i,
    {
        let mut j: usize = 0;
        while j < p.len() && v[i + j] == p[j]
            invariant
                v@ == s@,
                p@ == part@,
                i + p@.len() <= v@.len() <= usize::MAX,
                j <= p@.len(),
                forall|k: int| 0 <= k < j ==> v@[i + k] == #[trigger] p@[k],
            decreases p@.len() - j,
        {
            j += 1;
        }
        if j == p.len() {
            assert(s@.subrange(i as int, i + part@.len()) =~= part@);
            return true;
        }
        assert(s@.subrange(i as int, i + part@.len())[j as int] == v@[i + j]);
        if i == v.len() - p.len() {
            return false;
        }
        i += 1;
    }
    false
}

impl Editor {
    /// The current buffer.
    pub fn current_buffer_id(&self) -> (id: BufferId)
        requires
            self.wf(),
        ensures
            id == self@.cur(),
    {
        self.windows().cur().buffer
    }

    fn enter_buffer(&mut self, id: BufferId)
        requires
            old(self).wf(),
            old(self)@.buffers.contains_key(id.0),
        ensures
            final(self).wf(),
            final(self)@ == entered_buffer(old(self)@, id),
    {
        let p = match self.open_at(id) {
            Some(o) => Place {
                cursor: o.saved_cursor,
                top: o.saved_top,
                leftcol: o.saved_leftcol,
            },
            None => Place { cursor: Cursor::default(), top: 0, leftcol: 0 },
        };
        self.bind_current(id);
        self.arrive(p);
    }

    /// Make another buffer current; the one that was keeps its place and can be returned
    /// to. Nothing happens where there is no such buffer, or it is current.
    pub fn switch_buffer(&mut self, id: BufferId)
        requires
            old(self).wf(),
        ensures
            final(self).wf(),
            final(self)@ == switched(old(self)@, id),
    {
        let cur = self.current_buffer_id();
        if id == cur || !self.buffer_is_valid(id) {
            return;
        }
        proof {
            self.is_consistent();
        }
        let live = self.desk().live();
        let o = self.open_at_mut(cur);
        o.saved_cursor = live.cursor;
        o.saved_top = live.top;
        o.saved_leftcol = live.leftcol;
        o.buffer.marks.insert('"' as u64, (live.cursor.line, live.cursor.col));
        self.set_alternate(Some(cur));
        self.enter_buffer(id);
    }

    /// Make the buffer current that was before.
    pub fn goto_alternate(&mut self)
        requires
            old(self).wf(),
        ensures
            final(self).wf(),
            final(self)@ == to_alternate(old(self)@),
    {
        match self.alternate() {
            Some(id) => self.switch_buffer(id),
            None => self.echo("E23: No alternate file".to_owned()),
        }
    }

    fn index_of(ids: &Vec<BufferId>, id: BufferId, Ghost(s): Ghost<Seq<u64>>) -> (i: usize)
        requires
            ids@ == numbered(s),
        ensures
            i == position(s, id.0, 0),
            i <= s.len(),
    {
        let mut i: usize = 0;
        assert(ids@.len() == s.len());
        while i < ids.len()
            invariant
                ids@ == numbered(s),
                ids@.len() == s.len(),
                i <= s.len(),
                position(s, id.0, 0) == position(s, id.0, i as int),
            decreases s.len() - i,
        {
            assert(ids@[i as int] == BufferId(s[i as int]));
            if ids[i] == id {
                return i;
            }
            i += 1;
        }
        i
    }

    /// The documents, in the order of their numbers.
    pub fn focused_buffer_ids(&self) -> (r: Vec<BufferId>)
        requires
            self.wf(),
        ensures
            r@ == numbered(documents(self@)),
    {
        let ids = self.buffer_ids();
        let ghost s = listed(self@);
        let mut r: Vec<BufferId> = Vec::new();
        let mut i: usize = 0;
        assert(ids@.len() == s.len());
        assert(r@ =~= numbered(documents_among(self@, s, 0)));
        while i < ids.len()
            invariant
                self.wf(),
                s == listed(self@),
                ids@ == numbered(s),
                ids@.len() == s.len(),
                i <= s.len(),
                r@ == numbered(documents_among(self@, s, i as int)),
            decreases s.len() - i,
        {
            proof {
                self.listed_is_whole();
                assert(ids@[i as int] == BufferId(s[i as int]));
            }
            let ghost before = documents_among(self@, s, i as int);
            let view = match self.open_at(ids[i]) {
                Some(o) => o.buffer.view_id().is_some(),
                None => false,
            };
            if !view {
                r.push(ids[i]);
                assert(r@ =~= numbered(before.push(s[i as int])));
            }
            i += 1;
        }
        r
    }

    /// The document before a buffer in the order of their numbers, or the one after it.
    pub fn neighbor_of(&self, id: BufferId) -> (r: Option<BufferId>)
        requires
            self.wf(),
        ensures
            r == beside(self@, id),
    {
        proof {
            reveal(beside);
        }
        let ids = self.focused_buffer_ids();
        let ghost s = documents(self@);
        let n: usize = ids.len();
        assert(n == s.len());
        let mut i: usize = 0;
        while i < n && ids[i].0 < id.0
            invariant
                ids@ == numbered(s),
                n == ids@.len(),
                n == s.len(),
                i <= n,
                rank(s, id.0, 0) == rank(s, id.0, i as int),
                forall|k: int| 0 <= k < n ==> #[trigger] ids@[k] == BufferId(s[k]),
            decreases n - i,
        {
            i += 1;
        }
        assert(forall|k: int| 0 <= k < n ==> #[trigger] ids@[k] == BufferId(s[k]));
        if i > 0 {
            return Some(ids[i - 1]);
        }
        let next: usize = if i < n && ids[i] == id {
            i + 1
        } else {
            i
        };
        if next < n {
            Some(ids[next])
        } else {
            None
        }
    }

    fn place_on(&self, n: usize, back: bool) -> (r: Option<BufferId>)
        requires
            self.wf(),
        ensures
            r == places_on(
                self@,
                if back {
                    -(n as int)
                } else {
                    n as int
                },
            ),
    {
        let ids = self.focused_buffer_ids();
        let ghost s = documents(self@);
        let len: usize = ids.len();
        assert(len == s.len());
        let i: usize = Self::index_of(&ids, self.current_buffer_id(), Ghost(s));
        if i >= len {
            return None;
        }
        let whole: usize = n % len;
        let step: usize = if back && whole > 0 {
            len - whole
        } else {
            whole
        };
        let at: usize = if step < len - i {
            i + step
        } else {
            step - (len - i)
        };
        proof {
            lemma_round(i as int, n as int, len as int);
            lemma_back(i as int, n as int, len as int);
            lemma_round(i as int, len - whole as int, len as int);
            if whole == 0 {
                vstd::arithmetic::div_mod::lemma_mod_self_0(len as int);
            } else {
                vstd::arithmetic::div_mod::lemma_small_mod((len - whole) as nat, len as nat);
            }
            assert(ids@[at as int] == BufferId(s[at as int]));
        }
        Some(ids[at])
    }

    fn go_to(&mut self, to: Option<BufferId>)
        requires
            old(self).wf(),
        ensures
            final(self).wf(),
            final(self)@ == moved_to(old(self)@, to),
    {
        if let Some(id) = to {
            self.switch_buffer(id);
        }
    }

    /// The list of the buffers holds the current one.
    pub(crate) proof fn listed_is_whole(&self)
        requires
            self.wf(),
        ensures
            listed(self@).len() > 0,
            0 <= position(listed(self@), self@.cur().0, 0) < listed(self@).len(),
            forall|i: int|
                0 <= i < listed(self@).len() ==> self@.buffers.contains_key(
                    #[trigger] listed(self@)[i],
                ),
    {
        reveal(consistent);
        self.is_consistent();
        let s = listed(self@);
        lemma_listed(self@);
        assert(s.to_set().contains(self@.cur().0));
        lemma_position(s, self@.cur().0, 0);
        assert forall|i: int| 0 <= i < s.len() implies self@.buffers.contains_key(
            #[trigger] s[i],
        ) by {
            assert(s.to_set().contains(s[i]));
        }
    }

    /// Make the document current that lies some places on in the order of their numbers,
    /// going round.
    pub fn ex_bnext(&mut self, count: usize)
        requires
            old(self).wf(),
        ensures
            final(self).wf(),
            final(self)@ == moved_to(old(self)@, places_on(old(self)@, count as int)),
    {
        let to = self.place_on(count, false);
        self.go_to(to);
    }

    /// Make the document current that lies some places before in the order of their numbers,
    /// going round.
    pub fn ex_bprev(&mut self, count: usize)
        requires
            old(self).wf(),
        ensures
            final(self).wf(),
            final(self)@ == moved_to(old(self)@, places_on(old(self)@, -(count as int))),
    {
        let to = self.place_on(count, true);
        self.go_to(to);
    }

    /// Make the first document current.
    pub fn ex_bfirst(&mut self)
        requires
            old(self).wf(),
        ensures
            final(self).wf(),
            final(self)@ == moved_to(old(self)@, end_document(old(self)@, false)),
    {
        let ids = self.focused_buffer_ids();
        assert(ids@.len() == documents(self@).len());
        if ids.len() > 0 {
            assert(ids@[0] == BufferId(documents(self@)[0]));
            self.switch_buffer(ids[0]);
        }
    }

    /// Make the last document current.
    pub fn ex_blast(&mut self)
        requires
            old(self).wf(),
        ensures
            final(self).wf(),
            final(self)@ == moved_to(old(self)@, end_document(old(self)@, true)),
    {
        let ids = self.focused_buffer_ids();
        let n: usize = ids.len();
        assert(n == documents(self@).len());
        if n > 0 {
            assert(ids@[n - 1] == BufferId(documents(self@)[n - 1]));
            self.switch_buffer(ids[n - 1]);
        }
    }

    fn only_holding(&self, part: &str) -> (r: Result<BufferId, String>)
        requires
            self.wf(),
        ensures
            ({
                let m = holding(self@, listed(self@), part@, listed(self@).len() as int);
                if m.len() == 1 {
                    r is Ok && r->Ok_0 == BufferId(m[0])
                } else {
                    r is Err && r->Err_0@ == if m.len() == 0 {
                        "E94: No matching buffer for "@ + part@
                    } else {
                        "E93: More than one match for "@ + part@
                    }
                }
            }),
    {
        let ids = self.buffer_ids();
        let ghost s = listed(self@);
        let mut found: Option<BufferId> = None;
        let mut many = false;
        let mut i: usize = 0;
        assert(ids@.len() == s.len());
        while i < ids.len()
            invariant
                self.wf(),
                s == listed(self@),
                ids@ == numbered(s),
                ids@.len() == s.len(),
                i <= s.len(),
                ({
                    let m = holding(self@, s, part@, i as int);
                    &&& many == (m.len() > 1)
                    &&& found is Some == (m.len() > 0)
                    &&& m.len() > 0 ==> found->0 == BufferId(m[0])
                }),
            decreases s.len() - i,
        {
            proof {
                self.listed_is_whole();
                assert(ids@[i as int] == BufferId(s[i as int]));
            }
            let hit = match self.open_at(ids[i]) {
                Some(o) => match &o.buffer.path {
                    Some(p) => holds_part(p.as_str(), part),
                    None => false,
                },
                None => false,
            };
            if hit {
                if found.is_some() {
                    many = true;
                } else {
                    found = Some(ids[i]);
                }
            }
            i += 1;
        }
        match found {
            Some(id) => if many {
                Err(joined_str("E93: More than one match for ", part))
            } else {
                Ok(id)
            },
            None => Err(joined_str("E94: No matching buffer for ", part)),
        }
    }

    fn find_named(&self, arg: &str) -> (r: Result<BufferId, String>)
        requires
            self.wf(),
        ensures
            match named_buffer(self@, arg@) {
                Ok(id) => r is Ok && r->Ok_0 == id,
                Err(e) => r is Err && r->Err_0@ == e,
            },
    {
        let a = trim(arg);
        if a.as_str().is_empty() {
            return Ok(self.current_buffer_id());
        }
        if same(a.as_str(), "#") {
            return match self.alternate() {
                Some(id) => Ok(id),
                None => Err("E23: No alternate file".to_owned()),
            };
        }
        let v = chars_of(a.as_str());
        assert(v@.subrange(0, v@.len() as int) =~= v@);
        if let Some(n) = parse_u64(&v, 0, v.len()) {
            if self.buffer_is_valid(BufferId(n)) {
                return Ok(BufferId(n));
            }
            let mut s = joined_str("E86: Buffer ", fmt_u64(n).as_str());
            s.append(" does not exist");
            return Err(s);
        }
        self.only_holding(a.as_str())
    }

    /// The buffer that an argument names; where it names none, that is said.
    pub fn resolve_buffer(&mut self, arg: &str) -> (r: Option<BufferId>)
        requires
            old(self).wf(),
        ensures
            final(self).wf(),
            final(self)@ == complained(old(self)@, named_buffer(old(self)@, arg@)),
            match named_buffer(old(self)@, arg@) {
                Ok(id) => r == Some(id),
                Err(_) => r is None,
            },
    {
        match self.find_named(arg) {
            Ok(id) => Some(id),
            Err(e) => {
                self.echo(e);
                None
            },
        }
    }

    fn shows_buffer(&self, id: BufferId) -> (b: bool)
        requires
            self.wf(),
        ensures
            b == is_shown(self@, id.0),
    {
        let t = self.windows();
        proof {
            self.is_consistent();
            t.windows.ids_are_keys();
        }
        let n: usize = t.windows.len();
        let mut i: usize = 0;
        while i < n
            invariant
                t.windows.wf(),
                n == t.windows.ids().len(),
                i <= n,
                t.windows@ == self@.windows.windows,
                forall|k: int|
                    0 <= k < i ==> t.windows@[#[trigger] t.windows.ids()[k]].buffer != id,
            decreases n - i,
        {
            let k: u64 = t.windows.id_at(i);
            if t.windows.at(k).buffer == id {
                return true;
            }
            i += 1;
        }
        proof {
            assert forall|k: u64| #[trigger]
                self@.windows.windows.contains_key(k) implies self@.windows.windows[k].buffer.0
                != id.0 by {
                assert(t.windows.ids().contains(k));
                let j = choose|j: int| 0 <= j < t.windows.ids().len() && t.windows.ids()[j] == k;
                assert(t.windows@[t.windows.ids()[j]].buffer != id);
            }
        }
        false
    }

    fn row_of(&self, id: BufferId) -> (s: String)
        requires
            self.wf(),
            self@.buffers.contains_key(id.0),
        ensures
            s@ == buffer_row(self@, id.0),
    {
        let here = id == self.current_buffer_id();
        let before = self.alternate() == Some(id);
        let shown = self.shows_buffer(id);
        let line: usize = self.desk().live().cursor.line;
        match self.open_at(id) {
            Some(o) => list_row(
                id.0,
                here,
                before,
                shown,
                o.buffer.modified,
                &o.buffer.path,
                if here {
                    line
                } else {
                    o.saved_cursor.line
                },
            ),
            None => String::new(),
        }
    }

    /// The list of the documents, and the row of the current one.
    pub fn buffer_lines(&self) -> (r: (Vec<String>, usize))
        requires
            self.wf(),
        ensures
            texts(r.0@) == buffer_rows(
                self@,
                documents(self@),
                documents(self@).len() as int,
            ),
            r.1 == current_row(self@),
    {
        let ids = self.focused_buffer_ids();
        let ghost s = documents(self@);
        let mut lines: Vec<String> = Vec::new();
        let mut i: usize = 0;
        assert(ids@.len() == s.len());
        assert(texts(lines@) =~= buffer_rows(self@, s, 0));
        while i < ids.len()
            invariant
                self.wf(),
                s == documents(self@),
                ids@ == numbered(s),
                ids@.len() == s.len(),
                i <= s.len(),
                texts(lines@) == buffer_rows(self@, s, i as int),
            decreases s.len() - i,
        {
            proof {
                lemma_documents(self@);
                self.is_consistent();
                assert(ids@[i as int] == BufferId(s[i as int]));
            }
            let ghost before = texts(lines@);
            lines.push(self.row_of(ids[i]));
            assert(texts(lines@) =~= before.push(buffer_row(self@, s[i as int])));
            i += 1;
        }
        let row: usize = Self::index_of(&ids, self.current_buffer_id(), Ghost(s));
        (
            lines,
            if row < ids.len() {
                row
            } else {
                0
            },
        )
    }
}

impl Editor {
    /// Move all windows off a buffer, to the current one.
    fn rebind_windows(&mut self, from: BufferId)
        requires
            old(self).wf(),
            from != old(self)@.cur(),
        ensures
            final(self).wf(),
            final(self)@ == rebound(old(self)@, from),
            forall|k: u64| #[trigger]
                final(self)@.windows.windows.contains_key(k)
                    ==> final(self)@.windows.windows[k].buffer != from,
            final(self)@.cur() == old(self)@.cur(),
    {
        proof {
            self.is_consistent();
            self.windows.windows.ids_are_keys();
        }
        let to = self.current_buffer_id();
        let lines: usize = self.desk().buffer().line_count();
        let ghost w = self@;
        let ghost f = |v: Window| moved_off(v, from, to, lines as nat);
        let ghost ids = self.windows.windows.ids();
        let n: usize = self.windows.windows.len();
        let mut i: usize = 0;
        while i < n
            invariant
                n == ids.len(),
                i <= n,
                self.windows.windows.wf(),
                self.windows.windows.ids() == ids,
                ids.no_duplicates(),
                f == (|v: Window| moved_off(v, from, to, lines as nat)),
                forall|k: int| 0 <= k < n ==> w.windows.windows.contains_key(#[trigger] ids[k]),
                self.windows@ == (WindowsModel {
                    windows: self.windows@.windows,
                    ..w.windows
                }),
                *self == (Editor { windows: self.windows, ..*old(self) }),
                self.windows@.windows.dom() == w.windows.windows.dom(),
                forall|k: int|
                    0 <= k < i ==> self.windows@.windows[#[trigger] ids[k]] == f(
                        w.windows.windows[ids[k]],
                    ),
                forall|k: int|
                    i <= k < n ==> self.windows@.windows[#[trigger] ids[k]]
                        == w.windows.windows[ids[k]],
            decreases n - i,
        {
            let id: u64 = self.windows.windows.id_at(i);
            let v = self.windows.windows.at_mut(id);
            if v.buffer == from {
                v.buffer = to;
                if v.saved_cursor.line >= lines {
                    v.saved_cursor = Cursor { line: lines.saturating_sub(1), col: 0 };
                }
            }
            proof {
                assert(self.windows@.windows.dom() =~= w.windows.windows.dom());
                assert forall|k: int| 0 <= k < i + 1 implies self.windows@.windows[
                #[trigger] ids[k]] == f(w.windows.windows[ids[k]]) by {
                    if k < i {
                        assert(ids[k] != ids[i as int]);
                    }
                }
                assert forall|k: int| i + 1 <= k < n implies self.windows@.windows[
                #[trigger] ids[k]] == w.windows.windows[ids[k]] by {
                    assert(ids[k] != ids[i as int]);
                }
            }
            i += 1;
        }
        proof {
            let r = rebound(w, from);
            assert forall|k: u64| #[trigger] w.windows.windows.contains_key(
                k,
            ) implies self.windows@.windows[k] == r.windows.windows[k] by {
                let j = ids.index_of(k);
                assert(ids[j] == k);
            }
            assert(self.windows@.windows =~= r.windows.windows);
            assert(w.windows.windows.contains_key(w.windows.current.0));
            assert(r.cur() == w.cur());
            assert(self@ == r);
            assert(r.windows.windows.dom() =~= w.windows.windows.dom());
            crate::wins::lemma_same_windows(w.windows, r.windows.windows);
            reveal(consistent);
            assert forall|k: u64| #[trigger] r.windows.windows.contains_key(
                k,
            ) implies r.buffers.contains_key(r.windows.windows[k].buffer.0)
                && r.windows.windows[k].buffer != from by {
                assert(w.windows.windows.contains_key(k));
            }
        }
    }

    /// Forget a buffer that no window shows.
    fn drop_buffer(&mut self, id: BufferId)
        requires
            old(self).wf(),
            forall|k: u64| #[trigger]
                old(self)@.windows.windows.contains_key(k)
                    ==> old(self)@.windows.windows[k].buffer != id,
        ensures
            final(self).wf(),
            final(self)@ == (World { buffers: old(self)@.buffers.remove(id.0), ..old(self)@ }),
    {
        proof {
            self.is_consistent();
        }
        let ghost w = self@;
        let _gone = self.others.remove(id.0);
        proof {
            assert(w.cur() != id);
            assert(self@.buffers =~= w.buffers.remove(id.0));
            reveal(consistent);
            assert forall|k: u64| #[trigger] self@.windows.windows.contains_key(
                k,
            ) implies self@.buffers.contains_key(self@.windows.windows[k].buffer.0) by {
                assert(w.windows.windows.contains_key(k));
            }
            assert forall|k: u64| #[trigger] self@.buffers.contains_key(k) implies k
                < self@.next_buffer by {
                assert(w.buffers.contains_key(k));
            }
        }
    }

    fn replacement(&self) -> (r: Option<BufferId>)
        requires
            self.wf(),
        ensures
            r == replacement(self@),
            r is Some ==> self@.buffers.contains_key((r->0).0) && r->0 != self@.cur(),
    {
        let cur = self.current_buffer_id();
        if let Some(a) = self.alternate() {
            if a != cur && self.buffer_is_valid(a) {
                return Some(a);
            }
        }
        proof {
            self.is_consistent();
            reveal(consistent);
            if beside(self@, cur) is Some {
                lemma_beside(self@, cur);
            }
        }
        self.neighbor_of(cur)
    }

    /// Show an empty buffer of its own in the focused window.
    fn go_empty(&mut self)
        requires
            old(self).wf(),
            old(self)@.next_buffer < u64::MAX,
        ensures
            final(self).wf(),
            final(self)@ == on_empty(old(self)@),
            final(self)@.cur() == BufferId(old(self)@.next_buffer),
    {
        proof {
            self.is_consistent();
        }
        let ghost w = self@;
        if let Some(id) = self.add_buffer(Buffer::empty()) {
            self.bind_current(id);
            self.set_alternate(None);
            let ghost b = self@;
            let d = self.desk_mut();
            let mut live = d.live();
            live.cursor = Cursor::default();
            live.top = 0;
            live.leftcol = 0;
            live.mode = Mode::Normal;
            live.pending = crate::command::PendingCommand::default();
            live.scroll_from = None;
            d.set_live(live);
            self.set_pending_scroll(None);
            proof {
                assert(self@.buffers =~= b.buffers);
            }
        }
    }

    fn move_away(&mut self, to: Option<BufferId>)
        requires
            old(self).wf(),
            to == replacement(old(self)@),
            to is Some ==> old(self)@.buffers.contains_key((to->0).0),
            to is None ==> old(self)@.next_buffer < u64::MAX,
        ensures
            final(self).wf(),
            final(self)@ == moved_away(old(self)@),
    {
        let cur = self.current_buffer_id();
        if self.alternate() == Some(cur) {
            self.set_alternate(None);
        }
        match to {
            Some(id) => self.enter_buffer(id),
            None => self.go_empty(),
        }
    }

    /// Close a buffer, unless it has changes and force is not asked for. The result says
    /// whether it was closed.
    pub fn delete_buffer(&mut self, target: BufferId, force: bool) -> (r: bool)
        requires
            old(self).wf(),
        ensures
            final(self).wf(),
            final(self)@ == buffer_deleted(old(self)@, target, force),
            r == (deletable(old(self)@, target) && (force
                || !old(self)@.buffers[target.0].buffer.modified)),
    {
        let modified = match self.open_at(target) {
            Some(o) => o.buffer.modified,
            None => {
                return false;
            },
        };
        let here = target == self.current_buffer_id();
        let to = if here {
            self.replacement()
        } else {
            None
        };
        if here && to.is_none() && self.next_buffer == u64::MAX {
            return false;
        }
        if modified && !force {
            let mut s = joined_str(
                "E89: No write since last change for buffer ",
                fmt_u64(target.0).as_str(),
            );
            s.append(" (add ! to override)");
            self.echo(s);
            return false;
        }
        proof {
            self.is_consistent();
        }
        if here {
            self.move_away(to);
            proof {
                lemma_moved_away(old(self)@, self@);
            }
        } else if self.alternate() == Some(target) {
            self.set_alternate(None);
        }
        self.rebind_windows(target);
        self.drop_buffer(target);
        true
    }

    /// Close the buffer that an argument names.
    pub fn ex_bdelete(&mut self, args: &str, bang: bool)
        requires
            old(self).wf(),
        ensures
            final(self).wf(),
            final(self)@ == match named_buffer(old(self)@, args@) {
                Ok(id) => buffer_deleted(old(self)@, id, bang),
                Err(e) => old(self)@.said(e),
            },
    {
        if let Some(id) = self.resolve_buffer(args) {
            let _closed = self.delete_buffer(id, bang);
        }
    }
}

/// The current buffer has been left for another.
proof fn lemma_moved_away(w: World, r: World)
    requires
        consistent(w),
        w.buffers.contains_key(w.cur().0),
        r == moved_away(w),
        replacement(w) is None ==> w.next_buffer < u64::MAX,
        w.windows.windows.contains_key(w.windows.current.0),
    ensures
        r.cur() != w.cur(),
{
    reveal(arrived);
    reveal(crate::editor::seen);
    reveal(consistent);
    if beside(w, w.cur()) is Some {
        lemma_beside(w, w.cur());
    }
}

proof fn lemma_documents_among(w: World, s: Seq<u64>, n: int)
    requires
        0 <= n <= s.len(),
        crate::idmap::ascending(s),
    ensures
        crate::idmap::ascending(documents_among(w, s, n)),
        forall|k: int|
            0 <= k < documents_among(w, s, n).len() ==> s.take(n).contains(
                #[trigger] documents_among(w, s, n)[k],
            ),
    decreases n,
{
    if n > 0 {
        lemma_documents_among(w, s, n - 1);
        let r = documents_among(w, s, n - 1);
        let q = documents_among(w, s, n);
        assert forall|k: int| 0 <= k < q.len() implies s.take(n).contains(#[trigger] q[k]) by {
            if k < r.len() {
                assert(s.take(n - 1).contains(r[k]));
                let p = s.take(n - 1);
                let i = choose|i: int| 0 <= i < p.len() && p[i] == r[k];
                assert(s.take(n)[i] == r[k]);
            } else {
                assert(s.take(n)[n - 1] == q[k]);
            }
        }
        assert forall|i: int, j: int| 0 <= i < j < q.len() implies #[trigger] q[i]
            < #[trigger] q[j] by {
            if j == r.len() {
                assert(s.take(n - 1).contains(r[i]));
                let p = s.take(n - 1);
                let m = choose|m: int| 0 <= m < p.len() && p[m] == r[i];
                assert(s[m] < s[n - 1]);
            }
        }
    }
}

/// The list of the documents is in order, and each is an open buffer.
pub proof fn lemma_documents(w: World)
    requires
        consistent(w),
    ensures
        crate::idmap::ascending(documents(w)),
        forall|k: int|
            0 <= k < documents(w).len() ==> w.buffers.contains_key(#[trigger] documents(w)[k]),
{
    reveal(consistent);
    lemma_listed(w);
    let s = listed(w);
    lemma_documents_among(w, s, s.len() as int);
    assert(s.take(s.len() as int) =~= s);
    assert forall|k: int| 0 <= k < documents(w).len() implies w.buffers.contains_key(
        #[trigger] documents(w)[k],
    ) by {
        assert(s.to_set().contains(documents(w)[k]));
    }
}

proof fn lemma_rank(s: Seq<u64>, id: u64, i: int)
    requires
        0 <= i <= s.len(),
    ensures
        i <= rank(s, id, i) <= s.len(),
        rank(s, id, i) < s.len() ==> s[rank(s, id, i)] >= id,
        rank(s, id, i) > i ==> s[rank(s, id, i) - 1] < id,
    decreases s.len() - i,
{
    if i < s.len() && s[i] < id {
        lemma_rank(s, id, i + 1);
    }
}

/// The document beside a buffer is another open buffer.
pub proof fn lemma_beside(w: World, id: BufferId)
    requires
        consistent(w),
        beside(w, id) is Some,
    ensures
        w.buffers.contains_key((beside(w, id)->0).0),
        beside(w, id)->0 != id,
{
    reveal(beside);
    lemma_documents(w);
    let s = documents(w);
    lemma_rank(s, id.0, 0);
    let i = rank(s, id.0, 0);
    if i == 0 && i + 1 < s.len() {
        assert(s[0] < s[1]);
    }
}

/// The list of the buffers is in order and whole.
pub proof fn lemma_listed(w: World)
    requires
        w.buffers.dom().finite(),
    ensures
        crate::idmap::ascending(listed(w)),
        listed(w).to_set() == w.buffers.dom(),
{
    let v = crate::editor::lemma_order_exists(w.buffers.dom());
    assert(crate::idmap::ascending(v) && v.to_set() == w.buffers.dom());
}

pub proof fn lemma_position(s: Seq<u64>, id: u64, i: int)
    requires
        0 <= i <= s.len(),
    ensures
        i <= position(s, id, i) <= s.len(),
        position(s, id, i) < s.len() ==> s[position(s, id, i)] == id,
        s.contains(id) && (forall|k: int| 0 <= k < i ==> s[k] != id) ==> position(s, id, i)
            < s.len(),
    decreases s.len() - i,
{
    if i < s.len() && s[i] != id {
        lemma_position(s, id, i + 1);
    }
}

proof fn lemma_round(i: int, n: int, len: int)
    requires
        0 <= i < len,
        0 <= n,
    ensures
        (i + n) % len == if n % len < len - i {
            i + n % len
        } else {
            n % len - (len - i)
        },
        0 <= n % len < len,
{
    let q = n / len;
    let r = n % len;
    assert(n == q * len + r && 0 <= r < len) by (nonlinear_arith)
        requires
            q == n / len,
            r == n % len,
            len > 0,
    ;
    let t = if r < len - i {
        i + r
    } else {
        r - (len - i)
    };
    let k = if r < len - i {
        q
    } else {
        q + 1
    };
    assert(i + n == k * len + t) by (nonlinear_arith)
        requires
            n == q * len + r,
            (k == q && t == i + r) || (k == q + 1 && t == r - (len - i)),
    ;
    vstd::arithmetic::div_mod::lemma_fundamental_div_mod_converse(i + n, len, k, t);
}

proof fn lemma_back(i: int, n: int, len: int)
    requires
        0 <= i < len,
        0 <= n,
    ensures
        (i + (len - n % len)) % len == (i - n) % len,
        0 <= n % len < len,
{
    let q = n / len;
    let r = n % len;
    assert(n == q * len + r && 0 <= r < len) by (nonlinear_arith)
        requires
            q == n / len,
            r == n % len,
            len > 0,
    ;
    let a = i + (len - r);
    let b = i - n;
    assert(a == b + (q + 1) * len) by (nonlinear_arith)
        requires
            n == q * len + r,
            a == i + (len - r),
            b == i - n,
    ;
    vstd::arithmetic::div_mod::lemma_mod_multiples_vanish(q + 1, b, len);
    assert((q + 1) * len == len * (q + 1)) by (nonlinear_arith);
}

} // verus!
