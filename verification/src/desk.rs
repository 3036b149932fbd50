//! The current buffer with what the editor keeps at hand while it is changed: the
//! state of the focused window, and the registers.

use vstd::prelude::*;
use vstd::utf8::*;

use crate::buffer::{
    inserted, lemma_cut_utf8, lemma_inserted, lemma_normalized, lemma_removed, lemma_spliced_utf8,
    normalized, removed, Buffer, BufferModel,
};
use crate::mode::Mode;
use crate::nav::{
    ceil_idx, char_or_blank, cursor_at, floor_idx, last_idx, last_line_of, lemma_line_ends_early,
    lemma_line_offset, lemma_line_text, lemma_next_idx, next_idx, prev_idx,
};
use crate::open::{clamped, spot, undo_pushed, Live, OpenBuffer, OpenModel};
use crate::registers::{held_in, put_in, reg_of, Reg, Register, Registers, Regs};
use crate::rope::{char_at, rope_slice};
use crate::text::{
    buffer_text, cut_out, edit_lines, lemma_after_ascii_on_char, lemma_buffer_lines,
    lemma_line_start, lemma_line_start_on_char, line_start, line_text, on_char, spliced_in,
};
use crate::options::tab_width;
use crate::unicode::{next_bound, next_grapheme, virtcol, virtcol_of};
use crate::window::Cursor;

verus! {

/// What a [`Desk`] holds.
pub ghost struct Pane {
    pub open: OpenModel,
    pub live: Live,
    pub regs: Regs,
}

/// The current buffer, the state of the focused window, and the registers.
pub struct Desk {
    open: OpenBuffer,
    live: Live,
    regs: Registers,
}

impl View for Desk {
    type V = Pane;

    closed spec fn view(&self) -> Pane {
        Pane { open: self.open@, live: self.live, regs: self.regs@ }
    }
}

impl Pane {
    pub open spec fn text(self) -> Seq<u8> {
        self.open.buffer.text
    }

    pub open spec fn with_buffer(self, b: BufferModel) -> Pane {
        Pane { open: OpenModel { buffer: b, ..self.open }, ..self }
    }

    pub open spec fn with_cursor(self, c: Cursor) -> Pane {
        Pane { live: Live { cursor: c, ..self.live }, ..self }
    }

    pub open spec fn with_mode(self, mode: Mode) -> Pane {
        Pane { live: Live { mode, ..self.live }, ..self }
    }

    /// The state that a change is about to leave is recorded.
    #[verifier::opaque]
    pub open spec fn pushed(self) -> Pane {
        Pane {
            open: undo_pushed(self.open, self.live.cursor, self.live.snapshot_taken),
            ..self
        }
    }

    /// Typing begins as a part of the change under way.
    pub open spec fn typing(self) -> Pane {
        Pane { live: Live { mode: Mode::Insert, snapshot_taken: true, ..self.live }, ..self }
    }

    /// The cursor is held to the text.
    #[verifier::opaque]
    pub open spec fn held(self) -> Pane {
        Pane { live: clamped(self.text(), self.live), ..self }
    }

    /// The cursor is at an offset, or at the last one.
    #[verifier::opaque]
    pub open spec fn at(self, i: int) -> Pane {
        let last = last_idx(self.text());
        self.with_cursor(
            cursor_at(
                self.text(),
                if i < last {
                    i
                } else {
                    last
                },
            ),
        )
    }

    /// An offset lies between characters.
    #[verifier::opaque]
    pub open spec fn between(self, i: int) -> bool {
        on_char(self.text(), i)
    }

    /// The offset one grapheme on.
    #[verifier::opaque]
    pub open spec fn next(self, i: int) -> int {
        next_idx(self.text(), i)
    }

    /// The offset one grapheme back.
    #[verifier::opaque]
    pub open spec fn prev(self, i: int) -> int {
        prev_idx(self.text(), i)
    }

    /// The screen column of a byte column of the cursor's line.
    #[verifier::opaque]
    pub open spec fn column(self, col: int) -> int {
        virtcol_of(self.line(), col, tab_width(self.open.buffer.options) as int)
    }

    /// The line break before the cursor's line: from the end of the line above it.
    #[verifier::opaque]
    pub open spec fn break_before(self) -> (int, int) {
        let above = Cursor { line: (self.live.cursor.line - 1) as usize, col: 0 };
        let e = self.with_cursor(above).line_end();
        (e, e + encode_utf8(seq![char_or_blank(self.text(), e)]).len())
    }

    /// Where a line begins.
    #[verifier::opaque]
    pub open spec fn start_of(self, n: int) -> int {
        line_start(self.text(), n)
    }

    /// The offset of the cursor.
    #[verifier::opaque]
    pub open spec fn spot(self) -> int {
        spot(self.text(), self.live.cursor)
    }

    /// The number of the cursor's line, held to the last one.
    #[verifier::opaque]
    pub open spec fn line_no(self) -> int {
        held_line(self.text(), self.live.cursor.line)
    }

    /// The cursor's line.
    #[verifier::opaque]
    pub open spec fn line(self) -> Seq<u8> {
        line_text(self.text(), self.line_no())
    }

    /// The cursor's column, held to its line.
    #[verifier::opaque]
    pub open spec fn col(self) -> int {
        if self.live.cursor.col < self.line().len() {
            self.live.cursor.col as int
        } else {
            self.line().len() as int
        }
    }

    /// The end of the cursor's line.
    #[verifier::opaque]
    pub open spec fn line_end(self) -> int {
        line_start(self.text(), self.line_no()) + self.line().len()
    }
}

/// A line number, held to the last editable line.
pub open spec fn held_line(t: Seq<u8>, line: usize) -> int {
    if line < last_line_of(t) {
        line as int
    } else {
        last_line_of(t)
    }
}

pub open spec fn dirty(b: BufferModel) -> BufferModel {
    BufferModel { modified: true, ..b }
}

/// A range with its ends held to the text and moved out to graphemes.
#[verifier::opaque]
pub open spec fn grown(t: Seq<u8>, lo: int, hi: int) -> (int, int) {
    let h = if hi < t.len() {
        hi
    } else {
        t.len() as int
    };
    (
        floor_idx(
            t,
            if lo < h {
                lo
            } else {
                h
            },
        ),
        ceil_idx(t, h),
    )
}

/// The text of a range goes to the register that the pending command names.
#[verifier::opaque]
pub open spec fn yanked(p: Pane, lo: int, hi: int, linewise: bool) -> Pane {
    let (a, z) = grown(p.text(), lo, hi);
    if a >= z {
        p
    } else {
        Pane {
            regs: put_in(
                p.regs,
                p.live.pending.register,
                Reg { text: decode_utf8(p.text().subrange(a, z)), linewise },
            ),
            ..p
        }
    }
}

/// The text of a range goes, and the change can be undone.
#[verifier::opaque]
pub open spec fn deleted(p: Pane, lo: int, hi: int) -> Pane {
    let (a, z) = grown(p.text(), lo, hi);
    if a >= z {
        p
    } else {
        let q = p.pushed();
        q.with_buffer(dirty(normalized(removed(q.open.buffer, a, z))))
    }
}

/// From `from`, `count` graphemes on and no further than `limit`: the offset
/// reached and how many were passed.
pub open spec fn advanced(t: Seq<u8>, from: int, count: nat, limit: int) -> (int, nat)
    decreases count,
{
    let n = next_idx(t, from);
    let next = if n < limit {
        n
    } else {
        limit
    };
    if count == 0 || from >= limit || next == from {
        (from, 0)
    } else {
        let (r, c) = advanced(t, next, (count - 1) as nat, limit);
        (r, c + 1)
    }
}

/// Whether a character is upper case in Unicode.
pub uninterp spec fn uppercase(c: char) -> bool;

/// What a character becomes in lower case.
pub uninterp spec fn lowered(c: char) -> Seq<char>;

/// What a character becomes in upper case.
pub uninterp spec fn raised(c: char) -> Seq<char>;

/// `char::is_uppercase`, by its name.
#[verifier::external_body]
pub(crate) fn is_uppercase(c: char) -> (b: bool)
    ensures
        b == uppercase(c),
{
    c.is_uppercase()
}

/// `char::to_lowercase`, as a string, by its name.
#[verifier::external_body]
fn to_lower(c: char) -> (s: String)
    ensures
        s@ == lowered(c),
{
    c.to_lowercase().to_string()
}

/// `char::to_uppercase`, as a string, by its name.
#[verifier::external_body]
fn to_upper(c: char) -> (s: String)
    ensures
        s@ == raised(c),
{
    c.to_uppercase().to_string()
}

/// A character in the other case.
pub open spec fn other_case(c: char) -> Seq<char> {
    if uppercase(c) {
        lowered(c)
    } else {
        raised(c)
    }
}

/// From `i` on, past blanks and tabs before `limit`.
pub open spec fn blanks_end(t: Seq<u8>, i: int, limit: int) -> int
    decreases
            if i < limit {
                limit - i
            } else {
                0
            },
{
    if i < limit && (char_or_blank(t, i) == ' ' || char_or_blank(t, i) == '\t') {
        blanks_end(t, i + 1, limit)
    } else {
        i
    }
}

/// A text that ends in a line feed still does when something before it is cut out.
pub proof fn lemma_cut_settled(t: Seq<u8>, a: int, z: int)
    requires
        buffer_text(t),
        0 <= a <= z < t.len(),
        on_char(t, a),
        on_char(t, z),
    ensures
        buffer_text(cut_out(t, a, z)),
        on_char(cut_out(t, a, z), a),
        a < cut_out(t, a, z).len(),
{
    lemma_cut_utf8(t, a, z);
    let c = cut_out(t, a, z);
    assert(c.last() == t.last());
    assert(c[a] == t[z]);
    is_char_boundary_iff_not_is_continuation_byte(t, z);
    is_char_boundary_iff_not_is_continuation_byte(c, a);
}

/// A text that ends in a line feed still does when something is put in before it.
pub proof fn lemma_spliced_settled(t: Seq<u8>, b: int, s: Seq<u8>)
    requires
        buffer_text(t),
        0 <= b < t.len(),
        on_char(t, b),
        valid_utf8(s),
        spliced_in(t, b, s).len() <= usize::MAX,
    ensures
        buffer_text(spliced_in(t, b, s)),
{
    lemma_spliced_utf8(t, b, s);
    assert(spliced_in(t, b, s).last() == t.last());
}

proof fn lemma_advanced(t: Seq<u8>, from: int, count: nat, limit: int)
    requires
        buffer_text(t),
        0 <= from <= t.len(),
        limit <= t.len(),
        on_char(t, from),
        on_char(t, limit),
    ensures
        from <= advanced(t, from, count, limit).0,
        from <= limit ==> advanced(t, from, count, limit).0 <= limit,
        from > limit ==> advanced(t, from, count, limit).0 == from,
        on_char(t, advanced(t, from, count, limit).0),
        advanced(t, from, count, limit).1 <= count,
    decreases count,
{
    lemma_next_idx(t, from);
    let n = next_idx(t, from);
    let next = if n < limit {
        n
    } else {
        limit
    };
    if !(count == 0 || from >= limit || next == from) {
        lemma_advanced(t, next, (count - 1) as nat, limit);
    }
}

/// The byte length of the character at an offset is that of its encoding.
pub proof fn lemma_char_len(t: Seq<u8>, i: int)
    requires
        valid_utf8(t),
        on_char(t, i),
        i < t.len(),
    ensures
        char_or_blank(t, i) == char_at(t, i),
        1 <= encode_utf8(seq![char_at(t, i)]).len() <= 4,
        i + encode_utf8(seq![char_at(t, i)]).len() <= t.len(),
        on_char(t, i + encode_utf8(seq![char_at(t, i)]).len()),
{
    let r = t.subrange(i, t.len() as int);
    valid_utf8_split(t, i);
    let c = char_at(t, i);
    decode_utf8_first_scalar(r);
    let one = seq![c];
    assert(one.drop_first() =~= Seq::<char>::empty());
    assert(encode_utf8(one.drop_first()) =~= Seq::<u8>::empty());
    assert(encode_utf8(one) =~= encode_scalar(c as u32));
    let k = length_of_first_scalar(r);
    assert(take_first_scalar(r).len() == k);
    assert(encode_utf8(one).len() == k);
    reveal_with_fuel(is_char_boundary, 2);
    assert(is_char_boundary(pop_first_scalar(r), 0));
    assert(is_char_boundary(r, k));
    is_char_boundary_start_end_of_seq(t);
    if i + k < t.len() {
        is_char_boundary_iff_not_is_continuation_byte(r, k);
        assert(r[k] == t[i + k]);
        is_char_boundary_iff_not_is_continuation_byte(t, i + k);
    }
}

/// How many bytes a character takes.
pub fn byte_len(c: char) -> (n: usize)
    ensures
        n == encode_utf8(seq![c]).len(),
{
    let mut s = String::new();
    s.push(c);
    assert(s@ =~= seq![c]);
    s.as_str().as_bytes().len()
}

impl Buffer {
    /// A range with its ends held to the text and moved out to graphemes.
    pub fn snap_range(&self, lo: usize, hi: usize) -> (r: (usize, usize))
        requires
            self.settled(),
        ensures
            (r.0 as int, r.1 as int) == grown(self@.text, lo as int, hi as int),
            r.0 <= self@.text.len(),
            r.1 <= self@.text.len(),
            on_char(self@.text, r.0 as int),
            on_char(self@.text, r.1 as int),
    {
        proof {
            reveal(grown);
        }
        let n: usize = self.len_bytes();
        let h: usize = if hi < n {
            hi
        } else {
            n
        };
        let l: usize = if lo < h {
            lo
        } else {
            h
        };
        (self.grapheme_floor_abs(l), self.grapheme_ceil_abs(h))
    }

    /// From `from`, `count` graphemes on and no further than `limit`.
    pub fn advance_graphemes(&self, from: usize, count: usize, limit: usize) -> (r: (usize, usize))
        requires
            self.settled(),
            from <= self@.text.len(),
            limit <= self@.text.len(),
        ensures
            (r.0 as int, r.1 as nat) == advanced(
                self@.text,
                from as int,
                count as nat,
                limit as int,
            ),
            r.0 <= self@.text.len(),
    {
        let ghost t = self@.text;
        let mut at: usize = from;
        let mut crossed: usize = 0;
        while crossed < count && at < limit
            invariant
                self.settled(),
                t == self@.text,
                at <= t.len(),
                limit <= t.len(),
                crossed <= count,
                advanced(t, from as int, count as nat, limit as int) == (
                    advanced(t, at as int, (count - crossed) as nat, limit as int).0,
                    advanced(t, at as int, (count - crossed) as nat, limit as int).1
                        + crossed as nat,
                ),
            decreases count - crossed,
        {
            let n: usize = self.next_grapheme_idx(at);
            let next: usize = if n < limit {
                n
            } else {
                limit
            };
            if next == at {
                return (at, crossed);
            }
            at = next;
            crossed += 1;
        }
        (at, crossed)
    }
}

/// What lies between characters depends on the text alone.
pub proof fn lemma_between_same(p: Pane, q: Pane)
    requires
        p.text() == q.text(),
    ensures
        forall|i: int| #[trigger] q.between(i) == p.between(i),
{
    reveal(Pane::between);
}

impl Desk {
    /// The buffer's text and the states that undo can return to end in a line feed.
    #[verifier::opaque]
    pub closed spec fn wf(&self) -> bool {
        self.open.wf() && self.regs.wf()
    }

    /// The text is UTF-8 that ends in a line feed.
    pub proof fn text_is_settled(&self)
        requires
            self.wf(),
        ensures
            buffer_text(self@.text()),
    {
        reveal(Desk::wf);
    }

    pub fn new(open: OpenBuffer, live: Live, regs: Registers) -> (d: Desk)
        requires
            open.wf(),
            regs.wf(),
        ensures
            d.wf(),
            d@ == (Pane { open: open@, live, regs: regs@ }),
    {
        proof {
            reveal(Desk::wf);
        }
        Desk { open, live, regs }
    }

    pub fn live(&self) -> (l: Live)
        ensures
            l == self@.live,
    {
        self.live
    }

    pub fn set_live(&mut self, live: Live)
        requires
            old(self).wf(),
        ensures
            final(self).wf(),
            final(self)@ == (Pane { live, ..old(self)@ }),
    {
        proof {
            reveal(Desk::wf);
        }
        self.live = live;
    }

    pub fn set_cursor(&mut self, cursor: Cursor)
        requires
            old(self).wf(),
        ensures
            final(self).wf(),
            final(self)@ == old(self)@.with_cursor(cursor),
    {
        proof {
            reveal(Desk::wf);
        }
        self.live.cursor = cursor;
    }

    pub fn set_mode(&mut self, mode: Mode)
        requires
            old(self).wf(),
        ensures
            final(self).wf(),
            final(self)@ == old(self)@.with_mode(mode),
    {
        proof {
            reveal(Desk::wf);
        }
        self.live.mode = mode;
    }

    /// Typing begins as a part of the change under way.
    pub fn begin_typing(&mut self)
        requires
            old(self).wf(),
        ensures
            final(self).wf(),
            final(self)@ == old(self)@.typing(),
    {
        proof {
            reveal(Desk::wf);
        }
        self.live.mode = Mode::Insert;
        self.live.snapshot_taken = true;
    }

    /// What a register holds, the unnamed one where no name is given.
    pub fn register(&self, name: Option<char>) -> (r: Option<&Register>)
        requires
            self.wf(),
        ensures
            match held_in(self@.regs, name) {
                Some(v) => r is Some && r->0@ == v,
                None => r is None,
            },
    {
        proof {
            reveal(Desk::wf);
        }
        self.regs.get(name)
    }

    /// Whether the host has a clipboard.
    pub fn has_clipboard(&self) -> (b: bool)
        ensures
            b == (self@.regs.clipboard is Some),
    {
        self.regs.has_clipboard()
    }

    /// Note what the clipboard of the host holds; none where there is no clipboard.
    pub fn set_clipboard(&mut self, v: Option<Register>)
        requires
            old(self).wf(),
        ensures
            final(self).wf(),
            final(self)@ == (Pane {
                regs: Regs { clipboard: reg_of(v), ..old(self)@.regs },
                ..old(self)@
            }),
    {
        proof {
            reveal(Desk::wf);
        }
        self.regs.set_clipboard(v);
    }

    /// Take what is to be put in the clipboard of the host.
    pub fn take_copied(&mut self) -> (r: Option<Register>)
        requires
            old(self).wf(),
        ensures
            final(self).wf(),
            reg_of(r) == old(self)@.regs.copied,
            final(self)@ == (Pane {
                regs: Regs { copied: None, ..old(self)@.regs },
                ..old(self)@
            }),
    {
        proof {
            reveal(Desk::wf);
        }
        self.regs.take_copied()
    }

    /// The current buffer.
    pub fn buffer(&self) -> (b: &Buffer)
        requires
            self.wf(),
        ensures
            b.settled(),
            b@ == self@.open.buffer,
    {
        proof {
            reveal(Desk::wf);
        }
        &self.open.buffer
    }

    /// The current buffer with its history.
    pub fn open(&self) -> (o: &OpenBuffer)
        requires
            self.wf(),
        ensures
            o.wf(),
            o@ == self@.open,
    {
        proof {
            reveal(Desk::wf);
        }
        &self.open
    }

    /// The current buffer with its history, to be changed.
    pub fn open_mut(&mut self) -> (o: &mut OpenBuffer)
        requires
            old(self).wf(),
        ensures
            o.wf(),
            o@ == old(self)@.open,
            final(o).wf() ==> final(self).wf(),
            final(self)@ == (Pane { open: final(o)@, ..old(self)@ }),
    {
        proof {
            reveal(Desk::wf);
        }
        &mut self.open
    }

    /// Put another buffer at hand, and give back the one that was.
    pub fn swap_open(&mut self, other: OpenBuffer) -> (o: OpenBuffer)
        requires
            old(self).wf(),
            other.wf(),
        ensures
            final(self).wf(),
            final(self)@ == (Pane { open: other@, ..old(self)@ }),
            o.wf(),
            o@ == old(self)@.open,
    {
        proof {
            reveal(Desk::wf);
        }
        let mut o = other;
        core::mem::swap(&mut o, &mut self.open);
        o
    }

    pub fn set_modified(&mut self)
        requires
            old(self).wf(),
        ensures
            final(self).wf(),
            final(self)@ == old(self)@.with_buffer(dirty(old(self)@.open.buffer)),
    {
        proof {
            reveal(Desk::wf);
        }
        self.open.buffer.modified = true;
    }

    /// The offset of the cursor.
    pub fn spot(&self) -> (r: usize)
        requires
            self.wf(),
        ensures
            r == self@.spot(),
            r < self@.text().len(),
            self@.between(r as int),
    {
        proof {
            reveal(Desk::wf);
            reveal(Pane::spot);
            reveal(Pane::between);
        }
        self.open.spot(self.live.cursor)
    }

    /// The offset of a position, as far as the text reaches.
    pub fn spot_of(&self, c: Cursor) -> (r: usize)
        requires
            self.wf(),
        ensures
            r == self@.with_cursor(c).spot(),
            r < self@.text().len(),
            self@.between(r as int),
    {
        proof {
            reveal(Desk::wf);
            reveal(Pane::spot);
            reveal(Pane::between);
        }
        self.open.spot(c)
    }

    /// The number of the cursor's line, held to the last one.
    pub fn line_no(&self) -> (n: usize)
        requires
            self.wf(),
        ensures
            n == self@.line_no(),
            n < edit_lines(self@.text()),
    {
        proof {
            reveal(Desk::wf);
            reveal(Pane::line_no);
        }
        let last: usize = self.open.buffer.last_line();
        if self.live.cursor.line < last {
            self.live.cursor.line
        } else {
            last
        }
    }

    /// The number of a position's line, held to the last one.
    pub fn line_no_of(&self, c: Cursor) -> (n: usize)
        requires
            self.wf(),
        ensures
            n == self@.with_cursor(c).line_no(),
            n < edit_lines(self@.text()),
    {
        proof {
            reveal(Desk::wf);
            reveal(Pane::line_no);
        }
        let last: usize = self.open.buffer.last_line();
        if c.line < last {
            c.line
        } else {
            last
        }
    }

    /// The cursor's offset is on its line, between two characters.
    pub proof fn spot_on_line(&self)
        requires
            self.wf(),
        ensures
            self@.start_of(self@.line_no()) <= self@.spot(),
            on_char(self@.line(), self@.spot() - self@.start_of(self@.line_no())),
    {
        reveal(Desk::wf);
        reveal(Pane::line);
        reveal(Pane::spot);
        reveal(Pane::start_of);
        reveal(Pane::line_no);
        let t = self@.text();
        let l = line_text(t, self@.line_no());
        lemma_buffer_lines(t);
        lemma_line_text(t, self@.line_no());
        let c = self@.live.cursor;
        crate::nav::lemma_floor_char(
            l,
            if c.col < l.len() {
                c.col as int
            } else {
                l.len() as int
            },
        );
    }

    /// The length of the cursor's line.
    pub fn line_len(&self) -> (n: usize)
        requires
            self.wf(),
        ensures
            n == self@.line().len(),
    {
        let n: usize = self.line_no();
        proof {
            reveal(Desk::wf);
            reveal(Pane::line);
        }
        self.open.buffer.line_len(n)
    }

    /// The cursor's line.
    pub fn line(&self) -> (s: String)
        requires
            self.wf(),
        ensures
            encode_utf8(s@) == self@.line(),
    {
        let n: usize = self.line_no();
        proof {
            reveal(Desk::wf);
            reveal(Pane::line);
        }
        self.open.buffer.line(n)
    }

    /// The cursor's column, held to its line.
    pub fn col(&self) -> (n: usize)
        requires
            self.wf(),
        ensures
            n == self@.col(),
            n <= self@.line().len(),
    {
        proof {
            reveal(Pane::col);
        }
        let len: usize = self.line_len();
        if self.live.cursor.col < len {
            self.live.cursor.col
        } else {
            len
        }
    }

    /// The end of the cursor's line.
    pub fn line_end(&self) -> (r: usize)
        requires
            self.wf(),
        ensures
            r == self@.line_end(),
            r < self@.text().len(),
            self@.between(r as int),
    {
        let line: usize = self.line_no();
        proof {
            reveal(Desk::wf);
            reveal(Pane::line);
            reveal(Pane::line_end);
            reveal(Pane::between);
            lemma_line_text(self@.text(), line as int);
            lemma_line_ends_early(self@.text(), line as int);
        }
        self.open.buffer.line_start(line) + self.open.buffer.line_len(line)
    }

    /// The screen column of a byte column of the cursor's line.
    pub fn column(&self, col: usize) -> (n: usize)
        requires
            self.wf(),
        ensures
            n == self@.column(col as int),
    {
        let s = self.line();
        proof {
            reveal(Desk::wf);
            reveal(Pane::column);
        }
        virtcol(s.as_str(), col, self.open.buffer.options.effective_tabstop())
    }

    /// Byte columns of the cursor's line that lie between its characters lie between
    /// those of the text.
    pub proof fn column_is_between(&self, col: int)
        requires
            self.wf(),
            on_char(self@.line(), col),
        ensures
            self@.between(self@.start_of(self@.line_no()) + col),
            0 <= self@.start_of(self@.line_no()) + col <= self@.line_end(),
            self@.line_end() < self@.text().len() <= usize::MAX,
    {
        reveal(Desk::wf);
        reveal(Pane::line);
        reveal(Pane::line_no);
        reveal(Pane::line_end);
        reveal(Pane::start_of);
        reveal(Pane::between);
        let t = self@.text();
        lemma_buffer_lines(t);
        lemma_line_text(t, self@.line_no());
        lemma_line_offset(t, self@.line_no(), col);
        lemma_line_ends_early(t, self@.line_no());
    }

    /// The cursor's line lies inside the text.
    pub proof fn line_fits(&self)
        requires
            self.wf(),
        ensures
            self@.start_of(self@.line_no()) + self@.line().len() < self@.text().len() <= usize::MAX,
    {
        reveal(Desk::wf);
        reveal(Pane::line);
        reveal(Pane::line_no);
        reveal(Pane::start_of);
        lemma_buffer_lines(self@.text());
        lemma_line_ends_early(self@.text(), self@.line_no());
    }

    /// Every line lies inside the text.
    pub proof fn any_line_fits(&self, n: int)
        requires
            self.wf(),
            0 <= n,
        ensures
            self@.start_of(n) + line_text(self@.text(), n).len() <= self@.text().len() <= usize::MAX,
    {
        reveal(Desk::wf);
        reveal(Pane::start_of);
        lemma_line_text(self@.text(), n);
    }

    /// The cursor's line is UTF-8.
    pub proof fn line_is_utf8(&self)
        requires
            self.wf(),
        ensures
            valid_utf8(self@.line()),
            self@.line().len() <= usize::MAX,
    {
        reveal(Desk::wf);
        reveal(Pane::line);
        reveal(Pane::line_no);
        lemma_buffer_lines(self@.text());
        lemma_line_text(self@.text(), self@.line_no());
    }

    /// The line break before the cursor's line.
    pub fn break_above(&self) -> (r: (usize, usize))
        requires
            self.wf(),
            self@.live.cursor.line > 0,
        ensures
            (r.0 as int, r.1 as int) == self@.break_before(),
            self@.between(r.0 as int),
            self@.between(r.1 as int),
    {
        proof {
            reveal(Desk::wf);
            reveal(Pane::break_before);
            reveal(Pane::line_end);
            reveal(Pane::line);
            reveal(Pane::line_no);
            reveal(Pane::between);
        }
        let last: usize = self.open.buffer.last_line();
        let n: usize = if self.live.cursor.line - 1 < last {
            self.live.cursor.line - 1
        } else {
            last
        };
        proof {
            lemma_line_text(self@.text(), n as int);
            lemma_line_ends_early(self@.text(), n as int);
        }
        let e: usize = self.open.buffer.line_start(n) + self.open.buffer.line_len(n);
        proof {
            lemma_char_len(self@.text(), e as int);
        }
        let c = self.open.buffer.char_or_blank(e);
        (e, e + byte_len(c))
    }

    /// Cutting out what begins at an offset leaves the offset between characters.
    pub proof fn spot_survives_cut(&self, p: Pane, a: int, z: int)
        requires
            self.wf(),
            self@.text() == removed(p.open.buffer, a, z).text,
            buffer_text(p.text()),
            p.between(a),
            a < z ==> p.between(z),
            0 <= a < p.text().len(),
            z < p.text().len(),
        ensures
            self@.between(a),
            a < self@.text().len(),
    {
        reveal(Pane::between);
        lemma_removed(p.open.buffer, a, z);
        if a < z {
            lemma_cut_settled(p.text(), a, z);
        }
    }

    /// Where a line begins; the end of the text for a line past the last.
    pub fn start_of(&self, n: usize) -> (r: usize)
        requires
            self.wf(),
        ensures
            r == self@.start_of(n as int),
            r <= self@.text().len(),
            self@.between(r as int),
            n < edit_lines(self@.text()) ==> r < self@.text().len(),
    {
        proof {
            reveal(Desk::wf);
            reveal(Pane::start_of);
            reveal(Pane::between);
            lemma_line_start_on_char(self@.text(), n as int);
            lemma_line_start(self@.text(), n as int);
            lemma_line_start(self@.text(), n + 1);
        }
        self.open.buffer.line_start(n)
    }

    /// The offset one grapheme on.
    pub fn next(&self, i: usize) -> (r: usize)
        requires
            self.wf(),
            i <= self@.text().len(),
        ensures
            r == self@.next(i as int),
            i <= r <= self@.text().len(),
            i < self@.text().len() ==> i < r,
            i < last_idx(self@.text()) ==> r <= last_idx(self@.text()),
            self@.between(i as int) ==> self@.between(r as int),
    {
        proof {
            reveal(Desk::wf);
            reveal(Pane::next);
            reveal(Pane::between);
        }
        self.open.buffer.next_grapheme_idx(i)
    }

    /// The offset one grapheme back.
    pub fn prev(&self, i: usize) -> (r: usize)
        requires
            self.wf(),
            i <= self@.text().len(),
        ensures
            r == self@.prev(i as int),
            r <= i,
            i > 0 ==> r < i,
            self@.between(r as int),
    {
        proof {
            reveal(Desk::wf);
            reveal(Pane::prev);
            reveal(Pane::between);
        }
        self.open.buffer.prev_grapheme_idx(i)
    }

    /// From `from`, `count` graphemes on and no further than `limit`: the offset reached
    /// and how many were passed.
    pub fn advance(&self, from: usize, count: usize, limit: usize) -> (r: (usize, usize))
        requires
            self.wf(),
            from <= self@.text().len(),
            limit <= self@.text().len(),
            self@.between(from as int),
            self@.between(limit as int),
        ensures
            (r.0 as int, r.1 as nat) == advanced(
                self@.text(),
                from as int,
                count as nat,
                limit as int,
            ),
            from <= r.0,
            r.0 <= from || r.0 <= limit,
            self@.between(r.0 as int),
    {
        proof {
            reveal(Desk::wf);
            reveal(Pane::between);
            lemma_advanced(self@.text(), from as int, count as nat, limit as int);
        }
        self.open.buffer.advance_graphemes(from, count, limit)
    }

    /// Record the state that a change is about to leave.
    pub fn push_undo(&mut self)
        requires
            old(self).wf(),
        ensures
            final(self).wf(),
            final(self)@ == old(self)@.pushed(),
            final(self)@.text() == old(self)@.text(),
            final(self)@.live == old(self)@.live,
            final(self)@.regs == old(self)@.regs,
            final(self)@.open.buffer == old(self)@.open.buffer,
    {
        proof {
            reveal(Desk::wf);
            reveal(Pane::pushed);
        }
        self.open.push_undo(&self.live);
    }

    /// Hold the cursor to the text.
    pub fn clamp_cursor(&mut self)
        requires
            old(self).wf(),
        ensures
            final(self).wf(),
            final(self)@ == old(self)@.held(),
    {
        proof {
            reveal(Desk::wf);
            reveal(Pane::held);
        }
        self.open.clamp_cursor(&mut self.live);
    }

    /// Move the cursor to an offset, or to the last one.
    pub fn set_cursor_char(&mut self, idx: usize)
        requires
            old(self).wf(),
        ensures
            final(self).wf(),
            final(self)@ == old(self)@.at(idx as int),
    {
        proof {
            reveal(Desk::wf);
            reveal(Pane::at);
        }
        let last: usize = self.open.buffer.last_char_idx();
        self.live.cursor = self.open.buffer.position_of(
            if idx < last {
                idx
            } else {
                last
            },
        );
    }

    /// The text of a range goes to the register that the pending command names.
    pub fn yank_range(&mut self, lo: usize, hi: usize, linewise: bool)
        requires
            old(self).wf(),
        ensures
            final(self).wf(),
            final(self)@ == yanked(old(self)@, lo as int, hi as int, linewise),
            final(self)@.open == old(self)@.open,
            final(self)@.live == old(self)@.live,
    {
        proof {
            reveal(Desk::wf);
            reveal(yanked);
        }
        let (a, z) = self.open.buffer.snap_range(lo, hi);
        if a >= z {
            return;
        }
        let text = rope_slice(&self.open.buffer.text, a, z);
        proof {
            encode_utf8_decode_utf8(text@);
        }
        self.regs.put(self.live.pending.register, Register { text, linewise });
    }

    /// The text of a range goes, and the change can be undone.
    pub fn delete_range(&mut self, lo: usize, hi: usize)
        requires
            old(self).wf(),
        ensures
            final(self).wf(),
            final(self)@ == deleted(old(self)@, lo as int, hi as int),
    {
        proof {
            reveal(Desk::wf);
            reveal(deleted);
            reveal(Pane::between);
        }
        let (a, z) = self.open.buffer.snap_range(lo, hi);
        if a >= z {
            return;
        }
        self.push_undo();
        self.remove_and_settle(a, z);
    }

    /// Cut a range of whole characters out, and end the text in a line feed again.
    pub fn remove_and_settle(&mut self, a: usize, z: usize)
        requires
            old(self).wf(),
            a < z ==> old(self)@.between(a as int) && old(self)@.between(z as int),
        ensures
            final(self).wf(),
            final(self)@ == old(self)@.with_buffer(
                dirty(normalized(removed(old(self)@.open.buffer, a as int, z as int))),
            ),
    {
        proof {
            reveal(Desk::wf);
            reveal(Pane::between);
        }
        self.open.buffer.remove(a, z);
        proof {
            lemma_normalized(self.open.buffer@);
        }
        self.open.buffer.normalize();
        self.open.buffer.modified = true;
    }

    /// End the text in a line feed again, after a change.
    pub fn settle(&mut self)
        requires
            old(self).wf(),
        ensures
            final(self).wf(),
            final(self)@ == old(self)@.with_buffer(dirty(normalized(old(self)@.open.buffer))),
    {
        proof {
            reveal(Desk::wf);
            lemma_normalized(self.open.buffer@);
        }
        self.open.buffer.normalize();
        self.open.buffer.modified = true;
    }

    /// Put a string in before the last character.
    pub fn put(&mut self, at: usize, s: &str)
        requires
            old(self).wf(),
            at < old(self)@.text().len(),
            old(self)@.between(at as int),
        ensures
            final(self).wf(),
            final(self)@ == old(self)@.with_buffer(
                dirty(inserted(old(self)@.open.buffer, at as int, s@)),
            ),
    {
        proof {
            reveal(Desk::wf);
            reveal(Pane::between);
            lemma_inserted(self.open.buffer@, at as int, s@);
            encode_utf8_valid_utf8(s@);
        }
        self.open.buffer.insert(at, s);
        proof {
            if s@.len() > 0 {
                lemma_spliced_settled(old(self)@.text(), at as int, encode_utf8(s@));
            }
        }
        self.open.buffer.modified = true;
    }

    /// Cut a range of whole characters before the last one out.
    pub fn cut(&mut self, a: usize, z: usize)
        requires
            old(self).wf(),
            a < z ==> z < old(self)@.text().len() && old(self)@.between(a as int) && old(
                self,
            )@.between(z as int),
        ensures
            final(self).wf(),
            final(self)@ == old(self)@.with_buffer(
                dirty(removed(old(self)@.open.buffer, a as int, z as int)),
            ),
    {
        proof {
            reveal(Desk::wf);
            reveal(Pane::between);
            lemma_removed(self.open.buffer@, a as int, z as int);
            if a < z {
                lemma_cut_settled(self@.text(), a as int, z as int);
            }
        }
        self.open.buffer.remove(a, z);
        self.open.buffer.modified = true;
    }

    /// Put a string in, and end the text in a line feed again.
    pub fn insert_and_settle(&mut self, at: usize, s: &str)
        requires
            old(self).wf(),
            old(self)@.between(at as int),
        ensures
            final(self).wf(),
            final(self)@ == old(self)@.with_buffer(
                dirty(normalized(inserted(old(self)@.open.buffer, at as int, s@))),
            ),
            at + encode_utf8(s@).len() <= final(self)@.text().len() <= usize::MAX,
    {
        proof {
            reveal(Desk::wf);
            reveal(Pane::between);
            lemma_inserted(self.open.buffer@, at as int, s@);
            if s@.len() == 0 {
                assert(encode_utf8(s@).len() == 0);
            }
        }
        self.open.buffer.insert(at, s);
        proof {
            lemma_normalized(self.open.buffer@);
        }
        self.open.buffer.normalize();
        self.open.buffer.modified = true;
    }

    /// Put a string in place of a range of whole characters before the last one.
    pub fn swap_in(&mut self, lo: usize, hi: usize, s: &str)
        requires
            old(self).wf(),
            lo <= hi < old(self)@.text().len(),
            old(self)@.between(lo as int),
            old(self)@.between(hi as int),
        ensures
            final(self).wf(),
            final(self)@ == old(self)@.with_buffer(
                inserted(removed(old(self)@.open.buffer, lo as int, hi as int), lo as int, s@),
            ),
    {
        let ghost b0 = self.open.buffer@;
        proof {
            reveal(Desk::wf);
            reveal(Pane::between);
            lemma_cut_settled(b0.text, lo as int, hi as int);
            lemma_removed(b0, lo as int, hi as int);
        }
        self.open.buffer.remove(lo, hi);
        let ghost b1 = self.open.buffer@;
        proof {
            encode_utf8_valid_utf8(s@);
            lemma_inserted(b1, lo as int, s@);
        }
        self.open.buffer.insert(lo, s);
        proof {
            if s@.len() > 0 {
                lemma_spliced_settled(b1.text, lo as int, encode_utf8(s@));
            }
        }
    }

    /// The case of the character under the cursor, and one grapheme on.
    pub fn toggle_one(&mut self)
        requires
            old(self).wf(),
            old(self)@.live.cursor.col < old(self)@.line().len(),
        ensures
            final(self).wf(),
            ({
                let p = old(self)@;
                let i = p.spot();
                let ch = char_or_blank(p.text(), i);
                let b = inserted(
                    removed(p.open.buffer, i, i + encode_utf8(seq![ch]).len()),
                    i,
                    other_case(ch),
                );
                let col = next_bound(
                    line_text(b.text, held_line(b.text, p.live.cursor.line)),
                    p.live.cursor.col as int,
                );
                final(self)@ == p.with_buffer(b).with_cursor(
                    Cursor { col: col as usize, ..p.live.cursor },
                )
            }),
    {
        proof {
            reveal(Desk::wf);
            reveal(Pane::spot);
            reveal(Pane::line);
            reveal(Pane::line_no);
            reveal(Pane::between);
        }
        let ghost t = self@.text();
        let idx: usize = self.spot();
        let c = self.open.buffer.char_or_blank(idx);
        proof {
            lemma_char_len(t, idx as int);
            lemma_spot_in_line(t, self.live.cursor);
        }
        let swapped = if is_uppercase(c) {
            to_lower(c)
        } else {
            to_upper(c)
        };
        let end: usize = idx + byte_len(c);
        self.swap_in(idx, end, swapped.as_str());
        proof {
            reveal(Desk::wf);
        }
        let s = self.open.buffer.line(self.line_no());
        self.live.cursor.col = next_grapheme(s.as_str(), self.live.cursor.col);
    }

    fn skip_blanks(&self, from: usize, limit: usize) -> (r: usize)
        requires
            self.wf(),
            from <= limit < self@.text().len(),
            on_char(self@.text(), from as int),
        ensures
            r == blanks_end(self@.text(), from as int, limit as int),
            from <= r <= limit,
            on_char(self@.text(), r as int),
    {
        proof {
            reveal(Desk::wf);
        }
        let ghost t = self@.text();
        let mut i: usize = from;
        while i < limit && matches!(self.open.buffer.char_or_blank(i), ' ' | '\t')
            invariant
                self.open.wf(),
                t == self@.text(),
                from <= i <= limit < t.len(),
                on_char(t, i as int),
                blanks_end(t, from as int, limit as int) == blanks_end(t, i as int, limit as int),
            decreases limit - i,
        {
            proof {
                crate::rope::lemma_char_at_ascii(t, i as int);
                lemma_after_ascii_on_char(t, i as int);
            }
            i += 1;
        }
        i
    }

    /// Join the line after the cursor's to it.
    pub fn join_one(&mut self)
        requires
            old(self).wf(),
            old(self)@.live.cursor.line + 1 < edit_lines(old(self)@.text()),
        ensures
            final(self).wf(),
            ({
                let p = old(self)@;
                let t = p.text();
                let line = p.live.cursor.line as int;
                let len = line_text(t, line).len() as int;
                let eol = line_start(t, line) + len;
                let to = blanks_end(t, line_start(t, line + 1), last_idx(t));
                let b1 = removed(p.open.buffer, eol, to);
                let b2 = if len > 0 {
                    inserted(b1, eol, seq![' '])
                } else {
                    b1
                };
                final(self)@ == p.with_buffer(b2).with_cursor(
                    Cursor { col: len as usize, ..p.live.cursor },
                )
            }),
            final(self)@.live.cursor.col == line_text(
                old(self)@.text(),
                old(self)@.live.cursor.line as int,
            ).len(),
    {
        proof {
            reveal(Desk::wf);
            reveal(Pane::line_no);
            reveal(Pane::line);
            reveal(Pane::line_end);
            reveal(Pane::between);
        }
        let ghost t = self@.text();
        let line: usize = self.live.cursor.line;
        let total: usize = self.open.buffer.line_count();
        assert(line + 1 < total);
        let cur_len: usize = self.line_len();
        let eol: usize = self.line_end();
        let next_start: usize = self.open.buffer.line_start(line + 1);
        let last: usize = self.open.buffer.last_char_idx();
        proof {
            lemma_line_start_on_char(t, line + 1);
            lemma_line_text(t, line as int);
            lemma_line_start(t, line + 1);
            lemma_line_start(t, line + 2);
        }
        let ws_end: usize = self.skip_blanks(next_start, last);
        if cur_len > 0 {
            proof {
                reveal_strlit(" ");
                assert(" "@ =~= seq![' ']);
            }
            self.swap_in(eol, ws_end, " ");
        } else {
            proof {
                lemma_cut_settled(t, eol as int, ws_end as int);
                lemma_removed(self.open.buffer@, eol as int, ws_end as int);
            }
            self.open.buffer.remove(eol, ws_end);
        }
        self.live.cursor.col = cur_len;
    }

}

/// A position before the end of its line has its offset there, with a character.
proof fn lemma_spot_in_line(t: Seq<u8>, c: Cursor)
    requires
        buffer_text(t),
        c.col < line_text(t, held_line(t, c.line)).len(),
    ensures
        spot(t, c) + encode_utf8(seq![char_at(t, spot(t, c))]).len() < t.len(),
{
    lemma_buffer_lines(t);
    crate::open::lemma_spot(t, c);
    lemma_char_len(t, spot(t, c));
    let n = held_line(t, c.line);
    lemma_line_text(t, n);
    lemma_line_ends_early(t, n);
    let l = line_text(t, n);
    crate::nav::lemma_floor_char(l, c.col as int);
    let i = spot(t, c);
    let e = line_start(t, n) + l.len();
    let k = encode_utf8(seq![char_at(t, i)]).len();
    // the character begins before the end of the line, and that end lies between
    // characters, so it does not reach past it
    assert(i < e);
    if i + k > e {
        lemma_inside_char(t, i, e);
    }
}

/// No offset inside a character lies between characters.
proof fn lemma_inside_char(t: Seq<u8>, i: int, j: int)
    requires
        valid_utf8(t),
        on_char(t, i),
        i < j < i + encode_utf8(seq![char_at(t, i)]).len(),
        j < t.len(),
        i < t.len(),
    ensures
        !is_char_boundary(t, j),
{
    lemma_char_len(t, i);
    let r = t.subrange(i, t.len() as int);
    valid_utf8_split(t, i);
    decode_utf8_first_scalar(r);
    let c = char_at(t, i);
    let one = seq![c];
    assert(one.drop_first() =~= Seq::<char>::empty());
    assert(encode_utf8(one.drop_first()) =~= Seq::<u8>::empty());
    assert(encode_utf8(one) =~= encode_scalar(c as u32));
    assert(take_first_scalar(r).len() == length_of_first_scalar(r));
    assert(is_continuation_byte(r[j - i]));
    assert(r[j - i] == t[j]);
    is_char_boundary_iff_not_is_continuation_byte(t, j);
}

} // verus!
