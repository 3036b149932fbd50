//! Several changes of a buffer made as one.

use vstd::prelude::*;
use vstd::utf8::*;

use crate::buffer::{
    inserted, lemma_cut_utf8, lemma_inserted, lemma_normalized, lemma_removed, lemma_spliced_utf8,
    normalized, removed, Buffer, BufferModel,
};
use crate::desk::dirty;
use crate::layout::clip;
use crate::nav::lemma_floor_char;
use crate::num::least;
use crate::open::{undo_pushed, Live, OpenBuffer, OpenModel};
use crate::rope::{floor_char, rope_floor_char};
use crate::strings::{chars_of, texts};
use crate::text::{
    cut_out, edit_lines, lemma_line_of, lemma_line_start, lemma_line_start_on_char, line_of,
    line_start, on_char, spliced_in, LF,
};
use crate::window::Cursor;

verus! {

/// A range of bytes, and what goes in its place.
pub struct TextEdit {
    pub start: usize,
    pub end: usize,
    pub text: String,
}

/// What a [`TextEdit`] says.
pub ghost struct Replacement {
    pub start: usize,
    pub end: usize,
    pub text: Seq<char>,
}

impl View for TextEdit {
    type V = Replacement;

    open spec fn view(&self) -> Replacement {
        Replacement { start: self.start, end: self.end, text: self.text@ }
    }
}

pub open spec fn replacements(v: Seq<TextEdit>) -> Seq<Replacement> {
    v.map_values(|e: TextEdit| e@)
}

/// The place of a change among the first `n` of changes in order: after the last one that
/// begins no earlier.
pub open spec fn place_of(s: Seq<Replacement>, e: Replacement, n: int) -> int
    decreases n,
{
    if n <= 0 || s[n - 1].start >= e.start {
        n
    } else {
        place_of(s, e, n - 1)
    }
}

/// The first `n` changes in order: the later in the text a change begins the earlier it
/// comes, and changes that begin together keep their order.
pub open spec fn in_order(s: Seq<Replacement>, n: int) -> Seq<Replacement>
    decreases n,
{
    if n <= 0 {
        Seq::empty()
    } else {
        let r = in_order(s, n - 1);
        r.insert(place_of(r, s[n - 1], r.len() as int), s[n - 1])
    }
}

/// An offset held to the text and to the start of a character.
pub open spec fn held_offset(t: Seq<u8>, i: int) -> int {
    floor_char(t, least(i, t.len() as int))
}

/// A change made.
pub open spec fn replaced_in(b: BufferModel, e: Replacement) -> BufferModel {
    let start = held_offset(b.text, e.start as int);
    let end = held_offset(b.text, e.end as int);
    inserted(removed(b, start, end), start, e.text)
}

/// The first `n` changes made.
pub open spec fn all_replaced(b: BufferModel, s: Seq<Replacement>, n: int) -> BufferModel
    decreases n,
{
    if n <= 0 {
        b
    } else {
        replaced_in(all_replaced(b, s, n - 1), s[n - 1])
    }
}

/// All changes made, from the last place of the text to the first.
#[verifier::opaque]
pub open spec fn batch_applied(b: BufferModel, s: Seq<Replacement>) -> BufferModel {
    let o = in_order(s, s.len() as int);
    normalized(all_replaced(b, o, o.len() as int))
}

/// How many line feeds the first `n` characters hold.
pub open spec fn feeds(s: Seq<char>, n: int) -> int
    decreases n,
{
    if n <= 0 {
        0
    } else if s[n - 1] == '\n' {
        feeds(s, n - 1) + 1
    } else {
        feeds(s, n - 1)
    }
}

/// How many bytes follow the last line feed.
pub open spec fn tail_len(s: Seq<char>) -> int
    decreases s.len(),
{
    if s.len() == 0 || s.last() == '\n' {
        0
    } else {
        tail_len(s.drop_last()) + encode_utf8(seq![s.last()]).len()
    }
}

/// A position carried along by a change: one before it or in it stays, and one after it
/// follows the text that it was on.
pub open spec fn carried(t: Seq<u8>, e: Replacement, at: Cursor) -> Cursor {
    let start = held_offset(t, e.start as int);
    let end = held_offset(t, e.end as int);
    let s_row = line_of(t, start) as int;
    let e_row = line_of(t, end) as int;
    let s_col = start - line_start(t, s_row);
    let e_col = end - line_start(t, e_row);
    let more = feeds(e.text, e.text.len() as int) - (e_row - s_row);
    let line = if at.line + more < 0 {
        0
    } else {
        clip(at.line + more)
    };
    if e_row < at.line {
        Cursor { line, ..at }
    } else if e_row == at.line && e_col <= at.col {
        Cursor {
            line,
            col: clip(
                tail_len(e.text) + (at.col - e_col) + if feeds(e.text, e.text.len() as int) == 0 {
                    s_col
                } else {
                    0
                },
            ),
        }
    } else {
        at
    }
}

/// A position carried along by the first `n` changes.
pub open spec fn all_carried(t: Seq<u8>, s: Seq<Replacement>, at: Cursor, n: int) -> Cursor
    decreases n,
{
    if n <= 0 {
        at
    } else {
        carried(t, s[n - 1], all_carried(t, s, at, n - 1))
    }
}

/// A position carried along by all changes, in the order in which they are made.
#[verifier::opaque]
pub open spec fn batch_carried(t: Seq<u8>, s: Seq<Replacement>, at: Cursor) -> Cursor {
    let o = in_order(s, s.len() as int);
    all_carried(t, o, at, o.len() as int)
}

/// The changes are in order: none begins before one that comes after it.
pub open spec fn descends(s: Seq<Replacement>) -> bool {
    forall|i: int, j: int| 0 <= i < j < s.len() ==> #[trigger] s[i].start >= #[trigger] s[j].start
}

proof fn lemma_place(s: Seq<Replacement>, e: Replacement, n: int)
    requires
        0 <= n <= s.len(),
    ensures
        0 <= place_of(s, e, n) <= n,
        place_of(s, e, n) > 0 ==> s[place_of(s, e, n) - 1].start >= e.start,
        forall|k: int| place_of(s, e, n) <= k < n ==> #[trigger] s[k].start < e.start,
    decreases n,
{
    if n > 0 && s[n - 1].start < e.start {
        lemma_place(s, e, n - 1);
    }
}

/// Changes are made from the last place of the text to the first, so that none moves
/// what another one speaks of; none is left out and none is made twice.
pub proof fn order_is_descending(s: Seq<Replacement>, n: int)
    requires
        0 <= n <= s.len(),
    ensures
        descends(in_order(s, n)),
        in_order(s, n).to_multiset() == s.take(n).to_multiset(),
    decreases n,
{
    if n == 0 {
        assert(s.take(0) =~= Seq::<Replacement>::empty());
    } else {
        order_is_descending(s, n - 1);
        let r = in_order(s, n - 1);
        let e = s[n - 1];
        lemma_place(r, e, r.len() as int);
        let at = place_of(r, e, r.len() as int);
        let q = r.insert(at, e);
        assert forall|i: int, j: int| 0 <= i < j < q.len() implies #[trigger] q[i].start
            >= #[trigger] q[j].start by {
            let i0 = if i < at { i } else { i - 1 };
            let j0 = if j < at { j } else { j - 1 };
            if i != at && j != at {
                assert(r[i0].start >= r[j0].start);
            } else if j == at {
                if i < at - 1 {
                    assert(r[i].start >= r[at - 1].start);
                }
            } else {
                assert(q[j] == r[j0]);
            }
        }
        vstd::seq_lib::to_multiset_insert(r, at, e);
        assert(s.take(n) =~= s.take(n - 1).push(e));
        vstd::seq_lib::to_multiset_build(s.take(n - 1), e);
    }
}

/// Put changes in order: the later in the text a change begins the earlier it comes.
pub fn sort_edits(edits: Vec<TextEdit>) -> (sorted: Vec<TextEdit>)
    ensures
        replacements(sorted@) == in_order(replacements(edits@), edits@.len() as int),
{
    let ghost all = replacements(edits@);
    let mut left = edits;
    let n: usize = left.len();
    let mut sorted: Vec<TextEdit> = Vec::new();
    let mut i: usize = 0;
    assert(replacements(sorted@) =~= in_order(all, 0));
    assert(replacements(left@) =~= all.skip(0));
    while i < n
        invariant
            i <= n,
            n == all.len(),
            left@.len() == n - i,
            replacements(left@) == all.skip(i as int),
            replacements(sorted@) == in_order(all, i as int),
            sorted@.len() == i,
        decreases n - i,
    {
        let ghost rest = left@;
        let e = left.remove(0);
        let ghost done = replacements(sorted@);
        proof {
            assert(e@ == replacements(rest)[0]);
            assert(e@ == all[i as int]);
            assert(replacements(left@) =~= replacements(rest).skip(1));
            assert(all.skip(i as int).skip(1) =~= all.skip(i + 1));
            assert(done.len() == sorted@.len());
        }
        let mut at: usize = sorted.len();
        while at > 0 && sorted[at - 1].start < e.start
            invariant
                at <= sorted@.len(),
                done == replacements(sorted@),
                place_of(done, e@, done.len() as int) == place_of(done, e@, at as int),
            decreases at,
        {
            assert(done[at - 1] == sorted@[at - 1]@);
            at -= 1;
        }
        assert(at > 0 ==> done[at - 1] == sorted@[at - 1]@);
        let ghost c = e@;
        sorted.insert(at, e);
        assert(replacements(sorted@) =~= done.insert(at as int, c));
        i += 1;
    }
    sorted
}

/// How many line feeds a text holds, and how many bytes follow the last one.
fn shape(text: &str) -> (r: (usize, usize))
    ensures
        r.0 == feeds(text@, text@.len() as int),
        r.1 == tail_len(text@),
{
    let v = chars_of(text);
    let len: usize = text.as_bytes().len();
    let mut n: usize = 0;
    let mut tail: usize = 0;
    let mut i: usize = 0;
    assert(text@.take(0) =~= Seq::<char>::empty());
    while i < v.len()
        invariant
            v@ == text@,
            len == encode_utf8(text@).len(),
            i <= v@.len(),
            n == feeds(text@, i as int),
            n <= i,
            tail == tail_len(text@.take(i as int)),
            tail <= encode_utf8(text@.take(i as int)).len(),
        decreases v@.len() - i,
    {
        let w: usize = crate::desk::byte_len(v[i]);
        proof {
            let a = text@.take(i as int);
            let b = text@.take(i + 1);
            assert(b.drop_last() =~= a);
            assert(b =~= a + seq![text@[i as int]]);
            crate::text::lemma_encode_concat(a, seq![text@[i as int]]);
            crate::text::lemma_encode_concat(b, text@.skip(i + 1));
            assert(b + text@.skip(i + 1) =~= text@);
        }
        if v[i] == '\n' {
            n += 1;
            tail = 0;
        } else {
            tail += w;
        }
        i += 1;
    }
    assert(text@.take(i as int) =~= text@);
    (n, tail)
}

impl Buffer {
    fn hold_offset(&self, i: usize) -> (r: usize)
        requires
            self.wf(),
        ensures
            r == held_offset(self@.text, i as int),
            r <= self@.text.len(),
            on_char(self@.text, r as int),
    {
        let len: usize = self.len_bytes();
        let at: usize = if i <= len {
            i
        } else {
            len
        };
        proof {
            lemma_floor_char(self@.text, at as int);
        }
        rope_floor_char(&self.text, at)
    }

    fn replace_in(&mut self, e: &TextEdit)
        requires
            old(self).wf(),
        ensures
            final(self).wf(),
            final(self)@ == replaced_in(old(self)@, e@),
    {
        let start: usize = self.hold_offset(e.start);
        let end: usize = self.hold_offset(e.end);
        let ghost b = self@;
        self.remove(start, end);
        proof {
            lemma_removed(b, start as int, end as int);
            if start < end {
                lemma_cut_keeps_start(b.text, start as int, end as int);
            }
        }
        self.insert(start, e.text.as_str());
    }

    fn carry(&self, e: &TextEdit, at: Cursor) -> (r: Cursor)
        requires
            self.wf(),
        ensures
            r == carried(self@.text, e@, at),
    {
        let start: usize = self.hold_offset(e.start);
        let end: usize = self.hold_offset(e.end);
        proof {
            lemma_line_of(self@.text, start as int);
            lemma_line_of(self@.text, end as int);
        }
        let s_row: usize = self.byte_to_line(start);
        let e_row: usize = self.byte_to_line(end);
        let s_col: usize = start - self.line_start(s_row);
        let e_col: usize = end - self.line_start(e_row);
        let (new_lines, tail) = shape(e.text.as_str());
        let to: i128 = at.line as i128 + new_lines as i128 - (e_row as i128 - s_row as i128);
        let line: usize = if to < 0 {
            0
        } else if to > usize::MAX as i128 {
            usize::MAX
        } else {
            to as usize
        };
        if e_row < at.line {
            Cursor { line, col: at.col }
        } else if e_row == at.line && e_col <= at.col {
            let mut col: u128 = tail as u128 + (at.col - e_col) as u128;
            if new_lines == 0 {
                col += s_col as u128;
            }
            Cursor {
                line,
                col: if col > usize::MAX as u128 {
                    usize::MAX
                } else {
                    col as usize
                },
            }
        } else {
            at
        }
    }

    /// Make changes that do not overlap, from the last place of the text to the first,
    /// and let the text end in a line feed. The result is where a position has moved to
    /// with the text.
    pub fn apply_batch(&mut self, edits: Vec<TextEdit>, at: Cursor) -> (r: Cursor)
        requires
            old(self).settled(),
        ensures
            final(self).settled(),
            final(self)@ == batch_applied(old(self)@, replacements(edits@)),
            r == batch_carried(old(self)@.text, replacements(edits@), at),
    {
        let ghost s = replacements(edits@);
        let sorted = sort_edits(edits);
        let ghost o = replacements(sorted@);
        let mut to = at;
        let mut i: usize = 0;
        while i < sorted.len()
            invariant
                self.wf(),
                *self == *old(self),
                o == replacements(sorted@),
                i <= sorted@.len(),
                to == all_carried(self@.text, o, at, i as int),
            decreases sorted@.len() - i,
        {
            assert(o[i as int] == sorted@[i as int]@);
            to = self.carry(&sorted[i], to);
            i += 1;
        }
        let mut i: usize = 0;
        while i < sorted.len()
            invariant
                self.wf(),
                o == replacements(sorted@),
                i <= sorted@.len(),
                self@ == all_replaced(old(self)@, o, i as int),
            decreases sorted@.len() - i,
        {
            assert(o[i as int] == sorted@[i as int]@);
            self.replace_in(&sorted[i]);
            i += 1;
        }
        proof {
            reveal(batch_applied);
            reveal(batch_carried);
            lemma_normalized(self@);
        }
        self.normalize();
        to
    }
}

proof fn lemma_cut_keeps_start(t: Seq<u8>, a: int, z: int)
    requires
        valid_utf8(t),
        on_char(t, a),
        on_char(t, z),
        a <= z,
    ensures
        on_char(cut_out(t, a, z), a),
{
    valid_utf8_split(t, a);
    valid_utf8_split(t, z);
    lemma_cut_utf8(t, a, z);
    let r = cut_out(t, a, z);
    is_char_boundary_start_end_of_seq(r);
    if a < r.len() {
        is_char_boundary_iff_not_is_continuation_byte(r, a);
        assert(r[a] == t[z]);
        is_char_boundary_iff_not_is_continuation_byte(t, z);
    }
}

/// The range of a change lies in the text, between characters.
pub open spec fn lies_in(t: Seq<u8>, e: Replacement) -> bool {
    e.start <= e.end && on_char(t, e.start as int) && on_char(t, e.end as int)
}

/// No change reaches into another. Of two that begin together, the one that is listed last
/// takes nothing out.
pub open spec fn apart(s: Seq<Replacement>) -> bool {
    forall|i: int, j: int|
        0 <= i < j < s.len() ==> {
            let a = #[trigger] s[i];
            let b = #[trigger] s[j];
            &&& a.end <= b.start || b.end <= a.start
            &&& a.start == b.start ==> b.end == b.start
        }
}

/// Where the first `n` changes in order begin to change the text.
pub open spec fn changed_from(t: Seq<u8>, o: Seq<Replacement>, n: int) -> int {
    if n <= 0 {
        t.len() as int
    } else {
        o[n - 1].start as int
    }
}

/// What stands from there on once they are made: the text of each in place of its range, and
/// what the text has between the ranges.
pub open spec fn changed_part(t: Seq<u8>, o: Seq<Replacement>, n: int) -> Seq<u8>
    decreases n,
{
    if n <= 0 {
        Seq::empty()
    } else {
        encode_utf8(o[n - 1].text) + t.subrange(
            o[n - 1].end as int,
            changed_from(t, o, n - 1),
        ) + changed_part(t, o, n - 1)
    }
}

/// A text with every range replaced at once. All offsets are those of the text as it was.
pub open spec fn all_at_once(t: Seq<u8>, s: Seq<Replacement>) -> Seq<u8> {
    let o = in_order(s, s.len() as int);
    t.take(changed_from(t, o, o.len() as int)) + changed_part(t, o, o.len() as int)
}

/// The changes in order are those that were listed, and each ends where the one before it in
/// the order begins, or earlier.
proof fn lemma_order_apart(t: Seq<u8>, s: Seq<Replacement>, n: int)
    requires
        0 <= n <= s.len(),
        apart(s),
        forall|i: int| 0 <= i < s.len() ==> lies_in(t, #[trigger] s[i]),
    ensures
        in_order(s, n).len() == n,
        forall|k: int|
            0 <= k < n ==> exists|m: int| 0 <= m < n && #[trigger] in_order(s, n)[k] == s[m],
        forall|i: int, j: int|
            0 <= i < j < n ==> (#[trigger] in_order(s, n)[j]).end <= (#[trigger] in_order(
                s,
                n,
            )[i]).start,
    decreases n,
{
    if n > 0 {
        lemma_order_apart(t, s, n - 1);
        order_is_descending(s, n - 1);
        let r = in_order(s, n - 1);
        let e = s[n - 1];
        lemma_place(r, e, r.len() as int);
        let at = place_of(r, e, r.len() as int);
        let q = r.insert(at, e);
        assert(q == in_order(s, n));
        assert forall|k: int| 0 <= k < n implies exists|m: int|
            0 <= m < n && #[trigger] q[k] == s[m] by {
            if k == at {
                assert(q[k] == s[n - 1]);
            } else {
                let k0 = if k < at { k } else { k - 1 };
                assert(q[k] == r[k0]);
                let m = choose|m: int| 0 <= m < n - 1 && r[k0] == s[m];
                assert(q[k] == s[m]);
            }
        }
        assert forall|i: int, j: int| 0 <= i < j < n implies (#[trigger] q[j]).end <= (
        #[trigger] q[i]).start by {
            let i0 = if i < at { i } else { i - 1 };
            let j0 = if j < at { j } else { j - 1 };
            if i != at && j != at {
                assert(r[j0].end <= r[i0].start);
            } else if j == at {
                let m = choose|m: int| 0 <= m < n - 1 && r[i] == s[m];
                assert(r[i].start >= e.start) by {
                    if i < at - 1 {
                        assert(r[i].start >= r[at - 1].start);
                    }
                }
                assert(lies_in(t, s[m]));
                assert(q[i] == s[m] && q[j] == s[n - 1]);
            } else {
                let m = choose|m: int| 0 <= m < n - 1 && r[j0] == s[m];
                assert(r[j0].start < e.start);
                assert(lies_in(t, s[m]) && lies_in(t, s[n - 1]));
                assert(q[j] == s[m] && q[i] == s[n - 1]);
            }
        }
    }
}

/// An offset between characters is held where it is.
proof fn lemma_held_is(t: Seq<u8>, u: Seq<u8>, from: int, i: int)
    requires
        valid_utf8(t),
        valid_utf8(u),
        on_char(t, i),
        on_char(u, from),
        0 <= i <= from <= t.len(),
        from <= u.len(),
        u.take(from) == t.take(from),
    ensures
        held_offset(u, i) == i,
        on_char(u, i),
{
    if i < from {
        assert(u[i] == u.take(from)[i]);
        assert(t[i] == t.take(from)[i]);
        is_char_boundary_iff_not_is_continuation_byte(t, i);
        is_char_boundary_iff_not_is_continuation_byte(u, i);
    }
}

/// One change more, before what has been changed.
proof fn lemma_replaced_before(
    c: BufferModel,
    t: Seq<u8>,
    from: int,
    rest: Seq<u8>,
    e: Replacement,
)
    requires
        valid_utf8(t),
        valid_utf8(c.text),
        0 <= from <= t.len(),
        on_char(c.text, from),
        c.text == t.take(from) + rest,
        lies_in(t, e),
        e.end <= from,
    ensures
        ({
            let u = replaced_in(c, e).text;
            let a = e.start as int;
            &&& u == t.take(a) + (encode_utf8(e.text) + t.subrange(e.end as int, from) + rest)
            &&& valid_utf8(u)
            &&& on_char(u, a)
        }),
{
    let u = c.text;
    let (a, z) = (e.start as int, e.end as int);
    assert(u.take(from) =~= t.take(from));
    lemma_held_is(t, u, from, a);
    lemma_held_is(t, u, from, z);
    lemma_removed(c, a, z);
    let cut = removed(c, a, z);
    lemma_cut_utf8(u, a, z);
    lemma_cut_keeps_start(u, a, z);
    assert(cut.text =~= cut_out(u, a, z));
    lemma_inserted(cut, a, e.text);
    let s = encode_utf8(e.text);
    encode_utf8_valid_utf8(e.text);
    let r = inserted(cut, a, e.text);
    assert(e.text.len() == 0 ==> s =~= Seq::<u8>::empty());
    assert(r.text =~= spliced_in(cut.text, a, s));
    lemma_spliced_utf8(cut.text, a, s);
    assert(spliced_in(cut_out(t.take(from) + rest, a, z), a, s) =~= t.take(a) + (s + t.subrange(
        z,
        from,
    ) + rest));
    if s.len() == 0 {
        assert(r.text =~= cut.text);
    } else {
        is_char_boundary_start_end_of_seq(s);
        is_char_boundary_iff_not_is_continuation_byte(s, 0);
        is_char_boundary_iff_not_is_continuation_byte(r.text, a);
        assert(r.text[a] == s[0]);
    }
}

proof fn lemma_replaced_so_far(b: BufferModel, o: Seq<Replacement>, n: int)
    requires
        valid_utf8(b.text),
        0 <= n <= o.len(),
        forall|i: int| 0 <= i < o.len() ==> lies_in(b.text, #[trigger] o[i]),
        forall|i: int, j: int|
            0 <= i < j < o.len() ==> (#[trigger] o[j]).end <= (#[trigger] o[i]).start,
    ensures
        ({
            let u = all_replaced(b, o, n).text;
            let from = changed_from(b.text, o, n);
            &&& u == b.text.take(from) + changed_part(b.text, o, n)
            &&& valid_utf8(u)
            &&& on_char(u, from)
            &&& 0 <= from <= b.text.len()
        }),
    decreases n,
{
    let t = b.text;
    is_char_boundary_start_end_of_seq(t);
    if n == 0 {
        assert(t.take(t.len() as int) + Seq::<u8>::empty() =~= t);
    } else {
        lemma_replaced_so_far(b, o, n - 1);
        let e = o[n - 1];
        assert(lies_in(t, e));
        if n > 1 {
            assert(o[n - 1].end <= o[n - 2].start);
        }
        lemma_replaced_before(
            all_replaced(b, o, n - 1),
            t,
            changed_from(t, o, n - 1),
            changed_part(t, o, n - 1),
            e,
        );
    }
}

/// Changes that lie apart amount to replacing all their ranges at once: what stands between
/// the ranges stays, the text of each stands in place of its range, and a line feed is added
/// where the text would not end in one.
pub proof fn batch_is_simultaneous(b: BufferModel, s: Seq<Replacement>)
    requires
        valid_utf8(b.text),
        forall|i: int| 0 <= i < s.len() ==> lies_in(b.text, #[trigger] s[i]),
        apart(s),
    ensures
        ({
            let u = all_at_once(b.text, s);
            batch_applied(b, s).text == if u.len() > 0 && u.last() == LF {
                u
            } else {
                u.push(LF)
            }
        }),
{
    reveal(batch_applied);
    let n = s.len() as int;
    let o = in_order(s, n);
    lemma_order_apart(b.text, s, n);
    assert forall|i: int| 0 <= i < o.len() implies lies_in(b.text, #[trigger] o[i]) by {
        let m = choose|m: int| 0 <= m < n && o[i] == s[m];
        assert(lies_in(b.text, s[m]));
    }
    lemma_replaced_so_far(b, o, n);
    lemma_normalized(all_replaced(b, o, n));
}

/// Lines, with a line feed after each.
pub open spec fn joined_lines(v: Seq<Seq<char>>) -> Seq<char>
    decreases v.len(),
{
    if v.len() == 0 {
        Seq::empty()
    } else {
        joined_lines(v.drop_last()) + v.last().push('\n')
    }
}

/// The lines from `start` to `end` replaced.
#[verifier::opaque]
pub open spec fn lines_set(
    b: BufferModel,
    start: int,
    end: int,
    lines: Seq<Seq<char>>,
) -> BufferModel {
    let n = edit_lines(b.text) as int;
    let a = least(start, n);
    let z = if end < a {
        a
    } else {
        least(end, n)
    };
    let from = line_start(b.text, a);
    let to = if z >= n {
        b.text.len() as int
    } else {
        line_start(b.text, z)
    };
    dirty(normalized(inserted(removed(b, from, to), from, joined_lines(lines))))
}

/// Whether a buffer may not be changed.
pub open spec fn is_fixed(b: BufferModel) -> bool {
    !(b.kind is Ordinary) || !b.options.modifiable
}

impl Buffer {
    /// Whether the text may not be changed.
    pub fn is_fixed(&self) -> (b: bool)
        ensures
            b == is_fixed(self@),
    {
        self.read_only() || !self.options.modifiable
    }
}

fn join_lines(lines: &Vec<String>) -> (s: String)
    ensures
        s@ == joined_lines(texts(lines@)),
{
    let ghost all = texts(lines@);
    let mut s = String::new();
    let mut i: usize = 0;
    assert(all.take(0) =~= Seq::<Seq<char>>::empty());
    while i < lines.len()
        invariant
            all == texts(lines@),
            i <= lines@.len(),
            s@ == joined_lines(all.take(i as int)),
        decreases lines@.len() - i,
    {
        let ghost before = s@;
        s.append(lines[i].as_str());
        s.push('\n');
        proof {
            assert(all[i as int] == lines@[i as int]@);
            assert(all.take(i + 1).drop_last() =~= all.take(i as int));
            assert(s@ =~= before + all[i as int].push('\n'));
        }
        i += 1;
    }
    assert(all.take(i as int) =~= all);
    s
}

impl Buffer {
    /// Replace the lines from `start` to `end`, as far as there are such lines.
    pub fn set_lines(&mut self, start: usize, end: usize, lines: &Vec<String>)
        requires
            old(self).settled(),
        ensures
            final(self).settled(),
            final(self)@ == lines_set(old(self)@, start as int, end as int, texts(lines@)),
    {
        let ghost b = self@;
        let n: usize = self.line_count();
        let a: usize = if start <= n {
            start
        } else {
            n
        };
        let z: usize = if end < a {
            a
        } else if end <= n {
            end
        } else {
            n
        };
        proof {
            lemma_line_start(b.text, a as int);
            lemma_line_start(b.text, z as int);
            lemma_line_start_on_char(b.text, a as int);
            lemma_line_start_on_char(b.text, z as int);
            crate::text::lemma_line_start_mono(b.text, a as int, z as int);
            is_char_boundary_start_end_of_seq(b.text);
        }
        let from: usize = self.line_start(a);
        let to: usize = if z >= n {
            self.len_bytes()
        } else {
            self.line_start(z)
        };
        self.remove(from, to);
        proof {
            lemma_removed(b, from as int, to as int);
            lemma_cut_keeps_start(b.text, from as int, to as int);
        }
        self.insert(from, join_lines(lines).as_str());
        proof {
            reveal(lines_set);
            lemma_normalized(self@);
        }
        self.normalize();
        self.modified = true;
    }
}

/// The state that a change is about to leave recorded, and the changes made.
pub open spec fn open_edited(
    o: OpenModel,
    at: Cursor,
    taken: bool,
    s: Seq<Replacement>,
) -> OpenModel {
    let p = undo_pushed(o, at, taken);
    OpenModel { buffer: batch_applied(p.buffer, s), ..p }
}

/// The state that a change is about to leave recorded, and lines replaced.
pub open spec fn open_lines_set(
    o: OpenModel,
    at: Cursor,
    start: int,
    end: int,
    lines: Seq<Seq<char>>,
) -> OpenModel {
    let p = undo_pushed(o, at, false);
    OpenModel { buffer: lines_set(p.buffer, start, end, lines), ..p }
}

impl OpenBuffer {
    /// Make changes that do not overlap as one step that undo takes back. The result is
    /// where the cursor has moved to with the text.
    pub fn apply_edits(&mut self, live: &Live, edits: Vec<TextEdit>) -> (r: Cursor)
        requires
            old(self).wf(),
        ensures
            final(self).wf(),
            final(self)@ == open_edited(
                old(self)@,
                live.cursor,
                live.snapshot_taken,
                replacements(edits@),
            ),
            r == batch_carried(old(self)@.buffer.text, replacements(edits@), live.cursor),
    {
        self.push_undo(live);
        self.buffer.apply_batch(edits, live.cursor)
    }

    /// Replace lines as one step that undo takes back.
    pub fn set_lines(&mut self, live: &Live, start: usize, end: usize, lines: &Vec<String>)
        requires
            old(self).wf(),
            !live.snapshot_taken,
        ensures
            final(self).wf(),
            final(self)@ == open_lines_set(
                old(self)@,
                live.cursor,
                start as int,
                end as int,
                texts(lines@),
            ),
    {
        self.push_undo(live);
        self.buffer.set_lines(start, end, lines);
    }
}

} // verus!
