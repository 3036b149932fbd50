//! What the commands of a single key do to the text, and what typing does.

use vstd::prelude::*;
use vstd::utf8::*;

use crate::batch::is_fixed;
use crate::buffer::{
    inserted, lemma_inserted, lemma_normalized, lemma_removed, removed, BufferModel,
};
use crate::command::{NormalCmd, PendingCommand, ResolvedCommand, Stage};
use crate::desk::{advanced, deleted, lowered, other_case, raised, uppercase, yanked, Pane};
use crate::edit::{copies, deleted_under, joined, repeated, replaced, toggled};
use crate::editor::normal::{command_made, edit_done, normal_done, normal_keyed, reset};
use crate::editor::World;
use crate::input::{plain_key, KeyCode};
use crate::laws::moving::{bounds_in, is_space, lemma_columns_on};
use crate::laws::operating::{lemma_grown, stands};
use crate::laws::pasting::{lemma_copies, lemma_keyed, over_again};
use crate::laws::{
    adds, counted, cursor_line, key_of, leads, lemma_added, lemma_held, lemma_led, lemma_line_is,
    lemma_line_within, lemma_own, lemma_times, offset, on_text, ready, times,
};
use crate::mode::{typing, Mode};
use crate::motions::{columns_on, total_count};
use crate::nav::{
    char_or_blank, lemma_line_ends_early, lemma_line_offset, lemma_line_text, next_idx,
};
use crate::open::Live;
use crate::registers::held_in;
use crate::text::{
    buffer_text, edit_lines, lemma_buffer_lines, lemma_line_start, line_of, line_start, line_text,
    spliced_in, unbroken, LF,
};
use crate::typing::typed_key;
use crate::unicode::{
    bound, lemma_bound_ends, lemma_bound_from, lemma_bound_upto, next_bound, prev_bound,
};
use crate::window::Cursor;

verus! {

/// A grapheme of a line stands in the text.
proof fn lemma_stands(t: Seq<u8>, n: int, col: int)
    requires
        buffer_text(t),
        0 <= n < edit_lines(t),
        unbroken(line_text(t, n)),
        bound(line_text(t, n), col),
    ensures
        stands(t, line_start(t, n) + col),
        0 <= col <= line_text(t, n).len(),
        line_start(t, n) + col < line_start(t, n + 1) <= t.len(),
        line_of(t, line_start(t, n) + col) == n,
{
    lemma_line_text(t, n);
    lemma_line_within(t, n);
    lemma_line_start(t, n);
    lemma_line_start(t, n + 1);
    lemma_line_is(t, n, line_start(t, n) + col);
}

/// Going on by graphemes in the text is going on by them in its line.
proof fn lemma_advanced(t: Seq<u8>, n: int, col: int, count: nat)
    requires
        buffer_text(t),
        0 <= n < edit_lines(t),
        unbroken(line_text(t, n)),
        bound(line_text(t, n), col),
    ensures
        ({
            let l = line_text(t, n);
            let (r, c) = advanced(
                t,
                line_start(t, n) + col,
                count,
                line_start(t, n) + l.len(),
            );
            &&& r == line_start(t, n) + columns_on(l, col, count)
            &&& c <= count
            &&& c == bounds_in(l, col, r - line_start(t, n))
        }),
    decreases count,
{
    let l = line_text(t, n);
    let a = line_start(t, n);
    lemma_stands(t, n, col);
    lemma_line_text(t, n);
    lemma_columns_on(l, col, count);
    if count > 0 {
        if col < l.len() {
            lemma_bound_from(l, col + 1);
            let c = next_bound(l, col);
            assert(next_idx(t, a + col) == a + c);
            lemma_advanced(t, n, c, (count - 1) as nat);
            crate::laws::moving::lemma_one_bound(l, col);
            lemma_columns_on(l, c, (count - 1) as nat);
            crate::laws::moving::lemma_bounds_add(
                l,
                col,
                c,
                columns_on(l, c, (count - 1) as nat),
            );
        } else {
            lemma_bound_from(l, col + 1);
            lemma_columns_on(l, col, (count - 1) as nat);
            lemma_at_end(l, (count - 1) as nat);
        }
    }
}

proof fn lemma_at_end(l: Seq<u8>, n: nat)
    requires
        valid_utf8(l),
    ensures
        columns_on(l, l.len() as int, n) == l.len(),
    decreases n,
{
    lemma_bound_from(l, l.len() as int + 1);
    if n > 0 {
        lemma_at_end(l, (n - 1) as nat);
    }
}

/// The command of a key that changes the text, or begins to.
pub open spec fn edit_of(c: char) -> Option<NormalCmd> {
    if c == 'x' {
        Some(NormalCmd::DeleteUnder)
    } else if c == 'D' {
        Some(NormalCmd::DeleteToEol)
    } else if c == 'i' {
        Some(NormalCmd::InsertBefore)
    } else if c == 'a' {
        Some(NormalCmd::InsertAfter)
    } else if c == 'A' {
        Some(NormalCmd::InsertLineEnd)
    } else if c == 'o' {
        Some(NormalCmd::OpenBelow)
    } else if c == 'O' {
        Some(NormalCmd::OpenAbove)
    } else if c == 'J' {
        Some(NormalCmd::Join)
    } else if c == '~' {
        Some(NormalCmd::ToggleCase)
    } else {
        None
    }
}

proof fn lemma_edit_keys(n: Option<usize>, c: char)
    requires
        edit_of(c) is Some,
    ensures
        leads(counted(n), c, ResolvedCommand::Normal(edit_of(c)->0)),
{
    reveal(leads);
}

/// A key that changes the text does so as often as its count says: what is said of the commands
/// below holds of `x`, `D`, `i`, `a`, `A`, `o`, `O`, `J` and `~`. Then nothing is pending.
pub proof fn keys_edit_the_text(w: World, n: Option<usize>, c: char)
    requires
        ready(w, n),
        edit_of(c) is Some,
        !is_fixed(w.pane().open.buffer),
    ensures
        ({
            let q = normal_keyed(w, key_of(c)).pane();
            let e = edit_done(w.pane(), edit_of(c)->0, times(n));
            q == (Pane { live: Live { pending: counted(None), ..e.live }, ..e })
        }),
{
    lemma_times(n);
    lemma_edit_keys(n, c);
    lemma_keyed(w, c, edit_of(c)->0);
    reveal(normal_done);
}

/// The key `r` and a character put that character in place of others, as often as the count
/// says.
pub proof fn r_takes_a_character(w: World, n: Option<usize>, c: char)
    requires
        ready(w, n),
        !is_fixed(w.pane().open.buffer),
    ensures
        ({
            let armed = PendingCommand { stage: Stage::ReplacePending, ..counted(n) };
            let p = Pane { live: Live { pending: armed, ..w.live }, ..w.pane() };
            normal_keyed(normal_keyed(w, key_of('r')), key_of(c)).pane().open == replaced(
                p,
                c,
                times(n),
            ).open
        }),
{
    let armed = PendingCommand { stage: Stage::ReplacePending, ..counted(n) };
    lemma_times(n);
    lemma_r_keys(n, c);
    lemma_added(w, 'r', armed);
    let v = normal_keyed(w, key_of('r'));
    assert(total_count(armed) == total_count(counted(n)));
    lemma_led(v, c, ResolvedCommand::Replace(c));
    lemma_replace_made(v.hushed(), c);
}

proof fn lemma_r_keys(n: Option<usize>, c: char)
    ensures
        adds(counted(n), 'r', PendingCommand { stage: Stage::ReplacePending, ..counted(n) }),
        leads(
            PendingCommand { stage: Stage::ReplacePending, ..counted(n) },
            c,
            ResolvedCommand::Replace(c),
        ),
{
    reveal(leads);
    reveal(adds);
}

proof fn lemma_replace_made(w: World, c: char)
    ensures
        command_made(w, ResolvedCommand::Replace(c)) == reset(
            w.with_pane(replaced(w.pane(), c, total_count(w.live.pending) as nat)),
        ),
{
    reveal(command_made);
}

/// `x` deletes as many graphemes as its count says, from the cursor on, or those that are left
/// of the line. What is deleted is in the register.
pub proof fn x_deletes_graphemes(p: Pane, n: nat)
    requires
        buffer_text(p.text()),
        p.live.mode == Mode::Normal,
        p.live.pending.register is None,
        on_text(p),
        unbroken(cursor_line(p)),
        p.live.cursor.col < cursor_line(p).len(),
        n > 0,
    ensures
        ({
            let t = p.text();
            let l = cursor_line(p);
            let col = p.live.cursor.col as int;
            let x = edit_done(p, NormalCmd::DeleteUnder, n);
            let k = t.len() - x.text().len();
            let left = bounds_in(l, col, l.len() as int);
            &&& 0 < k <= l.len() - col
            &&& x.text() == t.take(offset(p)) + t.skip(offset(p) + k)
            &&& bound(l, col + k)
            &&& bounds_in(l, col, col + k) == if n <= left {
                n
            } else {
                left
            }
            &&& held_in(x.regs, None) matches Some(r) && !r.linewise && r.text == decode_utf8(
                t.subrange(offset(p), offset(p) + k),
            )
            &&& x.live.mode == Mode::Normal
        }),
{
    reveal(edit_done);
    let t = p.text();
    let l = cursor_line(p);
    let line = p.live.cursor.line as int;
    let col = p.live.cursor.col as int;
    let at = offset(p);
    lemma_own(p);
    lemma_line_text(t, line);
    lemma_advanced(t, line, col, n);
    lemma_columns_on(l, col, n);
    lemma_bound_ends(l);
    let c = columns_on(l, col, n);
    crate::laws::moving::lemma_bounds_add(l, col, c, l.len() as int);
    crate::laws::moving::lemma_one_bound(l, col);
    if c == col {
        assert(bounds_in(l, col, col) == 0);
    }
    lemma_stands(t, line, col);
    lemma_stands(t, line, c);
    lemma_taken(p, at, at - col + c);
    if c < l.len() {
        assert(bounds_in(l, c, l.len() as int) >= 1);
    }
    assert(p.line_end() == at - col + l.len()) by {
        reveal(Pane::line_end);
    }
    reveal(Pane::held);
    assert(deleted_under(p, n) == deleted(
        yanked(p, at, at - col + c, false),
        at,
        at - col + c,
    ).held());
}

/// `D` deletes what is left of the line from the cursor on. What is deleted is in the register.
pub proof fn d_deletes_the_rest_of_the_line(p: Pane, n: nat)
    requires
        buffer_text(p.text()),
        p.live.mode == Mode::Normal,
        p.live.pending.register is None,
        on_text(p),
        unbroken(cursor_line(p)),
        p.live.cursor.col < cursor_line(p).len(),
    ensures
        ({
            let t = p.text();
            let d = edit_done(p, NormalCmd::DeleteToEol, n);
            let end = offset(p) - p.live.cursor.col + cursor_line(p).len();
            &&& d.text() == t.take(offset(p)) + t.skip(end)
            &&& held_in(d.regs, None) matches Some(r) && !r.linewise && r.text == decode_utf8(
                t.subrange(offset(p), end),
            )
            &&& d.live.mode == Mode::Normal
        }),
{
    reveal(edit_done);
    let t = p.text();
    let l = cursor_line(p);
    let line = p.live.cursor.line as int;
    let at = offset(p);
    let end = at - p.live.cursor.col + l.len();
    lemma_own(p);
    lemma_line_text(t, line);
    lemma_bound_ends(l);
    lemma_stands(t, line, p.live.cursor.col as int);
    lemma_stands(t, line, l.len() as int);
    lemma_taken(p, at, end);
    assert(p.line_end() == end) by {
        reveal(Pane::line_end);
    }
    reveal(Pane::held);
}

/// A range that is yanked and deleted.
proof fn lemma_taken(p: Pane, lo: int, hi: int)
    requires
        buffer_text(p.text()),
        stands(p.text(), lo),
        stands(p.text(), hi),
        lo < hi < p.text().len(),
        p.live.pending.register is None,
    ensures
        ({
            let q = deleted(yanked(p, lo, hi, false), lo, hi);
            &&& q.text() == p.text().take(lo) + p.text().skip(hi)
            &&& q.live == p.live
            &&& held_in(q.regs, None) matches Some(r) && !r.linewise && r.text == decode_utf8(
                p.text().subrange(lo, hi),
            )
        }),
{
    reveal(yanked);
    reveal(deleted);
    reveal(Pane::pushed);
    let t = p.text();
    lemma_grown(t, lo, hi);
    let q = yanked(p, lo, hi, false).pushed();
    lemma_removed(q.open.buffer, lo, hi);
    lemma_normalized(removed(q.open.buffer, lo, hi));
    let cut = t.take(lo) + t.skip(hi);
    assert(crate::text::cut_out(t, lo, hi) =~= cut);
    assert(cut.last() == t.last());
}

/// `i` begins typing at the cursor, `a` after the grapheme under it, and `A` at the end of the
/// line. The text stays, and the state before can be returned to.
pub proof fn typing_begins_where_it_is_asked_for(p: Pane)
    requires
        buffer_text(p.text()),
        p.live.mode == Mode::Normal,
        p.live.pending.register is None,
        on_text(p),
        !p.live.snapshot_taken,
    ensures
        ({
            let l = cursor_line(p);
            let col = p.live.cursor.col as int;
            let i = edit_done(p, NormalCmd::InsertBefore, 1);
            let a = edit_done(p, NormalCmd::InsertAfter, 1);
            let e = edit_done(p, NormalCmd::InsertLineEnd, 1);
            &&& i.live.mode == Mode::Insert && a.live.mode == Mode::Insert && e.live.mode
                == Mode::Insert
            &&& i.text() == p.text() && a.text() == p.text() && e.text() == p.text()
            &&& i.live.cursor == p.live.cursor
            &&& a.live.cursor.line == p.live.cursor.line
            &&& e.live.cursor.line == p.live.cursor.line
            &&& e.live.cursor.col == l.len()
            &&& col < l.len() ==> a.live.cursor.col > col && bound(l, a.live.cursor.col as int)
                && bounds_in(l, col, a.live.cursor.col as int) == 1
            &&& i.open.undo.len() == p.open.undo.len() + 1
            &&& i.open.undo.last().text == p.text()
            &&& i.live.snapshot_taken
        }),
{
    reveal(edit_done);
    let l = cursor_line(p);
    lemma_own(p);
    lemma_line_text(p.text(), p.live.cursor.line as int);
    reveal(Pane::pushed);
    if p.live.cursor.col < l.len() {
        crate::laws::moving::lemma_one_bound(l, p.live.cursor.col as int);
    }
    crate::nav::lemma_line_ends_early(p.text(), p.live.cursor.line as int);
}

/// `o` opens an empty line below that of the cursor, and `O` above it: a line feed goes in at
/// the end of the line, or at its start, and typing begins on the new line.
pub proof fn lines_are_opened(p: Pane)
    requires
        buffer_text(p.text()),
        p.live.mode == Mode::Normal,
        p.live.pending.register is None,
        on_text(p),
        p.live.cursor.line < usize::MAX,
    ensures
        ({
            let t = p.text();
            let a = line_start(t, p.live.cursor.line as int);
            let z = a + cursor_line(p).len();
            let below = edit_done(p, NormalCmd::OpenBelow, 1);
            let above = edit_done(p, NormalCmd::OpenAbove, 1);
            &&& below.text() == t.take(z) + seq![LF] + t.skip(z)
            &&& above.text() == t.take(a) + seq![LF] + t.skip(a)
            &&& below.live.cursor.line == p.live.cursor.line + 1
            &&& above.live.cursor.line == p.live.cursor.line
            &&& below.live.cursor.col == 0 && above.live.cursor.col == 0
            &&& below.live.mode == Mode::Insert && above.live.mode == Mode::Insert
        }),
{
    reveal(edit_done);
    let t = p.text();
    lemma_own(p);
    reveal(Pane::pushed);
    reveal(Pane::line_end);
    reveal(Pane::start_of);
    lemma_line_text(t, p.live.cursor.line as int);
    lemma_line_ends_early(t, p.live.cursor.line as int);
    lemma_line_start(t, p.live.cursor.line as int);
    let a = line_start(t, p.live.cursor.line as int);
    lemma_broken(p, a);
    lemma_broken(p, a + cursor_line(p).len());
}

proof fn lemma_broken(p: Pane, at: int)
    requires
        buffer_text(p.text()),
        0 <= at < p.text().len(),
    ensures
        crate::buffer::normalized(inserted(p.pushed().open.buffer, at, seq!['\n'])).text
            == p.text().take(at) + seq![LF] + p.text().skip(at),
{
    reveal(Pane::pushed);
    let t = p.text();
    let b = p.pushed().open.buffer;
    crate::buffer::lemma_line_feed();
    lemma_inserted(b, at, seq!['\n']);
    lemma_normalized(inserted(b, at, seq!['\n']));
    let s = t.take(at) + seq![LF] + t.skip(at);
    assert(spliced_in(t, at, seq![LF]) =~= s);
    assert(s.last() == t.last());
}

/// A character that is typed goes in at the cursor, which moves past it; the enter key puts in
/// a line break, after which the cursor is. Nothing else of the text changes.
pub proof fn typed_text_goes_in_at_the_cursor(p: Pane, c: char)
    requires
        buffer_text(p.text()),
        on_text(p),
        p.live.mode == Mode::Insert,
        p.live.cursor.col + 4 <= usize::MAX,
        p.live.cursor.line < usize::MAX,
    ensures
        ({
            let t = p.text();
            let at = offset(p);
            let q = typed_key(p, key_of(c));
            let e = typed_key(p, plain_key(KeyCode::Enter));
            let s = encode_utf8(seq![c]);
            &&& q.text() == t.take(at) + s + t.skip(at)
            &&& q.live.cursor.line == p.live.cursor.line
            &&& q.live.cursor.col == p.live.cursor.col + s.len()
            &&& q.live.mode == Mode::Insert
            &&& e.text() == t.take(at) + seq![LF] + t.skip(at)
            &&& e.live.cursor.line == p.live.cursor.line + 1
            &&& e.live.cursor.col == 0
        }),
{
    lemma_own(p);
    let t = p.text();
    let at = offset(p);
    let p1 = Pane { live: Live { soft_tab: None, ..p.live }, ..p };
    lemma_own(p1);
    lemma_line_text(t, p.live.cursor.line as int);
    lemma_line_offset(t, p.live.cursor.line as int, p.live.cursor.col as int);
    crate::buffer::lemma_line_feed();
    lemma_inserted(p.open.buffer, at, seq![c]);
    lemma_inserted(p.open.buffer, at, seq!['\n']);
    assert(spliced_in(t, at, seq![LF]) =~= t.take(at) + seq![LF] + t.skip(at));
    assert(spliced_in(t, at, encode_utf8(seq![c])) =~= t.take(at) + encode_utf8(seq![c]) + t.skip(
        at,
    ));
    let one = seq![c];
    assert(one.drop_first() =~= Seq::<char>::empty());
    assert(encode_utf8(one.drop_first()) =~= Seq::<u8>::empty());
    assert(encode_utf8(one) =~= encode_scalar(c as u32));
}

/// Backspace takes the grapheme before the cursor out; nothing else of the text changes.
pub proof fn backspace_takes_a_grapheme(p: Pane)
    requires
        buffer_text(p.text()),
        on_text(p),
        typing(p.live.mode),
        p.live.soft_tab is None,
        p.live.cursor.col > 0,
    ensures
        ({
            let t = p.text();
            let l = cursor_line(p);
            let col = p.live.cursor.col as int;
            let b = typed_key(p, plain_key(KeyCode::Backspace));
            let k = t.len() - b.text().len();
            &&& 0 < k <= col
            &&& b.text() == t.take(offset(p) - k) + t.skip(offset(p))
            &&& bound(l, col - k)
            &&& bounds_in(l, col - k, col) == 1
            &&& b.live.cursor.line == p.live.cursor.line
            &&& b.live.cursor.col == col - k
        }),
{
    lemma_own(p);
    let t = p.text();
    let l = cursor_line(p);
    let col = p.live.cursor.col as int;
    let at = offset(p);
    assert(Pane { live: Live { soft_tab: None, ..p.live }, ..p } == p);
    lemma_line_text(t, p.live.cursor.line as int);
    lemma_line_offset(t, p.live.cursor.line as int, col);
    lemma_line_start(t, p.live.cursor.line as int);
    lemma_bound_upto(l, col - 1);
    let c = prev_bound(l, col);
    lemma_removed(p.open.buffer, at - col + c, at);
    crate::laws::moving::lemma_no_bounds(l, c, col - 1);
    assert(crate::text::cut_out(t, at - col + c, at) =~= t.take(at - col + c) + t.skip(at));
}

/// The delete key takes the grapheme under the cursor out; nothing else of the text changes, and
/// nothing at all at the end of the line.
pub proof fn delete_takes_a_grapheme(p: Pane)
    requires
        buffer_text(p.text()),
        on_text(p),
        typing(p.live.mode),
    ensures
        ({
            let t = p.text();
            let l = cursor_line(p);
            let col = p.live.cursor.col as int;
            let d = typed_key(p, plain_key(KeyCode::Delete));
            let k = t.len() - d.text().len();
            &&& d.live.cursor == p.live.cursor
            &&& col < l.len() ==> {
                &&& 0 < k <= l.len() - col
                &&& d.text() == t.take(offset(p)) + t.skip(offset(p) + k)
                &&& bound(l, col + k)
                &&& bounds_in(l, col, col + k) == 1
            }
            &&& col == l.len() ==> d.text() == t
        }),
{
    let t = p.text();
    let l = cursor_line(p);
    let col = p.live.cursor.col as int;
    let at = offset(p);
    let p1 = Pane { live: Live { soft_tab: None, ..p.live }, ..p };
    lemma_own(p1);
    lemma_line_text(t, p.live.cursor.line as int);
    lemma_line_offset(t, p.live.cursor.line as int, col);
    lemma_line_start(t, p.live.cursor.line as int);
    if col < l.len() {
        crate::laws::moving::lemma_one_bound(l, col);
        let c = next_bound(l, col);
        lemma_removed(p.open.buffer, at, at - col + c);
        assert(crate::text::cut_out(t, at, at - col + c) =~= t.take(at) + t.skip(at - col + c));
    }
}

/// The escape key ends the typing: the text stays, and the cursor goes back over one grapheme,
/// where there is one.
pub proof fn escape_ends_the_typing(p: Pane)
    requires
        buffer_text(p.text()),
        on_text(p),
        p.live.mode == Mode::Insert,
    ensures
        ({
            let q = typed_key(p, plain_key(KeyCode::Esc));
            let col = p.live.cursor.col as int;
            &&& q.text() == p.text()
            &&& q.live.mode == Mode::Normal
            &&& !q.live.snapshot_taken
            &&& q.live.cursor.line == p.live.cursor.line
            &&& col == 0 ==> q.live.cursor.col == 0
            &&& col > 0 ==> q.live.cursor.col < col && bounds_in(
                cursor_line(p),
                q.live.cursor.col as int,
                col,
            ) == 1
        }),
{
    lemma_own(p);
    let l = cursor_line(p);
    let col = p.live.cursor.col as int;
    let p1 = Pane { live: Live { soft_tab: None, ..p.live }, ..p };
    lemma_own(p1);
    lemma_line_text(p.text(), p.live.cursor.line as int);
    lemma_bound_upto(l, col - 1);
    lemma_bound_ends(l);
    let c = if col > 0 {
        prev_bound(l, col)
    } else {
        0
    };
    let q = p1.with_mode(Mode::Normal).with_cursor(
        Cursor { col: c as usize, ..p.live.cursor },
    );
    lemma_held(q);
    if col > 0 {
        crate::laws::moving::lemma_no_bounds(l, c, col - 1);
    }
}

proof fn lemma_repeated(c: char, n: nat)
    ensures
        encode_utf8(repeated(c, n)) == over_again(encode_utf8(seq![c]), n),
{
    lemma_same_copies(c, n);
    lemma_copies(seq![c], n);
}

proof fn lemma_same_copies(c: char, n: nat)
    ensures
        repeated(c, n) == copies(seq![c], n),
    decreases n,
{
    if n > 0 {
        lemma_same_copies(c, (n - 1) as nat);
        assert(repeated(c, n) =~= repeated(c, (n - 1) as nat) + seq![c]);
    } else {
        assert(repeated(c, 0) =~= copies(seq![c], 0));
    }
}

/// `r` puts a character in place of as many graphemes as its count says, as often, and changes
/// nothing where fewer are left of the line.
pub proof fn r_replaces_graphemes(p: Pane, n: nat, c: char)
    requires
        buffer_text(p.text()),
        on_text(p),
        unbroken(cursor_line(p)),
        n > 0,
    ensures
        ({
            let t = p.text();
            let l = cursor_line(p);
            let col = p.live.cursor.col as int;
            let q = replaced(p, c, n);
            let left = bounds_in(l, col, l.len() as int);
            &&& left < n ==> q.text() == t
            &&& left >= n ==> exists|k: int|
                0 < k <= l.len() - col && bound(l, col + k) && #[trigger] bounds_in(l, col, col + k)
                    == n && q.text() == t.take(offset(p)) + over_again(
                    encode_utf8(seq![c]),
                    n,
                ) + t.skip(offset(p) + k)
        }),
{
    let t = p.text();
    let l = cursor_line(p);
    let line = p.live.cursor.line as int;
    let col = p.live.cursor.col as int;
    let at = offset(p);
    lemma_own(p);
    lemma_line_text(t, line);
    lemma_advanced(t, line, col, n);
    lemma_columns_on(l, col, n);
    let e = columns_on(l, col, n);
    crate::laws::moving::lemma_bounds_add(l, col, e, l.len() as int);
    lemma_bound_ends(l);
    assert(p.line_end() == at - col + l.len()) by {
        reveal(Pane::line_end);
    }
    if e < l.len() {
        assert(bounds_in(l, e, l.len() as int) >= 1);
    }
    if bounds_in(l, col, l.len() as int) >= n {
        assert(bounds_in(l, col, e) == n);
        lemma_stands(t, line, col);
        lemma_stands(t, line, e);
        if e == col {
            assert(bounds_in(l, col, col) == 0);
        }
        lemma_replaced(p, c, n, at, at - col + e);
        let k = e - col;
        assert(bounds_in(l, col, col + k) == n);
    }
}

proof fn lemma_replaced(p: Pane, c: char, n: nat, lo: int, hi: int)
    requires
        buffer_text(p.text()),
        n > 0,
        p.spot() == lo,
        0 <= lo < hi <= p.text().len(),
        advanced(p.text(), lo, n, p.line_end()) == (hi, n),
    ensures
        replaced(p, c, n).text() == p.text().take(lo) + over_again(encode_utf8(seq![c]), n)
            + p.text().skip(hi),
{
    reveal(Pane::pushed);
    reveal(Pane::held);
    let t = p.text();
    let b = p.pushed().open.buffer;
    let s = repeated(c, n);
    lemma_repeated(c, n);
    lemma_removed(b, lo, hi);
    lemma_inserted(removed(b, lo, hi), lo, s);
    assert(spliced_in(crate::text::cut_out(t, lo, hi), lo, encode_utf8(s)) =~= t.take(lo)
        + encode_utf8(s) + t.skip(hi));
}

/// `~` turns the character under the cursor to the other case, and changes nothing else.
pub proof fn tilde_turns_the_case(p: Pane)
    requires
        buffer_text(p.text()),
        p.live.mode == Mode::Normal,
        p.live.pending.register is None,
        on_text(p),
        unbroken(cursor_line(p)),
        p.live.cursor.col < cursor_line(p).len(),
    ensures
        ({
            let t = p.text();
            let at = offset(p);
            let c = char_or_blank(t, at);
            let q = edit_done(p, NormalCmd::ToggleCase, 1);
            let turned = if uppercase(c) {
                lowered(c)
            } else {
                raised(c)
            };
            q.text() == t.take(at) + encode_utf8(turned) + t.skip(at + encode_utf8(seq![c]).len())
        }),
{
    reveal(edit_done);
    let t = p.text();
    let at = offset(p);
    let c = char_or_blank(t, at);
    lemma_own(p);
    lemma_buffer_lines(t);
    reveal(Pane::pushed);
    reveal(Pane::held);
    reveal(Pane::spot);
    reveal_with_fuel(toggled, 2);
    lemma_line_text(t, p.live.cursor.line as int);
    lemma_stands(t, p.live.cursor.line as int, p.live.cursor.col as int);
    lemma_line_offset(t, p.live.cursor.line as int, p.live.cursor.col as int);
    crate::desk::lemma_char_len(t, at);
    let b = p.pushed().open.buffer;
    let k = encode_utf8(seq![c]).len() as int;
    let s = other_case(c);
    assert(crate::open::spot(t, p.live.cursor) == at);
    lemma_removed(b, at, at + k);
    lemma_inserted(removed(b, at, at + k), at, s);
    if s.len() == 0 {
        assert(encode_utf8(s) =~= Seq::<u8>::empty());
    }
    assert(inserted(removed(b, at, at + k), at, s).text =~= t.take(at) + encode_utf8(s) + t.skip(
        at + k,
    ));
}

/// `J` joins the next line to that of the cursor: the line break and the indent of the next
/// line, up to its first character that is not blank, give way to one blank, or to nothing where
/// the line is empty.
pub proof fn j_joins_lines(p: Pane, k: int)
    requires
        buffer_text(p.text()),
        p.live.mode == Mode::Normal,
        p.live.pending.register is None,
        on_text(p),
        p.live.cursor.line + 1 < edit_lines(p.text()),
        ({
            let next = line_text(p.text(), p.live.cursor.line + 1);
            &&& unbroken(next)
            &&& 0 <= k <= next.len()
            &&& forall|i: int| 0 <= i < k ==> #[trigger] is_space(next[i])
            &&& k < next.len() ==> !is_space(next[k])
        }),
    ensures
        ({
            let t = p.text();
            let eol = line_start(t, p.live.cursor.line as int) + cursor_line(p).len();
            let to = line_start(t, p.live.cursor.line + 1) + k;
            let q = edit_done(p, NormalCmd::Join, 1);
            q.text() == t.take(eol) + (if cursor_line(p).len() > 0 {
                seq![32u8]
            } else {
                Seq::empty()
            }) + t.skip(to)
        }),
{
    reveal(edit_done);
    let t = p.text();
    let line = p.live.cursor.line as int;
    let l = cursor_line(p);
    let next = line_text(t, line + 1);
    let a = line_start(t, line + 1);
    let eol = line_start(t, line) + l.len();
    lemma_own(p);
    let b = p.pushed().open.buffer;
    assert(b.text == t) by {
        reveal(Pane::pushed);
    }
    lemma_joined(b, line, p.live.cursor.col as int, k);
    let r = joined(b, line, p.live.cursor.col as int, 1).0;
    lemma_line_text(t, line + 1);
    lemma_line_within(t, line + 1);
    lemma_line_start(t, line + 1);
    lemma_line_start(t, line + 2);
    assert(r.text.last() == t.last());
    lemma_normalized(r);
    assert(crate::edit::lines_joined(p, 2).text() == r.text) by {
        reveal(Pane::pushed);
        reveal(Pane::held);
    }
}

proof fn lemma_joined(b: BufferModel, line: int, col: int, k: int)
    requires
        buffer_text(b.text),
        0 <= line,
        line + 1 < edit_lines(b.text),
        ({
            let next = line_text(b.text, line + 1);
            &&& unbroken(next)
            &&& 0 <= k <= next.len()
            &&& forall|i: int| 0 <= i < k ==> #[trigger] is_space(next[i])
            &&& k < next.len() ==> !is_space(next[k])
        }),
    ensures
        ({
            let t = b.text;
            let eol = line_start(t, line) + line_text(t, line).len();
            joined(b, line, col, 1).0.text == t.take(eol) + (if line_text(t, line).len() > 0 {
                seq![32u8]
            } else {
                Seq::empty()
            }) + t.skip(line_start(t, line + 1) + k)
        }),
{
    let t = b.text;
    let l = line_text(t, line);
    let a = line_start(t, line + 1);
    let eol = line_start(t, line) + l.len();
    reveal_with_fuel(joined, 2);
    lemma_line_text(t, line);
    lemma_line_text(t, line + 1);
    lemma_blanks_end(t, line + 1, 0, k);
    lemma_line_start(t, line);
    lemma_removed(b, eol, a + k);
    let c = removed(b, eol, a + k);
    is_ascii_chars_encode_utf8(seq![' ']);
    assert(encode_utf8(seq![' ']) =~= seq![32u8]);
    lemma_inserted(c, eol, seq![' ']);
    assert(c.text =~= t.take(eol) + t.skip(a + k));
    let r = if l.len() > 0 {
        inserted(c, eol, seq![' '])
    } else {
        c
    };
    assert(r.text =~= t.take(eol) + (if l.len() > 0 {
        seq![32u8]
    } else {
        Seq::empty()
    }) + t.skip(a + k));
    assert(joined(b, line, col, 1).0 == r);
}

proof fn lemma_blanks_end(t: Seq<u8>, n: int, i: int, k: int)
    requires
        buffer_text(t),
        0 <= n < edit_lines(t),
        unbroken(line_text(t, n)),
        0 <= i <= k <= line_text(t, n).len(),
        forall|j: int| 0 <= j < k ==> #[trigger] is_space(line_text(t, n)[j]),
        k < line_text(t, n).len() ==> !is_space(line_text(t, n)[k]),
    ensures
        crate::desk::blanks_end(t, line_start(t, n) + i, crate::nav::last_idx(t)) == line_start(
            t,
            n,
        ) + k,
    decreases k - i,
{
    lemma_line_text(t, n);
    lemma_line_within(t, n);
    lemma_line_start(t, n);
    lemma_line_start(t, n + 1);
    let l = line_text(t, n);
    let at = line_start(t, n) + i;
    crate::buffer::lemma_ascii_char(t, at, ' ', 32u8);
    crate::buffer::lemma_ascii_char(t, at, '\t', 9u8);
    if i < l.len() {
        assert(t[at] == l[i]);
    }
    if i > 0 {
        assert(is_space(l[i - 1]));
        assert(t[at - 1] == l[i - 1]);
        crate::text::lemma_after_ascii_on_char(t, at - 1);
    }
    if i < k {
        assert(is_space(l[i]));
        lemma_blanks_end(t, n, i + 1, k);
    } else if i == l.len() {
        assert(t[at] == LF || t[at] == crate::text::CR);
    }
}

} // verus!
