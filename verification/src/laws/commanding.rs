//! How commands are put together: counts, selections, objects, repetition and history.

use vstd::prelude::*;

use crate::again::{keys_again, typing_keys};
use crate::batch::is_fixed;
use crate::changes::{newer_change, older_change, ChangeMiss};
use crate::command::{
    count_digit, count_len, object_char, step, NormalCmd, ObjectKind, ParseStep, PendingCommand,
    ResolvedCommand, Stage,
};
use crate::desk::Pane;
use crate::editor::exline::ex_done;
use crate::editor::normal::{
    command_made, edit_done, move_done, normal_done, normal_keyed, object_done, reset, scroll_done,
    stepped, unrepeatable,
};
use crate::editor::World;
use crate::ex::number_of;
use crate::input::Key;
use crate::laws::operating::{delete_takes_the_range, stands};
use crate::laws::pasting::ended;
use crate::laws::{
    adds, counted, key_of, leads, lemma_added, lemma_led, lemma_normal_made, lemma_own, offset,
    on_text, ready,
};
use crate::mode::{selecting, Mode};
use crate::motions::total_count;
use crate::nav::{lemma_next_idx, past};
use crate::objects::{pair_range, sentence_at, sentence_range, sentences, white};
use crate::open::Live;
use crate::operate::{object_applied, object_range, operated, pending_reset, selection_operated};
use crate::registers::held_in;
use crate::scroll::Frame;
use crate::strings::{nat_text, trimmed};
use crate::text::{buffer_text, edit_lines, lemma_buffer_lines};

verus! {

/// A count before an operator and one after it multiply.
pub proof fn counts_multiply(p: PendingCommand, a: usize, b: usize)
    requires
        p.op_count == Some(a),
        p.count == Some(b),
        a * b <= usize::MAX,
    ensures
        total_count(p) == a * b,
{
    assert(0 <= a * b) by (nonlinear_arith);
}

/// A count alone, before the operator or after it, is the count.
pub proof fn one_count_is_enough(p: PendingCommand, n: usize)
    ensures
        p.op_count == Some(n) && p.count is None ==> total_count(p) == n,
        p.op_count is None && p.count == Some(n) ==> total_count(p) == n,
        p.op_count is None && p.count is None ==> total_count(p) == 1,
{
}

proof fn lemma_selection_keys(n: Option<usize>)
    ensures
        leads(counted(n), 'v', ResolvedCommand::Normal(NormalCmd::EnterVisual)),
        leads(counted(n), 'V', ResolvedCommand::Normal(NormalCmd::EnterVisualLine)),
        leads(counted(n), 'u', ResolvedCommand::Normal(NormalCmd::Undo)),
{
    reveal(leads);
}

/// What a key does that begins a selection.
proof fn lemma_selection_keyed(w: World, n: Option<usize>, c: char, cmd: NormalCmd)
    requires
        ready(w, n),
        leads(counted(n), c, ResolvedCommand::Normal(cmd)),
        cmd == NormalCmd::EnterVisual || cmd == NormalCmd::EnterVisualLine,
    ensures
        ({
            let q = edit_done(w.pane(), cmd, total_count(counted(n)) as nat);
            normal_keyed(w, key_of(c)).pane() == pending_reset(q)
        }),
{
    lemma_led(w, c, ResolvedCommand::Normal(cmd));
    lemma_normal_made(w.hushed(), cmd);
    reveal(normal_done);
}

/// `v` begins a selection at the cursor, and `V` one of whole lines. Text and cursor stay.
pub proof fn selections_begin_at_the_cursor(w: World, n: Option<usize>)
    requires
        ready(w, n),
    ensures
        ({
            let v = normal_keyed(w, key_of('v')).pane();
            let l = normal_keyed(w, key_of('V')).pane();
            &&& v.live.mode == Mode::Visual
            &&& l.live.mode == Mode::VisualLine
            &&& v.live.visual_anchor == w.live.cursor
            &&& l.live.visual_anchor == w.live.cursor
            &&& v.live.cursor == w.live.cursor
            &&& l.live.cursor == w.live.cursor
            &&& v.open == w.pane().open
            &&& l.open == w.pane().open
        }),
{
    lemma_selection_keys(n);
    lemma_selection_keyed(w, n, 'v', NormalCmd::EnterVisual);
    lemma_selection_keyed(w, n, 'V', NormalCmd::EnterVisualLine);
    reveal(edit_done);
}

/// The operator of a key while a selection is made.
pub open spec fn selection_operator(c: char) -> Option<char> {
    if c == 'd' || c == 'x' {
        Some('d')
    } else if c == 'c' || c == 's' {
        Some('c')
    } else if c == 'y' {
        Some('y')
    } else {
        None
    }
}

proof fn lemma_visual_key(mode: Mode, n: Option<usize>, c: char)
    requires
        selecting(mode),
        selection_operator(c) is Some,
    ensures
        step(mode, counted(n), key_of(c)) == ParseStep::Complete(
            ResolvedCommand::VisualOperate(selection_operator(c)->0),
        ),
{
}

/// While a selection is made, `d` and `x` delete it, `c` and `s` change it, and `y` yanks it.
pub proof fn selections_are_operated_on(w: World, n: Option<usize>, c: char)
    requires
        selecting(w.live.mode),
        w.live.pending == counted(n),
        w.buffers.contains_key(w.cur().0),
        selection_operator(c) is Some,
        !is_fixed(w.pane().open.buffer),
    ensures
        normal_keyed(w, key_of(c)).pane() == selection_operated(
            w.pane(),
            selection_operator(c)->0,
        ),
{
    let cmd = ResolvedCommand::VisualOperate(selection_operator(c)->0);
    lemma_visual_key(w.live.mode, n, c);
    assert(normal_keyed(w, key_of(c)) == command_made(w.hushed(), cmd)) by {
        reveal(normal_keyed);
    }
    lemma_visual_made(w.hushed(), selection_operator(c)->0);
}

proof fn lemma_visual_made(w: World, op: char)
    ensures
        command_made(w, ResolvedCommand::VisualOperate(op)) == w.with_pane(
            selection_operated(w.pane(), op),
        ),
{
    reveal(command_made);
}

/// `u` goes one step back in the history of the text.
pub proof fn u_goes_back(w: World, n: Option<usize>)
    requires
        ready(w, n),
        !is_fixed(w.pane().open.buffer),
        w.pane().open.undo.len() > 0,
    ensures
        ({
            let q = normal_keyed(w, key_of('u')).pane();
            let s = w.pane().open.undo.last();
            &&& q.text() == s.text
            &&& q.open.undo.len() == w.pane().open.undo.len() - 1
            &&& q.open.redo.len() == w.pane().open.redo.len() + 1
            &&& q.open.redo.last().text == w.pane().text()
        }),
{
    lemma_selection_keys(n);
    lemma_led(w, 'u', ResolvedCommand::Normal(NormalCmd::Undo));
    lemma_normal_made(w.hushed(), NormalCmd::Undo);
    lemma_undo_done(w.hushed());
}

proof fn lemma_undo_done(w: World)
    requires
        w.live.pending.register is None,
    ensures
        normal_done(w, NormalCmd::Undo) == reset(stepped(unrepeatable(w), true)),
{
    reveal(normal_done);
    reveal(move_done);
}

proof fn lemma_count_len(keys: Seq<Key>, i: int)
    requires
        0 <= i <= keys.len(),
    ensures
        ({
            let k = i + count_len(keys, i);
            &&& k <= keys.len()
            &&& forall|j: int| i <= j < k ==> count_digit(#[trigger] keys[j], j == 0)
            &&& k < keys.len() ==> !count_digit(keys[k], k == 0)
        }),
    decreases keys.len() - i,
{
    if i < keys.len() && count_digit(keys[i], i == 0) {
        lemma_count_len(keys, i + 1);
    }
}

/// A change is repeated by its own keys. With a count they are those that type that count, and
/// then its keys from where its own count, of `k` digits, ends.
pub proof fn repetition_takes_another_count(last: Seq<Key>, n: usize, k: int)
    requires
        0 <= k <= last.len(),
        forall|j: int| 0 <= j < k ==> count_digit(#[trigger] last[j], j == 0),
        k < last.len() ==> !count_digit(last[k], k == 0),
    ensures
        keys_again(last, None) == last,
        keys_again(last, Some(n)) == typing_keys(nat_text(n as nat)) + last.skip(k),
{
    lemma_count_len(last, 0);
    let c = count_len(last, 0) as int;
    if c < k {
        assert(count_digit(last[c], c == 0));
    } else if k < c {
        assert(count_digit(last[k], k == 0));
    }
}

/// The object of a key.
pub open spec fn object_of(c: char) -> Option<ObjectKind> {
    if c == 'w' {
        Some(ObjectKind::Word(false))
    } else if c == 'W' {
        Some(ObjectKind::Word(true))
    } else if c == '(' || c == ')' || c == 'b' {
        Some(ObjectKind::Pair('(', ')'))
    } else if c == '{' || c == '}' || c == 'B' {
        Some(ObjectKind::Pair('{', '}'))
    } else if c == '[' || c == ']' {
        Some(ObjectKind::Pair('[', ']'))
    } else if c == '<' || c == '>' {
        Some(ObjectKind::Pair('<', '>'))
    } else if c == '"' || c == '\'' || c == '`' {
        Some(ObjectKind::Quote(c))
    } else if c == 's' {
        Some(ObjectKind::Sentence)
    } else if c == 'p' {
        Some(ObjectKind::Paragraph)
    } else {
        None
    }
}

/// An operator that waits for the object that a key names, inner or with what is around it.
pub open spec fn awaiting(op: char, ia: char) -> PendingCommand {
    PendingCommand {
        operator: Some(op),
        stage: Stage::TextObjectPending(ia),
        ..counted(None)
    }
}

proof fn lemma_object_table(c: char)
    requires
        object_of(c) is Some,
    ensures
        object_char(c) == object_of(c),
{
}

proof fn lemma_operator_key(op: char)
    requires
        op == 'd' || op == 'y' || op == 'c',
    ensures
        adds(counted(None), op, PendingCommand { operator: Some(op), ..counted(None) }),
{
    reveal(adds);
}

proof fn lemma_around_key(op: char, ia: char)
    requires
        ia == 'i' || ia == 'a',
    ensures
        adds(
            PendingCommand { operator: Some(op), ..counted(None) },
            ia,
            awaiting(op, ia),
        ),
{
    reveal(adds);
}

proof fn lemma_object_key(op: char, ia: char, c: char, kind: ObjectKind)
    requires
        object_char(c) == Some(kind),
    ensures
        leads(awaiting(op, ia), c, ResolvedCommand::TextObject { ia, kind }),
{
    reveal(leads);
}

/// The keys of an operator and of an object.
pub open spec fn object_typed(w: World, op: char, ia: char, c: char) -> World {
    normal_keyed(normal_keyed(normal_keyed(w, key_of(op)), key_of(ia)), key_of(c))
}

proof fn lemma_object_typed(w: World, op: char, ia: char, c: char)
    requires
        ready(w, None),
        !is_fixed(w.pane().open.buffer),
        op == 'd' || op == 'y' || op == 'c',
        ia == 'i' || ia == 'a',
        object_of(c) is Some,
    ensures
        ({
            let v = World { live: Live { pending: awaiting(op, ia), ..w.live }, ..w.hushed() };
            object_typed(w, op, ia, c) == object_done(v, ia, object_of(c)->0)
        }),
{
    let kind = object_of(c)->0;
    lemma_object_table(c);
    lemma_operator_key(op);
    lemma_around_key(op, ia);
    lemma_object_key(op, ia, c, kind);
    lemma_added(w, op, PendingCommand { operator: Some(op), ..counted(None) });
    let a = normal_keyed(w, key_of(op));
    lemma_added(a, ia, awaiting(op, ia));
    let b = normal_keyed(a, key_of(ia));
    lemma_led(b, c, ResolvedCommand::TextObject { ia, kind });
    lemma_object_made(b.hushed(), ia, kind);
}

proof fn lemma_object_made(w: World, ia: char, kind: ObjectKind)
    ensures
        command_made(w, ResolvedCommand::TextObject { ia, kind }) == object_done(w, ia, kind),
{
    reveal(command_made);
}

/// An operator on an object takes its range: `d` takes it out of the text and nothing else, `y`
/// leaves the text, and both put it in the register.
pub proof fn operators_take_objects(w: World, ia: char, c: char, lo: int, hi: int)
    requires
        ready(w, None),
        on_text(w.pane()),
        !is_fixed(w.pane().open.buffer),
        !w.live.snapshot_taken,
        ia == 'i' || ia == 'a',
        object_of(c) is Some,
        object_range(w.pane(), ia, object_of(c)->0, 1) == Some((lo, hi, false)),
        stands(w.pane().text(), lo),
        stands(w.pane().text(), hi),
        lo < hi,
    ensures
        ({
            let t = w.pane().text();
            let d = object_typed(w, 'd', ia, c).pane();
            let y = object_typed(w, 'y', ia, c).pane();
            &&& d.text() == ended(t.take(lo) + t.skip(hi))
            &&& y.text() == t
            &&& held_in(d.regs, None) is Some
            &&& held_in(y.regs, None) == held_in(d.regs, None)
            &&& d.live.mode == Mode::Normal
        }),
{
    lemma_object_taken(w, 'd', ia, c, lo, hi);
    lemma_object_taken(w, 'y', ia, c, lo, hi);
    let e = Pane { live: Live { pending: without(ia), ..w.live }, ..w.pane() };
    delete_takes_the_range(e, lo, hi, false, 0);
    crate::laws::operating::yank_changes_no_text(e, lo, hi, false, 0);
}

spec fn without(ia: char) -> PendingCommand {
    PendingCommand { stage: Stage::TextObjectPending(ia), ..counted(None) }
}

proof fn lemma_object_taken(w: World, op: char, ia: char, c: char, lo: int, hi: int)
    requires
        ready(w, None),
        !is_fixed(w.pane().open.buffer),
        op == 'd' || op == 'y',
        ia == 'i' || ia == 'a',
        object_of(c) is Some,
        object_range(w.pane(), ia, object_of(c)->0, 1) == Some((lo, hi, false)),
    ensures
        ({
            let e = Pane { live: Live { pending: without(ia), ..w.live }, ..w.pane() };
            object_typed(w, op, ia, c).pane() == pending_reset(operated(e, op, lo, hi, false, 0))
        }),
{
    lemma_object_typed(w, op, ia, c);
    let v = World { live: Live { pending: awaiting(op, ia), ..w.live }, ..w.hushed() };
    let kind = object_of(c)->0;
    one_count_is_enough(v.live.pending, 1);
    lemma_object_same(w.pane(), v.pane(), ia, kind);
    lemma_object_done(v, ia, kind, lo, hi);
    lemma_object_applied(v.pane(), op, ia, lo, hi);
}

proof fn lemma_object_done(w: World, ia: char, kind: ObjectKind, lo: int, hi: int)
    requires
        total_count(w.live.pending) == 1,
        object_range(w.pane(), ia, kind, 1) == Some((lo, hi, false)),
    ensures
        object_done(w, ia, kind) == w.with_pane(object_applied(w.pane(), lo, hi, false)),
{
    reveal(object_done);
}

proof fn lemma_object_applied(p: Pane, op: char, ia: char, lo: int, hi: int)
    requires
        p.live.mode == Mode::Normal,
        p.live.pending == awaiting(op, ia),
    ensures
        ({
            let e = Pane { live: Live { pending: without(ia), ..p.live }, ..p };
            object_applied(p, lo, hi, false) == pending_reset(operated(e, op, lo, hi, false, 0))
        }),
{
}

/// An object goes by the text, the cursor and the mode.
proof fn lemma_object_same(p: Pane, q: Pane, ia: char, kind: ObjectKind)
    requires
        p.text() == q.text(),
        p.live.cursor == q.live.cursor,
        p.live.mode == q.live.mode,
    ensures
        object_range(p, ia, kind, 1) == object_range(q, ia, kind, 1),
{
    reveal(object_range);
    reveal(Pane::spot);
    reveal(Pane::line_no);
    reveal(Pane::line);
    reveal(Pane::start_of);
}

/// A bracket object is the pair of these brackets around the cursor: `i` is what is inside.
pub proof fn bracket_objects_are_pairs(p: Pane, ia: char, open: char, close: char, n: nat)
    requires
        buffer_text(p.text()),
        on_text(p),
    ensures
        object_range(p, ia, ObjectKind::Pair(open, close), n) == pair_range(
            p.text(),
            offset(p),
            ia == 'i',
            open,
            close,
            selecting(p.live.mode),
        ),
{
    reveal(object_range);
    lemma_own(p);
}

/// The sentences follow one another without a gap, up to the end.
proof fn lemma_sentences(t: Seq<u8>, s: int, i: int, end: int)
    requires
        buffer_text(t),
        0 <= s <= i,
        end <= t.len(),
    ensures
        ({
            let v = sentences(t, s, i, end);
            &&& v.len() > 0 ==> v[0].0 == s && v.last().2 >= end
            &&& s < end ==> v.len() > 0
            &&& forall|k: int| 0 <= k < v.len() ==> (#[trigger] v[k]).0 < v[k].2
            &&& forall|k: int| 0 <= k < v.len() - 1 ==> (#[trigger] v[k]).2 == v[k + 1].0
        }),
    decreases
            if i < end {
                end - i
            } else {
                0
            },
{
    if i < end {
        lemma_next_idx(t, i);
        let c = crate::nav::char_or_blank(t, i);
        let j = past(t, crate::nav::next_idx(t, i), end, crate::objects::closing());
        let k = past(t, j, end, white());
        if (c == '.' || c == '!' || c == '?') && (j >= end || white()(
            crate::nav::char_or_blank(t, j),
        )) && k > i {
            lemma_sentences(t, k, k, end);
            let rest = sentences(t, k, k, end);
            let v = sentences(t, s, i, end);
            assert(v == seq![(s, j, k)] + rest);
            assert forall|m: int| 0 <= m < v.len() implies (#[trigger] v[m]).0 < v[m].2 by {
                if m > 0 {
                    assert(v[m] == rest[m - 1]);
                }
            }
            assert forall|m: int| 0 <= m < v.len() - 1 implies (#[trigger] v[m]).2 == v[m + 1].0 by {
                assert(v[m + 1] == rest[m]);
                if m > 0 {
                    assert(v[m] == rest[m - 1]);
                }
            }
            if rest.len() > 0 {
                assert(v.last() == rest.last());
            }
        } else {
            lemma_sentences(t, s, crate::nav::next_idx(t, i), end);
        }
    }
}

proof fn lemma_sentence_at(v: Seq<(int, int, int)>, cur: int, n: int)
    requires
        1 <= n <= v.len(),
        v[0].0 <= cur,
        n == v.len() || cur < v[n].0,
    ensures
        ({
            let a = sentence_at(v, cur, n);
            &&& 0 <= a < v.len()
            &&& v[a].0 <= cur
            &&& a + 1 == v.len() || cur < v[a + 1].0
        }),
    decreases n,
{
    if n > 1 && v[n - 1].0 > cur {
        lemma_sentence_at(v, cur, n - 1);
    }
}

/// The sentence object holds the cursor: it begins not after it, and with the white space after
/// it, it ends after it. The inner one begins at the same sentence.
pub proof fn sentence_holds_the_cursor(t: Seq<u8>, lo: int, hi: int, cur: int)
    requires
        buffer_text(t),
        0 <= lo < hi <= t.len(),
        past(t, lo, hi, white()) <= cur < hi,
    ensures
        sentence_range(t, lo, hi, cur, false, 1) matches Some((a, z)) && a <= cur < z,
        sentence_range(t, lo, hi, cur, true, 1) matches Some((a, z)) && a <= cur,
{
    let s = past(t, lo, hi, white());
    lemma_past_on(t, lo, hi);
    lemma_sentences(t, s, s, hi);
    let v = sentences(t, s, s, hi);
    lemma_sentence_at(v, cur, v.len() as int);
    let a = sentence_at(v, cur, v.len() as int);
    if a + 1 < v.len() {
        assert(v[a].2 == v[a + 1].0);
    }
    lemma_back_to(t, v[a].0, lo);
}

proof fn lemma_past_on(t: Seq<u8>, i: int, limit: int)
    requires
        0 <= i,
    ensures
        past(t, i, limit, white()) >= i,
    decreases
            if i < limit {
                limit - i
            } else {
                0
            },
{
    if i < limit && white()(crate::nav::char_or_blank(t, i)) && i < crate::nav::next_idx(t, i) {
        lemma_past_on(t, crate::nav::next_idx(t, i), limit);
    }
}

proof fn lemma_back_to(t: Seq<u8>, i: int, lo: int)
    ensures
        crate::objects::back_to(t, i, lo, white()) <= i,
    decreases i,
{
    if i > lo && i > 0 && white()(crate::nav::char_or_blank(t, crate::nav::prev_idx(t, i))) && 0
        <= crate::nav::prev_idx(t, i) < i {
        lemma_back_to(t, crate::nav::prev_idx(t, i), lo);
    }
}

/// Scrolling by half a page, or by a page, moves the cursor as many lines, as far as there are
/// lines: half of the rows of the window, or all of them but two, and one at least.
pub proof fn pages_move_the_cursor(p: Pane, f: Frame, limit: int)
    requires
        buffer_text(p.text()),
        p.live.cursor.line < edit_lines(p.text()),
        3 <= f.height <= i64::MAX,
    ensures
        ({
            let line = p.live.cursor.line as int;
            let last = edit_lines(p.text()) - 1;
            let hd = scroll_done(p, NormalCmd::ScrollHalf(true), f, limit);
            let hu = scroll_done(p, NormalCmd::ScrollHalf(false), f, limit);
            let pd = scroll_done(p, NormalCmd::ScrollPage(true), f, limit);
            let pu = scroll_done(p, NormalCmd::ScrollPage(false), f, limit);
            let half = f.height as int / 2;
            let page = f.height - 2;
            &&& hd.text() == p.text()
            &&& line + half <= last ==> hd.live.cursor.line == line + half
            &&& line + half > last ==> hd.live.cursor.line == last
            &&& line >= half ==> hu.live.cursor.line == line - half
            &&& line < half ==> hu.live.cursor.line == 0
            &&& line + page <= last ==> pd.live.cursor.line == line + page
            &&& line + page > last ==> pd.live.cursor.line == last
            &&& line >= page ==> pu.live.cursor.line == line - page
            &&& line < page ==> pu.live.cursor.line == 0
        }),
{
    reveal(Pane::held);
    lemma_buffer_lines(p.text());
    crate::text::lemma_line_of_bounds(p.text(), p.text().len() as int);
}

/// A command that is a number goes to that line, counted from one, or to the last; the text
/// stays.
pub proof fn numbers_go_to_lines(w: World, raw: Seq<char>, n: usize)
    requires
        w.buffers.contains_key(w.cur().0),
        buffer_text(w.pane().text()),
        trimmed(raw).len() > 0,
        number_of(trimmed(raw)) == Some(n),
        n > 0,
    ensures
        ({
            let v = ex_done(w, raw);
            let total = edit_lines(w.pane().text());
            &&& v.pane().text() == w.pane().text()
            &&& n <= total ==> v.live.cursor.line == n - 1
            &&& n > total ==> v.live.cursor.line == total - 1
        }),
{
    lemma_buffer_lines(w.pane().text());
    crate::text::lemma_line_of_bounds(w.pane().text(), w.pane().text().len() as int);
    reveal(ex_done);
}

/// Inside the change list, a step with a count goes as many entries back, or on, as far as there
/// are any. From the present the first step back comes to the newest change, unless the cursor
/// is on its line and there is an older one.
pub proof fn changes_are_counted(p: Pane, n: int)
    requires
        n >= 1,
        p.open.buffer.changelist.len() > 0,
    ensures
        ({
            let b = p.open.buffer;
            let len = b.changelist.len() as int;
            let at = b.changelistidx as int;
            &&& 0 < at < len && n <= at ==> older_change(p, n) == Ok::<int, ChangeMiss>(at - n)
            &&& 0 < at < len && n > at ==> older_change(p, n) == Ok::<int, ChangeMiss>(0)
            &&& at + n < len ==> newer_change(p, n) == Ok::<int, ChangeMiss>(at + n)
            &&& at == 0 && len > 1 ==> older_change(p, n) == Err::<int, ChangeMiss>(
                ChangeMiss::AtStart,
            )
            &&& at >= len - 1 ==> newer_change(p, n) == Err::<int, ChangeMiss>(ChangeMiss::AtEnd)
            &&& at == len && b.changelist[len - 1].0 != p.live.cursor.line ==> older_change(p, 1)
                == Ok::<int, ChangeMiss>(len - 1)
            &&& at == len && len > 1 && b.changelist[len - 1].0 == p.live.cursor.line
                ==> older_change(p, 1) == Ok::<int, ChangeMiss>(len - 2)
        }),
{
}

} // verus!
