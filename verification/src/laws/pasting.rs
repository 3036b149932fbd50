//! What is put in, and where.

use vstd::prelude::*;
use vstd::utf8::*;

use crate::batch::is_fixed;
use crate::buffer::{inserted, lemma_inserted, lemma_normalized, normalized, BufferModel};
use crate::command::{NormalCmd, ResolvedCommand};
use crate::desk::{dirty, Pane};
use crate::edit::{copies, inline_pasted, lines_pasted, pasted};
use crate::editor::normal::{normal_done, normal_keyed, reset};
use crate::editor::World;
use crate::laws::{
    counted, cursor_line, key_of, leads, lemma_led, lemma_normal_made, lemma_own, lemma_times,
    offset, on_text, ready, times,
};
use crate::mode::Mode;
use crate::motions::total_count;
use crate::nav::{lemma_line_offset, lemma_line_text};
use crate::registers::{held_in, Reg};
use crate::text::{
    buffer_text, lemma_buffer_lines, lemma_encode_concat, lemma_line_start, line_start, unbroken,
    LF,
};
use crate::unicode::{lemma_bound_from, next_bound};

verus! {

/// A text so many times over.
pub open spec fn over_again(s: Seq<u8>, n: nat) -> Seq<u8> {
    Seq::new(n * s.len(), |i: int| s[i % (s.len() as int)])
}

/// A text with a line feed at its end, which is added where there is none.
pub open spec fn ended(s: Seq<u8>) -> Seq<u8> {
    if s.len() > 0 && s.last() == LF {
        s
    } else {
        s.push(LF)
    }
}

pub proof fn lemma_copies(s: Seq<char>, n: nat)
    ensures
        encode_utf8(copies(s, n)) == over_again(encode_utf8(s), n),
    decreases n,
{
    let b = encode_utf8(s);
    if n == 0 {
        assert(encode_utf8(copies(s, 0)) =~= Seq::<u8>::empty());
        assert(0 * b.len() == 0) by (nonlinear_arith);
        assert(over_again(b, 0) =~= Seq::<u8>::empty());
    } else {
        let m = (n - 1) as nat;
        lemma_copies(s, m);
        lemma_encode_concat(copies(s, m), s);
        let k = b.len() as int;
        assert(n * b.len() == m * b.len() + b.len()) by (nonlinear_arith)
            requires
                n == m + 1,
        ;
        assert(m * b.len() >= 0) by (nonlinear_arith);
        assert forall|i: int| m * k <= i < m * k + k implies #[trigger] (i % k) == i - m * k by {
            assert(i % k == i - m * k) by (nonlinear_arith)
                requires
                    m * k <= i < m * k + k,
                    k > 0,
                    m >= 0,
            ;
        }
        assert(over_again(b, n) =~= over_again(b, m) + b);
    }
}

/// What a command of a single key that names no register does.
pub proof fn lemma_keyed(w: World, c: char, cmd: NormalCmd)
    requires
        w.live.mode == Mode::Normal,
        w.live.pending.register is None,
        !is_fixed(w.pane().open.buffer),
        leads(w.live.pending, c, ResolvedCommand::Normal(cmd)),
    ensures
        normal_keyed(w, key_of(c)) == normal_done(w.hushed(), cmd),
        w.hushed().pane() == w.pane(),
{
    lemma_led(w, c, ResolvedCommand::Normal(cmd));
    lemma_normal_made(w.hushed(), cmd);
}

/// The keys that put a text in.
proof fn lemma_paste_keys(n: Option<usize>)
    ensures
        leads(counted(n), 'p', ResolvedCommand::Normal(NormalCmd::PasteAfter)),
        leads(counted(n), 'P', ResolvedCommand::Normal(NormalCmd::PasteBefore)),
{
    reveal(leads);
}

/// What is put in where no register is named.
proof fn lemma_paste_done(w: World, what: Reg, after: bool)
    requires
        w.live.pending.register is None,
        held_in(w.regs, None) == Some(what),
    ensures
        ({
            let cmd = if after {
                NormalCmd::PasteAfter
            } else {
                NormalCmd::PasteBefore
            };
            normal_done(w, cmd) == reset(
                w.with_pane(
                    pasted(w.pane(), what, after, total_count(w.live.pending) as nat),
                ),
            )
        }),
{
    reveal(normal_done);
}

proof fn lemma_put(b: BufferModel, at: int, chunk: Seq<char>)
    requires
        0 <= at <= b.text.len(),
    ensures
        dirty(normalized(inserted(b, at, chunk))).text == ended(
            b.text.take(at) + encode_utf8(chunk) + b.text.skip(at),
        ),
{
    lemma_inserted(b, at, chunk);
    lemma_normalized(inserted(b, at, chunk));
    let s = encode_utf8(chunk);
    if chunk.len() == 0 {
        assert(s =~= Seq::<u8>::empty());
    }
    assert(inserted(b, at, chunk).text =~= b.text.take(at) + s + b.text.skip(at));
}

/// Where a text is put in: whole lines above the line of the cursor or below it, any other text
/// before the grapheme under the cursor or after it.
pub open spec fn put_place(p: Pane, what: Reg, after: bool) -> int {
    let c = p.live.cursor;
    if what.linewise {
        line_start(
            p.text(),
            if after {
                c.line + 1
            } else {
                c.line as int
            },
        )
    } else if after && cursor_line(p).len() > 0 {
        line_start(p.text(), c.line as int) + next_bound(cursor_line(p), c.col as int)
    } else {
        offset(p)
    }
}

proof fn lemma_pasted(p: Pane, what: Reg, after: bool, n: nat)
    requires
        buffer_text(p.text()),
        on_text(p),
        unbroken(cursor_line(p)),
        what.text.len() > 0,
    ensures
        ({
            let at = put_place(p, what, after);
            &&& 0 <= at <= p.text().len()
            &&& pasted(p, what, after, n).text() == ended(
                p.text().take(at) + over_again(encode_utf8(what.text), n) + p.text().skip(at),
            )
        }),
{
    reveal(lines_pasted);
    reveal(inline_pasted);
    reveal(Pane::pushed);
    reveal(Pane::held);
    reveal(Pane::at);
    let q = p.pushed();
    let t = p.text();
    let c = p.live.cursor;
    assert(q.text() == t);
    lemma_own(p);
    lemma_own(q);
    lemma_copies(what.text, n);
    lemma_buffer_lines(t);
    lemma_line_text(t, c.line as int);
    lemma_line_start(t, c.line as int);
    lemma_line_start(t, c.line + 1);
    lemma_line_offset(t, c.line as int, c.col as int);
    lemma_bound_from(cursor_line(p), c.col + 1);
    let chunk = copies(what.text, n);
    let at = put_place(p, what, after);
    reveal(Pane::start_of);
    if !what.linewise {
        reveal(Pane::next);
        crate::laws::lemma_line_within(t, c.line as int);
        crate::laws::lemma_line_is(t, c.line as int, offset(p));
        reveal(Pane::line_end);
    }
    lemma_put(q.open.buffer, at, chunk);
}

/// `p` and `P` put the text of the register in as often as the count says: whole lines below
/// the line of the cursor or above it, any other text after the grapheme under the cursor or
/// before it. Nothing else of the text changes. So it grows by the length of the register's
/// text, as often.
pub proof fn paste_puts_copies_in(w: World, n: Option<usize>, what: Reg, after: bool)
    requires
        ready(w, n),
        on_text(w.pane()),
        unbroken(cursor_line(w.pane())),
        !is_fixed(w.pane().open.buffer),
        held_in(w.regs, None) == Some(what),
        what.text.len() > 0,
    ensures
        ({
            let p = w.pane();
            let key = key_of(
                if after {
                    'p'
                } else {
                    'P'
                },
            );
            let q = normal_keyed(w, key).pane();
            let at = put_place(p, what, after);
            let s = encode_utf8(what.text);
            let put = p.text().take(at) + over_again(s, times(n)) + p.text().skip(at);
            &&& 0 <= at <= p.text().len()
            &&& q.text() == ended(put)
            &&& put.len() == p.text().len() + times(n) * s.len()
            &&& at < p.text().len() || s.last() == LF || times(n) == 0 ==> q.text().len()
                == p.text().len() + times(n) * s.len()
        }),
{
    let p = w.pane();
    lemma_times(n);
    let cmd = if after {
        NormalCmd::PasteAfter
    } else {
        NormalCmd::PasteBefore
    };
    lemma_paste_keys(n);
    lemma_keyed(
        w,
        if after {
            'p'
        } else {
            'P'
        },
        cmd,
    );
    lemma_paste_done(w.hushed(), what, after);
    lemma_pasted(p, what, after, times(n));
    let at = put_place(p, what, after);
    let s = encode_utf8(what.text);
    let put = p.text().take(at) + over_again(s, times(n)) + p.text().skip(at);
    encode_utf8_first_scalar(what.text);
    encode_utf8_valid_utf8(what.text);
    assert(times(n) * s.len() >= 0) by (nonlinear_arith);
    if at < p.text().len() {
        assert(put.last() == p.text().last());
    } else if times(n) > 0 && s.last() == LF {
        let k = s.len() as int;
        let m = times(n) * k;
        assert(m >= k && (m - 1) % k == k - 1) by (nonlinear_arith)
            requires
                m == times(n) * k,
                times(n) >= 1,
                k >= 1,
        ;
        assert(put.last() == s[(m - 1) % k]);
    } else if times(n) == 0 {
        assert(0 * s.len() == 0) by (nonlinear_arith);
        assert(put =~= p.text());
    }
}

} // verus!
