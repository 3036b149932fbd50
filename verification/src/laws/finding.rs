//! Where searches go.

use vstd::prelude::*;
use vstd::utf8::*;

use crate::command::{NormalCmd, ResolvedCommand};
use crate::desk::Pane;
use crate::editor::normal::{move_done, normal_done, normal_keyed, reset};
use crate::editor::prompts::search_entered;
use crate::editor::searches::{
    search_answered, search_repeated, search_submitted, word_searched,
};
use crate::editor::{LastModel, World};
use crate::laws::{
    counted, key_of, leads, lemma_at, lemma_held, lemma_led, lemma_normal_made, lemma_times, ready,
    times,
};
use crate::motions::line_at;
use crate::nav::{last_idx, lemma_line_text, lemma_next_idx};
use crate::pending::{SearchAsk, SearchUse};
use crate::search::{dir_prefix, SearchDir, SearchOffset};
use crate::searching::{
    backward_from, first_from, forward_from, hits_on, leading, match_backward, match_forward,
    nth_match, search_step, word_at_column,
};
use crate::text::{
    buffer_text, edit_lines, lemma_buffer_lines, lemma_line_of, lemma_line_start,
    lemma_line_start_mono, line_of, line_start, line_text,
};
use crate::unicode::bound;
use crate::window::Cursor;

verus! {

/// `n` asks for the last search again, in its own direction, and `N` in the other one: the same
/// pattern and the same offset, for as many matches as the count says.
pub proof fn repeats_keep_or_turn_the_direction(w: World, n: Option<usize>, s: LastModel)
    requires
        ready(w, n),
        w.search.last == Some(s),
        s.pattern.len() > 0,
        n != Some(0usize),
    ensures
        ({
            let on = normal_keyed(w, key_of('n'));
            let back = normal_keyed(w, key_of('N'));
            let a = on.out.searches.last();
            let b = back.out.searches.last();
            &&& on.out.searches.len() == w.out.searches.len() + 1
            &&& back.out.searches.len() == w.out.searches.len() + 1
            &&& a.dir == s.dir
            &&& b.dir != s.dir
            &&& a.pattern == s.pattern && b.pattern == s.pattern
            &&& a.offset == s.offset && b.offset == s.offset
            &&& a.purpose == b.purpose
            &&& a.purpose matches SearchUse::Go { count, op } && count as nat == times(n) && op
                is None
            &&& on.search.last == w.search.last
            &&& back.search.last == w.search.last
            &&& on.pane().text() == w.pane().text()
            &&& on.live.cursor == w.live.cursor
        }),
{
    lemma_search_keys(n);
    lemma_search_keyed(w, n, 'n', NormalCmd::SearchNext);
    lemma_search_keyed(w, n, 'N', NormalCmd::SearchPrev);
    lemma_moves(w.hushed(), SearchDir::Forward, times(n) as usize);
}

/// The keys that search.
proof fn lemma_search_keys(n: Option<usize>)
    ensures
        leads(counted(n), 'n', ResolvedCommand::Normal(NormalCmd::SearchNext)),
        leads(counted(n), 'N', ResolvedCommand::Normal(NormalCmd::SearchPrev)),
        leads(
            counted(n),
            '/',
            ResolvedCommand::Normal(NormalCmd::EnterSearch(SearchDir::Forward)),
        ),
        leads(
            counted(n),
            '?',
            ResolvedCommand::Normal(NormalCmd::EnterSearch(SearchDir::Backward)),
        ),
        leads(
            counted(n),
            '*',
            ResolvedCommand::Normal(
                NormalCmd::SearchWord { dir: SearchDir::Forward, whole_word: true },
            ),
        ),
        leads(
            counted(n),
            '#',
            ResolvedCommand::Normal(
                NormalCmd::SearchWord { dir: SearchDir::Backward, whole_word: true },
            ),
        ),
{
    reveal(leads);
}

/// What a key does that asks for a search, or begins one.
proof fn lemma_search_keyed(w: World, n: Option<usize>, c: char, cmd: NormalCmd)
    requires
        ready(w, n),
        n != Some(0usize),
        leads(counted(n), c, ResolvedCommand::Normal(cmd)),
        cmd is SearchNext || cmd is SearchPrev || cmd is EnterSearch || cmd is SearchWord,
    ensures
        normal_keyed(w, key_of(c)) == reset(move_done(w.hushed(), cmd, times(n) as usize)),
        w.hushed().pane() == w.pane(),
        times(n) as usize as nat == times(n),
        times(n) >= 1,
{
    lemma_times(n);
    lemma_led(w, c, ResolvedCommand::Normal(cmd));
    lemma_normal_made(w.hushed(), cmd);
    reveal(normal_done);
}

/// What the commands that search do.
proof fn lemma_moves(w: World, dir: SearchDir, count: usize)
    ensures
        move_done(w, NormalCmd::SearchNext, count) == search_repeated(w, true, count),
        move_done(w, NormalCmd::SearchPrev, count) == search_repeated(w, false, count),
        move_done(w, NormalCmd::EnterSearch(dir), count) == search_entered(w, dir, count),
        move_done(w, NormalCmd::SearchWord { dir, whole_word: true }, count) == word_searched(
            w,
            dir,
            true,
            count,
        ),
{
    reveal(move_done);
}

/// A search line that is submitted asks for a search in its own direction, and `n` goes by that
/// from then on. The pattern is what was typed, where nothing in it ends a pattern.
pub proof fn submitted_search_is_remembered(w: World, line: Seq<char>, dir: SearchDir)
    requires
        line.len() > 0,
        forall|i: int| 0 <= i < line.len() ==> #[trigger] line[i] != dir_prefix(dir),
    ensures
        ({
            let v = search_submitted(w, line, dir);
            let a = v.out.searches.last();
            &&& v.out.searches.len() == w.out.searches.len() + 1
            &&& a.dir == dir
            &&& a.pattern == line
            &&& a.offset == SearchOffset::Bare
            &&& v.search.last matches Some(s) && s.dir == dir && s.pattern == line
            &&& a.purpose matches SearchUse::Go { count, op } && op == w.search.operator && (
            w.search.count > 0 ==> count == w.search.count)
            &&& v.line.search_history.len() > 0 && v.line.search_history.last() == line
        }),
{
    lemma_no_separator(line, dir_prefix(dir), 0);
}

proof fn lemma_no_separator(line: Seq<char>, sep: char, i: int)
    requires
        0 <= i,
        forall|i: int| 0 <= i < line.len() ==> #[trigger] line[i] != sep,
    ensures
        crate::search::last_unescaped(line, sep, i) is None,
    decreases line.len() + 1 - i,
{
    if i < line.len() {
        lemma_no_separator(line, sep, i + 1);
        lemma_no_separator(line, sep, i + 2);
    }
}

/// `/` opens a line for a search forward, `?` for one backward; the cursor stays.
pub proof fn search_lines_have_a_direction(w: World, n: Option<usize>)
    requires
        ready(w, n),
        n != Some(0usize),
    ensures
        ({
            let on = normal_keyed(w, key_of('/'));
            let back = normal_keyed(w, key_of('?'));
            &&& on.line.kind == crate::cmdline::CmdlineKind::Search(SearchDir::Forward)
            &&& back.line.kind == crate::cmdline::CmdlineKind::Search(SearchDir::Backward)
            &&& on.live.mode == crate::mode::Mode::Command
            &&& back.live.mode == crate::mode::Mode::Command
            &&& on.line.chars.len() == 0
            &&& on.search.count as nat == times(n)
            &&& back.search.count as nat == times(n)
            &&& on.search.origin == w.live.cursor
            &&& on.live.cursor == w.live.cursor
        }),
{
    lemma_search_keys(n);
    lemma_search_keyed(w, n, '/', NormalCmd::EnterSearch(SearchDir::Forward));
    lemma_search_keyed(w, n, '?', NormalCmd::EnterSearch(SearchDir::Backward));
    lemma_moves(w.hushed(), SearchDir::Forward, times(n) as usize);
    lemma_moves(w.hushed(), SearchDir::Backward, times(n) as usize);
}

/// `*` searches forward for the word under the cursor, as a whole word, and `#` backward.
pub proof fn star_searches_for_the_word(w: World, n: Option<usize>, word: Seq<char>)
    requires
        ready(w, n),
        n != Some(0usize),
        word_at_column(decode_utf8(w.pane().line()), w.live.cursor.col as int) == Some(word),
    ensures
        ({
            let on = normal_keyed(w, key_of('*'));
            let back = normal_keyed(w, key_of('#'));
            let a = on.out.searches.last();
            let b = back.out.searches.last();
            &&& on.out.searches.len() == w.out.searches.len() + 1
            &&& back.out.searches.len() == w.out.searches.len() + 1
            &&& a.dir == SearchDir::Forward
            &&& b.dir == SearchDir::Backward
            &&& a.pattern == seq!['\\', 'b'] + word + seq!['\\', 'b']
            &&& b.pattern == a.pattern
            &&& on.search.last matches Some(s) && s.dir == SearchDir::Forward && s.pattern
                == a.pattern
            &&& back.search.last matches Some(s) && s.dir == SearchDir::Backward && s.pattern
                == b.pattern
        }),
{
    lemma_star(w, n, word, '*', SearchDir::Forward);
    lemma_star(w, n, word, '#', SearchDir::Backward);
}

proof fn lemma_star(w: World, n: Option<usize>, word: Seq<char>, c: char, dir: SearchDir)
    requires
        ready(w, n),
        n != Some(0usize),
        word_at_column(decode_utf8(w.pane().line()), w.live.cursor.col as int) == Some(word),
        (c == '*' && dir == SearchDir::Forward) || (c == '#' && dir == SearchDir::Backward),
    ensures
        ({
            let v = normal_keyed(w, key_of(c));
            let a = v.out.searches.last();
            &&& v.out.searches.len() == w.out.searches.len() + 1
            &&& a.dir == dir
            &&& a.pattern == seq!['\\', 'b'] + word + seq!['\\', 'b']
            &&& v.search.last matches Some(s) && s.dir == dir && s.pattern == a.pattern
        }),
{
    let cmd = NormalCmd::SearchWord { dir, whole_word: true };
    lemma_search_keys(n);
    lemma_search_keyed(w, n, c, cmd);
    lemma_moves(w.hushed(), dir, times(n) as usize);
    whole_word_is_searched_for(w.hushed(), word, dir, times(n) as usize);
}

/// The word under the cursor is searched for as a whole word, in the direction that was asked
/// for, and `n` goes by that from then on.
pub proof fn whole_word_is_searched_for(w: World, word: Seq<char>, dir: SearchDir, n: usize)
    requires
        word_at_column(decode_utf8(w.pane().line()), w.live.cursor.col as int) == Some(word),
    ensures
        ({
            let v = word_searched(w, dir, true, n);
            let a = v.out.searches.last();
            &&& v.out.searches.len() == w.out.searches.len() + 1
            &&& a.dir == dir
            &&& a.pattern == seq!['\\', 'b'] + word + seq!['\\', 'b']
            &&& v.search.last matches Some(s) && s.dir == dir && s.pattern == a.pattern
        }),
{
    reveal_strlit("\\b");
    assert("\\b"@ =~= seq!['\\', 'b']);
}

/// The matches of each line lie on it, from left to right.
pub open spec fn in_place(p: Pane, h: Seq<Seq<(usize, usize)>>) -> bool {
    &&& h.len() <= edit_lines(p.text())
    &&& forall|n: int, k: int|
        0 <= n < h.len() && 0 <= k < h[n].len() ==> (#[trigger] h[n][k]).0 <= line_text(
            p.text(),
            n,
        ).len() && line_start(p.text(), n) + h[n][k].0 < line_start(p.text(), n + 1)
    &&& forall|n: int, i: int, j: int|
        0 <= n < h.len() && 0 <= i < j < h[n].len() ==> (#[trigger] h[n][i]).0 <= (
        #[trigger] h[n][j]).0
}

/// Where the `k`th match of line `n` starts.
pub open spec fn hit_start(p: Pane, h: Seq<Seq<(usize, usize)>>, n: int, k: int) -> int {
    line_start(p.text(), n) + h[n][k].0
}

/// A match starts at an offset.
pub open spec fn is_hit(p: Pane, h: Seq<Seq<(usize, usize)>>, x: int) -> bool {
    exists|n: int, k: int|
        0 <= n < h.len() && 0 <= k < h[n].len() && x == #[trigger] hit_start(p, h, n, k)
}

proof fn lemma_first(l: Seq<(usize, usize)>, col: int, i: int)
    requires
        0 <= i <= l.len(),
        forall|j: int| 0 <= j < i ==> (#[trigger] l[j]).0 < col,
        forall|a: int, b: int| 0 <= a < b < l.len() ==> (#[trigger] l[a]).0 <= (#[trigger] l[b]).0,
    ensures
        match first_from(l, col, i) {
            Some(hit) => l.contains(hit) && hit.0 >= col && forall|j: int|
                0 <= j < l.len() && (#[trigger] l[j]).0 >= col ==> hit.0 <= l[j].0,
            None => forall|j: int| 0 <= j < l.len() ==> (#[trigger] l[j]).0 < col,
        },
    decreases l.len() - i,
{
    if i < l.len() {
        if l[i].0 < col {
            lemma_first(l, col, i + 1);
        } else {
            assert(l.contains(l[i]));
        }
    }
}

spec fn left_of(h: Seq<Seq<(usize, usize)>>, n: int, col: int, a: int, k: int) -> bool {
    a == n && h[a][k].0 < col
}

spec fn right_of(h: Seq<Seq<(usize, usize)>>, n: int, cap: Option<int>, a: int, k: int) -> bool {
    a == n && cap is Some && h[a][k].0 >= cap->0
}

proof fn lemma_forward(p: Pane, h: Seq<Seq<(usize, usize)>>, n: int, col: int)
    requires
        buffer_text(p.text()),
        in_place(p, h),
        0 <= n,
        0 <= col,
    ensures
        match forward_from(p, h, n, col) {
            Some(m) => is_hit(p, h, m.0) && (m.0 >= line_start(p.text(), n) + col || m.0
                >= line_start(p.text(), n + 1)) && forall|a: int, k: int|
                0 <= a < h.len() && 0 <= k < h[a].len() && (a > n || (a == n && h[a][k].0 >= col))
                    ==> m.0 <= #[trigger] hit_start(p, h, a, k),
            None => forall|a: int, k: int|
                n <= a < h.len() && 0 <= k < h[a].len() ==> #[trigger] left_of(h, n, col, a, k),
        },
    decreases edit_lines(p.text()) - n,
{
    reveal(Pane::start_of);
    let t = p.text();
    lemma_line_start(t, n);
    lemma_line_start(t, n + 1);
    if n < edit_lines(t) {
        let l = hits_on(h, n);
        if n < h.len() {
            assert forall|a: int, b: int| 0 <= a < b < l.len() implies (#[trigger] l[a]).0 <= (
            #[trigger] l[b]).0 by {
                assert(h[n][a].0 <= h[n][b].0);
            }
        }
        lemma_first(l, col, 0);
        match first_from(l, col, 0) {
            Some(hit) => {
                let k0 = l.index_of(hit);
                assert(h[n][k0] == hit);
                let m = forward_from(p, h, n, col)->0;
                assert(m.0 == hit_start(p, h, n, k0));
                assert forall|a: int, k: int|
                    0 <= a < h.len() && 0 <= k < h[a].len() && (a > n || (a == n && h[a][k].0
                        >= col)) implies m.0 <= #[trigger] hit_start(p, h, a, k) by {
                    if a > n {
                        lemma_line_start_mono(t, n + 1, a);
                        assert(hit_start(p, h, n, k0) < line_start(t, n + 1));
                    } else {
                        assert(l[k] == h[a][k]);
                    }
                }
            },
            None => {
                lemma_forward(p, h, n + 1, 0);
                assert forall|k: int| 0 <= k < l.len() implies l[k].0 < col by {}
                if forward_from(p, h, n, col) is Some {
                    let m = forward_from(p, h, n, col)->0;
                    lemma_line_start(t, n + 2);
                    assert forall|a: int, k: int|
                        0 <= a < h.len() && 0 <= k < h[a].len() && (a > n || (a == n && h[a][k].0
                            >= col)) implies m.0 <= #[trigger] hit_start(p, h, a, k) by {
                        if a == n {
                            assert(l[k] == h[a][k]);
                        }
                    }
                } else {
                    assert forall|a: int, k: int|
                        n <= a < h.len() && 0 <= k < h[a].len() implies #[trigger] left_of(
                        h,
                        n,
                        col,
                        a,
                        k,
                    ) by {
                        if a == n {
                            assert(l[k] == h[a][k]);
                        } else {
                            assert(left_of(h, n + 1, 0, a, k));
                        }
                    }
                }
            },
        }
    }
}

/// The first match from an offset on is the nearest one there.
proof fn lemma_nearest_on(p: Pane, h: Seq<Seq<(usize, usize)>>, from: int)
    requires
        buffer_text(p.text()),
        in_place(p, h),
        0 <= from <= p.text().len(),
    ensures
        match match_forward(p, h, from) {
            Some(m) => is_hit(p, h, m.0) && m.0 >= from && forall|y: int|
                y >= from && is_hit(p, h, y) ==> m.0 <= y,
            None => forall|y: int| is_hit(p, h, y) ==> y < from,
        },
{
    reveal(Pane::start_of);
    reveal(line_at);
    let t = p.text();
    let i = if from < last_idx(t) {
        from
    } else {
        last_idx(t)
    };
    let n = line_of(t, i) as int;
    lemma_line_of(t, i);
    lemma_buffer_lines(t);
    crate::nav::lemma_line_of_inside(t, i);
    let col = from - line_start(t, n);
    lemma_forward(p, h, n, col);
    lemma_line_start(t, n + 1);
    if from == t.len() {
        lemma_line_start_mono(t, n + 1, edit_lines(t) as int);
    }
    assert forall|y: int| is_hit(p, h, y) implies (match match_forward(p, h, from) {
        Some(m) => y >= from ==> m.0 <= y,
        None => y < from,
    }) by {
        let (a, k) = choose|a: int, k: int|
            0 <= a < h.len() && 0 <= k < h[a].len() && y == #[trigger] hit_start(p, h, a, k);
        assert(h[a][k].0 <= line_text(t, a).len());
        if a < n {
            lemma_line_start_mono(t, a + 1, n);
        } else if match_forward(p, h, from) is None {
            assert(left_of(h, n, col, a, k));
        }
    }
}

proof fn lemma_lead(l: Seq<(usize, usize)>, cap: int, i: int)
    requires
        0 <= i <= l.len(),
        forall|j: int| 0 <= j < i ==> (#[trigger] l[j]).0 < cap,
        forall|a: int, b: int| 0 <= a < b < l.len() ==> (#[trigger] l[a]).0 <= (#[trigger] l[b]).0,
    ensures
        ({
            let k = leading(l, cap, i);
            &&& i <= k <= l.len()
            &&& forall|j: int| 0 <= j < k ==> (#[trigger] l[j]).0 < cap
            &&& forall|j: int| k <= j < l.len() ==> (#[trigger] l[j]).0 >= cap
        }),
    decreases l.len() - i,
{
    if i < l.len() {
        if l[i].0 < cap {
            lemma_lead(l, cap, i + 1);
        }
    }
}

proof fn lemma_backward(p: Pane, h: Seq<Seq<(usize, usize)>>, n: int, cap: Option<int>)
    requires
        buffer_text(p.text()),
        in_place(p, h),
        n < edit_lines(p.text()),
    ensures
        match backward_from(p, h, n, cap) {
            Some(m) => is_hit(p, h, m.0) && (match cap {
                Some(c) => m.0 < line_start(p.text(), n) + c || m.0 < line_start(p.text(), n),
                None => m.0 < line_start(p.text(), n + 1),
            }) && forall|a: int, k: int|
                0 <= a < h.len() && 0 <= k < h[a].len() && (a < n || (a == n && (cap is None
                    || h[a][k].0 < cap->0))) ==> #[trigger] hit_start(p, h, a, k) <= m.0,
            None => forall|a: int, k: int|
                0 <= a < h.len() && 0 <= k < h[a].len() && a <= n ==> #[trigger] right_of(
                    h,
                    n,
                    cap,
                    a,
                    k,
                ),
        },
    decreases n + 1,
{
    reveal(Pane::start_of);
    let t = p.text();
    if n >= 0 {
        lemma_line_start(t, n);
        lemma_line_start(t, n + 1);
        let l = hits_on(h, n);
        let c = match cap {
            Some(c) => c,
            None => (line_text(t, n).len() + 1) as int,
        };
        if n < h.len() {
            assert forall|a: int, b: int| 0 <= a < b < l.len() implies (#[trigger] l[a]).0 <= (
            #[trigger] l[b]).0 by {
                assert(h[n][a].0 <= h[n][b].0);
            }
            assert forall|k: int| 0 <= k < l.len() implies (#[trigger] l[k]).0 <= line_text(t, n).len()
                && line_start(t, n) + l[k].0 < line_start(t, n + 1) by {
                assert(l[k] == h[n][k]);
            }
        }
        lemma_lead(l, c, 0);
        let k0 = leading(l, c, 0);
        if k0 > 0 {
            let m = backward_from(p, h, n, cap)->0;
            assert(m.0 == hit_start(p, h, n, k0 - 1));
            assert forall|a: int, k: int|
                0 <= a < h.len() && 0 <= k < h[a].len() && (a < n || (a == n && (cap is None
                    || h[a][k].0 < cap->0))) implies #[trigger] hit_start(p, h, a, k) <= m.0 by {
                if a < n {
                    lemma_line_start_mono(t, a + 1, n);
                    assert(line_start(t, a) + h[a][k].0 < line_start(t, a + 1));
                } else {
                    assert(l[k] == h[a][k]);
                }
            }
        } else {
            lemma_backward(p, h, n - 1, None);
            if backward_from(p, h, n, cap) is Some {
                let m = backward_from(p, h, n, cap)->0;
                assert forall|a: int, k: int|
                    0 <= a < h.len() && 0 <= k < h[a].len() && (a < n || (a == n && (cap is None
                        || h[a][k].0 < cap->0))) implies #[trigger] hit_start(p, h, a, k) <= m.0 by {
                    if a == n {
                        assert(l[k] == h[a][k]);
                    }
                }
            } else {
                assert forall|a: int, k: int|
                    0 <= a < h.len() && 0 <= k < h[a].len() && a <= n implies #[trigger] right_of(
                    h,
                    n,
                    cap,
                    a,
                    k,
                ) by {
                    if a == n {
                        assert(l[k] == h[a][k]);
                    } else {
                        assert(right_of(h, n - 1, None, a, k));
                    }
                }
            }
        }
    }
}

/// The last match before an offset is the nearest one there.
proof fn lemma_nearest_back(p: Pane, h: Seq<Seq<(usize, usize)>>, limit: int)
    requires
        buffer_text(p.text()),
        in_place(p, h),
        0 <= limit <= p.text().len(),
    ensures
        match match_backward(p, h, limit) {
            Some(m) => is_hit(p, h, m.0) && m.0 < limit && forall|y: int|
                y < limit && is_hit(p, h, y) ==> y <= m.0,
            None => forall|y: int| is_hit(p, h, y) ==> y >= limit,
        },
{
    reveal(Pane::start_of);
    reveal(line_at);
    let t = p.text();
    let i = if limit < last_idx(t) {
        limit
    } else {
        last_idx(t)
    };
    let n = line_of(t, i) as int;
    lemma_line_of(t, i);
    lemma_buffer_lines(t);
    crate::nav::lemma_line_of_inside(t, i);
    lemma_backward(p, h, n, Some(limit - line_start(t, n)));
    lemma_line_start(t, n + 1);
    if limit == t.len() {
        lemma_line_start_mono(t, n + 1, edit_lines(t) as int);
    }
    assert forall|y: int| is_hit(p, h, y) implies (match match_backward(p, h, limit) {
        Some(m) => y < limit ==> y <= m.0,
        None => y >= limit,
    }) by {
        let (a, k) = choose|a: int, k: int|
            0 <= a < h.len() && 0 <= k < h[a].len() && y == #[trigger] hit_start(p, h, a, k);
        assert(h[a][k].0 <= line_text(t, a).len());
        if a > n {
            lemma_line_start_mono(t, n + 1, a);
            if limit == t.len() {
                lemma_line_start(t, a);
            }
        } else if match_backward(p, h, limit) is None {
            assert(right_of(h, n, Some(limit - line_start(t, n)), a, k));
        }
    }
}

/// A search forward goes to the nearest match after the grapheme it looks from, one backward to
/// the nearest before. Where there is none, it goes on from the other end of the text, to the
/// first match of all or the last, if it may; else it misses.
pub proof fn search_goes_to_the_nearest(
    p: Pane,
    h: Seq<Seq<(usize, usize)>>,
    wrapscan: bool,
    from: int,
)
    requires
        buffer_text(p.text()),
        in_place(p, h),
        0 <= from < p.text().len(),
    ensures
        p.next(from) > from,
        match search_step(p, h, SearchDir::Forward, wrapscan, from) {
            Some(((a, _), false)) => is_hit(p, h, a) && a >= p.next(from) && forall|y: int|
                y >= p.next(from) && is_hit(p, h, y) ==> a <= y,
            Some(((a, _), true)) => wrapscan && is_hit(p, h, a) && forall|y: int|
                is_hit(p, h, y) ==> a <= y < p.next(from),
            None => forall|y: int| is_hit(p, h, y) ==> !wrapscan && y < p.next(from),
        },
        match search_step(p, h, SearchDir::Backward, wrapscan, from) {
            Some(((a, _), false)) => is_hit(p, h, a) && a < from && forall|y: int|
                y < from && is_hit(p, h, y) ==> y <= a,
            Some(((a, _), true)) => wrapscan && is_hit(p, h, a) && forall|y: int|
                is_hit(p, h, y) ==> from <= y <= a,
            None => forall|y: int| is_hit(p, h, y) ==> !wrapscan && y >= from,
        },
{
    reveal(Pane::next);
    lemma_next_idx(p.text(), from);
    lemma_nearest_on(p, h, p.next(from));
    lemma_nearest_on(p, h, 0);
    lemma_nearest_back(p, h, from);
    lemma_nearest_back(p, h, p.text().len() as int);
    lemma_hits_inside(p, h);
}

proof fn lemma_hits_inside(p: Pane, h: Seq<Seq<(usize, usize)>>)
    requires
        buffer_text(p.text()),
        in_place(p, h),
    ensures
        forall|y: int| is_hit(p, h, y) ==> 0 <= y < p.text().len(),
{
    let t = p.text();
    assert forall|y: int| is_hit(p, h, y) implies 0 <= y < t.len() by {
        let (a, k) = choose|a: int, k: int|
            0 <= a < h.len() && 0 <= k < h[a].len() && y == #[trigger] hit_start(p, h, a, k);
        assert(h[a][k].0 <= line_text(t, a).len());
        lemma_line_start(t, a);
        lemma_line_start(t, a + 1);
    }
}

/// A search with a count goes one match further than one with the count less one.
pub proof fn counted_search_goes_step_by_step(
    p: Pane,
    h: Seq<Seq<(usize, usize)>>,
    dir: SearchDir,
    wrapscan: bool,
    from: int,
    n: nat,
)
    requires
        n >= 1,
    ensures
        match nth_match(p, h, dir, wrapscan, from, n) {
            Some((hit, w)) => match search_step(p, h, dir, wrapscan, hit.0) {
                Some((next, v)) => nth_match(p, h, dir, wrapscan, from, n + 1) == Some(
                    (next, w || v),
                ),
                None => nth_match(p, h, dir, wrapscan, from, n + 1) is None,
            },
            None => nth_match(p, h, dir, wrapscan, from, n + 1) is None,
        },
        nth_match(p, h, dir, wrapscan, from, 1) == search_step(p, h, dir, wrapscan, from),
    decreases n,
{
    reveal_with_fuel(nth_match, 3);
    match search_step(p, h, dir, wrapscan, from) {
        None => {},
        Some(r) => if n > 1 {
            counted_search_goes_step_by_step(p, h, dir, wrapscan, (r.0).0, (n - 1) as nat);
        },
    }
}

/// A search that finds its match leaves the cursor on the start of it, and the text as it is.
pub proof fn search_leaves_the_cursor_on_the_match(
    w: World,
    ask: SearchAsk,
    h: Seq<Seq<(usize, usize)>>,
    count: usize,
    line: int,
    col: int,
    end: int,
    wrapped: bool,
)
    requires
        w.buffers.contains_key(w.cur().0),
        buffer_text(w.pane().text()),
        ask.purpose == (SearchUse::Go { count, op: None }),
        ask.offset == SearchOffset::Bare,
        0 <= line < edit_lines(w.pane().text()),
        bound(line_text(w.pane().text(), line), col),
        col < line_text(w.pane().text(), line).len(),
        nth_match(w.pane(), h, ask.dir, w.options.wrapscan, w.pane().spot(), count as nat) == Some(
            ((line_start(w.pane().text(), line) + col, end), wrapped),
        ),
    ensures
        ({
            let v = search_answered(w, ask, Ok(h));
            &&& v.live.cursor.line == line
            &&& v.live.cursor.col == col
            &&& v.pane().text() == w.pane().text()
        }),
{
    let p = w.pane();
    let t = p.text();
    lemma_line_text(t, line);
    lemma_at(p, line, col);
    lemma_held(p.with_cursor(Cursor { line: line as usize, col: col as usize }));
}

} // verus!
