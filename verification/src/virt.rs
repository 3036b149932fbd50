//! Rows that are drawn beside the lines of a text: which line each belongs to.

use vstd::prelude::*;

use crate::buffer::Buffer;
use crate::idmap::IdMap;
use crate::rows::{Fold, LineRows, RowMap};
use crate::strings::texts;
use crate::text::line_of;

verus! {

/// A mark in a text with rows to be drawn above the line that it stands in, or below it.
pub struct VirtMark {
    pub start: usize,
    pub priority: u32,
    pub id: u64,
    pub above: bool,
    pub rows: Vec<String>,
}

/// A mark with rows to be drawn.
pub struct VirtModel {
    pub start: usize,
    pub priority: u32,
    pub id: u64,
    pub above: bool,
    pub rows: Seq<Seq<char>>,
}

impl View for VirtMark {
    type V = VirtModel;

    open spec fn view(&self) -> VirtModel {
        VirtModel {
            start: self.start,
            priority: self.priority,
            id: self.id,
            above: self.above,
            rows: texts(self.rows@),
        }
    }
}

/// The rows drawn above a line and below it.
pub struct VirtLineRows {
    pub above: Vec<String>,
    pub below: Vec<String>,
}

impl View for VirtLineRows {
    type V = (Seq<Seq<char>>, Seq<Seq<char>>);

    open spec fn view(&self) -> (Seq<Seq<char>>, Seq<Seq<char>>) {
        (texts(self.above@), texts(self.below@))
    }
}

/// The marks of a list.
pub open spec fn marks_of(v: Seq<VirtMark>) -> Seq<VirtModel> {
    v.map_values(|m: VirtMark| m@)
}

/// Whether a mark may come before another: by its place, then by its priority, then by its
/// number.
pub open spec fn before(a: VirtModel, b: VirtModel) -> bool {
    a.start < b.start || (a.start == b.start && (a.priority < b.priority || (a.priority
        == b.priority && a.id <= b.id)))
}

/// The place of a mark among the first `n` of marks in order: after the last one that may
/// come before it.
pub open spec fn place_of(s: Seq<VirtModel>, e: VirtModel, n: int) -> int
    decreases n,
{
    if n <= 0 || before(s[n - 1], e) {
        n
    } else {
        place_of(s, e, n - 1)
    }
}

/// The first `n` marks in order.
pub open spec fn in_order(s: Seq<VirtModel>, n: int) -> Seq<VirtModel>
    decreases n,
{
    if n <= 0 {
        Seq::empty()
    } else {
        let r = in_order(s, n - 1);
        r.insert(place_of(r, s[n - 1], r.len() as int), s[n - 1])
    }
}

/// The rows that the first `n` marks draw on one side of a line.
pub open spec fn gathered(
    text: Seq<u8>,
    s: Seq<VirtModel>,
    n: int,
    line: int,
    above: bool,
) -> Seq<Seq<char>>
    decreases n,
{
    if n <= 0 {
        Seq::empty()
    } else {
        let r = gathered(text, s, n - 1, line, above);
        if line_of(text, s[n - 1].start as int) == line && s[n - 1].above == above {
            r + s[n - 1].rows
        } else {
            r
        }
    }
}

/// Whether one of the first `n` marks draws rows beside a line.
pub open spec fn draws_at(text: Seq<u8>, s: Seq<VirtModel>, n: int, line: int) -> bool {
    exists|i: int|
        0 <= i < n && (#[trigger] s[i]).rows.len() > 0 && line_of(text, s[i].start as int) == line
}

/// What a table of rows holds of the first `n` marks: the lines with rows, and the rows of
/// each, in the order of the marks.
pub open spec fn tells(
    m: Map<u64, VirtLineRows>,
    text: Seq<u8>,
    s: Seq<VirtModel>,
    n: int,
) -> bool {
    forall|line: u64|
        {
            &&& #[trigger] m.contains_key(line) <==> draws_at(text, s, n, line as int)
            &&& m.contains_key(line) ==> m[line]@ == (
                gathered(text, s, n, line as int, true),
                gathered(text, s, n, line as int, false),
            )
        }
}

/// Marks in order.
pub open spec fn ordered(s: Seq<VirtModel>) -> bool {
    forall|i: int, j: int| 0 <= i < j < s.len() ==> before(#[trigger] s[i], #[trigger] s[j])
}

proof fn lemma_place(s: Seq<VirtModel>, e: VirtModel, n: int)
    requires
        0 <= n <= s.len(),
    ensures
        0 <= place_of(s, e, n) <= n,
        place_of(s, e, n) > 0 ==> before(s[place_of(s, e, n) - 1], e),
        forall|i: int| place_of(s, e, n) <= i < n ==> before(e, #[trigger] s[i]),
    decreases n,
{
    if n > 0 && !before(s[n - 1], e) {
        lemma_place(s, e, n - 1);
    }
}

/// Marks are put in order, and none is left out or taken twice.
pub proof fn marks_come_in_order(s: Seq<VirtModel>, n: int)
    requires
        0 <= n <= s.len(),
    ensures
        ordered(in_order(s, n)),
        in_order(s, n).to_multiset() == s.take(n).to_multiset(),
    decreases n,
{
    if n == 0 {
        assert(s.take(0) =~= Seq::<VirtModel>::empty());
    } else {
        marks_come_in_order(s, n - 1);
        let r = in_order(s, n - 1);
        let e = s[n - 1];
        lemma_place(r, e, r.len() as int);
        let at = place_of(r, e, r.len() as int);
        let q = r.insert(at, e);
        assert forall|i: int, j: int| 0 <= i < j < q.len() implies before(
            #[trigger] q[i],
            #[trigger] q[j],
        ) by {
            let i0 = if i < at { i } else { i - 1 };
            let j0 = if j < at { j } else { j - 1 };
            if i != at && j != at {
                assert(before(r[i0], r[j0]));
            } else if j == at {
                if i < at - 1 {
                    assert(before(r[i], r[at - 1]));
                }
            } else {
                assert(q[j] == r[j0]);
            }
        }
        vstd::seq_lib::to_multiset_insert(r, at, e);
        assert(s.take(n) =~= s.take(n - 1).push(e));
        vstd::seq_lib::to_multiset_build(s.take(n - 1), e);
    }
}

/// The marks at some indices.
pub open spec fn picked(marks: Seq<VirtMark>, order: Seq<usize>) -> Seq<VirtModel> {
    order.map_values(|i: usize| marks[i as int]@)
}

fn comes_before(a: &VirtMark, b: &VirtMark) -> (r: bool)
    ensures
        r == before(a@, b@),
{
    a.start < b.start || (a.start == b.start && (a.priority < b.priority || (a.priority
        == b.priority && a.id <= b.id)))
}

fn sort_marks(marks: &Vec<VirtMark>) -> (order: Vec<usize>)
    ensures
        picked(marks@, order@) == in_order(marks_of(marks@), marks@.len() as int),
        order@.len() == marks@.len(),
        forall|i: int| 0 <= i < order@.len() ==> (#[trigger] order@[i]) < marks@.len(),
{
    let ghost all = marks_of(marks@);
    let mut order: Vec<usize> = Vec::new();
    let mut i: usize = 0;
    assert(picked(marks@, order@) =~= in_order(all, 0));
    while i < marks.len()
        invariant
            i <= marks@.len(),
            all == marks_of(marks@),
            picked(marks@, order@) == in_order(all, i as int),
            order@.len() == i,
            forall|k: int| 0 <= k < order@.len() ==> (#[trigger] order@[k]) < marks@.len(),
        decreases marks@.len() - i,
    {
        let ghost done = picked(marks@, order@);
        let ghost was = order@;
        let mut at: usize = i;
        while at > 0 && !comes_before(&marks[order[at - 1]], &marks[i])
            invariant
                i < marks@.len(),
                at <= i,
                order@.len() == i,
                forall|k: int| 0 <= k < order@.len() ==> (#[trigger] order@[k]) < marks@.len(),
                done == picked(marks@, order@),
                place_of(done, marks@[i as int]@, i as int) == place_of(
                    done,
                    marks@[i as int]@,
                    at as int,
                ),
            decreases at,
        {
            assert(done[at - 1] == marks@[order@[at - 1] as int]@);
            at -= 1;
        }
        proof {
            if at > 0 {
                assert(done[at - 1] == marks@[order@[at - 1] as int]@);
            }
            assert(all[i as int] == marks@[i as int]@);
        }
        order.insert(at, i);
        assert(picked(marks@, order@) =~= done.insert(at as int, marks@[i as int]@));
        assert forall|k: int| 0 <= k < order@.len() implies (#[trigger] order@[k])
            < marks@.len() by {
            if k < at {
                assert(order@[k] == was[k]);
            } else if k > at {
                assert(order@[k] == was[k - 1]);
            }
        }
        i += 1;
    }
    order
}

fn append(to: &mut Vec<String>, rows: &Vec<String>)
    ensures
        texts(final(to)@) == texts(old(to)@) + texts(rows@),
{
    let mut i: usize = 0;
    assert(texts(to@) =~= texts(old(to)@) + texts(rows@).take(0));
    while i < rows.len()
        invariant
            i <= rows@.len(),
            texts(to@) == texts(old(to)@) + texts(rows@).take(i as int),
        decreases rows@.len() - i,
    {
        let ghost was = texts(to@);
        to.push(rows[i].clone());
        assert(texts(to@) =~= was.push(rows@[i as int]@));
        assert(texts(rows@).take(i + 1) =~= texts(rows@).take(i as int).push(rows@[i as int]@));
        i += 1;
    }
    assert(texts(rows@).take(i as int) =~= texts(rows@));
}

fn add_rows(m: &mut IdMap<VirtLineRows>, line: u64, e: &VirtMark)
    requires
        old(m).wf(),
    ensures
        final(m).wf(),
        ({
            let was = if old(m)@.contains_key(line) {
                old(m)@[line]@
            } else {
                (Seq::empty(), Seq::empty())
            };
            let rows = texts(e.rows@);
            &&& final(m)@.dom() == old(m)@.dom().insert(line)
            &&& forall|k: u64| k != line ==> #[trigger] final(m)@[k] == old(m)@[k]
            &&& final(m)@[line]@ == if e.above {
                (was.0 + rows, was.1)
            } else {
                (was.0, was.1 + rows)
            }
        }),
{
    if !m.contains(line) {
        let fresh = VirtLineRows { above: Vec::new(), below: Vec::new() };
        assert(fresh@.0 =~= Seq::empty());
        assert(fresh@.1 =~= Seq::empty());
        m.insert(line, fresh);
    }
    let r = m.at_mut(line);
    if e.above {
        append(&mut r.above, &e.rows);
    } else {
        append(&mut r.below, &e.rows);
    }
    assert(m@.dom() =~= old(m)@.dom().insert(line));
}

proof fn lemma_told(
    was: Map<u64, VirtLineRows>,
    now: Map<u64, VirtLineRows>,
    text: Seq<u8>,
    s: Seq<VirtModel>,
    n: int,
    line: u64,
)
    requires
        0 <= n < s.len(),
        tells(was, text, s, n),
        line == line_of(text, s[n].start as int),
        s[n].rows.len() > 0,
        now.dom() == was.dom().insert(line),
        forall|k: u64| k != line ==> #[trigger] now[k] == was[k],
        ({
            let old = if was.contains_key(line) {
                was[line]@
            } else {
                (Seq::empty(), Seq::empty())
            };
            now[line]@ == if s[n].above {
                (old.0 + s[n].rows, old.1)
            } else {
                (old.0, old.1 + s[n].rows)
            }
        }),
    ensures
        tells(now, text, s, n + 1),
{
    assert forall|k: u64|
        {
            &&& #[trigger] now.contains_key(k) <==> draws_at(text, s, n + 1, k as int)
            &&& now.contains_key(k) ==> now[k]@ == (
                gathered(text, s, n + 1, k as int, true),
                gathered(text, s, n + 1, k as int, false),
            )
        } by {
        assert(was.contains_key(k) <==> draws_at(text, s, n, k as int));
        if k == line {
            assert(s[n].rows.len() > 0);
            if !was.contains_key(k) {
                lemma_none_gathered(text, s, n, k as int, true);
                lemma_none_gathered(text, s, n, k as int, false);
            }
        } else {
            if draws_at(text, s, n + 1, k as int) {
                let i = choose|i: int|
                    0 <= i < n + 1 && (#[trigger] s[i]).rows.len() > 0 && line_of(
                        text,
                        s[i].start as int,
                    ) == k;
                assert(0 <= i < n && s[i].rows.len() > 0);
            }
            if draws_at(text, s, n, k as int) {
                let i = choose|i: int|
                    0 <= i < n && (#[trigger] s[i]).rows.len() > 0 && line_of(
                        text,
                        s[i].start as int,
                    ) == k;
                assert(0 <= i < n + 1 && s[i].rows.len() > 0);
            }
        }
    }
}

proof fn lemma_none_gathered(text: Seq<u8>, s: Seq<VirtModel>, n: int, line: int, above: bool)
    requires
        0 <= n <= s.len(),
        !draws_at(text, s, n, line),
    ensures
        gathered(text, s, n, line, above) == Seq::<Seq<char>>::empty(),
    decreases n,
{
    if n > 0 {
        assert(s[n - 1].rows.len() == 0 || line_of(text, s[n - 1].start as int) != line);
        assert forall|i: int| 0 <= i < n - 1 implies !((#[trigger] s[i]).rows.len() > 0
            && line_of(text, s[i].start as int) == line) by {
            assert(0 <= i < n);
        }
        lemma_none_gathered(text, s, n - 1, line, above);
        assert(gathered(text, s, n, line, above) =~= Seq::empty());
    }
}

proof fn lemma_told_nothing(
    m: Map<u64, VirtLineRows>,
    text: Seq<u8>,
    s: Seq<VirtModel>,
    n: int,
)
    requires
        0 <= n < s.len(),
        tells(m, text, s, n),
        s[n].rows.len() == 0,
    ensures
        tells(m, text, s, n + 1),
{
    assert forall|k: u64|
        {
            &&& #[trigger] m.contains_key(k) <==> draws_at(text, s, n + 1, k as int)
            &&& m.contains_key(k) ==> m[k]@ == (
                gathered(text, s, n + 1, k as int, true),
                gathered(text, s, n + 1, k as int, false),
            )
        } by {
        assert(m.contains_key(k) <==> draws_at(text, s, n, k as int));
        if draws_at(text, s, n + 1, k as int) {
            let i = choose|i: int|
                0 <= i < n + 1 && (#[trigger] s[i]).rows.len() > 0 && line_of(
                    text,
                    s[i].start as int,
                ) == k;
            assert(0 <= i < n && s[i].rows.len() > 0);
        }
        if draws_at(text, s, n, k as int) {
            let i = choose|i: int|
                0 <= i < n && (#[trigger] s[i]).rows.len() > 0 && line_of(
                    text,
                    s[i].start as int,
                ) == k;
            assert(0 <= i < n + 1 && s[i].rows.len() > 0);
        }
        assert(gathered(text, s, n, k as int, true) + s[n].rows =~= gathered(
            text,
            s,
            n,
            k as int,
            true,
        ));
        assert(gathered(text, s, n, k as int, false) + s[n].rows =~= gathered(
            text,
            s,
            n,
            k as int,
            false,
        ));
    }
}

/// How many rows marks draw on one side of a line.
pub open spec fn rows_beside(m: Map<u64, VirtLineRows>, line: int, above: bool) -> nat {
    if 0 <= line <= u64::MAX && m.contains_key(line as u64) {
        if above {
            m[line as u64].above@.len()
        } else {
            m[line as u64].below@.len()
        }
    } else {
        0
    }
}

/// The rows of a text whose lines have `texts` rows each, with those that marks draw beside
/// them, under closed folds.
pub fn row_map(texts: &Vec<usize>, marks: &IdMap<VirtLineRows>, folds: Vec<Fold>) -> (r: RowMap)
    requires
        marks.wf(),
    ensures
        r@.folds == folds@,
        r@.lines.len() == texts@.len(),
        forall|i: int|
            0 <= i < texts@.len() ==> #[trigger] r@.lines[i] == (LineRows {
                above: rows_beside(marks@, i, true) as usize,
                text: texts@[i],
                below: rows_beside(marks@, i, false) as usize,
            }),
{
    let mut lines: Vec<LineRows> = Vec::new();
    let mut i: usize = 0;
    while i < texts.len()
        invariant
            marks.wf(),
            i <= texts@.len(),
            lines@.len() == i,
            forall|k: int|
                0 <= k < i ==> #[trigger] lines@[k] == (LineRows {
                    above: rows_beside(marks@, k, true) as usize,
                    text: texts@[k],
                    below: rows_beside(marks@, k, false) as usize,
                }),
        decreases texts@.len() - i,
    {
        let (above, below): (usize, usize) = match marks.get(i as u64) {
            Some(r) => (r.above.len(), r.below.len()),
            None => (0, 0),
        };
        lines.push(LineRows { above, text: texts[i], below });
        i += 1;
    }
    RowMap { lines, folds }
}

impl Buffer {
    /// The rows that marks draw beside the lines of the text, by the number of the line.
    pub fn virt_lines_by_line(&self, marks: &Vec<VirtMark>) -> (r: IdMap<VirtLineRows>)
        requires
            self.wf(),
            forall|i: int|
                0 <= i < marks@.len() ==> (#[trigger] marks@[i]).start <= self@.text.len(),
        ensures
            r.wf(),
            tells(
                r@,
                self@.text,
                in_order(marks_of(marks@), marks@.len() as int),
                marks@.len() as int,
            ),
    {
        let order = sort_marks(marks);
        let ghost s = picked(marks@, order@);
        let mut r: IdMap<VirtLineRows> = IdMap::new();
        let mut i: usize = 0;
        while i < order.len()
            invariant
                self.wf(),
                i <= order@.len(),
                order@.len() == marks@.len(),
                s == picked(marks@, order@),
                forall|k: int| 0 <= k < order@.len() ==> (#[trigger] order@[k]) < marks@.len(),
                forall|k: int|
                    0 <= k < marks@.len() ==> (#[trigger] marks@[k]).start <= self@.text.len(),
                r.wf(),
                tells(r@, self@.text, s, i as int),
            decreases order@.len() - i,
        {
            let k: usize = order[i];
            let e = &marks[k];
            assert(s[i as int] == marks@[k as int]@);
            let ghost was = r@;
            if e.rows.len() > 0 {
                let line: usize = self.byte_to_line(e.start);
                add_rows(&mut r, line as u64, e);
                proof {
                    lemma_told(was, r@, self@.text, s, i as int, line as u64);
                }
            } else {
                proof {
                    lemma_told_nothing(r@, self@.text, s, i as int);
                }
            }
            i += 1;
        }
        r
    }
}

} // verus!
