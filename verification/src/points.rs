//! Positions that ride edits: marks and the change list.

use vstd::prelude::*;

use crate::idmap::IdMap;

verus! {

/// A line and a byte column.
pub type Point = (usize, usize);

/// `a` comes before `b` in the text.
pub open spec fn before(a: Point, b: Point) -> bool {
    a.0 < b.0 || (a.0 == b.0 && a.1 < b.1)
}

fn is_before(a: Point, b: Point) -> (r: bool)
    ensures
        r == before(a, b),
{
    a.0 < b.0 || (a.0 == b.0 && a.1 < b.1)
}

/// The coordinate `at` moved from `from` to `to`, in machine words.
pub open spec fn carried(at: usize, from: usize, to: usize) -> usize {
    let n = at - from + to;
    if n <= usize::MAX {
        n as usize
    } else {
        (n - usize::MAX - 1) as usize
    }
}

/// Where a position goes across an edit that replaced the text from `s` to `oe` by
/// text that ends at `ne`. What lies before the edit stays. What lies at or after
/// its old end moves by the rows it added or took, and by the columns too on the
/// row of the old end. What lies inside collapses to its start, unless the row
/// went with the edit: then there is no such position any more.
pub open spec fn shifted(pos: Point, s: Point, oe: Point, ne: Point) -> Option<Point> {
    if before(pos, s) {
        Some(pos)
    } else if !before(pos, oe) {
        Some(
            (
                carried(pos.0, oe.0, ne.0),
                if pos.0 == oe.0 {
                    carried(pos.1, oe.1, ne.1)
                } else {
                    pos.1
                },
            ),
        )
    } else if oe.0 > pos.0 {
        None
    } else {
        Some(s)
    }
}

fn carry(at: usize, from: usize, to: usize) -> (r: usize)
    requires
        from <= at,
    ensures
        r == carried(at, from, to),
{
    let d: usize = at - from;
    if d <= usize::MAX - to {
        d + to
    } else {
        d - (usize::MAX - to) - 1
    }
}

/// Shift a position across an edit; nothing where the edit deleted its row.
pub fn shift_point(pos: Point, s: Point, oe: Point, ne: Point) -> (r: Option<Point>)
    ensures
        r == shifted(pos, s, oe, ne),
{
    if is_before(pos, s) {
        Some(pos)
    } else if !is_before(pos, oe) {
        let row: usize = carry(pos.0, oe.0, ne.0);
        let col: usize = if pos.0 == oe.0 {
            carry(pos.1, oe.1, ne.1)
        } else {
            pos.1
        };
        Some((row, col))
    } else if oe.0 > pos.0 {
        None
    } else {
        Some(s)
    }
}

/// An edit that changes nothing moves nothing.
pub proof fn empty_edit_moves_nothing(pos: Point, s: Point)
    ensures
        shifted(pos, s, s, s) == Some(pos),
{
}

/// Taking out what an edit put in brings a position back that was not inside it.
pub proof fn removal_undoes_insertion(pos: Point, s: Point, e: Point)
    requires
        before(s, e),
        pos.0 - s.0 + e.0 <= usize::MAX,
        pos.0 == s.0 ==> pos.1 - s.1 + e.1 <= usize::MAX,
    ensures
        shifted(pos, s, s, e) is Some,
        shifted(shifted(pos, s, s, e)->0, s, e, s) == Some(pos),
{
}

/// An edit keeps the order of the positions it keeps.
pub proof fn shifting_keeps_order(a: Point, b: Point, s: Point, oe: Point, ne: Point)
    requires
        before(a, b),
        !before(oe, s),
        !before(ne, s),
        b.0 - oe.0 + ne.0 <= usize::MAX,
        b.0 == oe.0 ==> b.1 - oe.1 + ne.1 <= usize::MAX,
        a.0 == oe.0 ==> a.1 - oe.1 + ne.1 <= usize::MAX,
        shifted(a, s, oe, ne) is Some,
        shifted(b, s, oe, ne) is Some,
    ensures
        !before(shifted(b, s, oe, ne)->0, shifted(a, s, oe, ne)->0),
{
}

/// The marks that an edit keeps, each where it goes.
pub open spec fn marks_shifted(
    m: Map<u64, Point>,
    s: Point,
    oe: Point,
    ne: Point,
) -> Map<u64, Point> {
    Map::new(
        |k: u64| m.contains_key(k) && shifted(m[k], s, oe, ne) is Some,
        |k: u64| shifted(m[k], s, oe, ne)->0,
    )
}

/// Shift every mark across an edit, and drop those whose row it deleted.
pub fn shift_marks(marks: &mut IdMap<Point>, s: Point, oe: Point, ne: Point)
    requires
        old(marks).wf(),
    ensures
        final(marks).wf(),
        final(marks)@ == marks_shifted(old(marks)@, s, oe, ne),
{
    let mut kept: IdMap<Point> = IdMap::new();
    let mut i: usize = 0;
    let ghost m = marks@;
    let ghost ids = marks.ids();
    proof {
        marks.ids_are_keys();
    }
    while i < marks.len()
        invariant
            i <= ids.len(),
            marks.wf(),
            kept.wf(),
            m == marks@,
            ids == marks.ids(),
            forall|k: u64| m.contains_key(k) <==> ids.contains(k),
            forall|k: u64| #[trigger]
                kept@.contains_key(k) <==> ids.take(i as int).contains(k) && shifted(
                    m[k],
                    s,
                    oe,
                    ne,
                ) is Some,
            forall|k: u64| #[trigger]
                kept@.contains_key(k) ==> kept@[k] == shifted(m[k], s, oe, ne)->0,
        decreases ids.len() - i,
    {
        let id: u64 = marks.id_at(i);
        let pos: Point = *marks.at(id);
        let ghost before_kept = kept@;
        match shift_point(pos, s, oe, ne) {
            Some(p) => {
                kept.insert(id, p);
            },
            None => {},
        }
        proof {
            assert(ids.take(i + 1) =~= ids.take(i as int).push(id));
            assert forall|k: u64| #[trigger] kept@.contains_key(k) <==> ids.take(i + 1).contains(k)
                && shifted(m[k], s, oe, ne) is Some by {
                assert(ids.take(i as int).push(id).contains(k) <==> ids.take(i as int).contains(k)
                    || k == id) by {
                    let a = ids.take(i as int);
                    if a.contains(k) {
                        let j = choose|j: int| 0 <= j < a.len() && a[j] == k;
                        assert(a.push(id)[j] == k);
                    }
                    if k == id {
                        assert(a.push(id)[a.len() as int] == k);
                    }
                    if a.push(id).contains(k) && k != id {
                        let j = choose|j: int| 0 <= j < a.push(id).len() && a.push(id)[j] == k;
                        assert(a[j] == k);
                    }
                }
            }
        }
        i += 1;
    }
    proof {
        assert(ids.take(i as int) =~= ids);
        assert(kept@ =~= marks_shifted(m, s, oe, ne));
    }
    *marks = kept;
}

/// At most so many entries in the change list.
pub const CHANGELIST_SIZE: usize = 100;

/// The change list across an edit: each entry where it goes, without those whose
/// row the edit deleted.
pub open spec fn list_shifted(list: Seq<Point>, s: Point, oe: Point, ne: Point) -> Seq<Point>
    decreases list.len(),
{
    if list.len() == 0 {
        list
    } else {
        let r = list_shifted(list.drop_last(), s, oe, ne);
        match shifted(list.last(), s, oe, ne) {
            Some(p) => r.push(p),
            None => r,
        }
    }
}

/// Shift every entry of the change list across an edit.
pub fn shift_changelist(list: &mut Vec<Point>, s: Point, oe: Point, ne: Point)
    ensures
        final(list)@ == list_shifted(old(list)@, s, oe, ne),
        final(list)@.len() <= old(list)@.len(),
{
    let mut kept: Vec<Point> = Vec::new();
    let mut i: usize = 0;
    assert(list@.take(0) =~= Seq::<Point>::empty());
    while i < list.len()
        invariant
            i <= list@.len(),
            list@ == old(list)@,
            kept@ == list_shifted(list@.take(i as int), s, oe, ne),
            kept@.len() <= i,
        decreases list@.len() - i,
    {
        assert(list@.take(i + 1).drop_last() =~= list@.take(i as int));
        match shift_point(list[i], s, oe, ne) {
            Some(p) => {
                kept.push(p);
            },
            None => {},
        }
        i += 1;
    }
    assert(list@.take(i as int) =~= list@);
    *list = kept;
}

/// The change list with a change at `pos`: on the row of the newest entry it takes
/// that entry's place; else it is the newest, and the oldest of a full list goes.
pub open spec fn list_added(list: Seq<Point>, pos: Point) -> Seq<Point> {
    if list.len() > 0 && list.last().0 == pos.0 {
        list.update(list.len() - 1, pos)
    } else if list.len() >= CHANGELIST_SIZE {
        list.drop_first().push(pos)
    } else {
        list.push(pos)
    }
}

/// Add a change at `pos` to the change list.
pub fn add_to_changelist(list: &mut Vec<Point>, pos: Point)
    ensures
        final(list)@ == list_added(old(list)@, pos),
{
    let n: usize = list.len();
    if n > 0 {
        if list[n - 1].0 == pos.0 {
            list[n - 1] = pos;
            return;
        }
    }
    if n >= CHANGELIST_SIZE {
        let _oldest = list.remove(0);
        assert(list@ =~= old(list)@.drop_first());
    }
    list.push(pos);
}

/// The newest entry is the change just made, and the list holds no more than its
/// limit if it did not before.
pub proof fn newest_change_is_last(list: Seq<Point>, pos: Point)
    ensures
        list_added(list, pos).len() > 0,
        list_added(list, pos).last() == pos,
        list.len() <= CHANGELIST_SIZE ==> list_added(list, pos).len() <= CHANGELIST_SIZE,
{
}

/// Shifting never makes the change list longer.
pub proof fn shifting_adds_no_entry(list: Seq<Point>, s: Point, oe: Point, ne: Point)
    ensures
        list_shifted(list, s, oe, ne).len() <= list.len(),
    decreases list.len(),
{
    if list.len() > 0 {
        shifting_adds_no_entry(list.drop_last(), s, oe, ne);
    }
}

} // verus!
