//! Opening, closing and choosing windows.

use vstd::prelude::*;

use crate::idmap::IdMap;
use crate::layout::{
    clip, layout_keeps_leaves, leaves_of, well_shaped, Node, Rect, SplitDir, Tree, WinDir, WindowId,
};
use crate::scroll::distance;
use crate::splits::{
    equalize_keeps_leaves, equalize_node, equalized, lemma_occurrences_contains, maximize_keeps_leaves,
    maximize_toward, maximized, occurrences, remove_leaf, remove_takes_one, remove_tree,
    resize_keeps_leaves, resize_toward, resized, split_adds_one, split_leaf, split_tree, times_in,
};
use crate::window::{
    areas_change_only_rects, float_areas, middle, painted, windows_laid, BufferId,
    Cursor, FloatConfig, Window, WindowTree, WindowsModel,
};

verus! {

/// What a window shows of its buffer: cursor, first line and first column.
#[derive(Debug, Clone, Copy, PartialEq, Eq, Structural)]
pub struct Place {
    pub cursor: Cursor,
    pub top: usize,
    pub leftcol: usize,
}

/// A window that has a place in the tree.
pub open spec fn is_tiled(t: WindowsModel, x: WindowId) -> bool {
    t.windows.contains_key(x.0) && t.windows[x.0].float is None
}

/// A window that floats.
pub open spec fn is_float(t: WindowsModel, x: WindowId) -> bool {
    t.windows.contains_key(x.0) && t.windows[x.0].float is Some
}

/// One for what holds, none for what does not.
pub open spec fn once(b: bool) -> nat {
    if b {
        1
    } else {
        0
    }
}

/// The tree holds each tiled window once, the list of floats each float once, and no
/// window has an id that is still to be given out.
#[verifier::opaque]
pub open spec fn arranged(t: WindowsModel) -> bool {
    &&& well_shaped(t.root)
    &&& forall|x: WindowId| #[trigger] times_in(t.root, x) == once(is_tiled(t, x))
    &&& forall|x: WindowId| #[trigger] occurrences(t.floats, x) == once(is_float(t, x))
    &&& forall|k: u64| #[trigger] t.windows.contains_key(k) ==> k < t.next_id
    &&& t.windows.dom().finite()
}

/// The windows are arranged, and one of them has the focus.
pub open spec fn focused(t: WindowsModel) -> bool {
    arranged(t) && t.windows.contains_key(t.current.0)
}

/// A window with its place saved.
pub open spec fn stashed(w: Window, p: Place) -> Window {
    Window { saved_cursor: p.cursor, saved_top: p.top, saved_leftcol: p.leftcol, ..w }
}

/// The place of the focused window saved.
pub open spec fn current_stashed(t: WindowsModel, p: Place) -> WindowsModel {
    WindowsModel {
        windows: t.windows.insert(t.current.0, stashed(t.windows[t.current.0], p)),
        ..t
    }
}

/// The focused window split in two. The new one is a copy at the same place and takes the
/// focus. A float cannot be split.
pub open spec fn split_made(t: WindowsModel, dir: SplitDir, p: Place) -> WindowsModel {
    let s = current_stashed(t, p);
    let w = t.windows[t.current.0];
    let id = WindowId(t.next_id);
    match split_tree(t.root, t.current, dir, id) {
        Some(root) => if t.next_id == u64::MAX {
            t
        } else {
            WindowsModel {
                windows: s.windows.insert(
                    id.0,
                    stashed(
                        Window {
                            rect: Rect { x: 0, y: 0, width: 0, height: 0 },
                            float: None,
                            ..w
                        },
                        p,
                    ),
                ),
                root,
                current: id,
                next_id: (t.next_id + 1) as u64,
                ..s
            }
        },
        None => t,
    }
}

/// Whether a window can be closed: it is open, it is not the only one, and it is not the
/// only one that is tiled.
pub open spec fn closable(t: WindowsModel, id: WindowId) -> bool {
    &&& t.windows.dom().len() > 1
    &&& t.windows.contains_key(id.0)
    &&& t.root != Tree::Leaf(id)
}

/// A list without a window.
pub open spec fn without(s: Seq<WindowId>, id: WindowId) -> Seq<WindowId> {
    s.filter(|x: WindowId| x != id)
}

/// A window taken out.
pub open spec fn window_removed(t: WindowsModel, id: WindowId) -> WindowsModel {
    if t.windows[id.0].float is Some {
        WindowsModel {
            windows: t.windows.remove(id.0),
            floats: without(t.floats, id),
            ..t
        }
    } else {
        WindowsModel {
            windows: t.windows.remove(id.0),
            root: match remove_tree(t.root, id) {
                Some(r) => r,
                None => t.root,
            },
            ..t
        }
    }
}

/// The focused window alone.
pub open spec fn only_current(t: WindowsModel) -> WindowsModel {
    let w = t.windows[t.current.0];
    WindowsModel {
        windows: Map::empty().insert(t.current.0, Window { float: None, ..w }),
        root: Tree::Leaf(t.current),
        floats: Seq::empty(),
        ..t
    }
}

/// How far the middles of two areas are apart, along both axes together.
pub open spec fn apart(a: Rect, b: Rect) -> int {
    distance(clip(middle(a).0) as int, clip(middle(b).0) as int) + distance(
        clip(middle(a).1) as int,
        clip(middle(b).1) as int,
    )
}

/// An area lies wholly on one side of another.
pub open spec fn on_side(r: Rect, from: Rect, dir: WinDir) -> bool {
    match dir {
        WinDir::Left => r.x + r.width <= from.x,
        WinDir::Right => r.x >= from.x + from.width,
        WinDir::Up => r.y + r.height <= from.y,
        WinDir::Down => r.y >= from.y + from.height,
    }
}

/// The nearest to an area of the first `n` windows, the first of them where several are;
/// where a side is given, of those on that side, without the focused window.
pub open spec fn nearest(
    t: WindowsModel,
    ids: Seq<WindowId>,
    from: Rect,
    side: Option<WinDir>,
    n: int,
) -> Option<WindowId>
    decreases n,
{
    if n <= 0 {
        None
    } else {
        let best = nearest(t, ids, from, side, n - 1);
        let id = ids[n - 1];
        let r = t.windows[id.0].rect;
        if side is Some && (id == t.current || !on_side(r, from, side->0)) {
            best
        } else {
            match best {
                Some(b) => if apart(from, r) < apart(from, t.windows[b.0].rect) {
                    Some(id)
                } else {
                    best
                },
                None => Some(id),
            }
        }
    }
}

/// The tiled window that is nearest to an area.
pub open spec fn nearest_to(t: WindowsModel, from: Rect) -> Option<WindowId> {
    nearest(t, leaves_of(t.root), from, None, leaves_of(t.root).len() as int)
}

/// The tiled window that is nearest to the focused one on a side of it.
pub open spec fn neighbour(t: WindowsModel, dir: WinDir) -> Option<WindowId> {
    nearest(
        t,
        leaves_of(t.root),
        t.windows[t.current.0].rect,
        Some(dir),
        leaves_of(t.root).len() as int,
    )
}

/// The first place of a window in a list from `i` on; the start where it has none.
pub open spec fn place_in(s: Seq<WindowId>, id: WindowId, i: int) -> int
    decreases s.len() - i,
{
    if i < 0 || i >= s.len() {
        0
    } else if s[i] == id {
        i
    } else {
        place_in(s, id, i + 1)
    }
}

/// The tiled window after the focused one, or before it, going round.
pub open spec fn next_window(t: WindowsModel, forward: bool) -> Option<WindowId> {
    let s = leaves_of(t.root);
    let n = s.len() as int;
    let i = place_in(s, t.current, 0);
    if n <= 1 {
        None
    } else if forward {
        Some(
            s[if i + 1 >= n {
                0
            } else {
                i + 1
            }],
        )
    } else {
        Some(
            s[if i == 0 {
                n - 1
            } else {
                i - 1
            }],
        )
    }
}

/// A window made larger along an axis, or smaller.
pub open spec fn window_resized(
    t: WindowsModel,
    id: WindowId,
    axis: SplitDir,
    delta: int,
) -> WindowsModel {
    WindowsModel {
        root: match resized(t.root, id, axis, delta, false) {
            Some((r, _)) => r,
            None => t.root,
        },
        ..t
    }
}

/// The focused window made as large as possible along an axis.
pub open spec fn window_maximized(t: WindowsModel, axis: SplitDir) -> WindowsModel {
    WindowsModel {
        root: match maximized(t.root, t.current, axis) {
            Some(r) => r,
            None => t.root,
        },
        ..t
    }
}

/// All windows made equal.
pub open spec fn windows_equalized(t: WindowsModel) -> WindowsModel {
    WindowsModel { root: equalized(t.root), ..t }
}

/// A float opened.
pub open spec fn float_opened(t: WindowsModel, buf: BufferId, cfg: FloatConfig) -> WindowsModel {
    let id = WindowId(t.next_id);
    let m = t.windows.insert(
        id.0,
        Window {
            buffer: buf,
            saved_cursor: Cursor { line: 0, col: 0 },
            saved_top: 0,
            saved_leftcol: 0,
            rect: Rect { x: 0, y: 0, width: 0, height: 0 },
            options: t.windows[t.current.0].options,
            float: Some(cfg),
        },
    );
    WindowsModel {
        windows: m,
        floats: painted(m, t.floats.push(id), t.floats.push(id).len() as int),
        next_id: (t.next_id + 1) as u64,
        ..t
    }
}

/// All windows: the tiled ones in the order of the tree, then the floats in the order they
/// are painted in.
pub open spec fn all_windows(t: WindowsModel) -> Seq<WindowId> {
    leaves_of(t.root) + t.floats
}

proof fn lemma_without(s: Seq<WindowId>, id: WindowId, x: WindowId)
    ensures
        occurrences(without(s, id), x) == if x == id {
            0
        } else {
            occurrences(s, x)
        },
    decreases s.len(),
{
    reveal(Seq::filter);
    if s.len() > 0 {
        lemma_without(s.drop_last(), id, x);
        let r = without(s.drop_last(), id);
        if s.last() != id {
            assert(without(s, id) == r.push(s.last()));
            assert(r.push(s.last()).drop_last() =~= r);
        } else {
            assert(without(s, id) == r);
        }
    }
}

proof fn lemma_occurrences_insert(s: Seq<WindowId>, at: int, id: WindowId, x: WindowId)
    requires
        0 <= at <= s.len(),
    ensures
        occurrences(s.insert(at, id), x) == occurrences(s, x) + once(x == id),
    decreases s.len(),
{
    let r = s.insert(at, id);
    if at == s.len() {
        assert(r.drop_last() =~= s);
    } else {
        lemma_occurrences_insert(s.drop_last(), at, id, x);
        assert(r.drop_last() =~= s.drop_last().insert(at, id));
    }
}

proof fn lemma_painted_occurrences(
    m: Map<u64, Window>,
    s: Seq<WindowId>,
    n: int,
    x: WindowId,
)
    requires
        0 <= n <= s.len(),
    ensures
        occurrences(painted(m, s, n), x) == occurrences(s.take(n), x),
    decreases n,
{
    if n == 0 {
        assert(s.take(0) =~= Seq::<WindowId>::empty());
    } else {
        lemma_painted_occurrences(m, s, n - 1, x);
        let r = painted(m, s, n - 1);
        lemma_place_bounds(m, r, s[n - 1], r.len() as int);
        lemma_occurrences_insert(
            r,
            crate::window::paint_place(m, r, s[n - 1], r.len() as int),
            s[n - 1],
            x,
        );
        assert(s.take(n).drop_last() =~= s.take(n - 1));
    }
}

proof fn lemma_place_bounds(m: Map<u64, Window>, s: Seq<WindowId>, id: WindowId, n: int)
    requires
        0 <= n <= s.len(),
    ensures
        0 <= crate::window::paint_place(m, s, id, n) <= n,
    decreases n,
{
    if n > 0 && !crate::window::painted_before(m, s[n - 1], id) {
        lemma_place_bounds(m, s, id, n - 1);
    }
}

/// Changing windows without changing which of them float keeps the arrangement.
pub proof fn lemma_same_windows(t: WindowsModel, m: Map<u64, Window>)
    requires
        arranged(t),
        m.dom() == t.windows.dom(),
        forall|k: u64| m.contains_key(k) ==> (#[trigger] m[k]).float is Some == t.windows[k].float is Some,
    ensures
        arranged(WindowsModel { windows: m, ..t }),
{
    reveal(arranged);
    let u = WindowsModel { windows: m, ..t };
    assert forall|x: WindowId| #[trigger] times_in(u.root, x) == once(is_tiled(u, x)) by {
        assert(times_in(t.root, x) == once(is_tiled(t, x)));
        assert(m.contains_key(x.0) <==> t.windows.contains_key(x.0));
        if m.contains_key(x.0) {
            assert(m[x.0].float is Some == t.windows[x.0].float is Some);
        }
    }
    assert forall|x: WindowId| #[trigger] occurrences(u.floats, x) == once(is_float(u, x)) by {
        assert(occurrences(t.floats, x) == once(is_float(t, x)));
        assert(m.contains_key(x.0) <==> t.windows.contains_key(x.0));
        if m.contains_key(x.0) {
            assert(m[x.0].float is Some == t.windows[x.0].float is Some);
        }
    }
    assert forall|k: u64| #[trigger] u.windows.contains_key(k) implies k < u.next_id by {
        assert(t.windows.contains_key(k));
    }
}

/// A tree of the same leaves keeps the arrangement.
pub proof fn lemma_same_leaves(t: WindowsModel, root: Tree)
    requires
        arranged(t),
        well_shaped(root),
        leaves_of(root) == leaves_of(t.root),
    ensures
        arranged(WindowsModel { root, ..t }),
{
    reveal(arranged);
    let u = WindowsModel { root, ..t };
    assert forall|x: WindowId| #[trigger] times_in(u.root, x) == once(is_tiled(u, x)) by {
        assert(times_in(t.root, x) == once(is_tiled(t, x)));
    }
    assert forall|x: WindowId| #[trigger] occurrences(u.floats, x) == once(is_float(u, x)) by {
        assert(occurrences(t.floats, x) == once(is_float(t, x)));
    }
}

/// The separators have no part in the arrangement.
proof fn lemma_same_separators(t: WindowsModel, u: WindowsModel)
    requires
        arranged(t),
        u == (WindowsModel { separators: u.separators, current: u.current, ..t }),
    ensures
        arranged(u),
{
    reveal(arranged);
    assert forall|x: WindowId| #[trigger] times_in(u.root, x) == once(is_tiled(u, x)) by {
        assert(times_in(t.root, x) == once(is_tiled(t, x)));
    }
    assert forall|x: WindowId| #[trigger] occurrences(u.floats, x) == once(is_float(u, x)) by {
        assert(occurrences(t.floats, x) == once(is_float(t, x)));
    }
}

/// Which window has the focus has no part in the arrangement.
pub proof fn lemma_same_focus(t: WindowsModel, id: WindowId)
    requires
        arranged(t),
    ensures
        arranged(WindowsModel { current: id, ..t }),
{
    lemma_same_separators(t, WindowsModel { current: id, ..t });
}

/// Laying the windows out changes areas alone: none is opened, closed or moved in the tree.
pub proof fn layout_keeps_windows(t: WindowsModel, total: Rect, off: (usize, usize))
    requires
        arranged(t),
    ensures
        arranged(windows_laid(t, total, off)),
        windows_laid(t, total, off).windows.dom() == t.windows.dom(),
        windows_laid(t, total, off).current == t.current,
        windows_laid(t, total, off).next_id == t.next_id,
        windows_laid(t, total, off).floats == t.floats,
        leaves_of(windows_laid(t, total, off).root) == leaves_of(t.root),
        forall|k: u64|
            t.windows.contains_key(k) ==> #[trigger] windows_laid(t, total, off).windows[k] == (
            Window { rect: windows_laid(t, total, off).windows[k].rect, ..t.windows[k] }),
{
    let r = windows_laid(t, total, off);
    let tiled = crate::layout::areas(t.root, total);
    areas_change_only_rects(t.windows, tiled);
    let m = crate::window::with_areas(t.windows, tiled);
    let cell = crate::window::cursor_cell(m, t.current, off);
    areas_change_only_rects(m, float_areas(m, t.floats, total, cell));
    assert(well_shaped(t.root)) by {
        reveal(arranged);
    }
    layout_keeps_leaves(t.root, total);
    assert forall|k: u64| t.windows.contains_key(k) implies #[trigger] r.windows[k] == (Window {
        rect: r.windows[k].rect,
        ..t.windows[k]
    }) by {
        assert(m[k] == (Window { rect: m[k].rect, ..t.windows[k] }));
    }
    lemma_same_windows(t, r.windows);
    let a = WindowsModel { windows: r.windows, ..t };
    lemma_same_leaves(a, r.root);
    lemma_same_separators(WindowsModel { root: r.root, ..a }, r);
}

/// A tiled window is open.
pub proof fn lemma_leaf_is_open(t: WindowsModel, id: WindowId)
    requires
        arranged(t),
        leaves_of(t.root).contains(id),
    ensures
        is_tiled(t, id),
{
    reveal(arranged);
    lemma_occurrences_contains(leaves_of(t.root), id);
    assert(times_in(t.root, id) == once(is_tiled(t, id)));
}

/// Splitting keeps the arrangement.
pub proof fn split_stays_arranged(t: WindowsModel, dir: SplitDir, p: Place)
    requires
        focused(t),
    ensures
        focused(split_made(t, dir, p)),
{
    let r = split_made(t, dir, p);
    let id = WindowId(t.next_id);
    reveal(arranged);
    split_adds_one(t.root, t.current, dir, id);
    if r != t {
        let s = current_stashed(t, p);
        assert(s.windows.dom() =~= t.windows.dom());
        lemma_same_windows(t, s.windows);
        assert(!t.windows.contains_key(id.0));
        lemma_occurrences_contains(leaves_of(t.root), t.current);
        assert(times_in(t.root, t.current) == once(is_tiled(t, t.current)));
        assert forall|x: WindowId| #[trigger] times_in(r.root, x) == once(is_tiled(r, x)) by {
            assert(times_in(s.root, x) == once(is_tiled(s, x)));
        }
        assert forall|x: WindowId| #[trigger] occurrences(r.floats, x) == once(is_float(r, x)) by {
            assert(occurrences(s.floats, x) == once(is_float(s, x)));
        }
    }
}

/// Closing keeps the arrangement.
pub proof fn removal_stays_arranged(t: WindowsModel, id: WindowId)
    requires
        arranged(t),
        closable(t, id),
    ensures
        arranged(window_removed(t, id)),
        !window_removed(t, id).windows.contains_key(id.0),
        leaves_of(window_removed(t, id).root).len() > 0,
{
    let r = window_removed(t, id);
    reveal(arranged);
    if t.windows[id.0].float is Some {
        assert forall|x: WindowId| #[trigger] occurrences(r.floats, x) == once(is_float(r, x)) by {
            lemma_without(t.floats, id, x);
            assert(occurrences(t.floats, x) == once(is_float(t, x)));
        }
        assert forall|x: WindowId| #[trigger] times_in(r.root, x) == once(is_tiled(r, x)) by {
            assert(times_in(t.root, x) == once(is_tiled(t, x)));
        }
    } else {
        remove_takes_one(t.root, id);
        assert(times_in(t.root, id) == once(is_tiled(t, id)));
        lemma_occurrences_contains(leaves_of(t.root), id);
        if t.root is Leaf {
            let only = t.root->Leaf_0;
            assert(leaves_of(t.root) =~= seq![only]);
            assert(false);
        }
        assert forall|x: WindowId| #[trigger] times_in(r.root, x) == once(is_tiled(r, x)) by {
            assert(times_in(t.root, x) == once(is_tiled(t, x)));
        }
        assert forall|x: WindowId| #[trigger] occurrences(r.floats, x) == once(is_float(r, x)) by {
            assert(occurrences(t.floats, x) == once(is_float(t, x)));
        }
    }
    crate::layout::lemma_leaves_nonempty(r.root);
}

/// Keeping one window keeps the arrangement.
pub proof fn only_stays_arranged(t: WindowsModel)
    requires
        focused(t),
    ensures
        focused(only_current(t)),
{
    let r = only_current(t);
    reveal(arranged);
    assert(t.windows.contains_key(t.current.0));
    assert forall|x: WindowId| #[trigger] times_in(r.root, x) == once(is_tiled(r, x)) by {
        assert(leaves_of(r.root) =~= seq![t.current]);
        assert(leaves_of(r.root).drop_last() =~= Seq::<WindowId>::empty());
        assert(occurrences(leaves_of(r.root).drop_last(), x) == 0);
    }
    assert forall|x: WindowId| #[trigger] occurrences(r.floats, x) == once(is_float(r, x)) by {}
}

/// Opening a float keeps the arrangement.
pub proof fn float_stays_arranged(t: WindowsModel, buf: BufferId, cfg: FloatConfig)
    requires
        focused(t),
        t.next_id < u64::MAX,
    ensures
        focused(float_opened(t, buf, cfg)),
{
    let r = float_opened(t, buf, cfg);
    let id = WindowId(t.next_id);
    reveal(arranged);
    assert(!t.windows.contains_key(id.0));
    assert forall|x: WindowId| #[trigger] times_in(r.root, x) == once(is_tiled(r, x)) by {
        assert(times_in(t.root, x) == once(is_tiled(t, x)));
    }
    let pushed = t.floats.push(id);
    assert forall|x: WindowId| #[trigger] occurrences(r.floats, x) == once(is_float(r, x)) by {
        lemma_painted_occurrences(r.windows, pushed, pushed.len() as int, x);
        assert(pushed.take(pushed.len() as int) =~= pushed);
        assert(pushed.drop_last() =~= t.floats);
        assert(occurrences(t.floats, x) == once(is_float(t, x)));
    }
}

/// A split that is closed at once leaves the same windows in the same tree, and the place
/// of the window that was split.
pub proof fn closing_undoes_splitting(t: WindowsModel, dir: SplitDir, p: Place)
    requires
        focused(t),
        is_tiled(t, t.current),
        t.next_id < u64::MAX,
    ensures
        ({
            let s = split_made(t, dir, p);
            &&& closable(s, s.current)
            &&& window_removed(s, s.current).root == t.root
            &&& window_removed(s, s.current).windows == current_stashed(t, p).windows
        }),
{
    reveal(arranged);
    let id = WindowId(t.next_id);
    assert(!t.windows.contains_key(id.0));
    assert(times_in(t.root, t.current) == once(is_tiled(t, t.current)));
    assert(times_in(t.root, id) == once(is_tiled(t, id)));
    lemma_occurrences_contains(leaves_of(t.root), t.current);
    lemma_occurrences_contains(leaves_of(t.root), id);
    split_adds_one(t.root, t.current, dir, id);
    crate::splits::remove_undoes_split(t.root, t.current, dir, id);
    let s = split_made(t, dir, p);
    let c = current_stashed(t, p).windows;
    assert(s.windows.remove(id.0) =~= c);
    remove_takes_one(s.root, id);
    assert(s.windows.dom() =~= c.dom().insert(id.0));
    assert(c.dom() =~= t.windows.dom());
    assert(c.dom().contains(t.current.0));
    assert(c.dom().len() > 0);
}

fn gap(a: usize, b: usize) -> (n: u128)
    ensures
        n == distance(a as int, b as int),
{
    if a >= b {
        (a - b) as u128
    } else {
        (b - a) as u128
    }
}

fn how_far(a: Rect, b: Rect) -> (n: u128)
    ensures
        n == apart(a, b),
{
    let (ax, ay) = a.center();
    let (bx, by) = b.center();
    gap(ax, bx) + gap(ay, by)
}

fn lies_on_side(r: Rect, from: Rect, dir: WinDir) -> (b: bool)
    ensures
        b == on_side(r, from, dir),
{
    match dir {
        WinDir::Left => r.x as u128 + r.width as u128 <= from.x as u128,
        WinDir::Right => r.x as u128 >= from.x as u128 + from.width as u128,
        WinDir::Up => r.y as u128 + r.height as u128 <= from.y as u128,
        WinDir::Down => r.y as u128 >= from.y as u128 + from.height as u128,
    }
}

impl WindowTree {
    /// The windows are arranged.
    pub open spec fn arranged(&self) -> bool {
        self.windows.wf() && arranged(self@)
    }

    /// Split the focused window in two. The result says whether it could be split.
    pub fn split_current(&mut self, dir: SplitDir, p: Place) -> (r: bool)
        requires
            old(self).windows.wf(),
            focused(old(self)@),
        ensures
            final(self).windows.wf(),
            focused(final(self)@),
            final(self)@ == split_made(old(self)@, dir, p),
            r == (split_tree(
                old(self)@.root,
                old(self)@.current,
                dir,
                WindowId(old(self)@.next_id),
            ) is Some && old(self)@.next_id < u64::MAX),
    {
        proof {
            split_stays_arranged(self@, dir, p);
        }
        let cur = self.current;
        if self.next_id == u64::MAX {
            return false;
        }
        let id = WindowId(self.next_id);
        if !split_leaf(&mut self.root, cur, dir, id) {
            return false;
        }
        self.next_id = self.next_id + 1;
        let w = self.get_mut(cur);
        w.saved_cursor = p.cursor;
        w.saved_top = p.top;
        w.saved_leftcol = p.leftcol;
        let buffer = w.buffer;
        let options = w.options;
        self.windows.insert(
            id.0,
            Window {
                buffer,
                saved_cursor: p.cursor,
                saved_top: p.top,
                saved_leftcol: p.leftcol,
                rect: Rect::default(),
                options,
                float: None,
            },
        );
        self.current = id;
        true
    }

    /// Whether a window can be closed.
    pub fn can_close(&self, id: WindowId) -> (r: bool)
        requires
            self.windows.wf(),
        ensures
            r == closable(self@, id),
    {
        let alone = match &self.root {
            Node::Leaf(x) => *x == id,
            Node::Split { .. } => false,
        };
        self.count() > 1 && self.windows.contains(id.0) && !alone
    }

    /// Take a window out.
    pub fn take_out(&mut self, id: WindowId)
        requires
            old(self).windows.wf(),
            arranged(old(self)@),
            closable(old(self)@, id),
        ensures
            final(self).windows.wf(),
            arranged(final(self)@),
            final(self)@ == window_removed(old(self)@, id),
            leaves_of(final(self)@.root).len() > 0,
    {
        proof {
            removal_stays_arranged(self@, id);
        }
        let float = self.get(id).float.is_some();
        if float {
            let mut kept: Vec<WindowId> = Vec::new();
            let mut i: usize = 0;
            assert(without(self.floats@.take(0), id) =~= Seq::<WindowId>::empty()) by {
                reveal(Seq::filter);
            }
            while i < self.floats.len()
                invariant
                    *self == *old(self),
                    i <= self.floats@.len(),
                    kept@ == without(self.floats@.take(i as int), id),
                decreases self.floats@.len() - i,
            {
                proof {
                    reveal(Seq::filter);
                    assert(self.floats@.take(i + 1).drop_last() =~= self.floats@.take(i as int));
                }
                if self.floats[i] != id {
                    kept.push(self.floats[i]);
                }
                i += 1;
            }
            assert(self.floats@.take(i as int) =~= self.floats@);
            self.floats = kept;
        } else {
            proof {
                assert(well_shaped(self@.root)) by {
                    reveal(arranged);
                }
            }
            let _found = remove_leaf(&mut self.root, id);
        }
        let _window = self.windows.remove(id.0);
    }

    /// Keep the focused window alone.
    pub fn keep_current(&mut self)
        requires
            old(self).windows.wf(),
            focused(old(self)@),
        ensures
            final(self).windows.wf(),
            focused(final(self)@),
            final(self)@ == only_current(old(self)@),
    {
        proof {
            only_stays_arranged(self@);
        }
        let keep = self.current;
        let w = self.get(keep);
        let only = Window {
            buffer: w.buffer,
            saved_cursor: w.saved_cursor,
            saved_top: w.saved_top,
            saved_leftcol: w.saved_leftcol,
            rect: w.rect,
            options: w.options,
            float: None,
        };
        let mut windows: IdMap<Window> = IdMap::new();
        windows.insert(keep.0, only);
        self.windows = windows;
        self.root = Node::Leaf(keep);
        self.floats = Vec::new();
    }

    fn find_nearest(&self, from: Rect, side: Option<WinDir>) -> (r: Option<WindowId>)
        requires
            self.windows.wf(),
            arranged(self@),
        ensures
            r == nearest(
                self@,
                leaves_of(self@.root),
                from,
                side,
                leaves_of(self@.root).len() as int,
            ),
            r is Some ==> self@.windows.contains_key((r->0).0),
            side is None && leaves_of(self@.root).len() > 0 ==> r is Some,
    {
        let ids = self.leaves();
        let mut best: Option<WindowId> = None;
        let mut i: usize = 0;
        while i < ids.len()
            invariant
                self.windows.wf(),
                arranged(self@),
                ids@ == leaves_of(self@.root),
                i <= ids@.len(),
                best == nearest(self@, ids@, from, side, i as int),
                best is Some ==> self@.windows.contains_key((best->0).0),
                side is None && i > 0 ==> best is Some,
            decreases ids@.len() - i,
        {
            let id = ids[i];
            proof {
                assert(leaves_of(self@.root).contains(id));
                lemma_leaf_is_open(self@, id);
            }
            let r = self.get(id).rect;
            let out = match side {
                Some(dir) => id == self.current || !lies_on_side(r, from, dir),
                None => false,
            };
            if !out {
                best = match best {
                    Some(b) => {
                        let o = self.get(b).rect;
                        if how_far(from, r) < how_far(from, o) {
                            Some(id)
                        } else {
                            Some(b)
                        }
                    },
                    None => Some(id),
                };
            }
            i += 1;
        }
        best
    }

    /// The tiled window that is nearest to an area.
    pub fn nearest_window(&self, from: Rect) -> (r: Option<WindowId>)
        requires
            self.windows.wf(),
            arranged(self@),
        ensures
            r == nearest_to(self@, from),
            r is Some ==> self@.windows.contains_key((r->0).0),
            leaves_of(self@.root).len() > 0 ==> r is Some,
    {
        self.find_nearest(from, None)
    }

    /// The tiled window that is nearest to the focused one on a side of it.
    pub fn neighbour(&self, dir: WinDir) -> (r: Option<WindowId>)
        requires
            self.windows.wf(),
            focused(self@),
        ensures
            r == neighbour(self@, dir),
            r is Some ==> self@.windows.contains_key((r->0).0),
    {
        let from = self.cur().rect;
        self.find_nearest(from, Some(dir))
    }

    /// The tiled window after the focused one, or before it, going round.
    pub fn next_window(&self, forward: bool) -> (r: Option<WindowId>)
        requires
            self.windows.wf(),
            arranged(self@),
        ensures
            r == next_window(self@, forward),
            r is Some ==> self@.windows.contains_key((r->0).0),
    {
        let ids = self.leaves();
        let n: usize = ids.len();
        if n <= 1 {
            return None;
        }
        let mut i: usize = 0;
        while i < n && ids[i] != self.current
            invariant
                n == ids@.len(),
                i <= n,
                place_in(ids@, self.current, 0) == place_in(ids@, self.current, i as int),
            decreases n - i,
        {
            i += 1;
        }
        let at: usize = if i >= n {
            0
        } else {
            i
        };
        let to: usize = if forward {
            if at + 1 >= n {
                0
            } else {
                at + 1
            }
        } else if at == 0 {
            n - 1
        } else {
            at - 1
        };
        proof {
            assert(leaves_of(self@.root).contains(ids@[to as int]));
            lemma_leaf_is_open(self@, ids@[to as int]);
        }
        Some(ids[to])
    }

    /// Make a window larger along an axis, or smaller.
    pub fn resize_window(&mut self, id: WindowId, axis: SplitDir, delta: isize)
        requires
            old(self).windows.wf(),
            focused(old(self)@),
        ensures
            final(self).windows.wf(),
            focused(final(self)@),
            final(self)@ == window_resized(old(self)@, id, axis, delta as int),
    {
        proof {
            assert(well_shaped(self@.root)) by {
                reveal(arranged);
            }
            resize_keeps_leaves(self@.root, id, axis, delta as int, false);
            lemma_same_leaves(self@, window_resized(self@, id, axis, delta as int).root);
        }
        let mut done = false;
        let _found = resize_toward(&mut self.root, id, axis, delta, &mut done);
    }

    /// Make the focused window as large as possible along an axis.
    pub fn maximize_window(&mut self, axis: SplitDir)
        requires
            old(self).windows.wf(),
            focused(old(self)@),
        ensures
            final(self).windows.wf(),
            focused(final(self)@),
            final(self)@ == window_maximized(old(self)@, axis),
    {
        proof {
            assert(well_shaped(self@.root)) by {
                reveal(arranged);
            }
            maximize_keeps_leaves(self@.root, self@.current, axis);
            lemma_same_leaves(self@, window_maximized(self@, axis).root);
        }
        let cur = self.current;
        let _found = maximize_toward(&mut self.root, cur, axis);
    }

    /// Make all windows equal.
    pub fn equalize_windows(&mut self)
        requires
            old(self).windows.wf(),
            focused(old(self)@),
        ensures
            final(self).windows.wf(),
            focused(final(self)@),
            final(self)@ == windows_equalized(old(self)@),
    {
        proof {
            assert(well_shaped(self@.root)) by {
                reveal(arranged);
            }
            equalize_keeps_leaves(self@.root);
            lemma_same_leaves(self@, equalized(self@.root));
        }
        equalize_node(&mut self.root);
    }

    /// Open a float on a buffer.
    pub fn open_float(&mut self, buf: BufferId, cfg: FloatConfig) -> (id: WindowId)
        requires
            old(self).windows.wf(),
            focused(old(self)@),
            old(self)@.next_id < u64::MAX,
        ensures
            final(self).windows.wf(),
            focused(final(self)@),
            id == WindowId(old(self)@.next_id),
            final(self)@ == float_opened(old(self)@, buf, cfg),
    {
        proof {
            float_stays_arranged(self@, buf, cfg);
        }
        let options = self.cur().options;
        let id = self.alloc_id();
        self.windows.insert(
            id.0,
            Window {
                buffer: buf,
                saved_cursor: Cursor::default(),
                saved_top: 0,
                saved_leftcol: 0,
                rect: Rect::default(),
                options,
                float: Some(cfg),
            },
        );
        self.floats.push(id);
        self.sort_floats();
        id
    }

    /// All windows: the tiled ones, then the floats.
    pub fn window_ids(&self) -> (r: Vec<WindowId>)
        ensures
            r@ == all_windows(self@),
    {
        let mut r = self.leaves();
        let mut i: usize = 0;
        assert(r@ =~= leaves_of(self@.root) + self@.floats.take(0));
        while i < self.floats.len()
            invariant
                i <= self.floats@.len(),
                r@ == leaves_of(self@.root) + self@.floats.take(i as int),
            decreases self.floats@.len() - i,
        {
            r.push(self.floats[i]);
            assert(r@ =~= leaves_of(self@.root) + self@.floats.take(i + 1));
            i += 1;
        }
        assert(self@.floats.take(i as int) =~= self@.floats);
        r
    }
}

/// Every window is listed, and nothing else is.
pub proof fn all_windows_are_listed(t: WindowsModel, x: WindowId)
    requires
        arranged(t),
    ensures
        all_windows(t).contains(x) <==> t.windows.contains_key(x.0),
{
    reveal(arranged);
    lemma_occurrences_contains(all_windows(t), x);
    crate::splits::lemma_occurrences_add(leaves_of(t.root), t.floats, x);
    assert(times_in(t.root, x) == once(is_tiled(t, x)));
    assert(occurrences(t.floats, x) == once(is_float(t, x)));
}

} // verus!
