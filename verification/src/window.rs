//! The open windows: tiled ones in a split tree, and floats on top of it.

use vstd::prelude::*;

use crate::idmap::IdMap;
use crate::layout::{
    areas, borders, clip, laid, layout_node, leaves_of, well_shaped, within, Node, Rect, Separator,
    Tree, WindowId,
};
use crate::options::{default_window_options, WindowOptions};

verus! {

/// A buffer's id. No id is given out twice.
#[derive(Debug, Clone, Copy, PartialEq, Eq, Structural, Hash)]
pub struct BufferId(pub u64);

/// A position in a buffer: a line, and a byte offset in it.
#[derive(Debug, Clone, Copy, PartialEq, Eq, Structural)]
pub struct Cursor {
    pub line: usize,
    pub col: usize,
}

impl Default for Cursor {
    fn default() -> (r: Self)
        ensures
            r == (Cursor { line: 0, col: 0 }),
    {
        Cursor { line: 0, col: 0 }
    }
}

/// What a float is placed against.
#[derive(Debug, Clone, Copy, PartialEq, Eq, Structural)]
pub enum FloatRelative {
    Editor,
    Win(WindowId),
    Cursor,
}

/// Which corner of a float is pinned.
#[derive(Debug, Clone, Copy, PartialEq, Eq, Structural)]
pub enum FloatAnchor {
    NW,
    NE,
    SW,
    SE,
}

/// A float's border.
#[derive(Debug, Clone, Copy, PartialEq, Eq, Structural)]
pub enum BorderStyle {
    Borderless,
    Single,
    Rounded,
    Double,
    Solid,
}

/// A float's placement. `width` and `height` are those of the outer box; `row` and
/// `col` offset the anchored corner from the origin.
#[derive(Debug, Clone)]
pub struct FloatConfig {
    pub relative: FloatRelative,
    pub anchor: FloatAnchor,
    pub row: isize,
    pub col: isize,
    pub width: usize,
    pub height: usize,
    /// Higher floats are painted over lower ones.
    pub zindex: u32,
    /// Whether focus commands can land on this float.
    pub focusable: bool,
    pub border: BorderStyle,
    pub title: Option<String>,
}

impl Default for FloatConfig {
    fn default() -> (r: Self)
        ensures
            r == (FloatConfig {
                relative: FloatRelative::Editor,
                anchor: FloatAnchor::NW,
                row: 0,
                col: 0,
                width: 1,
                height: 1,
                zindex: 50,
                focusable: true,
                border: BorderStyle::Borderless,
                title: None,
            }),
    {
        FloatConfig {
            relative: FloatRelative::Editor,
            anchor: FloatAnchor::NW,
            row: 0,
            col: 0,
            width: 1,
            height: 1,
            zindex: 50,
            focusable: true,
            border: BorderStyle::Borderless,
            title: None,
        }
    }
}

/// A window: a view of a buffer. While it has the focus its position is the
/// editor's; the saved one is what it had when it lost it.
pub struct Window {
    pub buffer: BufferId,
    pub saved_cursor: Cursor,
    pub saved_top: usize,
    pub saved_leftcol: usize,
    pub rect: Rect,
    pub options: WindowOptions,
    /// The placement of a float; nothing for a tiled window.
    pub float: Option<FloatConfig>,
}

/// The cell in the middle of an area.
pub open spec fn middle(r: Rect) -> (int, int) {
    (r.x + r.width as int / 2, r.y + r.height as int / 2)
}

impl Rect {
    /// The cell in the middle, held at the largest number there is.
    pub fn center(&self) -> (c: (usize, usize))
        ensures
            c == (clip(middle(*self).0), clip(middle(*self).1)),
    {
        (self.x.saturating_add(self.width / 2), self.y.saturating_add(self.height / 2))
    }
}

impl Default for Rect {
    fn default() -> (r: Self)
        ensures
            r == (Rect { x: 0, y: 0, width: 0, height: 0 }),
    {
        Rect { x: 0, y: 0, width: 0, height: 0 }
    }
}

/// A new view of a buffer, at its start.
pub open spec fn new_window(buffer: BufferId) -> Window {
    Window {
        buffer,
        saved_cursor: Cursor { line: 0, col: 0 },
        saved_top: 0,
        saved_leftcol: 0,
        rect: Rect { x: 0, y: 0, width: 0, height: 0 },
        options: default_window_options(),
        float: None,
    }
}

/// A coordinate held between two others, the lower of which wins.
pub open spec fn held(v: int, lo: int, hi: int) -> int {
    if hi < lo || v < lo {
        lo
    } else if v > hi {
        hi
    } else {
        v
    }
}

pub open spec fn at_least_one(n: usize) -> usize {
    if n < 1 {
        1
    } else {
        n
    }
}

/// Where a side of length `len` goes along one axis: at `offset` from `origin`,
/// before it where `before` says so, and held inside the bounds.
pub open spec fn placed_at(
    origin: usize,
    offset: isize,
    before: bool,
    len: usize,
    bound: usize,
    bound_len: usize,
) -> usize {
    let v = origin + offset - if before {
        len as int
    } else {
        0
    };
    held(v, bound as int, clip(bound + bound_len) - len) as usize
}

/// A float's outer box: the anchored corner at the offset from the origin, moved
/// to stay inside the bounds. A float that is larger than the bounds starts at
/// their top left.
pub open spec fn float_box(origin: Rect, bounds: Rect, cfg: FloatConfig) -> Rect {
    let w = at_least_one(cfg.width);
    let h = at_least_one(cfg.height);
    let east = cfg.anchor == FloatAnchor::NE || cfg.anchor == FloatAnchor::SE;
    let south = cfg.anchor == FloatAnchor::SW || cfg.anchor == FloatAnchor::SE;
    Rect {
        x: placed_at(origin.x, cfg.col, east, w, bounds.x, bounds.width),
        y: placed_at(origin.y, cfg.row, south, h, bounds.y, bounds.height),
        width: w,
        height: h,
    }
}

fn place_side(
    origin: usize,
    offset: isize,
    before: bool,
    len: usize,
    bound: usize,
    bound_len: usize,
) -> (r: usize)
    ensures
        r == placed_at(origin, offset, before, len, bound, bound_len),
{
    let mut v: i128 = origin as i128 + offset as i128;
    if before {
        v = v - len as i128;
    }
    let lo: i128 = bound as i128;
    let hi: i128 = bound.saturating_add(bound_len) as i128 - len as i128;
    if hi < lo || v < lo {
        bound
    } else if v > hi {
        hi as usize
    } else {
        v as usize
    }
}

/// Resolve a float's outer box from the area it is placed against and the bounds.
pub fn place_float(origin: Rect, bounds: Rect, cfg: &FloatConfig) -> (r: Rect)
    ensures
        r == float_box(origin, bounds, *cfg),
{
    let w: usize = if cfg.width < 1 {
        1
    } else {
        cfg.width
    };
    let h: usize = if cfg.height < 1 {
        1
    } else {
        cfg.height
    };
    let east = matches!(cfg.anchor, FloatAnchor::NE | FloatAnchor::SE);
    let south = matches!(cfg.anchor, FloatAnchor::SW | FloatAnchor::SE);
    Rect {
        x: place_side(origin.x, cfg.col, east, w, bounds.x, bounds.width),
        y: place_side(origin.y, cfg.row, south, h, bounds.y, bounds.height),
        width: w,
        height: h,
    }
}

/// A float that is no larger than the bounds is placed inside them.
pub proof fn float_stays_inside(origin: Rect, bounds: Rect, cfg: FloatConfig)
    requires
        at_least_one(cfg.width) <= bounds.width,
        at_least_one(cfg.height) <= bounds.height,
        bounds.x + bounds.width <= usize::MAX,
        bounds.y + bounds.height <= usize::MAX,
    ensures
        within(float_box(origin, bounds, cfg), bounds),
{
}

/// The open windows, the tree that arranges the tiled ones, and the floats in the
/// order they are painted in.
pub struct WindowTree {
    pub windows: IdMap<Window>,
    pub root: Node,
    pub current: WindowId,
    pub next_id: u64,
    /// The borders that the last layout found.
    pub separators: Vec<Separator>,
    /// The floats, by stacking order and then by id.
    pub floats: Vec<WindowId>,
}

/// What a [`WindowTree`] holds.
pub ghost struct WindowsModel {
    pub windows: Map<u64, Window>,
    pub root: Tree,
    pub current: WindowId,
    pub next_id: u64,
    pub separators: Seq<Separator>,
    pub floats: Seq<WindowId>,
}

impl View for WindowTree {
    type V = WindowsModel;

    open spec fn view(&self) -> WindowsModel {
        WindowsModel {
            windows: self.windows@,
            root: self.root.tree(),
            current: self.current,
            next_id: self.next_id,
            separators: self.separators@,
            floats: self.floats@,
        }
    }
}

/// The windows with the areas of `s` set, later ones over earlier ones.
pub open spec fn with_areas(m: Map<u64, Window>, s: Seq<(WindowId, Rect)>) -> Map<u64, Window>
    decreases s.len(),
{
    if s.len() == 0 {
        m
    } else {
        let r = with_areas(m, s.drop_last());
        let (id, rect) = s.last();
        if r.contains_key(id.0) {
            r.insert(id.0, Window { rect, ..r[id.0] })
        } else {
            r
        }
    }
}

/// Setting areas opens and closes no window and changes nothing else of one.
pub proof fn areas_change_only_rects(m: Map<u64, Window>, s: Seq<(WindowId, Rect)>)
    ensures
        with_areas(m, s).dom() == m.dom(),
        forall|k: u64|
            m.contains_key(k) ==> #[trigger] with_areas(m, s)[k] == (Window {
                rect: with_areas(m, s)[k].rect,
                ..m[k]
            }),
    decreases s.len(),
{
    if s.len() > 0 {
        areas_change_only_rects(m, s.drop_last());
        assert(with_areas(m, s).dom() =~= m.dom());
    }
}

/// The area that a float is placed against.
pub open spec fn float_origin(
    m: Map<u64, Window>,
    relative: FloatRelative,
    total: Rect,
    cursor_cell: (usize, usize),
) -> Rect {
    match relative {
        FloatRelative::Editor => total,
        FloatRelative::Win(wid) => if m.contains_key(wid.0) {
            m[wid.0].rect
        } else {
            total
        },
        FloatRelative::Cursor => Rect {
            x: cursor_cell.0,
            y: cursor_cell.1,
            width: 0,
            height: 0,
        },
    }
}

/// The cell of the cursor, from its offset in the focused window.
pub open spec fn cursor_cell(
    m: Map<u64, Window>,
    current: WindowId,
    off: (usize, usize),
) -> (usize, usize) {
    if m.contains_key(current.0) {
        (clip(m[current.0].rect.x + off.0), clip(m[current.0].rect.y + off.1))
    } else {
        off
    }
}

/// The areas of the floats, in their order; a listed window that is no float has
/// none.
pub open spec fn float_areas(
    m: Map<u64, Window>,
    floats: Seq<WindowId>,
    total: Rect,
    cell: (usize, usize),
) -> Seq<(WindowId, Rect)>
    decreases floats.len(),
{
    if floats.len() == 0 {
        Seq::empty()
    } else {
        let r = float_areas(m, floats.drop_last(), total, cell);
        let id = floats.last();
        if m.contains_key(id.0) && m[id.0].float is Some {
            let cfg = m[id.0].float->0;
            r.push((id, float_box(float_origin(m, cfg.relative, total, cell), total, cfg)))
        } else {
            r
        }
    }
}

/// The windows once the floats have been placed.
pub open spec fn floats_placed(t: WindowsModel, total: Rect, off: (usize, usize)) -> WindowsModel {
    WindowsModel {
        windows: with_areas(
            t.windows,
            float_areas(t.windows, t.floats, total, cursor_cell(t.windows, t.current, off)),
        ),
        ..t
    }
}

/// The windows once laid out in `total`: the tiled ones by the tree, then the
/// floats.
pub open spec fn windows_laid(t: WindowsModel, total: Rect, off: (usize, usize)) -> WindowsModel {
    floats_placed(
        WindowsModel {
            windows: with_areas(t.windows, areas(t.root, total)),
            root: laid(t.root, total),
            separators: borders(t.root, total),
            ..t
        },
        total,
        off,
    )
}

/// The stacking order of a window, zero for one that is no float.
pub open spec fn zindex_of(m: Map<u64, Window>, id: WindowId) -> u32 {
    if m.contains_key(id.0) && m[id.0].float is Some {
        m[id.0].float->0.zindex
    } else {
        0
    }
}

/// `a` is painted no later than `b`.
pub open spec fn painted_before(m: Map<u64, Window>, a: WindowId, b: WindowId) -> bool {
    zindex_of(m, a) < zindex_of(m, b) || (zindex_of(m, a) == zindex_of(m, b) && a.0 <= b.0)
}

/// The place of a float among the first `n` of floats in order: after the last one that is
/// painted no later.
pub open spec fn paint_place(m: Map<u64, Window>, s: Seq<WindowId>, id: WindowId, n: int) -> int
    decreases n,
{
    if n <= 0 || painted_before(m, s[n - 1], id) {
        n
    } else {
        paint_place(m, s, id, n - 1)
    }
}

/// The first `n` floats in the order they are painted in.
pub open spec fn painted(m: Map<u64, Window>, s: Seq<WindowId>, n: int) -> Seq<WindowId>
    decreases n,
{
    if n <= 0 {
        Seq::empty()
    } else {
        let r = painted(m, s, n - 1);
        r.insert(paint_place(m, r, s[n - 1], r.len() as int), s[n - 1])
    }
}

/// The floats are in the order they are painted in.
pub open spec fn in_paint_order(m: Map<u64, Window>, floats: Seq<WindowId>) -> bool {
    forall|i: int, j: int|
        0 <= i < j < floats.len() ==> painted_before(m, #[trigger] floats[i], #[trigger] floats[j])
}

impl WindowTree {
    /// One window on `buffer`, with the focus.
    pub fn with_one(buffer: BufferId) -> (t: Self)
        ensures
            t.windows.wf(),
            t@ == (WindowsModel {
                windows: Map::empty().insert(1, new_window(buffer)),
                root: Tree::Leaf(WindowId(1)),
                current: WindowId(1),
                next_id: 2,
                separators: Seq::empty(),
                floats: Seq::empty(),
            }),
    {
        let mut windows: IdMap<Window> = IdMap::new();
        windows.insert(
            1,
            Window {
                buffer,
                saved_cursor: Cursor::default(),
                saved_top: 0,
                saved_leftcol: 0,
                rect: Rect::default(),
                options: WindowOptions::default(),
                float: None,
            },
        );
        WindowTree {
            windows,
            root: Node::Leaf(WindowId(1)),
            current: WindowId(1),
            next_id: 2,
            separators: Vec::new(),
            floats: Vec::new(),
        }
    }

    pub fn get(&self, id: WindowId) -> (w: &Window)
        requires
            self.windows.wf(),
            self@.windows.contains_key(id.0),
        ensures
            *w == self@.windows[id.0],
    {
        self.windows.at(id.0)
    }

    pub fn get_mut(&mut self, id: WindowId) -> (w: &mut Window)
        requires
            old(self).windows.wf(),
            old(self)@.windows.contains_key(id.0),
        ensures
            *w == old(self)@.windows[id.0],
            final(self).windows.wf(),
            final(self)@ == (WindowsModel {
                windows: old(self)@.windows.insert(id.0, *final(w)),
                ..old(self)@
            }),
    {
        self.windows.at_mut(id.0)
    }

    /// The focused window.
    pub fn cur(&self) -> (w: &Window)
        requires
            self.windows.wf(),
            self@.windows.contains_key(self@.current.0),
        ensures
            *w == self@.windows[self@.current.0],
    {
        self.get(self.current)
    }

    /// The focused window, to be changed.
    pub fn cur_mut(&mut self) -> (w: &mut Window)
        requires
            old(self).windows.wf(),
            old(self)@.windows.contains_key(old(self)@.current.0),
        ensures
            *w == old(self)@.windows[old(self)@.current.0],
            final(self).windows.wf(),
            final(self)@ == (WindowsModel {
                windows: old(self)@.windows.insert(old(self)@.current.0, *final(w)),
                ..old(self)@
            }),
    {
        let id = self.current;
        self.get_mut(id)
    }

    /// The tiled windows in layout order.
    pub fn leaves(&self) -> (r: Vec<WindowId>)
        ensures
            r@ == leaves_of(self@.root),
    {
        let mut out: Vec<WindowId> = Vec::new();
        self.root.collect_leaves(&mut out);
        assert(out@ =~= leaves_of(self@.root));
        out
    }

    /// How many windows are open.
    pub fn count(&self) -> (n: usize)
        requires
            self.windows.wf(),
        ensures
            n == self@.windows.dom().len(),
    {
        proof {
            self.windows.ids_are_keys();
        }
        self.windows.len()
    }

    /// An id that no window has had.
    pub fn alloc_id(&mut self) -> (id: WindowId)
        requires
            old(self).next_id < u64::MAX,
        ensures
            id == WindowId(old(self).next_id),
            *final(self) == (WindowTree {
                next_id: (old(self).next_id + 1) as u64,
                ..*old(self)
            }),
    {
        let id = WindowId(self.next_id);
        self.next_id += 1;
        id
    }

    fn zindex(&self, id: WindowId) -> (z: u32)
        requires
            self.windows.wf(),
        ensures
            z == zindex_of(self@.windows, id),
    {
        match self.windows.get(id.0) {
            Some(w) => match &w.float {
                Some(f) => f.zindex,
                None => 0,
            },
            None => 0,
        }
    }

    fn before(&self, a: WindowId, b: WindowId) -> (r: bool)
        requires
            self.windows.wf(),
        ensures
            r == painted_before(self@.windows, a, b),
    {
        let (za, zb) = (self.zindex(a), self.zindex(b));
        za < zb || (za == zb && a.0 <= b.0)
    }

    /// Put the floats in the order they are painted in: by stacking order, and by id
    /// where that is the same.
    pub fn sort_floats(&mut self)
        requires
            old(self).windows.wf(),
        ensures
            final(self).windows.wf(),
            final(self)@ == (WindowsModel {
                floats: painted(
                    old(self)@.windows,
                    old(self)@.floats,
                    old(self)@.floats.len() as int,
                ),
                ..old(self)@
            }),
    {
        let ghost m = self@.windows;
        let mut sorted: Vec<WindowId> = Vec::new();
        let mut i: usize = 0;
        while i < self.floats.len()
            invariant
                i <= self.floats@.len(),
                self.windows.wf(),
                m == self@.windows,
                *self == *old(self),
                sorted@ == painted(m, self.floats@, i as int),
            decreases self.floats@.len() - i,
        {
            let id = self.floats[i];
            let mut at: usize = sorted.len();
            while at > 0 && !self.before(sorted[at - 1], id)
                invariant
                    at <= sorted@.len(),
                    self.windows.wf(),
                    m == self@.windows,
                    paint_place(m, sorted@, id, sorted@.len() as int) == paint_place(
                        m,
                        sorted@,
                        id,
                        at as int,
                    ),
                decreases at,
            {
                at -= 1;
            }
            sorted.insert(at, id);
            i += 1;
        }
        self.floats = sorted;
    }

    fn set_areas(&mut self, rects: &Vec<(WindowId, Rect)>)
        requires
            old(self).windows.wf(),
        ensures
            final(self).windows.wf(),
            final(self)@ == (WindowsModel {
                windows: with_areas(old(self)@.windows, rects@),
                ..old(self)@
            }),
    {
        let mut i: usize = 0;
        assert(rects@.take(0) =~= Seq::<(WindowId, Rect)>::empty());
        while i < rects.len()
            invariant
                i <= rects@.len(),
                self.windows.wf(),
                self@ == (WindowsModel {
                    windows: with_areas(old(self)@.windows, rects@.take(i as int)),
                    ..old(self)@
                }),
            decreases rects@.len() - i,
        {
            let (id, rect) = rects[i];
            assert(rects@.take(i + 1).drop_last() =~= rects@.take(i as int));
            if self.windows.contains(id.0) {
                let w = self.windows.at_mut(id.0);
                w.rect = rect;
            }
            i += 1;
        }
        assert(rects@.take(i as int) =~= rects@);
    }

    /// Lay the windows out in `total`. The cursor is at `cursor_off` from the top left
    /// of the focused window.
    pub fn layout(&mut self, total: Rect, cursor_off: (usize, usize))
        requires
            old(self).windows.wf(),
            well_shaped(old(self)@.root),
        ensures
            final(self).windows.wf(),
            final(self)@ == windows_laid(old(self)@, total, cursor_off),
    {
        let mut rects: Vec<(WindowId, Rect)> = Vec::new();
        let mut seps: Vec<Separator> = Vec::new();
        layout_node(&mut self.root, total, &mut rects, &mut seps);
        assert(rects@ =~= areas(old(self)@.root, total));
        assert(seps@ =~= borders(old(self)@.root, total));
        self.set_areas(&rects);
        self.separators = seps;
        self.position_floats(total, cursor_off);
    }

    /// Place the floats on top of the tiled windows.
    pub fn position_floats(&mut self, total: Rect, cursor_off: (usize, usize))
        requires
            old(self).windows.wf(),
        ensures
            final(self).windows.wf(),
            final(self)@ == floats_placed(old(self)@, total, cursor_off),
    {
        let cell: (usize, usize) = match self.windows.get(self.current.0) {
            Some(w) => (
                w.rect.x.saturating_add(cursor_off.0),
                w.rect.y.saturating_add(cursor_off.1),
            ),
            None => cursor_off,
        };
        assert(cell == cursor_cell(self@.windows, self@.current, cursor_off));
        let mut placed: Vec<(WindowId, Rect)> = Vec::new();
        let mut i: usize = 0;
        assert(self.floats@.take(0) =~= Seq::<WindowId>::empty());
        while i < self.floats.len()
            invariant
                i <= self.floats@.len(),
                self.windows.wf(),
                *self == *old(self),
                placed@ == float_areas(self@.windows, self.floats@.take(i as int), total, cell),
            decreases self.floats@.len() - i,
        {
            let id = self.floats[i];
            assert(self.floats@.take(i + 1).drop_last() =~= self.floats@.take(i as int));
            if let Some(w) = self.windows.get(id.0) {
                if let Some(cfg) = &w.float {
                    let origin = match cfg.relative {
                        FloatRelative::Editor => total,
                        FloatRelative::Win(wid) => match self.windows.get(wid.0) {
                            Some(o) => o.rect,
                            None => total,
                        },
                        FloatRelative::Cursor => Rect {
                            x: cell.0,
                            y: cell.1,
                            width: 0,
                            height: 0,
                        },
                    };
                    placed.push((id, place_float(origin, total, cfg)));
                }
            }
            i += 1;
        }
        assert(self.floats@.take(i as int) =~= self.floats@);
        self.set_areas(&placed);
    }
}

proof fn lemma_paint_place(m: Map<u64, Window>, s: Seq<WindowId>, id: WindowId, n: int)
    requires
        0 <= n <= s.len(),
    ensures
        0 <= paint_place(m, s, id, n) <= n,
        paint_place(m, s, id, n) > 0 ==> painted_before(m, s[paint_place(m, s, id, n) - 1], id),
        forall|k: int| paint_place(m, s, id, n) <= k < n ==> !painted_before(
            m,
            #[trigger] s[k],
            id,
        ),
    decreases n,
{
    if n > 0 && !painted_before(m, s[n - 1], id) {
        lemma_paint_place(m, s, id, n - 1);
    }
}

/// Sorted floats are in the order they are painted in, and they are the same floats.
pub proof fn painted_is_in_order(m: Map<u64, Window>, s: Seq<WindowId>, n: int)
    requires
        0 <= n <= s.len(),
    ensures
        in_paint_order(m, painted(m, s, n)),
        painted(m, s, n).to_multiset() == s.take(n).to_multiset(),
    decreases n,
{
    if n == 0 {
        assert(s.take(0) =~= Seq::<WindowId>::empty());
    } else {
        painted_is_in_order(m, s, n - 1);
        let before = painted(m, s, n - 1);
        let id = s[n - 1];
        lemma_paint_place(m, before, id, before.len() as int);
        let at = paint_place(m, before, id, before.len() as int);
        let sorted = before.insert(at, id);
        assert forall|a: int, b: int| 0 <= a < b < sorted.len() implies painted_before(
            m,
            #[trigger] sorted[a],
            #[trigger] sorted[b],
        ) by {
            let a0 = if a < at { a } else { a - 1 };
            let b0 = if b < at { b } else { b - 1 };
            if a != at && b != at {
                assert(painted_before(m, before[a0], before[b0]));
            } else if b == at {
                assert(sorted[a] == before[a]);
                if a < at - 1 {
                    assert(painted_before(m, before[a], before[at - 1]));
                }
            } else {
                assert(sorted[b] == before[b0]);
                assert(!painted_before(m, before[b0], id));
            }
        }
        vstd::seq_lib::to_multiset_insert(before, at, id);
        assert(s.take(n) =~= s.take(n - 1).push(id));
        vstd::seq_lib::to_multiset_build(s.take(n - 1), id);
    }
}

} // verus!
