//! The windows of the editor.

use vstd::prelude::*;

use crate::command::clean_command;
use crate::command::PendingCommand;
use crate::editor::{consistent, focus_on, panel_rows, relaid, seen, total_area, Editor, World};
use crate::layout::{Rect, SplitDir, WinDir, WindowId};
use crate::mode::Mode;
use crate::open::Live;
use crate::options::WindowOptions;
use crate::splits::split_tree;
use crate::window::{windows_laid, Window, WindowsModel};
use crate::wins::{
    arranged, closable, current_stashed, focused, layout_keeps_windows, nearest_to, neighbour,
    next_window, only_current, split_made, window_maximized, window_removed, window_resized,
    windows_equalized, Place,
};

verus! {

/// What the focused window shows of its buffer.
pub open spec fn place_of(live: Live) -> Place {
    Place { cursor: live.cursor, top: live.top, leftcol: live.leftcol }
}

/// The state of a window that just got the focus: normal mode with nothing pending, at a
/// place.
pub open spec fn arrived_live(live: Live, p: Place) -> Live {
    Live {
        cursor: p.cursor,
        top: p.top,
        leftcol: p.leftcol,
        mode: Mode::Normal,
        pending: clean_command(),
        scroll_from: None,
        ..live
    }
}

/// The focus just moved: the cursor is at a place as far as the text reaches, and shows.
#[verifier::opaque]
pub open spec fn arrived(w: World, p: Place) -> World {
    let a = World { live: arrived_live(w.live, p), pending_scroll: None, ..w }.hushed();
    seen(a.with_pane(a.pane().held()))
}

/// The place that a window had when it lost the focus.
pub open spec fn saved_place(w: Window) -> Place {
    Place { cursor: w.saved_cursor, top: w.saved_top, leftcol: w.saved_leftcol }
}

/// A window with the focus, at the place that it had.
pub open spec fn entered_window(w: World, id: WindowId) -> World {
    arrived(focus_on(w, id), saved_place(w.windows.windows[id.0]))
}

/// The place of the focused window saved.
pub open spec fn view_stashed(w: World) -> World {
    World { windows: current_stashed(w.windows, place_of(w.live)), ..w }
}

/// Another window focused; the one that was keeps its place.
pub open spec fn window_focused(w: World, id: WindowId) -> World {
    if id == w.windows.current || !w.windows.windows.contains_key(id.0) {
        w
    } else {
        entered_window(view_stashed(w), id)
    }
}

/// Windows rearranged: laid out anew, with the cursor in view.
pub open spec fn rearranged(w: World, t: WindowsModel) -> World {
    seen(relaid(World { windows: t, ..w }))
}

/// Whether the focused window can be split.
pub open spec fn splittable(w: World, dir: SplitDir) -> bool {
    split_tree(w.windows.root, w.windows.current, dir, WindowId(w.windows.next_id)) is Some
        && w.windows.next_id < u64::MAX
}

/// The focused window split.
pub open spec fn window_split(w: World, dir: SplitDir) -> World {
    if splittable(w, dir) {
        rearranged(w, split_made(w.windows, dir, place_of(w.live)))
    } else {
        w
    }
}

/// The focused window closed, with the focus on the tiled window nearest to where it was.
pub open spec fn focus_handed_over(w: World, id: WindowId) -> World {
    let t = window_removed(w.windows, id);
    let next = nearest_to(t, w.windows.windows[id.0].rect)->0;
    let laid = World { windows: windows_laid(t, total_area(w), (0, 0)), ..w };
    let r = entered_window(laid, next);
    if t.floats.len() > 0 {
        relaid(r)
    } else {
        r
    }
}

/// A window closed, where it can be.
pub open spec fn window_closed(w: World, id: WindowId) -> World {
    if !closable(w.windows, id) {
        w
    } else if id == w.windows.current {
        focus_handed_over(w, id)
    } else {
        rearranged(w, window_removed(w.windows, id))
    }
}

/// The focused window closed; the last one cannot be.
pub open spec fn current_closed(w: World) -> World {
    if closable(w.windows, w.windows.current) {
        window_closed(w, w.windows.current)
    } else {
        w.said("E444: Cannot close last window"@)
    }
}

/// The focused window alone.
pub open spec fn window_only(w: World) -> World {
    if w.windows.windows.dom().len() <= 1 {
        w
    } else {
        rearranged(w, only_current(w.windows))
    }
}

/// A window made larger along an axis, or smaller.
pub open spec fn resized_by(w: World, id: WindowId, axis: SplitDir, delta: int) -> World {
    if delta == 0 || w.windows.windows.dom().len() <= 1 || !w.windows.windows.contains_key(id.0) {
        w
    } else {
        rearranged(w, window_resized(w.windows, id, axis, delta))
    }
}

/// The focused window made as large as possible along an axis.
pub open spec fn maximized_along(w: World, axis: SplitDir) -> World {
    if w.windows.windows.dom().len() <= 1 {
        w
    } else {
        rearranged(w, window_maximized(w.windows, axis))
    }
}

/// The focus on the window of an answer, where there is one.
pub open spec fn focus_moved(w: World, to: Option<WindowId>) -> World {
    match to {
        Some(id) => window_focused(w, id),
        None => w,
    }
}

/// A window with other options.
pub open spec fn with_window_options(w: World, id: WindowId, o: WindowOptions) -> World {
    World {
        windows: WindowsModel {
            windows: w.windows.windows.insert(
                id.0,
                Window { options: o, ..w.windows.windows[id.0] },
            ),
            ..w.windows
        },
        ..w
    }
}

/// The options of a window with the one of a name on or off; another name changes nothing.
pub open spec fn window_option_set(o: WindowOptions, name: Seq<char>, v: bool) -> WindowOptions {
    if name == "number"@ {
        WindowOptions { number: v, ..o }
    } else if name == "relativenumber"@ {
        WindowOptions { relativenumber: v, ..o }
    } else if name == "wrap"@ {
        WindowOptions { wrap: v, ..o }
    } else {
        o
    }
}

/// Changing windows without opening or closing one, and without changing what they show,
/// keeps a world consistent.
proof fn lemma_same_views(a: World, b: World)
    requires
        consistent(a),
        b == (World { windows: b.windows, ..a }),
        b.windows == (WindowsModel { windows: b.windows.windows, ..a.windows }),
        b.windows.windows.dom() == a.windows.windows.dom(),
        forall|k: u64| #[trigger]
            a.windows.windows.contains_key(k) ==> b.windows.windows[k].buffer
                == a.windows.windows[k].buffer && (b.windows.windows[k].float is Some
                == a.windows.windows[k].float is Some),
    ensures
        consistent(b),
        b.cur() == a.cur(),
{
    reveal(consistent);
    crate::wins::lemma_same_windows(a.windows, b.windows.windows);
    assert(a.windows.windows.contains_key(a.windows.current.0));
    assert forall|k: u64| #[trigger]
        b.windows.windows.contains_key(k) implies b.buffers.contains_key(
        b.windows.windows[k].buffer.0,
    ) by {
        assert(a.windows.windows.contains_key(k));
    }
}

/// Windows that all show what a window showed before keep a world consistent.
proof fn lemma_fewer_views(a: World, b: World)
    requires
        consistent(a),
        b == (World { windows: b.windows, ..a }),
        focused(b.windows),
        forall|k: u64| #[trigger]
            b.windows.windows.contains_key(k) ==> a.buffers.contains_key(
                b.windows.windows[k].buffer.0,
            ),
    ensures
        consistent(b),
{
    reveal(consistent);
}

impl Editor {
    /// Put the focused window at a place in normal mode, with nothing pending.
    pub(crate) fn arrive(&mut self, p: Place)
        requires
            old(self).wf(),
        ensures
            final(self).wf(),
            final(self)@ == arrived(old(self)@, p),
    {
        proof {
            reveal(arrived);
        }
        let d = self.desk_mut();
        let mut live = d.live();
        live.cursor = p.cursor;
        live.top = p.top;
        live.leftcol = p.leftcol;
        live.mode = Mode::Normal;
        live.pending = PendingCommand::default();
        live.scroll_from = None;
        d.set_live(live);
        self.set_pending_scroll(None);
        self.hush();
        let ghost a = World {
            live: arrived_live(old(self)@.live, p),
            pending_scroll: None,
            ..old(self)@
        }.hushed();
        proof {
            old(self).is_consistent();
            assert(self@.buffers =~= a.buffers);
            assert(self@ == a);
        }
        let d = self.desk_mut();
        d.clamp_cursor();
        self.ensure_visible();
    }

    fn place(&self) -> (p: Place)
        requires
            self.wf(),
        ensures
            p == place_of(self@.live),
    {
        let live = self.desk().live();
        Place { cursor: live.cursor, top: live.top, leftcol: live.leftcol }
    }

    /// Save the place of the focused window.
    fn stash_view(&mut self)
        requires
            old(self).wf(),
        ensures
            final(self).wf(),
            final(self)@ == view_stashed(old(self)@),
    {
        proof {
            self.is_consistent();
        }
        let p = self.place();
        let w = self.windows.cur_mut();
        w.saved_cursor = p.cursor;
        w.saved_top = p.top;
        w.saved_leftcol = p.leftcol;
        proof {
            assert(self@.windows.windows.dom() =~= old(self)@.windows.windows.dom());
            assert(self@.buffers =~= old(self)@.buffers);
            lemma_same_views(old(self)@, self@);
        }
    }

    /// Give a window the focus, at the place that it had.
    fn enter_window(&mut self, id: WindowId)
        requires
            old(self).wf(),
            old(self)@.windows.windows.contains_key(id.0),
        ensures
            final(self).wf(),
            final(self)@ == entered_window(old(self)@, id),
    {
        let w = self.windows().get(id);
        let p = Place { cursor: w.saved_cursor, top: w.saved_top, leftcol: w.saved_leftcol };
        self.focus_on(id);
        self.arrive(p);
    }

    /// Focus another window; the one that was keeps its place. Nothing happens where there
    /// is no such window, or it has the focus.
    pub fn focus_window(&mut self, id: WindowId)
        requires
            old(self).wf(),
        ensures
            final(self).wf(),
            final(self)@ == window_focused(old(self)@, id),
    {
        let t = self.windows();
        if id == t.current || !t.windows.contains(id.0) {
            return;
        }
        self.stash_view();
        assert(self@.windows.windows.contains_key(id.0));
        self.enter_window(id);
    }

    /// Lay rearranged windows out.
    fn settle_windows(&mut self)
        requires
            old(self).wf(),
        ensures
            final(self).wf(),
            final(self)@ == seen(relaid(old(self)@)),
    {
        self.relayout();
        self.ensure_visible();
    }

    /// Split the focused window in two that show the same; the new one takes the focus.
    pub fn split(&mut self, dir: SplitDir)
        requires
            old(self).wf(),
        ensures
            final(self).wf(),
            final(self)@ == window_split(old(self)@, dir),
    {
        proof {
            self.is_consistent();
            reveal(consistent);
        }
        let p = self.place();
        let ghost t = self.windows@;
        if !self.windows.split_current(dir, p) {
            assert(self.windows@ == t);
            proof {
                lemma_same_tree(old(self)@, self@);
            }
            return;
        }
        proof {
            let a = old(self)@;
            let b = World { windows: self.windows@, ..a };
            assert(self@.windows == b.windows);
            assert(b.windows.windows[b.windows.current.0].buffer == a.cur());
            assert(self@.buffers == a.buffers);
            assert(self@ == b);
            assert forall|k: u64| #[trigger] b.windows.windows.contains_key(
                k,
            ) implies a.buffers.contains_key(b.windows.windows[k].buffer.0) by {
                assert(a.windows.windows.contains_key(a.windows.current.0));
                if k != b.windows.current.0 {
                    assert(a.windows.windows.contains_key(k));
                }
            }
            lemma_fewer_views(a, b);
        }
        self.settle_windows();
    }

    fn hand_over(&mut self, id: WindowId)
        requires
            old(self).wf(),
            closable(old(self)@.windows, id),
            id == old(self)@.windows.current,
        ensures
            final(self).wf(),
            final(self)@ == focus_handed_over(old(self)@, id),
    {
        proof {
            self.is_consistent();
        }
        let ghost w = self@;
        let rect = self.windows.get(id).rect;
        let from: u64 = self.windows.get(id).buffer.0;
        let (_, height) = self.size();
        let rows: usize = self.panel_rows();
        let area = Rect { x: 0, y: 0, width: self.width, height: height - rows };
        self.windows.take_out(id);
        let ghost t = self.windows@;
        proof {
            layout_keeps_windows(t, area, (0, 0));
            assert(crate::layout::well_shaped(t.root)) by {
                reveal(arranged);
            }
        }
        let next = match self.windows.nearest_window(rect) {
            Some(n) => n,
            None => id,
        };
        let floats = self.windows.floats.len() > 0;
        self.windows.layout(area, (0, 0));
        let to: u64 = self.windows.get(next).buffer.0;
        let n = self.windows.get(next);
        let p = Place { cursor: n.saved_cursor, top: n.saved_top, leftcol: n.saved_leftcol };
        proof {
            reveal(consistent);
            assert(t.windows.contains_key(next.0));
            assert(w.windows.windows.contains_key(next.0));
            assert(w.buffers.contains_key(to));
        }
        self.load(from, to);
        self.windows.current = next;
        proof {
            let laid = World { windows: windows_laid(t, total_area(w), (0, 0)), ..w };
            let b = focus_on(laid, next);
            assert(area == total_area(w));
            assert(self@.windows == b.windows);
            assert(b.windows.windows[next.0].buffer.0 == to);
            assert(self@ == b);
            crate::wins::lemma_same_focus(laid.windows, next);
            assert forall|k: u64| #[trigger] b.windows.windows.contains_key(
                k,
            ) implies w.buffers.contains_key(b.windows.windows[k].buffer.0) by {
                assert(t.windows.contains_key(k));
                assert(w.windows.windows.contains_key(k));
            }
            lemma_fewer_views(w, b);
        }
        self.arrive(p);
        if floats {
            self.relayout();
        }
    }

    /// Close a window. The result says whether it could be closed. Its buffer stays open, so
    /// there is nothing to force.
    pub fn close_window_by_id(&mut self, id: WindowId, _force: bool) -> (r: bool)
        requires
            old(self).wf(),
        ensures
            final(self).wf(),
            r == closable(old(self)@.windows, id),
            final(self)@ == window_closed(old(self)@, id),
    {
        if !self.windows().can_close(id) {
            return false;
        }
        if id == self.windows().current {
            self.hand_over(id);
            return true;
        }
        proof {
            self.is_consistent();
        }
        let ghost w = self@;
        self.windows.take_out(id);
        proof {
            let b = World { windows: self.windows@, ..w };
            reveal(consistent);
            assert(b.windows.windows.contains_key(w.windows.current.0));
            assert(self@.buffers == w.buffers);
            assert(self@ == b);
            assert forall|k: u64| #[trigger] b.windows.windows.contains_key(
                k,
            ) implies w.buffers.contains_key(b.windows.windows[k].buffer.0) by {
                assert(w.windows.windows.contains_key(k));
            }
            lemma_fewer_views(w, b);
        }
        self.settle_windows();
        true
    }

    /// Close the focused window; the last one cannot be closed.
    pub fn close_window(&mut self)
        requires
            old(self).wf(),
        ensures
            final(self).wf(),
            final(self)@ == current_closed(old(self)@),
    {
        let id = self.windows().current;
        if !self.close_window_by_id(id, false) {
            self.echo("E444: Cannot close last window".to_owned());
        }
    }

    /// Close every window but the focused one.
    pub fn only_window(&mut self)
        requires
            old(self).wf(),
        ensures
            final(self).wf(),
            final(self)@ == window_only(old(self)@),
    {
        if self.windows().count() <= 1 {
            return;
        }
        proof {
            self.is_consistent();
        }
        let ghost w = self@;
        self.windows.keep_current();
        proof {
            let b = World { windows: self.windows@, ..w };
            reveal(consistent);
            assert(self@.buffers == w.buffers);
            assert(self@ == b);
            assert(w.windows.windows.contains_key(w.windows.current.0));
            lemma_fewer_views(w, b);
        }
        self.settle_windows();
    }

    /// Make a window larger along an axis, or smaller, at the cost of its neighbours.
    pub fn resize_window_id(&mut self, id: WindowId, axis: SplitDir, delta: isize)
        requires
            old(self).wf(),
        ensures
            final(self).wf(),
            final(self)@ == resized_by(old(self)@, id, axis, delta as int),
    {
        let t = self.windows();
        if delta == 0 || t.count() <= 1 || !t.windows.contains(id.0) {
            return;
        }
        proof {
            self.is_consistent();
        }
        let ghost w = self@;
        self.windows.resize_window(id, axis, delta);
        proof {
            lemma_same_tree(w, self@);
        }
        self.settle_windows();
    }

    /// Make the focused window as large as possible along an axis.
    pub fn maximize_window(&mut self, axis: SplitDir)
        requires
            old(self).wf(),
        ensures
            final(self).wf(),
            final(self)@ == maximized_along(old(self)@, axis),
    {
        if self.windows().count() <= 1 {
            return;
        }
        proof {
            self.is_consistent();
        }
        let ghost w = self@;
        self.windows.maximize_window(axis);
        proof {
            lemma_same_tree(w, self@);
        }
        self.settle_windows();
    }

    /// Make all windows equal.
    pub fn equalize_windows(&mut self)
        requires
            old(self).wf(),
        ensures
            final(self).wf(),
            final(self)@ == rearranged(old(self)@, windows_equalized(old(self)@.windows)),
    {
        proof {
            self.is_consistent();
        }
        let ghost w = self@;
        self.windows.equalize_windows();
        proof {
            lemma_same_tree(w, self@);
        }
        self.settle_windows();
    }

    /// Focus the nearest window on a side of the focused one.
    pub fn focus_dir(&mut self, dir: WinDir)
        requires
            old(self).wf(),
        ensures
            final(self).wf(),
            final(self)@ == focus_moved(old(self)@, neighbour(old(self)@.windows, dir)),
    {
        if let Some(id) = self.windows().neighbour(dir) {
            self.focus_window(id);
        }
    }

    /// Focus the next window, or the one before, going round.
    pub fn focus_cycle(&mut self, forward: bool)
        requires
            old(self).wf(),
        ensures
            final(self).wf(),
            final(self)@ == focus_moved(old(self)@, next_window(old(self)@.windows, forward)),
    {
        if let Some(id) = self.windows().next_window(forward) {
            self.focus_window(id);
        }
    }

    /// Give a window other options.
    pub(crate) fn put_window_options(&mut self, id: WindowId, o: WindowOptions)
        requires
            old(self).wf(),
            old(self)@.windows.windows.contains_key(id.0),
        ensures
            final(self).wf(),
            final(self)@ == with_window_options(old(self)@, id, o),
    {
        proof {
            self.is_consistent();
        }
        let w = self.windows.get_mut(id);
        w.options = o;
        proof {
            assert(self@.windows.windows.dom() =~= old(self)@.windows.windows.dom());
            assert(self@.buffers =~= old(self)@.buffers);
            lemma_same_views(old(self)@, self@);
        }
    }
}

/// A tree with the same windows keeps a world consistent.
proof fn lemma_same_tree(a: World, b: World)
    requires
        consistent(a),
        b == (World { windows: b.windows, ..a }),
        focused(b.windows),
        b.windows.windows == a.windows.windows,
    ensures
        consistent(b),
{
    reveal(consistent);
}

} // verus!
