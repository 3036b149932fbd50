//! Which windows have to be decorated anew.

use vstd::prelude::*;

use crate::idmap::{holds_id, IdMap};
use crate::layout::{clip, WindowId};
use crate::num::least;
use crate::window::BufferId;

verus! {

/// A window whose visible lines changed: its buffer, the first and the last line that
/// show, and the number of the view.
#[derive(Debug, Clone, Copy, PartialEq, Eq, Structural)]
pub struct DecorViewport {
    pub win: WindowId,
    pub buf: BufferId,
    pub top: usize,
    pub bot: usize,
    pub generation: u64,
}

/// The windows that are to be decorated anew.
#[derive(Debug, Clone, Copy, PartialEq, Eq, Structural)]
pub enum DecorScope {
    /// Every window.
    All,
    /// Every window that shows the buffer.
    Buffer(BufferId),
    Window(WindowId),
}

/// What a window shows.
#[derive(Debug, Clone, Copy, PartialEq, Eq, Structural)]
pub struct Sight {
    pub win: WindowId,
    pub buf: BufferId,
    pub top: usize,
    /// The rows of its text area.
    pub height: usize,
    pub last_line: usize,
    pub tick: u64,
}

/// What tells two views of a window apart: buffer, first and last line, and the tick
/// of the buffer.
#[derive(Debug, Clone, Copy, PartialEq, Eq, Structural)]
pub struct SightKey {
    pub buf: BufferId,
    pub top: usize,
    pub bot: usize,
    pub tick: u64,
}

/// What is known of the windows' views.
pub struct Decor {
    viewports: IdMap<SightKey>,
    generations: IdMap<u64>,
    dirty: Vec<DecorViewport>,
    asked: IdMap<bool>,
    served: IdMap<bool>,
    invalidated: bool,
    ephemeral: IdMap<bool>,
}

/// What a [`Decor`] holds.
pub ghost struct DecorModel {
    /// The view that each window had last.
    pub viewports: Map<u64, SightKey>,
    /// How often the view of each window changed.
    pub generations: Map<u64, u64>,
    /// The views that are still to be decorated.
    pub dirty: Seq<DecorViewport>,
    /// The windows that are to be decorated anew though they show the same.
    pub asked: Map<u64, bool>,
    /// The windows for which that was done in the pass under way.
    pub served: Map<u64, bool>,
    pub invalidated: bool,
    /// The name spaces whose marks come and go with the view.
    pub ephemeral: Map<u64, bool>,
}

impl View for Decor {
    type V = DecorModel;

    closed spec fn view(&self) -> DecorModel {
        DecorModel {
            viewports: self.viewports@,
            generations: self.generations@,
            dirty: self.dirty@,
            asked: self.asked@,
            served: self.served@,
            invalidated: self.invalidated,
            ephemeral: self.ephemeral@,
        }
    }
}

/// Nothing is known yet.
pub open spec fn fresh_decor() -> DecorModel {
    DecorModel {
        viewports: Map::empty(),
        generations: Map::empty(),
        dirty: Seq::empty(),
        asked: Map::empty(),
        served: Map::empty(),
        invalidated: false,
        ephemeral: Map::empty(),
    }
}

/// The last line that a window shows.
pub open spec fn bottom_of(s: Sight) -> usize {
    least(
        clip(
            s.top + if s.height >= 1 {
                s.height - 1
            } else {
                0
            },
        ) as int,
        s.last_line as int,
    ) as usize
}

pub open spec fn key_of(s: Sight) -> SightKey {
    SightKey { buf: s.buf, top: s.top, bot: bottom_of(s), tick: s.tick }
}

/// The number of a window's view; zero for a window that is not known.
pub open spec fn generation_of(m: DecorModel, win: u64) -> u64 {
    if m.generations.contains_key(win) {
        m.generations[win]
    } else {
        0
    }
}

/// The number after this one.
pub open spec fn next_number(n: u64) -> u64 {
    if n == u64::MAX {
        0
    } else {
        (n + 1) as u64
    }
}

/// Whether a window shows something else than it did.
pub open spec fn sight_moved(m: DecorModel, s: Sight) -> bool {
    !(m.viewports.contains_key(s.win.0) && m.viewports[s.win.0] == key_of(s))
}

/// Whether a window is decorated anew because that was asked for.
pub open spec fn ask_served(m: DecorModel, s: Sight) -> bool {
    m.asked.contains_key(s.win.0) && !m.served.contains_key(s.win.0)
}

/// The views of other windows, in their order.
pub open spec fn others_of(d: Seq<DecorViewport>, win: WindowId) -> Seq<DecorViewport> {
    d.filter(|v: DecorViewport| v.win != win)
}

/// One window looked at.
pub open spec fn looked_at(m: DecorModel, s: Sight) -> DecorModel {
    let moved = sight_moved(m, s);
    let w = s.win.0;
    if !moved && !ask_served(m, s) {
        m
    } else {
        let generation = next_number(generation_of(m, w));
        DecorModel {
            viewports: m.viewports.insert(w, key_of(s)),
            generations: m.generations.insert(w, generation),
            dirty: others_of(m.dirty, s.win).push(
                DecorViewport { win: s.win, buf: s.buf, top: s.top, bot: bottom_of(s), generation },
            ),
            asked: m.asked.remove(w),
            served: if moved {
                m.served
            } else {
                m.served.insert(w, true)
            },
            ..m
        }
    }
}

/// The first `n` windows looked at.
pub open spec fn all_looked_at(m: DecorModel, s: Seq<Sight>, n: int) -> DecorModel
    decreases n,
{
    if n <= 0 {
        m
    } else {
        looked_at(all_looked_at(m, s, n - 1), s[n - 1])
    }
}

/// The ids of the windows.
pub open spec fn wins_of(s: Seq<Sight>) -> Seq<u64> {
    s.map_values(|s: Sight| s.win.0)
}

/// What is known of windows that are closed forgotten.
pub open spec fn only_open(m: DecorModel, wins: Seq<u64>) -> DecorModel {
    let w = wins.to_set();
    DecorModel {
        viewports: m.viewports.restrict(w),
        generations: m.generations.restrict(w),
        dirty: m.dirty.filter(|v: DecorViewport| wins.contains(v.win.0)),
        asked: m.asked.restrict(w),
        served: m.served.restrict(w),
        ..m
    }
}

/// All windows looked at.
pub open spec fn recomputed(m: DecorModel, s: Seq<Sight>) -> DecorModel {
    only_open(all_looked_at(m, s, s.len() as int), wins_of(s))
}

/// The windows asked for that a scope selects, among the first `n`.
pub open spec fn asked_for(
    asked: Map<u64, bool>,
    wins: Seq<(WindowId, BufferId)>,
    scope: DecorScope,
    n: int,
) -> Map<u64, bool>
    decreases n,
{
    if n <= 0 {
        asked
    } else {
        let r = asked_for(asked, wins, scope, n - 1);
        let (w, b) = wins[n - 1];
        if scope == DecorScope::All || scope == DecorScope::Buffer(b) {
            r.insert(w.0, true)
        } else {
            r
        }
    }
}

/// A decoration anew asked for.
pub open spec fn invalidated(
    m: DecorModel,
    wins: Seq<(WindowId, BufferId)>,
    scope: DecorScope,
) -> DecorModel {
    DecorModel {
        asked: match scope {
            DecorScope::Window(w) => m.asked.insert(w.0, true),
            _ => asked_for(m.asked, wins, scope, wins.len() as int),
        },
        invalidated: true,
        ..m
    }
}

impl Decor {
    pub closed spec fn wf(&self) -> bool {
        &&& self.viewports.wf()
        &&& self.generations.wf()
        &&& self.asked.wf()
        &&& self.served.wf()
        &&& self.ephemeral.wf()
        &&& forall|k: u64| #[trigger] self.ephemeral@.contains_key(k) ==> k <= u32::MAX
    }

    pub fn new() -> (d: Self)
        ensures
            d.wf(),
            d@ == fresh_decor(),
    {
        Decor {
            viewports: IdMap::new(),
            generations: IdMap::new(),
            dirty: Vec::new(),
            asked: IdMap::new(),
            served: IdMap::new(),
            invalidated: false,
            ephemeral: IdMap::new(),
        }
    }

    /// Note that the marks of a name space come and go with the view.
    pub fn mark_extmark_namespace_ephemeral(&mut self, ns: u32)
        requires
            old(self).wf(),
        ensures
            final(self).wf(),
            final(self)@ == (DecorModel {
                ephemeral: old(self)@.ephemeral.insert(ns as u64, true),
                ..old(self)@
            }),
    {
        self.ephemeral.insert(ns as u64, true);
    }

    /// The name spaces whose marks come and go with the view, in order and each once.
    pub fn ephemeral_extmark_namespaces(&self) -> (v: Vec<u32>)
        requires
            self.wf(),
        ensures
            forall|i: int, j: int| 0 <= i < j < v@.len() ==> v@[i] < v@[j],
            forall|ns: u32| v@.contains(ns) <==> self@.ephemeral.contains_key(ns as u64),
    {
        let mut v: Vec<u32> = Vec::new();
        let n: usize = self.ephemeral.len();
        let ghost ids = self.ephemeral.ids();
        proof {
            self.ephemeral.ids_are_keys();
        }
        let mut i: usize = 0;
        while i < n
            invariant
                self.wf(),
                n == ids.len(),
                ids == self.ephemeral.ids(),
                i <= n,
                v@.len() == i,
                forall|k: int| 0 <= k < n ==> self.ephemeral@.contains_key(#[trigger] ids[k]),
                forall|k: int| 0 <= k < i ==> #[trigger] v@[k] == ids[k],
            decreases n - i,
        {
            v.push(self.ephemeral.id_at(i) as u32);
            i += 1;
        }
        proof {
            assert forall|ns: u32| v@.contains(ns) <==> self@.ephemeral.contains_key(ns as u64) by {
                if v@.contains(ns) {
                    let k = choose|k: int| 0 <= k < v@.len() && v@[k] == ns;
                    assert(ids[k] == ns);
                }
                if self@.ephemeral.contains_key(ns as u64) {
                    let k = choose|k: int| 0 <= k < ids.len() && ids[k] == ns as u64;
                    assert(v@[k] == ns);
                }
            }
        }
        v
    }

    fn look_at(&mut self, s: Sight)
        requires
            old(self).wf(),
        ensures
            final(self).wf(),
            final(self)@ == looked_at(old(self)@, s),
    {
        let w: u64 = s.win.0;
        let end: usize = s.top.saturating_add(s.height.saturating_sub(1));
        let bot: usize = if end <= s.last_line {
            end
        } else {
            s.last_line
        };
        let key = SightKey { buf: s.buf, top: s.top, bot, tick: s.tick };
        let moved = match self.viewports.get(w) {
            Some(k) => *k != key,
            None => true,
        };
        let serve = self.asked.contains(w) && !self.served.contains(w);
        if !moved && !serve {
            return;
        }
        let _asked = self.asked.remove(w);
        if !moved {
            self.served.insert(w, true);
        }
        self.viewports.insert(w, key);
        let last: u64 = match self.generations.get(w) {
            Some(n) => *n,
            None => 0,
        };
        let generation: u64 = last.wrapping_add(1);
        self.generations.insert(w, generation);
        self.drop_dirty(s.win);
        self.dirty.push(DecorViewport { win: s.win, buf: s.buf, top: s.top, bot, generation });
    }

    fn drop_dirty(&mut self, win: WindowId)
        requires
            old(self).wf(),
        ensures
            final(self).wf(),
            final(self)@ == (DecorModel {
                dirty: others_of(old(self)@.dirty, win),
                ..old(self)@
            }),
    {
        let ghost keep = |v: DecorViewport| v.win != win;
        let mut kept: Vec<DecorViewport> = Vec::new();
        let mut i: usize = 0;
        assert(self.dirty@.take(0).filter(keep) =~= Seq::<DecorViewport>::empty()) by {
            reveal(Seq::filter);
        }
        while i < self.dirty.len()
            invariant
                *self == *old(self),
                keep == (|v: DecorViewport| v.win != win),
                i <= self.dirty@.len(),
                kept@ == self.dirty@.take(i as int).filter(keep),
            decreases self.dirty@.len() - i,
        {
            let v = self.dirty[i];
            proof {
                reveal(Seq::filter);
                assert(self.dirty@.take(i + 1).drop_last() =~= self.dirty@.take(i as int));
            }
            if v.win != win {
                kept.push(v);
            }
            i += 1;
        }
        assert(self.dirty@.take(i as int) =~= self.dirty@);
        self.dirty = kept;
    }

    fn forget_closed(&mut self, wins: &Vec<u64>)
        requires
            old(self).wf(),
        ensures
            final(self).wf(),
            final(self)@ == only_open(old(self)@, wins@),
    {
        let ghost keep = |v: DecorViewport| wins@.contains(v.win.0);
        let mut kept: Vec<DecorViewport> = Vec::new();
        let mut i: usize = 0;
        assert(self.dirty@.take(0).filter(keep) =~= Seq::<DecorViewport>::empty()) by {
            reveal(Seq::filter);
        }
        while i < self.dirty.len()
            invariant
                *self == *old(self),
                keep == (|v: DecorViewport| wins@.contains(v.win.0)),
                i <= self.dirty@.len(),
                kept@ == self.dirty@.take(i as int).filter(keep),
            decreases self.dirty@.len() - i,
        {
            let v = self.dirty[i];
            proof {
                reveal(Seq::filter);
                assert(self.dirty@.take(i + 1).drop_last() =~= self.dirty@.take(i as int));
            }
            if holds_id(wins, v.win.0) {
                kept.push(v);
            }
            i += 1;
        }
        assert(self.dirty@.take(i as int) =~= self.dirty@);
        self.dirty = kept;
        self.viewports.keep_only(wins);
        self.generations.keep_only(wins);
        self.asked.keep_only(wins);
        self.served.keep_only(wins);
    }

    /// Look at what every window shows. A window that shows something else, or for
    /// which that was asked, gets a new number and is to be decorated anew; it takes
    /// the place of what was still to be done for it. Closed windows are forgotten.
    pub fn recompute_decor_dirty(&mut self, sights: &Vec<Sight>)
        requires
            old(self).wf(),
        ensures
            final(self).wf(),
            final(self)@ == recomputed(old(self)@, sights@),
    {
        let mut wins: Vec<u64> = Vec::new();
        let mut i: usize = 0;
        while i < sights.len()
            invariant
                self.wf(),
                i <= sights@.len(),
                wins@ == wins_of(sights@).take(i as int),
                self@ == all_looked_at(old(self)@, sights@, i as int),
            decreases sights@.len() - i,
        {
            let s = sights[i];
            self.look_at(s);
            wins.push(s.win.0);
            assert(wins@ =~= wins_of(sights@).take(i + 1));
            i += 1;
        }
        assert(wins@ =~= wins_of(sights@));
        self.forget_closed(&wins);
    }

    /// Ask for windows to be decorated anew though they show the same.
    pub fn invalidate_decor(&mut self, wins: &Vec<(WindowId, BufferId)>, scope: DecorScope)
        requires
            old(self).wf(),
        ensures
            final(self).wf(),
            final(self)@ == invalidated(old(self)@, wins@, scope),
    {
        match scope {
            DecorScope::Window(w) => self.asked.insert(w.0, true),
            _ => {
                let mut i: usize = 0;
                while i < wins.len()
                    invariant
                        self.wf(),
                        i <= wins@.len(),
                        self@ == (DecorModel {
                            asked: asked_for(old(self)@.asked, wins@, scope, i as int),
                            ..old(self)@
                        }),
                    decreases wins@.len() - i,
                {
                    let (w, b) = wins[i];
                    if scope == DecorScope::All || scope == DecorScope::Buffer(b) {
                        self.asked.insert(w.0, true);
                    }
                    i += 1;
                }
            },
        }
        self.invalidated = true;
    }

    /// End the pass under way.
    pub fn settle_decor_pass(&mut self)
        requires
            old(self).wf(),
        ensures
            final(self).wf(),
            final(self)@ == (DecorModel { served: Map::empty(), ..old(self)@ }),
    {
        self.served = IdMap::new();
    }

    /// Whether a decoration anew was asked for since the list was last taken.
    pub fn decor_invalidation_pending(&self) -> (b: bool)
        ensures
            b == self@.invalidated,
    {
        self.invalidated
    }

    /// Take the list of the views that are to be decorated.
    pub fn take_decor_dirty(&mut self) -> (v: Vec<DecorViewport>)
        requires
            old(self).wf(),
        ensures
            final(self).wf(),
            v@ == old(self)@.dirty,
            final(self)@ == (DecorModel {
                dirty: Seq::empty(),
                invalidated: false,
                ..old(self)@
            }),
    {
        let mut v: Vec<DecorViewport> = Vec::new();
        core::mem::swap(&mut v, &mut self.dirty);
        self.invalidated = false;
        v
    }

    /// The number of a window's view; zero for a window that is not known.
    pub fn decor_generation(&self, win: WindowId) -> (n: u64)
        requires
            self.wf(),
        ensures
            n == generation_of(self@, win.0),
    {
        match self.generations.get(win.0) {
            Some(n) => *n,
            None => 0,
        }
    }
}

/// A window that shows something else gets a new number, and is to be decorated under
/// that number alone.
pub proof fn a_moved_view_is_new(m: DecorModel, s: Sight)
    requires
        sight_moved(m, s),
    ensures
        ({
            let r = looked_at(m, s);
            &&& generation_of(r, s.win.0) != generation_of(m, s.win.0)
            &&& r.dirty.len() > 0
            &&& r.dirty.last().win == s.win
            &&& r.dirty.last().generation == generation_of(r, s.win.0)
            &&& forall|i: int| 0 <= i < r.dirty.len() - 1 ==> #[trigger] r.dirty[i].win != s.win
        }),
{
    let f = |v: DecorViewport| v.win != s.win;
    let d = others_of(m.dirty, s.win);
    assert forall|i: int| 0 <= i < d.len() implies #[trigger] d[i].win != s.win by {
        m.dirty.lemma_filter_pred(f, i);
    }
}

/// Looking again at a window that shows the same, with nothing asked for it, changes
/// nothing.
pub proof fn a_still_view_is_quiet(m: DecorModel, s: Sight)
    requires
        !m.asked.contains_key(s.win.0) || m.served.contains_key(s.win.0),
    ensures
        looked_at(looked_at(m, s), s) == looked_at(m, s),
{
}

/// A request is served once in a pass: looking again changes nothing even where it is
/// asked for again.
pub proof fn a_request_is_served_once(m: DecorModel, s: Sight)
    requires
        !sight_moved(m, s),
        ask_served(m, s),
    ensures
        ({
            let r = looked_at(m, s);
            let again = DecorModel { asked: r.asked.insert(s.win.0, true), ..r };
            looked_at(again, s) == again
        }),
{
}

} // verus!
