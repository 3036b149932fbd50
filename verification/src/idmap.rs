//! A map from ids to values that is walked in the order of the ids.

use vstd::prelude::*;

verus! {

/// Values keyed by id, kept in ascending order of id.
pub struct IdMap<V> {
    entries: Vec<(u64, V)>,
}

/// The ids ascend, so none occurs twice.
pub open spec fn ascending(ids: Seq<u64>) -> bool {
    forall|i: int, j: int| 0 <= i < j < ids.len() ==> #[trigger] ids[i] < #[trigger] ids[j]
}

/// The ids of a list of entries.
pub open spec fn ids_of<V>(e: Seq<(u64, V)>) -> Seq<u64> {
    e.map_values(|x: (u64, V)| x.0)
}

/// The map that a list of entries stands for.
pub open spec fn map_of<V>(e: Seq<(u64, V)>) -> Map<u64, V> {
    Map::new(|k: u64| ids_of(e).contains(k), |k: u64| e[ids_of(e).index_of(k)].1)
}

proof fn lemma_entry<V>(e: Seq<(u64, V)>, i: int)
    requires
        ascending(ids_of(e)),
        0 <= i < e.len(),
    ensures
        ids_of(e)[i] == e[i].0,
        map_of(e).contains_key(e[i].0),
        map_of(e)[e[i].0] == e[i].1,
{
    let k = e[i].0;
    assert(ids_of(e)[i] == k);
    assert(ids_of(e).contains(k));
    let j = ids_of(e).index_of(k);
    assert(ids_of(e)[j] == k);
    if j < i {
        assert(ids_of(e)[j] < ids_of(e)[i]);
    }
    if i < j {
        assert(ids_of(e)[i] < ids_of(e)[j]);
    }
}

proof fn lemma_update<V>(e: Seq<(u64, V)>, at: int, v: V)
    requires
        ascending(ids_of(e)),
        0 <= at < e.len(),
    ensures
        ids_of(e.update(at, (e[at].0, v))) == ids_of(e),
        map_of(e.update(at, (e[at].0, v))) == map_of(e).insert(e[at].0, v),
{
    let id = e[at].0;
    let n = e.update(at, (id, v));
    assert(ids_of(n) =~= ids_of(e));
    lemma_entry(e, at);
    assert forall|k: u64| map_of(n).contains_key(k) implies map_of(n)[k] == map_of(e).insert(
        id,
        v,
    )[k] by {
        let j = ids_of(n).index_of(k);
        lemma_entry(n, j);
        lemma_entry(e, j);
        if k == id {
            lemma_entry(n, at);
        }
    }
    assert(map_of(n) =~= map_of(e).insert(id, v));
}

proof fn lemma_insert<V>(e: Seq<(u64, V)>, at: int, id: u64, v: V)
    requires
        ascending(ids_of(e)),
        0 <= at <= e.len(),
        forall|i: int| 0 <= i < at ==> #[trigger] e[i].0 < id,
        forall|i: int| at <= i < e.len() ==> #[trigger] e[i].0 > id,
    ensures
        ascending(ids_of(e.insert(at, (id, v)))),
        map_of(e.insert(at, (id, v))) == map_of(e).insert(id, v),
        !map_of(e).contains_key(id),
{
    let n = e.insert(at, (id, v));
    assert forall|i: int, j: int| 0 <= i < j < ids_of(n).len() implies #[trigger] ids_of(n)[i]
        < #[trigger] ids_of(n)[j] by {
        let i0 = if i < at { i } else { i - 1 };
        let j0 = if j < at { j } else { j - 1 };
        if i != at {
            assert(ids_of(e)[i0] == e[i0].0);
            assert(n[i] == e[i0]);
        }
        if j != at {
            assert(ids_of(e)[j0] == e[j0].0);
            assert(n[j] == e[j0]);
        }
        if i != at && j != at {
            assert(ids_of(e)[i0] < ids_of(e)[j0]);
        }
    }
    if ids_of(e).contains(id) {
        let j = ids_of(e).index_of(id);
        assert(e[j].0 == id);
    }
    assert forall|k: u64|
        map_of(n).contains_key(k) <==> map_of(e).insert(id, v).contains_key(k) by {
        if ids_of(n).contains(k) && k != id {
            let j = ids_of(n).index_of(k);
            let j0 = if j < at { j } else { j - 1 };
            assert(n[j].0 == k);
            assert(ids_of(e)[j0] == k);
        }
        if ids_of(e).contains(k) {
            let j = ids_of(e).index_of(k);
            let j1 = if j < at { j } else { j + 1 };
            assert(ids_of(n)[j1] == k);
        }
        assert(ids_of(n)[at] == id);
    }
    assert forall|k: u64| map_of(n).contains_key(k) implies map_of(n)[k] == map_of(e).insert(
        id,
        v,
    )[k] by {
        let j = ids_of(n).index_of(k);
        lemma_entry(n, j);
        if k == id {
            lemma_entry(n, at);
        } else {
            let j0 = if j < at { j } else { j - 1 };
            assert(n[j] == e[j0]);
            lemma_entry(e, j0);
        }
    }
    assert(map_of(n) =~= map_of(e).insert(id, v));
}

proof fn lemma_remove<V>(e: Seq<(u64, V)>, at: int)
    requires
        ascending(ids_of(e)),
        0 <= at < e.len(),
    ensures
        ids_of(e.remove(at)) == ids_of(e).remove(at),
        ascending(ids_of(e.remove(at))),
        map_of(e.remove(at)) == map_of(e).remove(e[at].0),
{
    let n = e.remove(at);
    let id = e[at].0;
    assert(ids_of(n) =~= ids_of(e).remove(at));
    assert forall|i: int, j: int| 0 <= i < j < ids_of(n).len() implies #[trigger] ids_of(n)[i]
        < #[trigger] ids_of(n)[j] by {
        let i0 = if i < at { i } else { i + 1 };
        let j0 = if j < at { j } else { j + 1 };
        assert(ids_of(e)[i0] < ids_of(e)[j0]);
    }
    assert(ids_of(e)[at] == id);
    assert forall|k: u64| map_of(n).contains_key(k) <==> map_of(e).remove(id).contains_key(k) by {
        if ids_of(n).contains(k) {
            let j = ids_of(n).index_of(k);
            let j0 = if j < at { j } else { j + 1 };
            assert(ids_of(e)[j0] == k);
            if j0 < at {
                assert(ids_of(e)[j0] < ids_of(e)[at]);
            } else {
                assert(ids_of(e)[at] < ids_of(e)[j0]);
            }
        }
        if ids_of(e).contains(k) && k != id {
            let j = ids_of(e).index_of(k);
            let j1 = if j < at { j } else { j - 1 };
            assert(ids_of(n)[j1] == k);
        }
    }
    assert forall|k: u64| map_of(n).contains_key(k) implies map_of(n)[k] == map_of(e).remove(
        id,
    )[k] by {
        let j = ids_of(n).index_of(k);
        lemma_entry(n, j);
        let j0 = if j < at { j } else { j + 1 };
        lemma_entry(e, j0);
    }
    assert(map_of(n) =~= map_of(e).remove(id));
}

impl<V> View for IdMap<V> {
    type V = Map<u64, V>;

    closed spec fn view(&self) -> Map<u64, V> {
        map_of(self.entries@)
    }
}

impl<V> IdMap<V> {
    /// The ids in order.
    pub closed spec fn ids(&self) -> Seq<u64> {
        ids_of(self.entries@)
    }

    pub open spec fn wf(&self) -> bool {
        ascending(self.ids())
    }

    /// The ids are those that the map holds, each once and in order.
    pub proof fn ids_are_keys(&self)
        requires
            self.wf(),
        ensures
            self.ids().to_set() == self@.dom(),
            self@.dom().finite(),
            self.ids().len() == self@.dom().len(),
            forall|i: int|
                0 <= i < self.ids().len() ==> self@.contains_key(#[trigger] self.ids()[i]),
            forall|k: u64| self@.contains_key(k) <==> self.ids().contains(k),
    {
        assert(self.ids().to_set() =~= self@.dom());
        assert(self.ids().no_duplicates());
        self.ids().unique_seq_to_set();
    }

    pub fn new() -> (m: Self)
        ensures
            m.wf(),
            m@ == Map::<u64, V>::empty(),
            m.ids() == Seq::<u64>::empty(),
    {
        let m = IdMap { entries: Vec::new() };
        assert(m.ids() =~= Seq::<u64>::empty());
        assert(m@ =~= Map::<u64, V>::empty());
        m
    }

    pub fn len(&self) -> (n: usize)
        ensures
            n == self.ids().len(),
    {
        self.entries.len()
    }

    /// The id at position `i` of the order.
    pub fn id_at(&self, i: usize) -> (id: u64)
        requires
            i < self.ids().len(),
        ensures
            id == self.ids()[i as int],
            self@.contains_key(id),
    {
        assert(self.ids()[i as int] == self.entries@[i as int].0);
        self.entries[i].0
    }

    /// The first position whose id is not below `id`.
    fn lower_bound(&self, id: u64) -> (at: usize)
        requires
            self.wf(),
        ensures
            at <= self.entries@.len(),
            forall|i: int| 0 <= i < at ==> #[trigger] self.entries@[i].0 < id,
            forall|i: int| at <= i < self.entries@.len() ==> #[trigger] self.entries@[i].0 >= id,
    {
        let mut i: usize = 0;
        while i < self.entries.len() && self.entries[i].0 < id
            invariant
                i <= self.entries@.len(),
                forall|k: int| 0 <= k < i ==> #[trigger] self.entries@[k].0 < id,
            decreases self.entries@.len() - i,
        {
            i += 1;
        }
        assert forall|k: int| i <= k < self.entries@.len() implies #[trigger] self.entries@[k].0
            >= id by {
            assert(self.ids()[k] == self.entries@[k].0);
            assert(self.ids()[i as int] == self.entries@[i as int].0);
            if k > i {
                assert(self.ids()[i as int] < self.ids()[k]);
            }
        }
        i
    }

    fn position(&self, id: u64) -> (r: Option<usize>)
        requires
            self.wf(),
        ensures
            r is Some <==> self@.contains_key(id),
            r is Some ==> r->0 < self.entries@.len() && self.entries@[r->0 as int].0 == id
                && self@[id] == self.entries@[r->0 as int].1,
    {
        let at: usize = self.lower_bound(id);
        if at < self.entries.len() && self.entries[at].0 == id {
            proof {
                lemma_entry(self.entries@, at as int);
            }
            Some(at)
        } else {
            proof {
                if self.ids().contains(id) {
                    let j = self.ids().index_of(id);
                    assert(self.ids()[j] == self.entries@[j].0);
                    if j > at {
                        assert(self.ids()[at as int] < self.ids()[j]);
                        assert(self.ids()[at as int] == self.entries@[at as int].0);
                    }
                }
            }
            None
        }
    }

    pub fn contains(&self, id: u64) -> (b: bool)
        requires
            self.wf(),
        ensures
            b == self@.contains_key(id),
    {
        self.position(id).is_some()
    }

    pub fn get(&self, id: u64) -> (r: Option<&V>)
        requires
            self.wf(),
        ensures
            r is Some <==> self@.contains_key(id),
            r is Some ==> *r->0 == self@[id],
    {
        match self.position(id) {
            Some(i) => Some(&self.entries[i].1),
            None => None,
        }
    }

    /// The value of an id that the map holds.
    pub fn at(&self, id: u64) -> (v: &V)
        requires
            self.wf(),
            self@.contains_key(id),
        ensures
            *v == self@[id],
    {
        let i: usize = self.position(id).unwrap();
        &self.entries[i].1
    }

    /// The value of an id that the map holds, to be changed.
    pub fn at_mut(&mut self, id: u64) -> (v: &mut V)
        requires
            old(self).wf(),
            old(self)@.contains_key(id),
        ensures
            *v == old(self)@[id],
            final(self)@ == old(self)@.insert(id, *final(v)),
            final(self).ids() == old(self).ids(),
            final(self).wf(),
    {
        let i: usize = self.position(id).unwrap();
        let ghost e = self.entries@;
        assert forall|v: V| #![trigger e.update(i as int, (id, v))]
            ids_of(e.update(i as int, (id, v))) == ids_of(e) && map_of(e.update(i as int, (id, v)))
                == map_of(e).insert(id, v) by {
            lemma_update(e, i as int, v);
        }
        &mut self.entries[i].1
    }

    /// Put a value in, in place of the one that the id had.
    pub fn insert(&mut self, id: u64, v: V)
        requires
            old(self).wf(),
        ensures
            final(self).wf(),
            final(self)@ == old(self)@.insert(id, v),
            old(self)@.contains_key(id) ==> final(self).ids() == old(self).ids(),
    {
        let at: usize = self.lower_bound(id);
        let ghost e = self.entries@;
        if at < self.entries.len() && self.entries[at].0 == id {
            proof {
                lemma_update(e, at as int, v);
            }
            self.entries[at] = (id, v);
        } else {
            proof {
                assert forall|i: int| at <= i < e.len() implies #[trigger] e[i].0 > id by {
                    assert(ids_of(e)[i] == e[i].0);
                    assert(ids_of(e)[at as int] == e[at as int].0);
                    if i > at {
                        assert(ids_of(e)[at as int] < ids_of(e)[i]);
                    }
                }
                lemma_insert(e, at as int, id, v);
            }
            self.entries.insert(at, (id, v));
        }
    }

    /// Take an id and its value out.
    pub fn remove(&mut self, id: u64) -> (r: Option<V>)
        requires
            old(self).wf(),
        ensures
            final(self).wf(),
            final(self)@ == old(self)@.remove(id),
            r is Some <==> old(self)@.contains_key(id),
            r is Some ==> r->0 == old(self)@[id],
    {
        let ghost e = self.entries@;
        match self.position(id) {
            None => {
                assert(self@.remove(id) =~= self@);
                None
            },
            Some(at) => {
                proof {
                    lemma_remove(e, at as int);
                }
                let (_, v) = self.entries.remove(at);
                Some(v)
            },
        }
    }

    /// Keep the entries of these ids and take the others out.
    pub fn keep_only(&mut self, ids: &Vec<u64>)
        requires
            old(self).wf(),
        ensures
            final(self).wf(),
            final(self)@ == old(self)@.restrict(ids@.to_set()),
    {
        let ghost before = self@;
        proof {
            self.ids_are_keys();
        }
        let mut gone: Vec<u64> = Vec::new();
        let mut i: usize = 0;
        while i < self.entries.len()
            invariant
                self.wf(),
                *self == *old(self),
                before == self@,
                i <= self.entries@.len(),
                forall|k: u64|
                    gone@.contains(k) ==> before.contains_key(k) && !ids@.contains(k),
                forall|j: int|
                    0 <= j < i ==> ids@.contains(#[trigger] self.entries@[j].0) || gone@.contains(
                        self.entries@[j].0,
                    ),
            decreases self.entries@.len() - i,
        {
            let id: u64 = self.entries[i].0;
            proof {
                lemma_entry(self.entries@, i as int);
            }
            if !holds_id(ids, id) {
                let ghost g = gone@;
                gone.push(id);
                proof {
                    assert forall|k: u64| gone@.contains(k) implies before.contains_key(k)
                        && !ids@.contains(k) by {
                        if k != id {
                            let j = gone@.index_of(k);
                            assert(g[j] == k);
                            assert(g.contains(k));
                        }
                    }
                    assert(gone@[g.len() as int] == id);
                    assert forall|j: int| 0 <= j < i && g.contains(
                        #[trigger] self.entries@[j].0,
                    ) implies gone@.contains(self.entries@[j].0) by {
                        let m = g.index_of(self.entries@[j].0);
                        assert(gone@[m] == self.entries@[j].0);
                    }
                }
            }
            i += 1;
        }
        proof {
            assert forall|k: u64|
                before.contains_key(k) && !ids@.contains(k) implies gone@.contains(
                k,
            ) by {
                let j = ids_of(self.entries@).index_of(k);
                assert(self.entries@[j].0 == k);
            }
        }
        let mut n: usize = 0;
        assert(before.remove_keys(gone@.take(0).to_set()) =~= before);
        while n < gone.len()
            invariant
                self.wf(),
                n <= gone@.len(),
                self@ == before.remove_keys(gone@.take(n as int).to_set()),
            decreases gone@.len() - n,
        {
            let _dropped = self.remove(gone[n]);
            proof {
                let a = gone@.take(n as int);
                let b = gone@.take(n + 1);
                assert(b =~= a.push(gone@[n as int]));
                assert forall|k: u64| b.to_set().contains(k) <==> a.to_set().contains(k) || k
                    == gone@[n as int] by {
                    if a.contains(k) {
                        let j = a.index_of(k);
                        assert(b[j] == k);
                    }
                    assert(b[n as int] == gone@[n as int]);
                }
                assert(self@ =~= before.remove_keys(b.to_set()));
            }
            n += 1;
        }
        assert(gone@.take(n as int) =~= gone@);
        assert(self@ =~= before.restrict(ids@.to_set()));
    }
}

/// Whether a list holds an id.
pub fn holds_id(ids: &Vec<u64>, id: u64) -> (b: bool)
    ensures
        b == ids@.contains(id),
{
    let mut i: usize = 0;
    while i < ids.len()
        invariant
            i <= ids@.len(),
            forall|j: int| 0 <= j < i ==> #[trigger] ids@[j] != id,
        decreases ids@.len() - i,
    {
        if ids[i] == id {
            return true;
        }
        i += 1;
    }
    false
}

} // verus!
