//! A map keyed by action id that remembers the order of insertion.

use crate::types;
use crate::types::ActionId;
use vstd::prelude::*;

verus! {

/// A map from action ids to values.
#[derive(Debug)]
pub struct IdMap<V> {
    entries: Vec<(ActionId, V)>,
}

/// The map that a list of entries stands for.
pub open spec fn entry_map<V>(e: Seq<(ActionId, V)>) -> Map<Seq<char>, V>
    decreases e.len(),
{
    if e.len() == 0 {
        Map::empty()
    } else {
        entry_map(e.drop_last()).insert(e.last().0@, e.last().1)
    }
}

/// No id occurs twice.
pub open spec fn distinct_keys<V>(e: Seq<(ActionId, V)>) -> bool {
    forall|i: int, j: int|
        0 <= i < e.len() && 0 <= j < e.len() && i != j ==> (#[trigger] e[i]).0@ != (#[trigger] e[j]).0@
}

/// The keys of the map are the ids of the entries.
pub proof fn entry_map_keys<V>(e: Seq<(ActionId, V)>, k: Seq<char>)
    ensures
        entry_map(e).contains_key(k) <==> exists|i: int| 0 <= i < e.len() && (#[trigger] e[i]).0@ == k,
    decreases e.len(),
{
    if e.len() > 0 {
        let d = e.drop_last();
        entry_map_keys(d, k);
        if entry_map(e).contains_key(k) {
            if e.last().0@ == k {
                assert(e[e.len() - 1].0@ == k);
            } else {
                let i = choose|i: int| 0 <= i < d.len() && (#[trigger] d[i]).0@ == k;
                assert(e[i].0@ == k);
            }
        }
        if exists|i: int| 0 <= i < e.len() && (#[trigger] e[i]).0@ == k {
            let i = choose|i: int| 0 <= i < e.len() && (#[trigger] e[i]).0@ == k;
            if i < d.len() {
                assert(d[i].0@ == k);
            }
        }
    }
}

/// Each entry's value is what the map holds under its id.
pub proof fn entry_map_value<V>(e: Seq<(ActionId, V)>, i: int)
    requires
        distinct_keys(e),
        0 <= i < e.len(),
    ensures
        entry_map(e).contains_key(e[i].0@),
        entry_map(e)[e[i].0@] == e[i].1,
    decreases e.len(),
{
    entry_map_keys(e, e[i].0@);
    if i < e.len() - 1 {
        let d = e.drop_last();
        assert(d[i] == e[i]);
        assert forall|a: int, b: int| 0 <= a < d.len() && 0 <= b < d.len() && a != b implies (
        #[trigger] d[a]).0@ != (#[trigger] d[b]).0@ by {
            assert(d[a] == e[a] && d[b] == e[b]);
        }
        entry_map_value(d, i);
        assert(e[i].0@ != e[e.len() - 1].0@);
    }
}

/// The map has as many keys as there are entries.
pub proof fn entry_map_len<V>(e: Seq<(ActionId, V)>)
    requires
        distinct_keys(e),
    ensures
        entry_map(e).dom().finite(),
        entry_map(e).dom().len() == e.len(),
    decreases e.len(),
{
    if e.len() == 0 {
        assert(entry_map(e).dom() =~= Set::empty());
    } else {
        let d = e.drop_last();
        assert forall|a: int, b: int| 0 <= a < d.len() && 0 <= b < d.len() && a != b implies (
        #[trigger] d[a]).0@ != (#[trigger] d[b]).0@ by {
            assert(d[a] == e[a] && d[b] == e[b]);
        }
        entry_map_len(d);
        let k = e.last().0@;
        entry_map_keys(d, k);
        if entry_map(d).contains_key(k) {
            let i = choose|i: int| 0 <= i < d.len() && (#[trigger] d[i]).0@ == k;
            assert(e[i].0@ != e[e.len() - 1].0@);
        }
        assert(entry_map(e).dom() =~= entry_map(d).dom().insert(k));
    }
}

impl<V> View for IdMap<V> {
    type V = Map<Seq<char>, V>;

    closed spec fn view(&self) -> Map<Seq<char>, V> {
        entry_map(self.entries@)
    }
}

impl<V> IdMap<V> {
    /// Every key is stored once.
    pub closed spec fn wf(&self) -> bool {
        distinct_keys(self.entries@)
    }

    /// The entries in the order in which their keys were first inserted.
    pub closed spec fn listed(&self) -> Seq<(ActionId, V)> {
        self.entries@
    }

    /// The listed entries are the entries of the map.
    pub proof fn lemma_listed(&self)
        requires
            self.wf(),
        ensures
            distinct_keys(self.listed()),
            self@ == entry_map(self.listed()),
            self@.dom().finite(),
            self@.dom().len() == self.listed().len(),
    {
        entry_map_len(self.entries@);
    }

    /// An empty map.
    pub fn new() -> (r: Self)
        ensures
            r.wf(),
            r@ == Map::<Seq<char>, V>::empty(),
            r.listed() == Seq::<(ActionId, V)>::empty(),
    {
        IdMap { entries: Vec::new() }
    }

    /// The position of an id among the entries.
    fn position(&self, id: &ActionId) -> (r: Option<usize>)
        requires
            self.wf(),
        ensures
            r is Some <==> self@.contains_key(id@),
            r matches Some(i) ==> i < self.entries@.len() && self.entries@[i as int].0@ == id@,
    {
        let mut i: usize = 0;
        while i < self.entries.len()
            invariant
                i <= self.entries.len(),
                forall|k: int| 0 <= k < i ==> (#[trigger] self.entries@[k]).0@ != id@,
            decreases self.entries.len() - i,
        {
            if self.entries[i].0.same(id) {
                proof {
                    entry_map_keys(self.entries@, id@);
                }
                return Some(i);
            }
            i = i + 1;
        }
        proof {
            entry_map_keys(self.entries@, id@);
        }
        None
    }

    /// The value stored under `id`.
    pub fn get(&self, id: &ActionId) -> (r: Option<&V>)
        requires
            self.wf(),
        ensures
            r is Some <==> self@.contains_key(id@),
            r matches Some(v) ==> *v == self@[id@],
    {
        match self.position(id) {
            None => None,
            Some(i) => {
                proof {
                    entry_map_value(self.entries@, i as int);
                }
                Some(&self.entries[i].1)
            },
        }
    }

    /// Whether a value is stored under `id`.
    pub fn contains_key(&self, id: &ActionId) -> (r: bool)
        requires
            self.wf(),
        ensures
            r == self@.contains_key(id@),
    {
        self.position(id).is_some()
    }

    /// Stores `value` under `id`, replacing what was there.
    pub fn insert(&mut self, id: ActionId, value: V)
        requires
            old(self).wf(),
        ensures
            final(self).wf(),
            final(self)@ == old(self)@.insert(id@, value),
            !old(self)@.contains_key(id@) ==> final(self).listed() == old(self).listed().push(
                (id, value),
            ),
    {
        let ghost e0 = self.entries@;
        let ghost v0 = value;
        let ghost id0 = id;
        match self.position(&id) {
            Some(i) => {
                self.entries.set(i, (id, value));
                proof {
                    let e = self.entries@;
                    assert(e =~= e0.update(i as int, (id0, v0)));
                    assert(e[i as int].0@ == e0[i as int].0@);
                    assert forall|a: int, b: int|
                        0 <= a < e.len() && 0 <= b < e.len() && a != b implies (#[trigger] e[a]).0@
                        != (#[trigger] e[b]).0@ by {
                        assert(e[a].0@ == e0[a].0@ && e[b].0@ == e0[b].0@);
                        assert(e0[a].0@ != e0[b].0@);
                    }
                    let m = entry_map(e);
                    let m0 = entry_map(e0).insert(id0@, v0);
                    assert forall|k: Seq<char>| m.contains_key(k) <==> m0.contains_key(k) by {
                        entry_map_keys(e, k);
                        entry_map_keys(e0, k);
                        if m.contains_key(k) {
                            let a = choose|a: int| 0 <= a < e.len() && (#[trigger] e[a]).0@ == k;
                            assert(e0[a].0@ == k);
                        }
                        if m0.contains_key(k) && k != id0@ {
                            let a = choose|a: int| 0 <= a < e0.len() && (#[trigger] e0[a]).0@ == k;
                            assert(e[a].0@ == k);
                        }
                        if k == id0@ {
                            assert(e[i as int].0@ == k);
                        }
                    }
                    assert forall|k: Seq<char>| #[trigger] m.contains_key(k) implies m[k] == m0[k] by {
                        entry_map_keys(e, k);
                        let a = choose|a: int| 0 <= a < e.len() && (#[trigger] e[a]).0@ == k;
                        entry_map_value(e, a);
                        entry_map_value(e0, a);
                        if a != i {
                            assert(e[a] == e0[a]);
                            assert(e[a].0@ != e[i as int].0@);
                        }
                    }
                    assert(m =~= m0);
                }
            },
            None => {
                self.entries.push((id, value));
                proof {
                    let e = self.entries@;
                    assert(e =~= e0.push((id0, v0)));
                    entry_map_keys(e0, id0@);
                    assert forall|a: int, b: int|
                        0 <= a < e.len() && 0 <= b < e.len() && a != b implies (#[trigger] e[a]).0@
                        != (#[trigger] e[b]).0@ by {
                        if a < e0.len() && b < e0.len() {
                            assert(e[a] == e0[a] && e[b] == e0[b]);
                        } else if a < e0.len() {
                            assert(e[a] == e0[a]);
                            assert(e0[a].0@ != id0@);
                        } else {
                            assert(e[b] == e0[b]);
                            assert(e0[b].0@ != id0@);
                        }
                    }
                    assert(e.drop_last() =~= e0);
                }
            },
        }
    }

    /// Removes what is stored under `id`.
    pub fn remove(&mut self, id: &ActionId)
        requires
            old(self).wf(),
        ensures
            final(self).wf(),
            final(self)@ == old(self)@.remove(id@),
    {
        let ghost e0 = self.entries@;
        match self.position(id) {
            None => {
                assert(self@ =~= old(self)@.remove(id@));
            },
            Some(i) => {
                let _ = self.entries.remove(i);
                proof {
                    let e = self.entries@;
                    assert(e =~= e0.remove(i as int));
                    assert forall|a: int, b: int|
                        0 <= a < e.len() && 0 <= b < e.len() && a != b implies (#[trigger] e[a]).0@
                        != (#[trigger] e[b]).0@ by {
                        let a0 = if a < i {
                            a
                        } else {
                            a + 1
                        };
                        let b0 = if b < i {
                            b
                        } else {
                            b + 1
                        };
                        assert(e[a] == e0[a0] && e[b] == e0[b0]);
                        assert(e0[a0].0@ != e0[b0].0@);
                    }
                    let m = entry_map(e);
                    let m0 = entry_map(e0).remove(id@);
                    assert forall|k: Seq<char>| m.contains_key(k) <==> m0.contains_key(k) by {
                        entry_map_keys(e, k);
                        entry_map_keys(e0, k);
                        if m.contains_key(k) {
                            let a = choose|a: int| 0 <= a < e.len() && (#[trigger] e[a]).0@ == k;
                            let a0 = if a < i {
                                a
                            } else {
                                a + 1
                            };
                            assert(e0[a0] == e[a]);
                            assert(e0[a0].0@ != e0[i as int].0@);
                        }
                        if m0.contains_key(k) {
                            let a = choose|a: int| 0 <= a < e0.len() && (#[trigger] e0[a]).0@ == k;
                            let a1 = if a < i {
                                a
                            } else {
                                a - 1
                            };
                            assert(e[a1] == e0[a]);
                        }
                    }
                    assert forall|k: Seq<char>| #[trigger] m.contains_key(k) implies m[k] == m0[k] by {
                        entry_map_keys(e, k);
                        let a = choose|a: int| 0 <= a < e.len() && (#[trigger] e[a]).0@ == k;
                        let a0 = if a < i {
                            a
                        } else {
                            a + 1
                        };
                        assert(e0[a0] == e[a]);
                        entry_map_value(e, a);
                        entry_map_value(e0, a0);
                    }
                    assert(m =~= m0);
                }
            },
        }
    }

    /// How many ids have a value.
    pub fn len(&self) -> (r: usize)
        requires
            self.wf(),
        ensures
            r == self@.dom().len(),
    {
        proof {
            entry_map_len(self.entries@);
        }
        self.entries.len()
    }

    /// Whether no id has a value.
    pub fn is_empty(&self) -> (r: bool)
        requires
            self.wf(),
        ensures
            r == (self@.dom().len() == 0),
    {
        self.len() == 0
    }

    /// The entries in the order in which their keys were first inserted.
    pub fn entries(&self) -> (r: &Vec<(ActionId, V)>)
        ensures
            r@ == self.listed(),
    {
        &self.entries
    }

    /// The ids that have a value, in the order of insertion.
    pub fn keys(&self) -> (r: Vec<ActionId>)
        requires
            self.wf(),
        ensures
            types::id_views(r@).no_duplicates(),
            types::id_views(r@).to_set() == self@.dom(),
            r@.len() == self.listed().len(),
            forall|i: int| 0 <= i < r@.len() ==> #[trigger] r@[i] == self.listed()[i].0,
    {
        let mut r: Vec<ActionId> = Vec::new();
        let mut i: usize = 0;
        while i < self.entries.len()
            invariant
                i <= self.entries.len(),
                r.len() == i,
                forall|k: int| 0 <= k < i ==> #[trigger] r@[k] == self.entries@[k].0,
            decreases self.entries.len() - i,
        {
            r.push(self.entries[i].0.clone());
            i = i + 1;
        }
        proof {
            let e = self.entries@;
            let v = types::id_views(r@);
            assert forall|a: int, b: int|
                0 <= a < v.len() && 0 <= b < v.len() && a != b implies v[a] != v[b] by {
                assert(v[a] == e[a].0@ && v[b] == e[b].0@);
            }
            assert forall|k: Seq<char>| v.to_set().contains(k) <==> self@.dom().contains(k) by {
                entry_map_keys(e, k);
                if v.contains(k) {
                    let a = choose|a: int| 0 <= a < v.len() && v[a] == k;
                    assert(e[a].0@ == k);
                }
                if self@.contains_key(k) {
                    let a = choose|a: int| 0 <= a < e.len() && (#[trigger] e[a]).0@ == k;
                    assert(v[a] == k);
                }
            }
            assert(v.to_set() =~= self@.dom());
        }
        r
    }
}

} // verus!
