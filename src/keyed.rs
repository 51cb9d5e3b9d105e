//! A small map from copyable keys to values, kept as a list of entries with
//! distinct keys.

use vstd::prelude::*;
use crate::border::{Line, Symbol};
use crate::style::{entity_covers, Entity};

verus! {

/// A key whose equality can be tested at run time.
pub trait MapKey: Sized {
    fn same(&self, other: &Self) -> (r: bool)
        ensures
            r == (*self == *other);
}

impl MapKey for usize {
    fn same(&self, other: &Self) -> (r: bool) {
        *self == *other
    }
}

impl MapKey for (usize, usize) {
    fn same(&self, other: &Self) -> (r: bool) {
        self.0 == other.0 && self.1 == other.1
    }
}

impl MapKey for Entity {
    fn same(&self, other: &Self) -> (r: bool) {
        *self == *other
    }
}

/// A finite map kept as entries with pairwise distinct keys.
pub struct KeyedMap<K, V> {
    entries: Vec<(K, V)>,
}

/// No key occurs twice among `entries`.
pub open spec fn distinct_keys<K, V>(entries: Seq<(K, V)>) -> bool {
    forall|i: int, j: int| 0 <= i < j < entries.len() ==> entries[i].0 != entries[j].0
}

/// The map that `entries` stand for.
pub open spec fn entries_map<K, V>(entries: Seq<(K, V)>) -> Map<K, V> {
    Map::new(
        |k: K| exists|i: int| 0 <= i < entries.len() && entries[i].0 == k,
        |k: K| entries[choose|i: int| 0 <= i < entries.len() && entries[i].0 == k].1,
    )
}

proof fn lemma_entry<K, V>(entries: Seq<(K, V)>, i: int)
    requires
        distinct_keys(entries),
        0 <= i < entries.len(),
    ensures
        entries_map(entries).contains_key(entries[i].0),
        entries_map(entries)[entries[i].0] == entries[i].1,
{
    let k = entries[i].0;
    assert(entries_map(entries).dom().contains(k));
    let j = choose|j: int| 0 <= j < entries.len() && entries[j].0 == k;
    assert(entries[j].0 == k);
}

impl<K: MapKey, V> KeyedMap<K, V> {
    /// No key occurs twice.
    pub closed spec fn wf(&self) -> bool {
        distinct_keys(self.entries@)
    }

    /// The map the entries stand for.
    pub closed spec fn view(&self) -> Map<K, V> {
        entries_map(self.entries@)
    }

    /// The empty map.
    pub fn new() -> (r: Self)
        ensures
            r.wf(),
            r.view() == Map::<K, V>::empty(),
    {
        let r = KeyedMap { entries: Vec::new() };
        assert(r.view() =~= Map::<K, V>::empty());
        r
    }

    fn find(&self, k: &K) -> (r: Option<usize>)
        requires
            self.wf(),
        ensures
            match r {
                Some(i) => i < self.entries@.len() && self.entries@[i as int].0 == *k,
                None => !self.view().contains_key(*k),
            },
    {
        let mut i: usize = 0;
        while i < self.entries.len()
            invariant
                i <= self.entries@.len(),
                forall|j: int| 0 <= j < i ==> self.entries@[j].0 != *k,
            decreases self.entries.len() - i,
        {
            if self.entries[i].0.same(k) {
                return Some(i);
            }
            i = i + 1;
        }
        None
    }

    /// The value at `k`, if any.
    pub fn get(&self, k: &K) -> (r: Option<&V>)
        requires
            self.wf(),
        ensures
            match r {
                Some(v) => self.view().contains_key(*k) && *v == self.view()[*k],
                None => !self.view().contains_key(*k),
            },
    {
        match self.find(k) {
            Some(i) => {
                proof {
                    lemma_entry(self.entries@, i as int);
                }
                Some(&self.entries[i].1)
            },
            None => None,
        }
    }

    /// Sets the value at `k`.
    pub fn insert(&mut self, k: K, v: V)
        requires
            old(self).wf(),
        ensures
            final(self).wf(),
            final(self).view() == old(self).view().insert(k, v),
    {
        let ghost old_map = self.view();
        match self.find(&k) {
            Some(i) => {
                let ghost old_entries = self.entries@;
                self.entries.set(i, (k, v));
                proof {
                    assert forall|k2: K| #[trigger] self.view().contains_key(k2) <==> old_map.insert(k, v).contains_key(k2) by {
                        if old_map.contains_key(k2) {
                            let j = choose|j: int| 0 <= j < old_entries.len() && old_entries[j].0 == k2;
                            assert(self.entries@[j].0 == k2);
                        }
                        if self.view().contains_key(k2) {
                            let j = choose|j: int| 0 <= j < self.entries@.len() && self.entries@[j].0 == k2;
                            if j != i {
                                assert(old_entries[j].0 == k2);
                            }
                        }
                    }
                    assert forall|k2: K| #[trigger] self.view().contains_key(k2) implies self.view()[k2] == old_map.insert(k, v)[k2] by {
                        let j = choose|j: int| 0 <= j < self.entries@.len() && self.entries@[j].0 == k2;
                        lemma_entry(self.entries@, j);
                        if j != i {
                            assert(old_entries[j] == self.entries@[j]);
                            lemma_entry(old_entries, j);
                        }
                    }
                    assert(self.view() =~= old_map.insert(k, v));
                }
            },
            None => {
                let ghost old_entries = self.entries@;
                self.entries.push((k, v));
                proof {
                    let n = old_entries.len() as int;
                    assert forall|k2: K| #[trigger] self.view().contains_key(k2) <==> old_map.insert(k, v).contains_key(k2) by {
                        if old_map.contains_key(k2) {
                            let j = choose|j: int| 0 <= j < old_entries.len() && old_entries[j].0 == k2;
                            assert(self.entries@[j].0 == k2);
                        }
                        if k2 == k {
                            assert(self.entries@[n].0 == k2);
                        }
                        if self.view().contains_key(k2) && k2 != k {
                            let j = choose|j: int| 0 <= j < self.entries@.len() && self.entries@[j].0 == k2;
                            assert(old_entries[j].0 == k2);
                        }
                    }
                    assert forall|k2: K| #[trigger] self.view().contains_key(k2) implies self.view()[k2] == old_map.insert(k, v)[k2] by {
                        let j = choose|j: int| 0 <= j < self.entries@.len() && self.entries@[j].0 == k2;
                        lemma_entry(self.entries@, j);
                        if j != n {
                            assert(old_entries[j] == self.entries@[j]);
                            lemma_entry(old_entries, j);
                        }
                    }
                    assert(self.view() =~= old_map.insert(k, v));
                }
            },
        }
    }
}


impl<V> KeyedMap<Entity, V> {
    /// Removes the entries whose keys `e` covers.
    pub fn remove_covered(&mut self, e: Entity)
        requires
            old(self).wf(),
        ensures
            final(self).wf(),
            forall|k: Entity|
                #[trigger] final(self).view().contains_key(k) == (old(self).view().contains_key(k)
                    && !entity_covers(e, k)),
            forall|k: Entity|
                #[trigger] final(self).view().contains_key(k) ==> final(self).view()[k]
                    == old(self).view()[k],
    {
        let ghost old_entries = self.entries@;
        let mut kept: Vec<(Entity, V)> = Vec::new();
        let mut rest: Vec<(Entity, V)> = Vec::new();
        std::mem::swap(&mut rest, &mut self.entries);
        let ghost n = old_entries.len();
        let ghost mut src: Seq<int> = Seq::empty();
        while rest.len() > 0
            invariant
                rest@ == old_entries.take(rest@.len() as int),
                rest@.len() <= n,
                n == old_entries.len(),
                distinct_keys(old_entries),
                distinct_keys(kept@),
                src.len() == kept@.len(),
                forall|j: int|
                    0 <= j < kept@.len() ==> rest@.len() <= #[trigger] src[j] < n && old_entries[src[j]]
                        == kept@[j] && !entity_covers(e, old_entries[src[j]].0),
                forall|i: int|
                    rest@.len() <= i < n && !entity_covers(e, #[trigger] old_entries[i].0) ==> exists|j: int|
                        0 <= j < kept@.len() && src[j] == i,
            decreases rest@.len(),
        {
            let ghost at = rest@.len() - 1;
            let item = rest.pop().unwrap();
            assert(item == old_entries[at]);
            assert(rest@ =~= old_entries.take(rest@.len() as int));
            let covered = item.0.covered_by(&e);
            if !covered {
                proof {
                    assert forall|j: int| 0 <= j < kept@.len() implies kept@[j].0 != item.0 by {
                        assert(src[j] != at);
                    }
                }
                let ghost before = kept@;
                let ghost before_src = src;
                kept.push(item);
                proof {
                    src = src.push(at);
                    assert forall|i: int|
                        rest@.len() <= i < n && !entity_covers(e, #[trigger] old_entries[i].0) implies exists|j: int|
                            0 <= j < kept@.len() && src[j] == i by {
                        if i == at {
                            assert(src[before.len() as int] == i);
                        } else {
                            let j = choose|j: int| 0 <= j < before.len() && before_src[j] == i;
                            assert(src[j] == i);
                        }
                    }
                }
            }
        }
        self.entries = kept;
        proof {
            assert forall|k: Entity|
                #[trigger] self.view().contains_key(k) == (entries_map(old_entries).contains_key(k)
                    && !entity_covers(e, k)) by {
                if self.view().contains_key(k) {
                    let j = choose|j: int| 0 <= j < self.entries@.len() && self.entries@[j].0 == k;
                    assert(old_entries[src[j]].0 == k);
                }
                if entries_map(old_entries).contains_key(k) && !entity_covers(e, k) {
                    let i = choose|i: int| 0 <= i < old_entries.len() && old_entries[i].0 == k;
                    let j = choose|j: int| 0 <= j < self.entries@.len() && src[j] == i;
                    assert(self.entries@[j].0 == k);
                }
            }
            assert forall|k: Entity| #[trigger] self.view().contains_key(k) implies self.view()[k]
                == entries_map(old_entries)[k] by {
                let j = choose|j: int| 0 <= j < self.entries@.len() && self.entries@[j].0 == k;
                lemma_entry(self.entries@, j);
                lemma_entry(old_entries, src[j]);
            }
        }
    }
}


impl KeyedMap<(usize, usize), Symbol> {
    /// A copy of the map.
    pub fn copy(&self) -> (r: Self)
        requires
            self.wf(),
        ensures
            r.wf(),
            r.view() == self.view(),
    {
        let mut entries: Vec<((usize, usize), Symbol)> = Vec::new();
        let mut i: usize = 0;
        while i < self.entries.len()
            invariant
                i <= self.entries@.len(),
                entries@ == self.entries@.take(i as int),
            decreases self.entries@.len() - i,
        {
            let k = (self.entries[i].0.0, self.entries[i].0.1);
            let v = self.entries[i].1.clone();
            entries.push((k, v));
            i = i + 1;
            assert(entries@ =~= self.entries@.take(i as int));
        }
        assert(entries@ =~= self.entries@);
        KeyedMap { entries }
    }
}

impl KeyedMap<usize, Line> {
    /// A copy of the map.
    pub fn copy(&self) -> (r: Self)
        requires
            self.wf(),
        ensures
            r.wf(),
            r.view() == self.view(),
    {
        let mut entries: Vec<(usize, Line)> = Vec::new();
        let mut i: usize = 0;
        while i < self.entries.len()
            invariant
                i <= self.entries@.len(),
                entries@ == self.entries@.take(i as int),
            decreases self.entries@.len() - i,
        {
            let k = self.entries[i].0;
            let v = self.entries[i].1.clone();
            entries.push((k, v));
            i = i + 1;
            assert(entries@ =~= self.entries@.take(i as int));
        }
        assert(entries@ =~= self.entries@);
        KeyedMap { entries }
    }
}

} // verus!
