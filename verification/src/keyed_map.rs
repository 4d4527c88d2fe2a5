//! A small map over keys that can be compared by their views, kept as a vector of entries.
//! The players of a physics world, the clients of a server socket and the rooms of the
//! signalling server are all kept in one.

use vstd::prelude::*;
use crate::address::SocketAddress;
use crate::player::PlayerId;

verus! {

/// A key that the map compares and copies by its view.
pub trait MapKey: View + Sized {
    fn same_key(&self, other: &Self) -> (same: bool)
        ensures
            same == (self@ == other@);

    fn copy_key(&self) -> (copy: Self)
        ensures
            copy@ == self@;
}

impl View for PlayerId {
    type V = PlayerId;

    open spec fn view(&self) -> PlayerId {
        *self
    }
}

impl View for SocketAddress {
    type V = SocketAddress;

    open spec fn view(&self) -> SocketAddress {
        *self
    }
}

impl MapKey for PlayerId {
    fn same_key(&self, other: &Self) -> (same: bool) {
        self.0 == other.0
    }

    fn copy_key(&self) -> (copy: Self) {
        *self
    }
}

impl MapKey for SocketAddress {
    fn same_key(&self, other: &Self) -> (same: bool) {
        *self == *other
    }

    fn copy_key(&self) -> (copy: Self) {
        *self
    }
}

impl MapKey for String {
    fn same_key(&self, other: &Self) -> (same: bool) {
        *self == *other
    }

    fn copy_key(&self) -> (copy: Self) {
        self.clone()
    }
}

/// Whether some key in the vector has the given view.
pub fn contains_key_view<K: MapKey>(keys: &Vec<K>, key: &K) -> (found: bool)
    ensures
        found == exists|j: int| 0 <= j < keys.len() && #[trigger] keys[j]@ == key@,
{
    let mut j: usize = 0;
    while j < keys.len()
        invariant
            j <= keys.len(),
            forall|m: int| 0 <= m < j ==> #[trigger] keys[m]@ != key@,
        decreases keys.len() - j,
    {
        if keys[j].same_key(key) {
            return true;
        }
        j = j + 1;
    }
    false
}

/// A map from keys to values.
pub struct KeyedMap<K: MapKey, V> {
    entries: Vec<(K, V)>,
    map: Ghost<Map<K::V, V>>,
}

impl<K: MapKey, V> View for KeyedMap<K, V> {
    type V = Map<K::V, V>;

    closed spec fn view(&self) -> Map<K::V, V> {
        self.map@
    }
}

impl<K: MapKey, V> KeyedMap<K, V> {
    /// The keys in the order the entries are kept.
    pub closed spec fn key_views(&self) -> Seq<K::V> {
        self.entries@.map_values(|e: (K, V)| e.0@)
    }

    /// The entries agree with the map: each entry is in the map, keys are distinct, and
    /// every key of the map has an entry.
    pub closed spec fn wf(&self) -> bool {
        &&& forall|i: int| 0 <= i < self.entries.len() ==> #[trigger] self.map@.contains_key(self.entries[i].0@)
            && self.map@[self.entries[i].0@] == self.entries[i].1
        &&& forall|i: int, j: int| 0 <= i < self.entries.len() && 0 <= j < self.entries.len() && i != j
            ==> #[trigger] self.entries[i].0@ != #[trigger] self.entries[j].0@
        &&& forall|k: K::V| #[trigger] self.map@.contains_key(k) ==> exists|i: int| 0 <= i < self.entries.len()
            && #[trigger] self.entries[i].0@ == k
    }

    /// The key views list each key of the map exactly once.
    pub proof fn lemma_key_views(&self)
        requires
            self.wf(),
        ensures
            self.key_views().no_duplicates(),
            self.key_views().to_set() == self@.dom(),
            self.key_views().len() == self@.dom().len(),
    {
        let ks = self.key_views();
        assert forall|i: int, j: int| 0 <= i < ks.len() && 0 <= j < ks.len() && i != j implies ks[i] != ks[j] by {
            assert(ks[i] == self.entries[i].0@);
            assert(ks[j] == self.entries[j].0@);
        }
        assert forall|k: K::V| ks.to_set().contains(k) <==> self@.dom().contains(k) by {
            if ks.to_set().contains(k) {
                let i = choose|i: int| 0 <= i < ks.len() && #[trigger] ks[i] == k;
                assert(ks[i] == self.entries[i].0@);
            }
            if self@.dom().contains(k) {
                let i = choose|i: int| 0 <= i < self.entries.len() && #[trigger] self.entries[i].0@ == k;
                assert(ks[i] == k);
                assert(ks.contains(k));
            }
        }
        assert(ks.to_set() =~= self@.dom());
        ks.unique_seq_to_set();
    }

    /// An empty map.
    pub fn new() -> (map: Self)
        ensures
            map.wf(),
            map@ == Map::<K::V, V>::empty(),
    {
        KeyedMap { entries: Vec::new(), map: Ghost(Map::empty()) }
    }

    /// The number of keys.
    pub fn len(&self) -> (count: usize)
        requires
            self.wf(),
        ensures
            count == self@.dom().len(),
    {
        proof {
            self.lemma_key_views();
        }
        self.entries.len()
    }

    fn find(&self, key: &K) -> (found: Option<usize>)
        requires
            self.wf(),
        ensures
            match found {
                Some(i) => i < self.entries.len() && self.entries[i as int].0@ == key@,
                None => !self@.contains_key(key@),
            },
    {
        let mut i: usize = 0;
        while i < self.entries.len()
            invariant
                self.wf(),
                i <= self.entries.len(),
                forall|m: int| 0 <= m < i ==> #[trigger] self.entries[m].0@ != key@,
            decreases self.entries.len() - i,
        {
            if self.entries[i].0.same_key(key) {
                return Some(i);
            }
            i = i + 1;
        }
        proof {
            if self@.contains_key(key@) {
                let j = choose|j: int| 0 <= j < self.entries.len() && #[trigger] self.entries[j].0@ == key@;
            }
        }
        None
    }

    /// Whether the key is in the map.
    pub fn contains_key(&self, key: &K) -> (found: bool)
        requires
            self.wf(),
        ensures
            found == self@.contains_key(key@),
    {
        match self.find(key) {
            Some(_) => true,
            None => false,
        }
    }

    /// The value under the key, if any.
    pub fn get(&self, key: &K) -> (value: Option<&V>)
        requires
            self.wf(),
        ensures
            match value {
                Some(v) => self@.contains_key(key@) && *v == self@[key@],
                None => !self@.contains_key(key@),
            },
    {
        match self.find(key) {
            Some(i) => {
                proof {
                    assert(self.map@.contains_key(self.entries[i as int].0@));
                }
                Some(&self.entries[i].1)
            },
            None => None,
        }
    }

    /// Takes the entry at a position out of the vector and the map.
    fn take_at(&mut self, i: usize) -> (entry: (K, V))
        requires
            old(self).wf(),
            i < old(self).entries.len(),
        ensures
            final(self).wf(),
            final(self).entries@ == old(self).entries@.remove(i as int),
            entry.0@ == old(self).entries[i as int].0@,
            old(self)@.contains_key(entry.0@),
            entry.1 == old(self)@[entry.0@],
            final(self)@ == old(self)@.remove(entry.0@),
    {
        let ghost old_entries = self.entries@;
        let ghost old_map = self.map@;
        let ghost k = old_entries[i as int].0@;
        let entry = self.entries.remove(i);
        self.map = Ghost(old_map.remove(k));
        proof {
            assert(old_entries[i as int] == entry);
            assert(old_map.contains_key(old_entries[i as int].0@));
            let n = self.entries.len();
            assert forall|a: int| 0 <= a < n implies #[trigger] self.map@.contains_key(self.entries[a].0@)
                && self.map@[self.entries[a].0@] == self.entries[a].1 by {
                let b = if a < i { a } else { a + 1 };
                assert(self.entries[a] == old_entries[b]);
                assert(old_map.contains_key(old_entries[b].0@));
                assert(old_entries[b].0@ != old_entries[i as int].0@);
            }
            assert forall|a: int, c: int| 0 <= a < n && 0 <= c < n && a != c
                implies #[trigger] self.entries[a].0@ != #[trigger] self.entries[c].0@ by {
                let a2 = if a < i { a } else { a + 1 };
                let c2 = if c < i { c } else { c + 1 };
                assert(self.entries[a] == old_entries[a2]);
                assert(self.entries[c] == old_entries[c2]);
            }
            assert forall|q: K::V| #[trigger] self.map@.contains_key(q) implies exists|a: int| 0 <= a < n
                && #[trigger] self.entries[a].0@ == q by {
                let b = choose|b: int| 0 <= b < old_entries.len() && #[trigger] old_entries[b].0@ == q;
                assert(b != i);
                let a = if b < i { b } else { b - 1 };
                assert(self.entries[a] == old_entries[b]);
            }
        }
        entry
    }

    /// Adds an entry under a key that is not yet in the map.
    fn push_new(&mut self, key: K, value: V)
        requires
            old(self).wf(),
            !old(self)@.contains_key(key@),
        ensures
            final(self).wf(),
            final(self)@ == old(self)@.insert(key@, value),
    {
        let ghost old_entries = self.entries@;
        let ghost old_map = self.map@;
        let ghost kv = key@;
        let ghost vv = value;
        self.entries.push((key, value));
        self.map = Ghost(old_map.insert(kv, vv));
        proof {
            let n = self.entries.len();
            assert(self.entries[n - 1].0@ == kv);
            assert forall|a: int| 0 <= a < n implies #[trigger] self.map@.contains_key(self.entries[a].0@)
                && self.map@[self.entries[a].0@] == self.entries[a].1 by {
                if a < n - 1 {
                    assert(self.entries[a] == old_entries[a]);
                }
            }
            assert forall|a: int, c: int| 0 <= a < n && 0 <= c < n && a != c
                implies #[trigger] self.entries[a].0@ != #[trigger] self.entries[c].0@ by {
                if a < n - 1 {
                    assert(self.entries[a] == old_entries[a]);
                    assert(old_map.contains_key(old_entries[a].0@));
                }
                if c < n - 1 {
                    assert(self.entries[c] == old_entries[c]);
                    assert(old_map.contains_key(old_entries[c].0@));
                }
            }
            assert forall|q: K::V| #[trigger] self.map@.contains_key(q) implies exists|a: int| 0 <= a < n
                && #[trigger] self.entries[a].0@ == q by {
                if q == kv {
                    assert(self.entries[n - 1].0@ == q);
                } else {
                    let b = choose|b: int| 0 <= b < old_entries.len() && #[trigger] old_entries[b].0@ == q;
                    assert(self.entries[b] == old_entries[b]);
                }
            }
        }
    }

    /// Puts a value under a key and gives back the value it replaces, if any.
    pub fn insert(&mut self, key: K, value: V) -> (previous: Option<V>)
        requires
            old(self).wf(),
        ensures
            final(self).wf(),
            final(self)@ == old(self)@.insert(key@, value),
            match previous {
                Some(v) => old(self)@.contains_key(key@) && v == old(self)@[key@],
                None => !old(self)@.contains_key(key@),
            },
    {
        match self.find(&key) {
            Some(i) => {
                let entry = self.take_at(i);
                self.push_new(key, value);
                proof {
                    assert(self@ =~= old(self)@.insert(key@, value));
                }
                Some(entry.1)
            },
            None => {
                self.push_new(key, value);
                None
            },
        }
    }

    /// Removes a key and gives back its value, if it was in the map.
    pub fn remove(&mut self, key: &K) -> (removed: Option<V>)
        requires
            old(self).wf(),
        ensures
            final(self).wf(),
            final(self)@ == old(self)@.remove(key@),
            match removed {
                Some(v) => old(self)@.contains_key(key@) && v == old(self)@[key@],
                None => !old(self)@.contains_key(key@),
            },
    {
        match self.find(key) {
            Some(i) => {
                let entry = self.take_at(i);
                Some(entry.1)
            },
            None => {
                proof {
                    assert(self@.remove(key@) =~= self@);
                }
                None
            },
        }
    }

    /// Copies of the keys, each once.
    pub fn keys(&self) -> (keys: Vec<K>)
        requires
            self.wf(),
        ensures
            keys@.map_values(|k: K| k@) == self.key_views(),
            self.key_views().to_set() == self@.dom(),
            self.key_views().no_duplicates(),
    {
        proof {
            self.lemma_key_views();
        }
        let mut keys: Vec<K> = Vec::new();
        let mut i: usize = 0;
        while i < self.entries.len()
            invariant
                i <= self.entries.len(),
                keys.len() == i,
                forall|j: int| 0 <= j < i ==> #[trigger] keys[j]@ == self.entries[j].0@,
            decreases self.entries.len() - i,
        {
            keys.push(self.entries[i].0.copy_key());
            i = i + 1;
        }
        proof {
            assert(keys@.map_values(|k: K| k@) =~= self.key_views());
        }
        keys
    }

    /// Keeps only the keys that appear in `keep` and gives back the entries it removed.
    pub fn retain_keys(&mut self, keep: &Vec<K>) -> (removed: Vec<(K, V)>)
        requires
            old(self).wf(),
        ensures
            final(self).wf(),
            final(self)@ == old(self)@.restrict(keep@.map_values(|k: K| k@).to_set()),
            forall|j: int| 0 <= j < removed.len() ==> #[trigger] old(self)@.contains_key(removed[j].0@)
                && old(self)@[removed[j].0@] == removed[j].1
                && !keep@.map_values(|k: K| k@).contains(removed[j].0@),
            removed@.map_values(|e: (K, V)| e.0@).to_set()
                == old(self)@.dom().difference(keep@.map_values(|k: K| k@).to_set()),
    {
        let ghost keep_set = keep@.map_values(|k: K| k@).to_set();
        let ghost old_map = self@;
        let mut removed: Vec<(K, V)> = Vec::new();
        let mut i: usize = 0;
        while i < self.entries.len()
            invariant
                self.wf(),
                i <= self.entries.len(),
                keep_set == keep@.map_values(|k: K| k@).to_set(),
                forall|j: int| 0 <= j < i ==> keep_set.contains(#[trigger] self.entries[j].0@),
                forall|k: K::V| #[trigger] self@.contains_key(k) ==> old_map.contains_key(k) && self@[k] == old_map[k],
                forall|j: int| 0 <= j < removed.len() ==> old_map.contains_key(#[trigger] removed[j].0@)
                    && old_map[removed[j].0@] == removed[j].1 && !keep_set.contains(removed[j].0@)
                    && !self@.contains_key(removed[j].0@),
                forall|k: K::V| #[trigger] old_map.contains_key(k) && !self@.contains_key(k)
                    ==> exists|j: int| 0 <= j < removed.len() && #[trigger] removed[j].0@ == k,
            decreases self.entries.len() - i,
        {
            if contains_key_view(keep, &self.entries[i].0) {
                proof {
                    let j = choose|j: int| 0 <= j < keep.len() && #[trigger] keep[j]@ == self.entries[i as int].0@;
                    assert(keep@.map_values(|k: K| k@)[j] == self.entries[i as int].0@);
                }
                i = i + 1;
            } else {
                proof {
                    let kv = keep@.map_values(|k: K| k@);
                    if keep_set.contains(self.entries[i as int].0@) {
                        let j = choose|j: int| 0 <= j < kv.len() && #[trigger] kv[j] == self.entries[i as int].0@;
                        assert(keep[j]@ == self.entries[i as int].0@);
                    }
                    assert(!keep_set.contains(self.entries[i as int].0@));
                }
                let ghost before = self@;
                let ghost before_entries = self.entries@;
                let entry = self.take_at(i);
                let ghost removed_before = removed@;
                removed.push(entry);
                proof {
                    assert(before.contains_key(entry.0@));
                    assert(old_map.contains_key(entry.0@) && old_map[entry.0@] == entry.1);
                    assert forall|j: int| 0 <= j < i implies keep_set.contains(#[trigger] self.entries[j].0@) by {
                        assert(self.entries[j] == before_entries[j]);
                    }
                    assert forall|j: int| 0 <= j < removed.len() implies old_map.contains_key(#[trigger] removed[j].0@)
                        && old_map[removed[j].0@] == removed[j].1 && !keep_set.contains(removed[j].0@)
                        && !self@.contains_key(removed[j].0@) by {
                        if j < removed.len() - 1 {
                            assert(removed[j] == removed_before[j]);
                            assert(old_map.contains_key(removed_before[j].0@));
                        } else {
                            assert(removed[j] == entry);
                        }
                    }
                    assert forall|k: K::V| #[trigger] old_map.contains_key(k) && !self@.contains_key(k)
                        implies exists|j: int| 0 <= j < removed.len() && #[trigger] removed[j].0@ == k by {
                        if k == entry.0@ {
                            assert(removed[removed.len() - 1].0@ == k);
                        } else {
                            let j = choose|j: int| 0 <= j < removed_before.len() && #[trigger] removed_before[j].0@ == k;
                            assert(removed[j] == removed_before[j]);
                        }
                    }
                }
            }
        }
        proof {
            assert forall|k: K::V| #[trigger] self@.contains_key(k) <==> old_map.contains_key(k) && keep_set.contains(k) by {
                if self@.contains_key(k) {
                    let j = choose|j: int| 0 <= j < self.entries.len() && #[trigger] self.entries[j].0@ == k;
                }
                if old_map.contains_key(k) && keep_set.contains(k) && !self@.contains_key(k) {
                    let j = choose|j: int| 0 <= j < removed.len() && #[trigger] removed[j].0@ == k;
                }
            }
            assert(self@ =~= old_map.restrict(keep_set));
            let rk = removed@.map_values(|e: (K, V)| e.0@);
            assert forall|k: K::V| rk.to_set().contains(k) <==> old_map.dom().difference(keep_set).contains(k) by {
                if rk.to_set().contains(k) {
                    let j = choose|j: int| 0 <= j < rk.len() && #[trigger] rk[j] == k;
                    assert(removed[j].0@ == k);
                }
                if old_map.dom().difference(keep_set).contains(k) {
                    assert(!self@.contains_key(k));
                    let j = choose|j: int| 0 <= j < removed.len() && #[trigger] removed[j].0@ == k;
                    assert(rk[j] == k);
                    assert(rk.contains(k));
                }
            }
            assert(rk.to_set() =~= old_map.dom().difference(keep_set));
        }
        removed
    }
}

} // verus!
