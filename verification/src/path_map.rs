//! Maps and sets that are keyed by path.
use crate::path::{FilePath, PathView};
use vstd::prelude::*;

verus! {

/// A map from paths to values.
#[derive(Debug)]
pub struct PathMap<V> {
    keys: Vec<FilePath>,
    values: Vec<V>,
}

impl<V> View for PathMap<V> {
    type V = Map<PathView, V>;

    closed spec fn view(&self) -> Map<PathView, V> {
        Map::new(
            |key: PathView| self.key_views().contains(key),
            |key: PathView| self.values@[self.key_views().index_of(key)],
        )
    }
}

impl<V> PathMap<V> {
    spec fn key_views(&self) -> Seq<PathView> {
        Seq::new(self.keys@.len(), |i: int| self.keys@[i]@)
    }

    /// No path occurs twice, and each has a value.
    pub closed spec fn wf(&self) -> bool {
        &&& self.keys@.len() == self.values@.len()
        &&& self.key_views().no_duplicates()
    }

    /// Each key stands at one place, and the value at that place is its value.
    proof fn lemma_place(&self, i: int)
        requires
            self.wf(),
            0 <= i < self.keys@.len(),
        ensures
            self@.contains_key(self.keys@[i]@),
            self@[self.keys@[i]@] == self.values@[i],
    {
        let keys = self.key_views();
        assert(keys[i] == self.keys@[i]@);
        assert(keys.contains(keys[i]));
        let j = keys.index_of(keys[i]);
        assert(keys[j] == keys[i]);
    }

    /// A key stands at some place.
    proof fn lemma_key(&self, key: PathView)
        requires
            self.wf(),
            self@.contains_key(key),
        ensures
            0 <= self.key_views().index_of(key) < self.keys@.len(),
            self.keys@[self.key_views().index_of(key)]@ == key,
            self@[key] == self.values@[self.key_views().index_of(key)],
    {
        let i = self.key_views().index_of(key);
        assert(self.key_views()[i] == key);
    }

    /// The view is the one map that has the keys, each with its value.
    proof fn lemma_view(&self, map: Map<PathView, V>)
        requires
            self.wf(),
            forall|i: int|
                0 <= i < self.keys@.len() ==> map.contains_key((#[trigger] self.keys@[i])@)
                    && map[self.keys@[i]@] == self.values@[i],
            forall|key: PathView| #[trigger]
                map.contains_key(key) ==> exists|i: int|
                    0 <= i < self.keys@.len() && (#[trigger] self.keys@[i])@ == key,
        ensures
            self@ == map,
    {
        assert forall|key: PathView| self@.contains_key(key) == map.contains_key(key) by {
            if self@.contains_key(key) {
                self.lemma_key(key);
            }
            if map.contains_key(key) {
                let i = choose|i: int|
                    0 <= i < self.keys@.len() && (#[trigger] self.keys@[i])@ == key;
                self.lemma_place(i);
            }
        }
        assert forall|key: PathView| self@.contains_key(key) implies self@[key] == map[key] by {
            self.lemma_key(key);
        }
        assert(self@ =~= map);
    }

    /// To change the value at one place is to change the value of its key.
    proof fn lemma_update(&self, i: int, value: V, changed: PathMap<V>)
        requires
            self.wf(),
            0 <= i < self.keys@.len(),
            changed.keys@ == self.keys@,
            changed.values@ == self.values@.update(i, value),
        ensures
            changed.wf(),
            changed@ == self@.insert(self.keys@[i]@, value),
    {
        assert(changed.key_views() =~= self.key_views());
        let map = self@.insert(self.keys@[i]@, value);
        assert forall|j: int| 0 <= j < changed.keys@.len() implies map.contains_key(
            (#[trigger] changed.keys@[j])@,
        ) && map[changed.keys@[j]@] == changed.values@[j] by {
            self.lemma_place(j);
            if j != i {
                assert(self.key_views()[i] != self.key_views()[j]);
            }
        }
        assert forall|key: PathView| #[trigger] map.contains_key(key) implies exists|j: int|
            0 <= j < changed.keys@.len() && (#[trigger] changed.keys@[j])@ == key by {
            if key != self.keys@[i]@ {
                self.lemma_key(key);
                let j = self.key_views().index_of(key);
                assert(changed.keys@[j]@ == key);
            } else {
                assert(changed.keys@[i]@ == key);
            }
        }
        changed.lemma_view(map);
    }

    /// To push a key that was not there is to add it.
    proof fn lemma_push(&self, key: FilePath, value: V, changed: PathMap<V>)
        requires
            self.wf(),
            !self@.contains_key(key@),
            changed.keys@ == self.keys@.push(key),
            changed.values@ == self.values@.push(value),
        ensures
            changed.wf(),
            changed@ == self@.insert(key@, value),
    {
        assert forall|i: int| 0 <= i < self.keys@.len() implies #[trigger] self.key_views()[i]
            != key@ by {
            self.lemma_place(i);
        }
        assert(changed.key_views() =~= self.key_views().push(key@));
        let map = self@.insert(key@, value);
        assert forall|j: int| 0 <= j < changed.keys@.len() implies map.contains_key(
            (#[trigger] changed.keys@[j])@,
        ) && map[changed.keys@[j]@] == changed.values@[j] by {
            if j < self.keys@.len() {
                self.lemma_place(j);
                assert(self.key_views()[j] != key@);
            }
        }
        assert forall|k: PathView| #[trigger] map.contains_key(k) implies exists|j: int|
            0 <= j < changed.keys@.len() && (#[trigger] changed.keys@[j])@ == k by {
            if k != key@ {
                self.lemma_key(k);
                let j = self.key_views().index_of(k);
                assert(changed.keys@[j]@ == k);
            } else {
                assert(changed.keys@[self.keys@.len() as int]@ == k);
            }
        }
        changed.lemma_view(map);
    }

    /// To take out one place is to remove its key.
    proof fn lemma_remove(&self, i: int, changed: PathMap<V>)
        requires
            self.wf(),
            0 <= i < self.keys@.len(),
            changed.keys@ == self.keys@.remove(i),
            changed.values@ == self.values@.remove(i),
        ensures
            changed.wf(),
            changed@ == self@.remove(self.keys@[i]@),
    {
        assert(changed.key_views() =~= self.key_views().remove(i));
        let map = self@.remove(self.keys@[i]@);
        assert forall|j: int| 0 <= j < changed.keys@.len() implies map.contains_key(
            (#[trigger] changed.keys@[j])@,
        ) && map[changed.keys@[j]@] == changed.values@[j] by {
            let k = if j < i { j } else { j + 1 };
            self.lemma_place(k);
            assert(self.key_views()[i] != self.key_views()[k]);
        }
        assert forall|key: PathView| #[trigger] map.contains_key(key) implies exists|j: int|
            0 <= j < changed.keys@.len() && (#[trigger] changed.keys@[j])@ == key by {
            self.lemma_key(key);
            let k = self.key_views().index_of(key);
            let j = if k < i { k } else { k - 1 };
            assert(changed.keys@[j]@ == key);
        }
        changed.lemma_view(map);
    }

    /// A map holds finitely many paths.
    pub proof fn lemma_finite(&self)
        requires
            self.wf(),
        ensures
            self@.dom().finite(),
            self@.dom().len() <= usize::MAX,
    {
        broadcast use vstd::seq_lib::seq_to_set_is_finite;

        assert(self@.dom() =~= self.key_views().to_set());
        self.key_views().unique_seq_to_set();
        assert(self.keys.len() == self.keys@.len());
    }

    /// The map that holds nothing.
    pub fn new() -> (map: PathMap<V>)
        ensures
            map.wf(),
            map@ == Map::<PathView, V>::empty(),
    {
        let map: PathMap<V> = PathMap { keys: Vec::new(), values: Vec::new() };
        assert(map@ =~= Map::<PathView, V>::empty());
        map
    }

    /// How many paths the map holds.
    pub fn len(&self) -> (len: usize)
        requires
            self.wf(),
        ensures
            len == self@.dom().len(),
    {
        proof {
            assert(self@.dom() =~= self.key_views().to_set());
            self.key_views().unique_seq_to_set();
        }
        self.keys.len()
    }

    /// Whether the map holds nothing.
    pub fn is_empty(&self) -> (empty: bool)
        requires
            self.wf(),
        ensures
            empty == (self@ == Map::<PathView, V>::empty()),
    {
        let empty = self.keys.len() == 0;
        proof {
            if empty {
                assert(self@ =~= Map::<PathView, V>::empty());
            } else {
                self.lemma_place(0);
            }
        }
        empty
    }

    /// The place of a path, if the map holds it.
    fn find(&self, key: &FilePath) -> (place: Option<usize>)
        requires
            self.wf(),
        ensures
            match place {
                Some(i) => i < self.keys@.len() && self.keys@[i as int]@ == key@
                    && self@.contains_key(key@) && self@[key@] == self.values@[i as int],
                None => !self@.contains_key(key@),
            },
    {
        let mut i: usize = 0;
        while i < self.keys.len()
            invariant
                self.wf(),
                i <= self.keys.len(),
                forall|j: int| 0 <= j < i ==> (#[trigger] self.keys@[j])@ != key@,
            decreases self.keys.len() - i,
        {
            if self.keys[i] == *key {
                proof {
                    self.lemma_place(i as int);
                }
                return Some(i);
            }
            i += 1;
        }
        proof {
            if self@.contains_key(key@) {
                self.lemma_key(key@);
            }
        }
        None
    }

    /// Whether the map holds the path.
    pub fn contains_key(&self, key: &FilePath) -> (contains: bool)
        requires
            self.wf(),
        ensures
            contains == self@.contains_key(key@),
    {
        self.find(key).is_some()
    }

    /// The value of the path, if the map holds it.
    pub fn get(&self, key: &FilePath) -> (value: Option<&V>)
        requires
            self.wf(),
        ensures
            match value {
                Some(value) => self@.contains_key(key@) && *value == self@[key@],
                None => !self@.contains_key(key@),
            },
    {
        match self.find(key) {
            Some(i) => Some(&self.values[i]),
            None => None,
        }
    }

    /// The value of the path, if the map holds it, to be changed in place.
    pub fn get_mut(&mut self, key: &FilePath) -> (value: Option<&mut V>)
        requires
            old(self).wf(),
        ensures
            match value {
                Some(value) => {
                    &&& old(self)@.contains_key(key@)
                    &&& *value == old(self)@[key@]
                    &&& final(self).wf()
                    &&& final(self)@ == old(self)@.insert(key@, *final(value))
                },
                None => !old(self)@.contains_key(key@) && *final(self) == *old(self),
            },
    {
        match self.find(key) {
            Some(i) => {
                proof {
                    assert forall|value: V, changed: PathMap<V>|
                        #![trigger self.values@.update(i as int, value), changed.keys@]
                        changed.keys@ == self.keys@ && changed.values@ == self.values@.update(
                            i as int,
                            value,
                        ) implies changed.wf() && changed@ == self@.insert(key@, value) by {
                        self.lemma_update(i as int, value, changed);
                    }
                }
                Some(&mut self.values[i])
            },
            None => None,
        }
    }

    /// Gives the path the value, and hands out the value that it had.
    pub fn insert(&mut self, key: FilePath, value: V) -> (previous: Option<V>)
        requires
            old(self).wf(),
        ensures
            final(self).wf(),
            final(self)@ == old(self)@.insert(key@, value),
            match previous {
                Some(previous) => old(self)@.contains_key(key@) && previous == old(self)@[key@],
                None => !old(self)@.contains_key(key@),
            },
    {
        match self.find(&key) {
            Some(i) => {
                let mut held = value;
                std::mem::swap(&mut self.values[i], &mut held);
                proof {
                    old(self).lemma_update(i as int, value, *self);
                }
                Some(held)
            },
            None => {
                self.keys.push(key);
                self.values.push(value);
                proof {
                    old(self).lemma_push(key, value, *self);
                }
                None
            },
        }
    }

    /// Takes the path out of the map, and hands out the value that it had.
    pub fn remove(&mut self, key: &FilePath) -> (previous: Option<V>)
        requires
            old(self).wf(),
        ensures
            final(self).wf(),
            final(self)@ == old(self)@.remove(key@),
            match previous {
                Some(previous) => old(self)@.contains_key(key@) && previous == old(self)@[key@],
                None => !old(self)@.contains_key(key@),
            },
    {
        match self.find(key) {
            Some(i) => {
                let _ = self.keys.remove(i);
                let value = self.values.remove(i);
                proof {
                    old(self).lemma_remove(i as int, *self);
                }
                Some(value)
            },
            None => {
                proof {
                    assert(self@ =~= self@.remove(key@));
                }
                None
            },
        }
    }
}

/// A set of paths.
#[derive(Debug)]
pub struct PathSet {
    map: PathMap<()>,
}

impl View for PathSet {
    type V = Set<PathView>;

    closed spec fn view(&self) -> Set<PathView> {
        self.map@.dom()
    }
}

impl PathSet {
    /// No path occurs twice.
    pub closed spec fn wf(&self) -> bool {
        self.map.wf()
    }

    /// A set holds finitely many paths.
    pub proof fn lemma_finite(&self)
        requires
            self.wf(),
        ensures
            self@.finite(),
            self@.len() <= usize::MAX,
    {
        self.map.lemma_finite();
    }

    /// The set that holds nothing.
    pub fn new() -> (set: PathSet)
        ensures
            set.wf(),
            set@ == Set::<PathView>::empty(),
    {
        let set = PathSet { map: PathMap::new() };
        assert(set@ =~= Set::<PathView>::empty());
        set
    }

    /// How many paths the set holds.
    pub fn len(&self) -> (len: usize)
        requires
            self.wf(),
        ensures
            len == self@.len(),
    {
        self.map.len()
    }

    /// Whether the set holds nothing.
    pub fn is_empty(&self) -> (empty: bool)
        requires
            self.wf(),
        ensures
            empty == (self@ == Set::<PathView>::empty()),
    {
        let empty = self.map.is_empty();
        proof {
            if self@ == Set::<PathView>::empty() {
                assert(self.map@ =~= Map::<PathView, ()>::empty());
            }
            if empty {
                assert(self@ =~= Set::<PathView>::empty());
            }
        }
        empty
    }

    /// Whether the set holds the path.
    pub fn contains(&self, path: &FilePath) -> (contains: bool)
        requires
            self.wf(),
        ensures
            contains == self@.contains(path@),
    {
        self.map.contains_key(path)
    }

    /// Puts the path into the set, and says whether it was new there.
    pub fn insert(&mut self, path: FilePath) -> (new: bool)
        requires
            old(self).wf(),
        ensures
            final(self).wf(),
            final(self)@ == old(self)@.insert(path@),
            new == !old(self)@.contains(path@),
    {
        let new = self.map.insert(path, ()).is_none();
        assert(self@ =~= old(self)@.insert(path@));
        new
    }

    /// Takes the path out of the set, and says whether it was there.
    pub fn remove(&mut self, path: &FilePath) -> (present: bool)
        requires
            old(self).wf(),
        ensures
            final(self).wf(),
            final(self)@ == old(self)@.remove(path@),
            present == old(self)@.contains(path@),
    {
        let present = self.map.remove(path).is_some();
        assert(self@ =~= old(self)@.remove(path@));
        present
    }
}

} // verus!
