//! A map keyed by local paths that hands its entries out in the order of the paths.
use crate::order::{lemma_path_order, path_less, Rank};
use crate::path::LocalPath;
use vstd::prelude::*;

verus! {

/// A map from paths, kept in strictly increasing order of the paths.
#[derive(Debug, Clone)]
pub struct PathMap<V> {
    entries: Vec<(LocalPath, V)>,
}

/// Whether a list of paths is strictly increasing.
pub open spec fn increasing(paths: Seq<Seq<Seq<char>>>) -> bool {
    forall|i: int, j: int| 0 <= i < j < paths.len() ==> path_less(#[trigger] paths[i], #[trigger] paths[j])
}

impl<V> View for PathMap<V> {
    type V = Map<Seq<Seq<char>>, V>;

    closed spec fn view(&self) -> Map<Seq<Seq<char>>, V> {
        Map::new(
            |p: Seq<Seq<char>>| self.keys().contains(p),
            |p: Seq<Seq<char>>| self.entries@[self.keys().index_of(p)].1,
        )
    }
}

impl<V> PathMap<V> {
    /// The paths, in their order.
    pub closed spec fn keys(&self) -> Seq<Seq<Seq<char>>> {
        self.entries@.map_values(|e: (LocalPath, V)| e.0@)
    }

    /// The paths are strictly increasing, so that none occurs twice.
    pub open spec fn wf(&self) -> bool {
        increasing(self.keys())
    }

    /// The empty map.
    pub fn new() -> (map: PathMap<V>)
        ensures
            map.wf(),
            map@ == Map::<Seq<Seq<char>>, V>::empty(),
            map.keys() == Seq::<Seq<Seq<char>>>::empty(),
    {
        let map = PathMap { entries: Vec::new() };
        assert(map.keys() =~= Seq::<Seq<Seq<char>>>::empty());
        assert(map@ =~= Map::<Seq<Seq<char>>, V>::empty());
        map
    }

    /// The number of entries.
    pub fn len(&self) -> (n: usize)
        ensures
            n == self.keys().len(),
    {
        self.entries.len()
    }

    /// A path is in the map if and only if it is one of its keys, and the entry at a place is that
    /// of the key there.
    pub proof fn lemma_keys(&self)
        requires
            self.wf(),
        ensures
            forall|p: Seq<Seq<char>>| #[trigger] self@.contains_key(p) <==> self.keys().contains(p),
            forall|i: int|
                0 <= i < self.keys().len() ==> self@.contains_key(#[trigger] self.keys()[i]),
            self.keys().no_duplicates(),
    {
        lemma_path_order();
        assert(self.keys().no_duplicates());
    }

    proof fn lemma_at(&self, i: int)
        requires
            self.wf(),
            0 <= i < self.keys().len(),
        ensures
            self@.contains_key(self.keys()[i]),
            self@[self.keys()[i]] == self.entries@[i].1,
    {
        lemma_path_order();
        let key = self.keys()[i];
        assert(self.keys().contains(key));
        let j = self.keys().index_of(key);
        assert(self.keys()[j] == key && 0 <= j < self.keys().len());
        if j < i {
            assert(path_less(self.keys()[j], self.keys()[i]));
        }
        if i < j {
            assert(path_less(self.keys()[i], self.keys()[j]));
        }
    }

    /// The path at place `i`.
    pub fn key_at(&self, i: usize) -> (key: &LocalPath)
        requires
            self.wf(),
            i < self.keys().len(),
        ensures
            key@ == self.keys()[i as int],
            self@.contains_key(key@),
    {
        proof {
            self.lemma_at(i as int);
        }
        &self.entries[i].0
    }

    /// The value at place `i`.
    pub fn value_at(&self, i: usize) -> (value: &V)
        requires
            self.wf(),
            i < self.keys().len(),
        ensures
            self@.contains_key(self.keys()[i as int]),
            *value == self@[self.keys()[i as int]],
    {
        proof {
            self.lemma_at(i as int);
        }
        &self.entries[i].1
    }

    /// The place of `path`, or the one where it would stand.
    fn place(&self, path: &LocalPath) -> (place: (usize, bool))
        requires
            self.wf(),
        ensures
            place.0 <= self.keys().len(),
            place.1 ==> place.0 < self.keys().len() && self.keys()[place.0 as int] == path@,
            !place.1 ==> !self.keys().contains(path@),
            forall|i: int| 0 <= i < place.0 ==> path_less(#[trigger] self.keys()[i], path@),
            !place.1 ==> forall|i: int|
                place.0 <= i < self.keys().len() ==> path_less(path@, #[trigger] self.keys()[i]),
    {
        proof {
            lemma_path_order();
        }
        let mut low: usize = 0;
        let mut high: usize = self.entries.len();
        while low < high
            invariant
                self.wf(),
                low <= high <= self.entries.len(),
                forall|i: int| 0 <= i < low ==> path_less(#[trigger] self.keys()[i], path@),
                forall|i: int|
                    high <= i < self.keys().len() ==> path_less(path@, #[trigger] self.keys()[i]),
                forall|a: Seq<Seq<char>>, b: Seq<Seq<char>>, c: Seq<Seq<char>>| #[trigger]
                    path_less(a, b) && #[trigger] path_less(b, c) ==> path_less(a, c),
            decreases high - low,
        {
            let middle: usize = low + (high - low) / 2;
            assert(self.keys()[middle as int] == self.entries@[middle as int].0@);
            match self.entries[middle].0.rank(path) {
                Rank::Equal => {
                    assert forall|i: int| 0 <= i < middle implies path_less(
                        #[trigger] self.keys()[i],
                        path@,
                    ) by {
                        assert(path_less(self.keys()[i], self.keys()[middle as int]));
                    }
                    return (middle, true);
                },
                Rank::Less => {
                    assert forall|i: int| 0 <= i < middle + 1 implies path_less(
                        #[trigger] self.keys()[i],
                        path@,
                    ) by {
                        if i < middle {
                            assert(path_less(self.keys()[i], self.keys()[middle as int]));
                        }
                    }
                    low = middle + 1;
                },
                Rank::Greater => {
                    assert forall|i: int| middle <= i < self.keys().len() implies path_less(
                        path@,
                        #[trigger] self.keys()[i],
                    ) by {
                        if i > middle {
                            assert(path_less(self.keys()[middle as int], self.keys()[i]));
                        }
                    }
                    high = middle;
                },
            }
        }
        assert(!self.keys().contains(path@)) by {
            if self.keys().contains(path@) {
                let i = choose|i: int| 0 <= i < self.keys().len() && self.keys()[i] == path@;
                assert(path_less(self.keys()[i], path@) || path_less(path@, self.keys()[i]));
            }
        }
        (low, false)
    }

    /// The value under `path`.
    pub fn get(&self, path: &LocalPath) -> (value: Option<&V>)
        requires
            self.wf(),
        ensures
            match value {
                Some(value) => self@.contains_key(path@) && *value == self@[path@],
                None => !self@.contains_key(path@),
            },
    {
        let (at, found) = self.place(path);
        if found {
            proof {
                self.lemma_at(at as int);
            }
            Some(&self.entries[at].1)
        } else {
            None
        }
    }

    /// Whether there is a value under `path`.
    pub fn contains(&self, path: &LocalPath) -> (yes: bool)
        requires
            self.wf(),
        ensures
            yes == self@.contains_key(path@),
    {
        self.get(path).is_some()
    }

    /// Puts `value` under `path`, in place of what stood there.
    pub fn insert(&mut self, path: LocalPath, value: V)
        requires
            old(self).wf(),
        ensures
            final(self).wf(),
            final(self)@ == old(self)@.insert(path@, value),
    {
        let ghost before = *self;
        let ghost key = path@;
        proof {
            lemma_path_order();
        }
        let (at, found) = self.place(&path);
        if found {
            self.entries.remove(at);
        }
        self.entries.insert(at, (path, value));
        proof {
            let after = *self;
            if found {
                assert(after.keys() =~= before.keys());
            } else {
                assert(after.keys() =~= before.keys().insert(at as int, key));
                assert(increasing(after.keys())) by {
                    assert forall|i: int, j: int| 0 <= i < j < after.keys().len() implies path_less(
                        #[trigger] after.keys()[i],
                        #[trigger] after.keys()[j],
                    ) by {
                        let a = if i < at { i } else { i - 1 };
                        let b = if j < at { j } else { j - 1 };
                        if i != at && j != at {
                            assert(path_less(before.keys()[a], before.keys()[b]));
                        }
                        if i == at {
                            assert(path_less(key, before.keys()[b]));
                        }
                        if j == at {
                            assert(path_less(before.keys()[a], key));
                        }
                    }
                }
            }
            assert forall|p: Seq<Seq<char>>| after.keys().contains(p) <==> before.keys().contains(p)
                || p == key by {
                if p == key {
                    assert(after.keys()[at as int] == key);
                } else if before.keys().contains(p) {
                    let k = choose|k: int| 0 <= k < before.keys().len() && before.keys()[k] == p;
                    if found || k < at {
                        assert(after.keys()[k] == p);
                    } else {
                        assert(after.keys()[k + 1] == p);
                    }
                } else if after.keys().contains(p) {
                    let k = choose|k: int| 0 <= k < after.keys().len() && after.keys()[k] == p;
                    if found || k < at {
                        assert(before.keys()[k] == p);
                    } else if k > at {
                        assert(before.keys()[k - 1] == p);
                    }
                }
            }
            assert forall|p: Seq<Seq<char>>| #[trigger] after@.contains_key(p) implies after@[p]
                == before@.insert(key, value)[p] by {
                let k = choose|k: int| 0 <= k < after.keys().len() && after.keys()[k] == p;
                after.lemma_at(k);
                if k == at {
                    assert(p == key);
                } else {
                    let m = if found || k < at { k } else { k - 1 };
                    assert(before.keys()[m] == p);
                    before.lemma_at(m);
                    assert(p != key);
                }
            }
            assert(after@ =~= before@.insert(key, value));
        }
    }
}

} // verus!
