//! A small map from device identifiers to what is tracked for each device.
//!
//! The devices of a host are few, so the map is a pair of vectors that is
//! searched from the front. No identifier occurs twice.
use vstd::prelude::*;

verus! {

/// A map keyed by a device identifier: a mount point or an interface name.
pub struct DeviceMap<V> {
    keys: Vec<String>,
    values: Vec<V>,
}

impl<V> DeviceMap<V> {
    /// Whether position `i` holds the identifier `key`.
    spec fn holds(&self, i: int, key: Seq<char>) -> bool {
        0 <= i < self.keys.len() && self.keys[i]@ == key
    }

    /// The invariant of the map: one value for each identifier, and no
    /// identifier twice.
    pub closed spec fn wf(&self) -> bool {
        &&& self.keys.len() == self.values.len()
        &&& forall|i: int, j: int|
            0 <= i < j < self.keys.len() ==> (#[trigger] self.keys[i])@ != (#[trigger] self.keys[j])@
    }

    /// The map as the contracts see it.
    pub closed spec fn view(&self) -> Map<Seq<char>, V> {
        Map::new(
            |key: Seq<char>| exists|i: int| self.holds(i, key),
            |key: Seq<char>| self.values[choose|i: int| self.holds(i, key)],
        )
    }

    /// The number of identifiers.
    pub closed spec fn spec_len(&self) -> nat {
        self.keys.len() as nat
    }

    /// The map is finite, and its length is the number of its identifiers.
    pub proof fn lemma_len(&self)
        requires
            self.wf(),
        ensures
            self@.dom().finite(),
            self@.dom().len() == self.spec_len(),
    {
        self.lemma_len_upto(self.keys.len() as int);
        assert(self@.dom() =~= self.dom_upto(self.keys.len() as int));
    }

    /// The identifiers at the positions below `n`.
    spec fn dom_upto(&self, n: int) -> Set<Seq<char>> {
        Set::new(|key: Seq<char>| exists|i: int| 0 <= i < n && self.holds(i, key))
    }

    proof fn lemma_len_upto(&self, n: int)
        requires
            self.wf(),
            0 <= n <= self.keys.len(),
        ensures
            self.dom_upto(n).finite(),
            self.dom_upto(n).len() == n,
        decreases n,
    {
        if n == 0 {
            assert(self.dom_upto(0) =~= Set::<Seq<char>>::empty());
        } else {
            self.lemma_len_upto(n - 1);
            let key = self.keys[n - 1]@;
            assert(self.holds(n - 1, key));
            assert(!self.dom_upto(n - 1).contains(key));
            assert(self.dom_upto(n) =~= self.dom_upto(n - 1).insert(key));
        }
    }

    /// An empty map.
    pub fn new() -> (map: Self)
        ensures
            map.wf(),
            map@ == Map::<Seq<char>, V>::empty(),
            map.spec_len() == 0,
    {
        let map = DeviceMap { keys: Vec::new(), values: Vec::new() };
        assert(map@ =~= Map::<Seq<char>, V>::empty());
        map
    }

    /// The number of identifiers.
    pub fn len(&self) -> (n: usize)
        requires
            self.wf(),
        ensures
            n == self.spec_len(),
    {
        self.keys.len()
    }

    /// The position of `key`, if the map holds it.
    fn position(&self, key: &String) -> (found: Option<usize>)
        requires
            self.wf(),
        ensures
            match found {
                Some(i) => self.holds(i as int, key@),
                None => forall|i: int| !self.holds(i, key@),
            },
    {
        let mut i: usize = 0;
        while i < self.keys.len()
            invariant
                i <= self.keys.len(),
                forall|j: int| 0 <= j < i ==> !self.holds(j, key@),
            decreases self.keys.len() - i,
        {
            if self.keys[i] == *key {
                return Some(i);
            }
            i += 1;
        }
        None
    }

    /// The value kept for `key`, if there is one.
    pub fn get(&self, key: &String) -> (value: Option<&V>)
        requires
            self.wf(),
        ensures
            match value {
                Some(v) => self@.contains_key(key@) && *v == self@[key@],
                None => !self@.contains_key(key@),
            },
    {
        match self.position(key) {
            Some(i) => {
                proof {
                    let j = choose|j: int| self.holds(j, key@);
                    assert(j == i) by {
                        if j < i {
                            assert(self.keys[j]@ != self.keys[i as int]@);
                        } else if i < j {
                            assert(self.keys[i as int]@ != self.keys[j]@);
                        }
                    }
                }
                Some(&self.values[i])
            },
            None => None,
        }
    }

    /// Keeps `value` for `key`, in place of what was kept for it before.
    pub fn insert(&mut self, key: String, value: V)
        requires
            old(self).wf(),
        ensures
            final(self).wf(),
            final(self)@ == old(self)@.insert(key@, value),
    {
        let ghost before = *self;
        match self.position(&key) {
            Some(i) => {
                self.values.set(i, value);
                proof {
                    assert forall|k: Seq<char>, j: int| self.holds(j, k) == before.holds(j, k) by {}
                    assert forall|k: Seq<char>| #[trigger] self@.contains_key(k) implies self@[k]
                        == before@.insert(key@, value)[k] by {
                        let j = choose|j: int| self.holds(j, k);
                        assert(before.holds(j, k));
                        let j0 = choose|j: int| before.holds(j, k);
                        assert(j0 == j) by {
                            if j0 < j {
                                assert(before.keys[j0]@ != before.keys[j]@);
                            } else if j < j0 {
                                assert(before.keys[j]@ != before.keys[j0]@);
                            }
                        }
                        if k == key@ {
                            assert(j == i) by {
                                if j < i {
                                    assert(before.keys[j]@ != before.keys[i as int]@);
                                } else if i < j {
                                    assert(before.keys[i as int]@ != before.keys[j]@);
                                }
                            }
                        } else {
                            assert(j != i);
                            assert(self.values[j] == before.values[j]);
                        }
                    }
                    assert(before.holds(i as int, key@));
                    assert forall|k: Seq<char>| #[trigger]
                        self@.contains_key(k) == before@.insert(key@, value).contains_key(k) by {
                        if self@.contains_key(k) {
                            let j = choose|j: int| self.holds(j, k);
                            assert(before.holds(j, k));
                        }
                        if before@.contains_key(k) {
                            let j = choose|j: int| before.holds(j, k);
                            assert(self.holds(j, k));
                        }
                        if k == key@ {
                            assert(self.holds(i as int, k));
                        }
                    }
                    assert(self@ =~= before@.insert(key@, value));
                }
            },
            None => {
                self.keys.push(key);
                self.values.push(value);
                proof {
                    let n = before.keys.len() as int;
                    assert(self.holds(n, key@));
                    assert forall|a: int, b: int| 0 <= a < b < self.keys.len() implies (
                    #[trigger] self.keys[a])@ != (#[trigger] self.keys[b])@ by {
                        if b == n {
                            assert(!before.holds(a, key@));
                        } else {
                            assert(before.keys[a]@ != before.keys[b]@);
                        }
                    }
                    assert forall|k: Seq<char>, j: int| 0 <= j < n implies self.holds(j, k) == before.holds(
                        j,
                        k,
                    ) by {}
                    assert forall|k: Seq<char>| #[trigger]
                        self@.contains_key(k) == before@.insert(key@, value).contains_key(k) by {
                        if self@.contains_key(k) {
                            let j = choose|j: int| self.holds(j, k);
                            if j < n {
                                assert(before.holds(j, k));
                            }
                        }
                        if before@.contains_key(k) {
                            let j = choose|j: int| before.holds(j, k);
                            assert(self.holds(j, k));
                        }
                    }
                    assert forall|k: Seq<char>| #[trigger] self@.contains_key(k) implies self@[k]
                        == before@.insert(key@, value)[k] by {
                        let j = choose|j: int| self.holds(j, k);
                        if k == key@ {
                            assert(!before.holds(j, k));
                            assert(j == n);
                        } else {
                            assert(j < n);
                            assert(before.holds(j, k));
                            let j0 = choose|j: int| before.holds(j, k);
                            assert(j0 == j) by {
                                if j0 < j {
                                    assert(before.keys[j0]@ != before.keys[j]@);
                                } else if j < j0 {
                                    assert(before.keys[j]@ != before.keys[j0]@);
                                }
                            }
                        }
                    }
                    assert(self@ =~= before@.insert(key@, value));
                }
            },
        }
    }
}

} // verus!
