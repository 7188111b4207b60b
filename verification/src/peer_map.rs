//! A finite map keyed by peer.

use crate::peer::Peer;
use vstd::prelude::*;

verus! {

/// A finite map from peers to values of `V`, kept as a list of entries in
/// which no peer stands twice.
pub(crate) struct PeerMap<V> {
    keys: Vec<Peer>,
    vals: Vec<V>,
}

/// In a sequence without repetition, an element is found where it stands.
pub(crate) proof fn lemma_index_of_unique(s: Seq<Peer>, i: int)
    requires
        s.no_duplicates(),
        0 <= i < s.len(),
    ensures
        s.contains(s[i]),
        s.index_of(s[i]) == i,
{
}

impl<V> PeerMap<V> {
    /// Every key has its value, and no key stands twice.
    pub(crate) closed spec fn wf(&self) -> bool {
        &&& self.keys.len() == self.vals.len()
        &&& self.keys@.no_duplicates()
    }

    /// The map that the entries make up.
    pub(crate) closed spec fn map(&self) -> Map<Peer, V> {
        Map::new(|k: Peer| self.keys@.contains(k), |k: Peer| self.vals@[self.keys@.index_of(k)])
    }

    /// The empty map.
    pub(crate) fn new() -> (m: Self)
        ensures
            m.wf(),
            m.map() == Map::<Peer, V>::empty(),
    {
        let m = PeerMap { keys: Vec::new(), vals: Vec::new() };
        assert(m.map() =~= Map::<Peer, V>::empty());
        m
    }

    /// Where in the list the entry of `k` stands, if it has one.
    fn position(&self, k: Peer) -> (r: Option<usize>)
        requires
            self.wf(),
        ensures
            match r {
                Some(i) => i < self.keys.len() && self.keys@[i as int] == k,
                None => !self.keys@.contains(k),
            },
    {
        let mut i: usize = 0;
        while i < self.keys.len()
            invariant
                i <= self.keys.len(),
                forall|j: int| 0 <= j < i ==> self.keys@[j] != k,
            decreases self.keys.len() - i,
        {
            if self.keys[i] == k {
                return Some(i);
            }
            i += 1;
        }
        None
    }

    /// The value that `k` maps to, if any.
    pub(crate) fn get(&self, k: Peer) -> (r: Option<&V>)
        requires
            self.wf(),
        ensures
            match r {
                Some(v) => self.map().contains_key(k) && *v == self.map()[k],
                None => !self.map().contains_key(k),
            },
    {
        match self.position(k) {
            Some(i) => {
                proof {
                    lemma_index_of_unique(self.keys@, i as int);
                }
                Some(&self.vals[i])
            },
            None => None,
        }
    }

    /// The value that `k` maps to, if any, for changing it in place.
    pub(crate) fn get_mut(&mut self, k: Peer) -> (r: Option<&mut V>)
        requires
            old(self).wf(),
        ensures
            match r {
                Some(v) => {
                    &&& old(self).map().contains_key(k)
                    &&& *v == old(self).map()[k]
                    &&& final(self).wf()
                    &&& final(self).map() == old(self).map().insert(k, *final(v))
                },
                None => {
                    &&& !old(self).map().contains_key(k)
                    &&& final(self).wf()
                    &&& final(self).map() == old(self).map()
                },
            },
    {
        match self.position(k) {
            Some(i) => {
                proof {
                    lemma_index_of_unique(self.keys@, i as int);
                }
                let v = &mut self.vals[i];
                proof {
                    let after = old(self).vals@.update(i as int, *final(v));
                    assert forall|q: Peer| self.keys@.contains(q) && q != k implies after[self.keys@
                        .index_of(q)] == old(self).vals@[self.keys@.index_of(q)] by {}
                    assert(Map::new(
                        |q: Peer| self.keys@.contains(q),
                        |q: Peer| after[self.keys@.index_of(q)],
                    ) =~= old(self).map().insert(k, *final(v)));
                }
                Some(v)
            },
            None => None,
        }
    }

    /// Lets `k` map to `v`, whatever it mapped to before.
    pub(crate) fn insert(&mut self, k: Peer, v: V)
        requires
            old(self).wf(),
        ensures
            final(self).wf(),
            final(self).map() == old(self).map().insert(k, v),
    {
        match self.position(k) {
            Some(i) => {
                self.vals.set(i, v);
                proof {
                    lemma_index_of_unique(self.keys@, i as int);
                    assert forall|q: Peer| self.keys@.contains(q) && q != k implies self.vals@[self
                        .keys@.index_of(q)] == old(self).vals@[self.keys@.index_of(q)] by {}
                }
            },
            None => {
                self.keys.push(k);
                self.vals.push(v);
                proof {
                    let before = old(self).keys@;
                    let after = self.keys@;
                    assert forall|a: int, b: int|
                        0 <= a < after.len() && 0 <= b < after.len() && a != b implies after[a]
                        != after[b] by {
                        if a < before.len() {
                            assert(before.contains(before[a]));
                        }
                        if b < before.len() {
                            assert(before.contains(before[b]));
                        }
                    }
                    assert forall|q: Peer|
                        after.contains(q) <==> (before.contains(q) || q == k) by {
                        if before.contains(q) {
                            assert(after[before.index_of(q)] == q);
                        }
                        assert(after[before.len() as int] == k);
                    }
                    assert forall|q: Peer| before.contains(q) implies after.index_of(q)
                        == before.index_of(q) by {
                        let i = before.index_of(q);
                        assert(after[i] == q);
                        lemma_index_of_unique(after, i);
                    }
                    lemma_index_of_unique(after, before.len() as int);
                }
            },
        }
        assert(self.map() =~= old(self).map().insert(k, v));
    }

    /// Takes `k` out of the map and hands back what it mapped to, if anything.
    pub(crate) fn remove(&mut self, k: Peer) -> (r: Option<V>)
        requires
            old(self).wf(),
        ensures
            final(self).wf(),
            final(self).map() == old(self).map().remove(k),
            match r {
                Some(v) => old(self).map().contains_key(k) && v == old(self).map()[k],
                None => !old(self).map().contains_key(k),
            },
    {
        match self.position(k) {
            Some(i) => {
                self.keys.remove(i);
                let v = self.vals.remove(i);
                proof {
                    let before = old(self).keys@;
                    let after = self.keys@;
                    lemma_index_of_unique(before, i as int);
                    assert forall|a: int, b: int|
                        0 <= a < after.len() && 0 <= b < after.len() && a != b implies after[a]
                        != after[b] by {
                        let a0 = if a < i { a } else { a + 1 };
                        let b0 = if b < i { b } else { b + 1 };
                        assert(after[a] == before[a0] && after[b] == before[b0]);
                    }
                    assert forall|q: Peer|
                        after.contains(q) <==> (before.contains(q) && q != k) by {
                        if after.contains(q) {
                            let a = after.index_of(q);
                            let a0 = if a < i { a } else { a + 1 };
                            assert(before[a0] == q);
                        }
                        if before.contains(q) && q != k {
                            let b0 = before.index_of(q);
                            let b = if b0 < i { b0 } else { b0 - 1 };
                            assert(after[b] == q);
                        }
                    }
                    assert forall|q: Peer| after.contains(q) implies self.vals@[after.index_of(q)]
                        == old(self).vals@[before.index_of(q)] by {
                        let a = after.index_of(q);
                        let a0 = if a < i { a } else { a + 1 };
                        assert(before[a0] == q);
                        lemma_index_of_unique(before, a0);
                    }
                    assert(self.map() =~= old(self).map().remove(k));
                }
                Some(v)
            },
            None => {
                assert(self.map() =~= old(self).map().remove(k));
                None
            },
        }
    }
}

} // verus!
