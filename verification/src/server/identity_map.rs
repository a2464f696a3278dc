//! A map from client identities to client indices, kept as a list of
//! distinct identities.

use vstd::prelude::*;

use crate::server::util::ClientIdentity;

verus! {

/// The key of an identity: its address and name.
pub open spec fn key_of(c: ClientIdentity) -> (Seq<char>, Seq<char>) {
    (c.addr@, c.name@)
}

/// A map from client identities (address and name) to indices.
#[derive(Debug)]
pub struct IdentityMap {
    entries: Vec<(ClientIdentity, u32)>,
}

impl IdentityMap {
    /// No name occurs twice.
    #[verifier::type_invariant]
    closed spec fn distinct(&self) -> bool {
        forall|i: int, j: int|
            0 <= i < j < self.entries@.len() ==> #[trigger] key_of(self.entries@[i].0) != #[trigger] key_of(self.entries@[j].0)
    }

    /// The names and their indices, in the map's order.
    pub closed spec fn list(&self) -> Seq<(ClientIdentity, u32)> {
        self.entries@
    }

    /// The map from identities to indices.
    pub closed spec fn view(&self) -> Map<(Seq<char>, Seq<char>), u32> {
        Map::new(
            |n: (Seq<char>, Seq<char>)| exists|i: int| 0 <= i < self.entries@.len() && key_of(self.entries@[i].0) == n,
            |n: (Seq<char>, Seq<char>)|
                self.entries@[choose|i: int| 0 <= i < self.entries@.len() && key_of(self.entries@[i].0) == n].1,
        )
    }

    /// The list holds each name of the map once, with its index.
    proof fn lemma_list(&self)
        requires
            self.distinct(),
        ensures
            forall|i: int| 0 <= i < self.list().len() ==> #[trigger] self.view().contains_key(key_of(self.list()[i].0))
                && self.view()[key_of(self.list()[i].0)] == self.list()[i].1,
            forall|n: (Seq<char>, Seq<char>)| #[trigger] self.view().contains_key(n) ==> exists|i: int| 0 <= i < self.list().len() && key_of(self.list()[i].0) == n,
            forall|i: int, j: int| 0 <= i < j < self.list().len() ==> #[trigger] key_of(self.list()[i].0) != #[trigger] key_of(self.list()[j].0),
    {
        assert forall|n: (Seq<char>, Seq<char>)| #[trigger] self.view().contains_key(n) implies exists|i: int| 0 <= i < self.list().len() && key_of(self.list()[i].0) == n by {
            assert(Set::new(|n: (Seq<char>, Seq<char>)| exists|i: int| 0 <= i < self.entries@.len() && key_of(self.entries@[i].0) == n).contains(n));
            let k = choose|i: int| 0 <= i < self.entries@.len() && key_of(self.entries@[i].0) == n;
            assert(key_of(self.list()[k].0) == n);
        }
        assert forall|i: int| 0 <= i < self.list().len() implies #[trigger] self.view().contains_key(key_of(self.list()[i].0))
            && self.view()[key_of(self.list()[i].0)] == self.list()[i].1 by {
            let n = key_of(self.entries@[i].0);
            let k = choose|k: int| 0 <= k < self.entries@.len() && key_of(self.entries@[k].0) == n;
            if k != i {
                if k < i {
                    assert(key_of(self.entries@[k].0) != key_of(self.entries@[i].0));
                } else {
                    assert(key_of(self.entries@[i].0) != key_of(self.entries@[k].0));
                }
            }
        }
    }

    fn find(&self, name: &ClientIdentity) -> (pos: Option<usize>)
        ensures
            match pos {
                Some(i) => i < self.list().len() && key_of(self.list()[i as int].0) == key_of(*name),
                None => forall|k: int| 0 <= k < self.list().len() ==> #[trigger] key_of(self.list()[k].0) != key_of(*name),
            },
    {
        let mut i: usize = 0;
        while i < self.entries.len()
            invariant
                i <= self.entries@.len(),
                forall|k: int| 0 <= k < i ==> #[trigger] key_of(self.entries@[k].0) != key_of(*name),
            decreases self.entries@.len() - i,
        {
            if self.entries[i].0.same_as(name) {
                return Some(i);
            }
            i = i + 1;
        }
        None
    }

    /// An empty map.
    pub fn new() -> (m: Self)
        ensures
            m.view() == Map::<(Seq<char>, Seq<char>), u32>::empty(),
    {
        let m = IdentityMap { entries: Vec::new() };
        assert(m.view() =~= Map::<(Seq<char>, Seq<char>), u32>::empty());
        m
    }

    /// The index of the identity `name`, if any.
    pub fn get(&self, name: &ClientIdentity) -> (idx: Option<u32>)
        ensures
            self.view().contains_key(key_of(*name)) ==> idx == Some(self.view()[key_of(*name)]),
            !self.view().contains_key(key_of(*name)) ==> idx is None,
    {
        proof {
            use_type_invariant(&*self);
            self.lemma_list();
        }
        match self.find(name) {
            Some(i) => Some(self.entries[i].1),
            None => None,
        }
    }

    /// Whether `name` is mapped.
    pub fn contains(&self, name: &ClientIdentity) -> (b: bool)
        ensures
            b == self.view().contains_key(key_of(*name)),
    {
        proof {
            use_type_invariant(&*self);
            self.lemma_list();
        }
        self.find(name).is_some()
    }

    /// Maps `name` to `idx`.
    pub fn insert(&mut self, name: ClientIdentity, idx: u32)
        ensures
            final(self).view() == old(self).view().insert(key_of(name), idx),
    {
        proof {
            use_type_invariant(&*self);
            self.lemma_list();
        }
        let ghost before = self.view();
        match self.find(&name) {
            Some(i) => {
                let ghost n = key_of(name);
                let mut entries: Vec<(ClientIdentity, u32)> = Vec::new();
                std::mem::swap(&mut entries, &mut self.entries);
                entries.set(i, (name, idx));
                self.entries = entries;
                proof {
                    use_type_invariant(&*self);
                    self.lemma_list();
                    assert(self.view() =~= before.insert(n, idx)) by {
                        assert forall|m: (Seq<char>, Seq<char>)| before.insert(n, idx).contains_key(m) implies #[trigger] self.view().contains_key(m) by {
                            if m != n {
                                let k = choose|k: int| 0 <= k < old(self).list().len() && key_of(old(self).list()[k].0) == m;
                                assert(key_of(self.list()[k].0) == m);
                            } else {
                                assert(key_of(self.list()[i as int].0) == m);
                            }
                        }
                        assert forall|m: (Seq<char>, Seq<char>)| #[trigger] self.view().contains_key(m) implies before.insert(n, idx).contains_key(m)
                            && self.view()[m] == before.insert(n, idx)[m] by {
                            let k = choose|k: int| 0 <= k < self.list().len() && key_of(self.list()[k].0) == m;
                            if k != i {
                                assert(old(self).list()[k] == self.list()[k]);
                            }
                        }
                    }
                }
            },
            None => {
                let ghost n = key_of(name);
                let mut entries: Vec<(ClientIdentity, u32)> = Vec::new();
                std::mem::swap(&mut entries, &mut self.entries);
                entries.push((name, idx));
                self.entries = entries;
                proof {
                    use_type_invariant(&*self);
                    self.lemma_list();
                    assert(self.view() =~= before.insert(n, idx)) by {
                        assert forall|m: (Seq<char>, Seq<char>)| before.insert(n, idx).contains_key(m) implies #[trigger] self.view().contains_key(m) by {
                            if m != n {
                                let k = choose|k: int| 0 <= k < old(self).list().len() && key_of(old(self).list()[k].0) == m;
                                assert(key_of(self.list()[k].0) == m);
                            } else {
                                assert(key_of(self.list()[self.list().len() - 1].0) == m);
                            }
                        }
                        assert forall|m: (Seq<char>, Seq<char>)| #[trigger] self.view().contains_key(m) implies before.insert(n, idx).contains_key(m)
                            && self.view()[m] == before.insert(n, idx)[m] by {
                            let k = choose|k: int| 0 <= k < self.list().len() && key_of(self.list()[k].0) == m;
                            if k != self.list().len() - 1 {
                                assert(old(self).list()[k] == self.list()[k]);
                            }
                        }
                    }
                }
            },
        }
    }

    /// Removes `name`; returns the index it was mapped to.
    pub fn remove(&mut self, name: &ClientIdentity) -> (idx: Option<u32>)
        ensures
            final(self).view() == old(self).view().remove(key_of(*name)),
            old(self).view().contains_key(key_of(*name)) ==> idx == Some(old(self).view()[key_of(*name)]),
            !old(self).view().contains_key(key_of(*name)) ==> idx is None,
    {
        proof {
            use_type_invariant(&*self);
            self.lemma_list();
        }
        let ghost before = self.view();
        match self.find(name) {
            Some(i) => {
                let ghost old_list = self.entries@;
                let mut entries: Vec<(ClientIdentity, u32)> = Vec::new();
                std::mem::swap(&mut entries, &mut self.entries);
                let entry = entries.remove(i);
                self.entries = entries;
                proof {
                    use_type_invariant(&*self);
                    self.lemma_list();
                    assert(self.view() =~= before.remove(key_of(*name))) by {
                        assert forall|m: (Seq<char>, Seq<char>)| before.remove(key_of(*name)).contains_key(m) implies #[trigger] self.view().contains_key(m) by {
                            let k = choose|k: int| 0 <= k < old_list.len() && key_of(old_list[k].0) == m;
                            if k < i {
                                assert(key_of(self.list()[k].0) == m);
                            } else {
                                assert(key_of(self.list()[k - 1].0) == m);
                            }
                        }
                        assert forall|m: (Seq<char>, Seq<char>)| #[trigger] self.view().contains_key(m) implies before.remove(key_of(*name)).contains_key(m)
                            && self.view()[m] == before.remove(key_of(*name))[m] by {
                            let k = choose|k: int| 0 <= k < self.list().len() && key_of(self.list()[k].0) == m;
                            if k < i {
                                assert(old_list[k] == self.list()[k]);
                                assert(key_of(old_list[k].0) != key_of(old_list[i as int].0));
                            } else {
                                assert(old_list[k + 1] == self.list()[k]);
                                assert(key_of(old_list[k + 1].0) != key_of(old_list[i as int].0));
                            }
                        }
                    }
                }
                Some(entry.1)
            },
            None => {
                assert(self.view() =~= before.remove(key_of(*name)));
                None
            },
        }
    }

    /// The names and indices, each name once.
    pub fn entries(&self) -> (list: &Vec<(ClientIdentity, u32)>)
        ensures
            list@ == self.list(),
            forall|i: int| 0 <= i < list@.len() ==> #[trigger] self.view().contains_key(key_of(list@[i].0))
                && self.view()[key_of(list@[i].0)] == list@[i].1,
            forall|n: (Seq<char>, Seq<char>)| #[trigger] self.view().contains_key(n) ==> exists|i: int| 0 <= i < list@.len() && key_of(list@[i].0) == n,
    {
        proof {
            use_type_invariant(&*self);
            self.lemma_list();
        }
        &self.entries
    }
}

} // verus!
