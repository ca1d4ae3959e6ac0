//! A map keyed by text, kept as a vector of pairs without repeated keys.
//!
//! Lookups compare keys character by character, so the contracts speak of the
//! keys' character sequences.

use vstd::prelude::*;

verus! {

/// Map from texts to values; each key is stored once, in insertion order.
pub struct TextMap<V> {
    entries: Vec<(String, V)>,
}

impl<V> TextMap<V> {
    /// The stored pairs, in storage order.
    pub closed spec fn stored(&self) -> Seq<(String, V)> {
        self.entries@
    }

    /// The keys' characters, in storage order.
    pub open spec fn key_views(&self) -> Seq<Seq<char>> {
        self.stored().map_values(|e: (String, V)| e.0@)
    }

    /// No key is stored twice.
    pub open spec fn wf(&self) -> bool {
        self.key_views().no_duplicates()
    }

    pub open spec fn has(&self, k: Seq<char>) -> bool {
        exists|i: int| 0 <= i < self.stored().len() && #[trigger] self.stored()[i].0@ == k
    }

    pub open spec fn pos(&self, k: Seq<char>) -> int {
        choose|i: int| 0 <= i < self.stored().len() && #[trigger] self.stored()[i].0@ == k
    }

    pub open spec fn view(&self) -> Map<Seq<char>, V> {
        Map::new(|k: Seq<char>| self.has(k), |k: Seq<char>| self.stored()[self.pos(k)].1)
    }

    /// In a well-formed map, a stored key is found where it is stored.
    pub proof fn lemma_pos(&self, i: int)
        requires
            self.wf(),
            0 <= i < self.stored().len(),
        ensures
            self.has(self.stored()[i].0@),
            self.pos(self.stored()[i].0@) == i,
            self@.contains_key(self.stored()[i].0@),
            self@[self.stored()[i].0@] == self.stored()[i].1,
    {
        let k = self.stored()[i].0@;
        assert(self.has(k));
        let p = self.pos(k);
        if p != i {
            assert(self.key_views()[p] == self.key_views()[i]);
        }
    }

    /// The domain of the map is the set of stored keys.
    pub proof fn lemma_dom(&self)
        requires
            self.wf(),
        ensures
            self@.dom() == self.key_views().to_set(),
            self@.dom().finite(),
            self@.len() == self.stored().len(),
    {
        assert forall|k: Seq<char>| #[trigger] self@.dom().contains(k) <==> self.key_views().to_set().contains(k) by {
            if self.has(k) {
                let i = choose|i: int| 0 <= i < self.stored().len() && #[trigger] self.stored()[i].0@ == k;
                assert(self.key_views()[i] == k);
            }
            if self.key_views().contains(k) {
                let i = choose|i: int| 0 <= i < self.key_views().len() && self.key_views()[i] == k;
                assert(self.stored()[i].0@ == k);
            }
        }
        assert(self@.dom() =~= self.key_views().to_set());
        self.key_views().unique_seq_to_set();
    }

    pub fn new() -> (m: Self)
        ensures
            m.wf(),
            m@ == Map::<Seq<char>, V>::empty(),
            m.stored().len() == 0,
    {
        let m = TextMap { entries: Vec::new() };
        assert(m.key_views() =~= Seq::<Seq<char>>::empty());
        assert(m@ =~= Map::<Seq<char>, V>::empty());
        m
    }

    /// Number of stored keys.
    pub fn size(&self) -> (n: usize)
        ensures
            n == self.stored().len(),
    {
        self.entries.len()
    }

    /// The key stored at position `i`.
    pub fn key_at(&self, i: usize) -> (k: &String)
        requires
            i < self.stored().len(),
        ensures
            *k == self.stored()[i as int].0,
    {
        &self.entries[i].0
    }

    /// The value stored at position `i`.
    pub fn value_at(&self, i: usize) -> (v: &V)
        requires
            i < self.stored().len(),
        ensures
            *v == self.stored()[i as int].1,
    {
        &self.entries[i].1
    }

    fn position(&self, key: &str) -> (r: Option<usize>)
        ensures
            r matches Some(i) ==> i < self.stored().len() && self.stored()[i as int].0@ == key@,
            r is None ==> !self.has(key@),
    {
        let mut i: usize = 0;
        while i < self.entries.len()
            invariant
                i <= self.stored().len(),
                forall|j: int| 0 <= j < i ==> #[trigger] self.stored()[j].0@ != key@,
            decreases self.stored().len() - i,
        {
            if crate::text::str_eq(self.entries[i].0.as_str(), key) {
                return Some(i);
            }
            i = i + 1;
        }
        None
    }

    pub fn contains_key(&self, key: &str) -> (r: bool)
        ensures
            r == self@.contains_key(key@),
    {
        self.position(key).is_some()
    }

    pub fn get(&self, key: &str) -> (r: Option<&V>)
        requires
            self.wf(),
        ensures
            r matches Some(v) ==> self@.contains_key(key@) && *v == self@[key@],
            r is None ==> !self@.contains_key(key@),
    {
        match self.position(key) {
            Some(i) => {
                proof {
                    self.lemma_pos(i as int);
                }
                Some(&self.entries[i].1)
            },
            None => None,
        }
    }

    /// Sets the value of `key`, replacing any value it had; returns the replaced value.
    pub fn insert(&mut self, key: String, v: V) -> (r: Option<V>)
        requires
            old(self).wf(),
        ensures
            final(self).wf(),
            final(self)@ == old(self)@.insert(key@, v),
            r matches Some(x) ==> old(self)@.contains_key(key@) && x == old(self)@[key@],
            r is None ==> !old(self)@.contains_key(key@),
    {
        let ghost old_m = *self;
        let ghost k = key@;
        match self.position(key.as_str()) {
            Some(p) => {
                proof {
                    old_m.lemma_pos(p as int);
                }
                let (_, old_v) = self.entries.remove(p);
                self.entries.insert(p, (key, v));
                proof {
                    assert(self.key_views() =~= old_m.key_views());
                    assert forall|x: Seq<char>| #[trigger] self.has(x) <==> old_m.has(x) by {
                        if self.has(x) {
                            let i = choose|i: int| 0 <= i < self.stored().len() && #[trigger] self.stored()[i].0@ == x;
                            assert(self.key_views()[i] == x);
                            assert(old_m.stored()[i].0@ == x);
                        }
                        if old_m.has(x) {
                            let i = choose|i: int| 0 <= i < old_m.stored().len() && #[trigger] old_m.stored()[i].0@ == x;
                            assert(old_m.key_views()[i] == x);
                            assert(self.stored()[i].0@ == x);
                        }
                    }
                    assert forall|x: Seq<char>| #[trigger] self.has(x) implies self.stored()[self.pos(x)].1
                        == old_m@.insert(k, v)[x] by {
                        let i = self.pos(x);
                        self.lemma_pos(i);
                        if x != k {
                            assert(old_m.stored()[i] == self.stored()[i]);
                            old_m.lemma_pos(i);
                        } else {
                            assert(self.key_views()[i] == self.key_views()[p as int]);
                            assert(self.stored()[p as int].1 == v);
                        }
                    }
                    assert(self@ =~= old_m@.insert(k, v));
                }
                Some(old_v)
            },
            None => {
                self.entries.push((key, v));
                proof {
                    let n: int = old_m.stored().len() as int;
                    assert(self.key_views() =~= old_m.key_views().push(k));
                    assert(!old_m.key_views().contains(k)) by {
                        if old_m.key_views().contains(k) {
                            let i = choose|i: int| 0 <= i < old_m.key_views().len() && old_m.key_views()[i] == k;
                            assert(old_m.stored()[i].0@ == k);
                        }
                    }
                    assert forall|x: Seq<char>| #[trigger] self.has(x) <==> (old_m.has(x) || x == k) by {
                        if self.has(x) {
                            let i = choose|i: int| 0 <= i < self.stored().len() && #[trigger] self.stored()[i].0@ == x;
                            if i < n {
                                assert(old_m.stored()[i].0@ == x);
                            }
                        }
                        if old_m.has(x) {
                            let i = choose|i: int| 0 <= i < old_m.stored().len() && #[trigger] old_m.stored()[i].0@ == x;
                            assert(self.stored()[i].0@ == x);
                        }
                        if x == k {
                            assert(self.stored()[n].0@ == x);
                        }
                    }
                    assert forall|x: Seq<char>| #[trigger] self.has(x) implies self.stored()[self.pos(x)].1
                        == old_m@.insert(k, v)[x] by {
                        let i = self.pos(x);
                        self.lemma_pos(i);
                        if x != k {
                            assert(i < n);
                            assert(old_m.stored()[i] == self.stored()[i]);
                            old_m.lemma_pos(i);
                        }
                    }
                    assert(self@ =~= old_m@.insert(k, v));
                }
                None
            },
        }
    }

    /// Removes `key`; returns the value it had.
    pub fn remove(&mut self, key: &str) -> (r: Option<V>)
        requires
            old(self).wf(),
        ensures
            final(self).wf(),
            final(self)@ == old(self)@.remove(key@),
            r matches Some(x) ==> old(self)@.contains_key(key@) && x == old(self)@[key@],
            r is None ==> !old(self)@.contains_key(key@),
    {
        let ghost old_m = *self;
        let ghost k = key@;
        match self.position(key) {
            None => {
                assert(self@ =~= old_m@.remove(k));
                None
            },
            Some(p) => {
                proof {
                    old_m.lemma_pos(p as int);
                }
                let (_, old_v) = self.entries.remove(p);
                proof {
                    assert(self.key_views() =~= old_m.key_views().remove(p as int));
                    assert forall|x: Seq<char>| #[trigger] self.has(x) <==> (old_m.has(x) && x != k) by {
                        if self.has(x) {
                            let i = choose|i: int| 0 <= i < self.stored().len() && #[trigger] self.stored()[i].0@ == x;
                            if i < p {
                                assert(old_m.stored()[i].0@ == x);
                                assert(old_m.key_views()[i] != old_m.key_views()[p as int]);
                            } else {
                                assert(old_m.stored()[i + 1].0@ == x);
                                assert(old_m.key_views()[i + 1] != old_m.key_views()[p as int]);
                            }
                        }
                        if old_m.has(x) && x != k {
                            let i = choose|i: int| 0 <= i < old_m.stored().len() && #[trigger] old_m.stored()[i].0@ == x;
                            if i < p {
                                assert(self.stored()[i].0@ == x);
                            } else {
                                assert(i != p);
                                assert(self.stored()[i - 1].0@ == x);
                            }
                        }
                    }
                    assert forall|x: Seq<char>| #[trigger] self.has(x) implies self.stored()[self.pos(x)].1
                        == old_m@.remove(k)[x] by {
                        let i = self.pos(x);
                        self.lemma_pos(i);
                        if i < p {
                            assert(old_m.stored()[i] == self.stored()[i]);
                            old_m.lemma_pos(i);
                        } else {
                            assert(old_m.stored()[i + 1] == self.stored()[i]);
                            old_m.lemma_pos(i + 1);
                        }
                    }
                    assert(self@ =~= old_m@.remove(k));
                }
                Some(old_v)
            },
        }
    }

    pub fn clear(&mut self)
        ensures
            final(self).wf(),
            final(self)@ == Map::<Seq<char>, V>::empty(),
    {
        self.entries.clear();
        assert(self.key_views() =~= Seq::<Seq<char>>::empty());
        assert(self@ =~= Map::<Seq<char>, V>::empty());
    }
}

} // verus!
