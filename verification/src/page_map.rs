//! An ordered map from page numbers to values, kept as a vector sorted by page.
//!
//! The pipeline needs both keyed lookups and the pages in ascending order, and
//! states its contracts over that order; the sorted vector gives both directly.

use vstd::prelude::*;

verus! {

/// Map from page numbers to values, iterated in ascending page order.
pub struct PageMap<V> {
    entries: Vec<(u32, V)>,
}

impl<V> PageMap<V> {
    /// The entries, in storage order.
    pub closed spec fn entry_seq(&self) -> Seq<(u32, V)> {
        self.entries@
    }

    /// Pages strictly ascend along the storage order.
    pub open spec fn wf(&self) -> bool {
        forall|i: int, j: int|
            0 <= i < j < self.entry_seq().len() ==> #[trigger] self.entry_seq()[i].0
                < #[trigger] self.entry_seq()[j].0
    }

    /// The pages present, in ascending order.
    pub open spec fn key_seq(&self) -> Seq<u32> {
        self.entry_seq().map_values(|e: (u32, V)| e.0)
    }

    /// The stored values, in ascending page order.
    pub open spec fn value_seq(&self) -> Seq<V> {
        self.entry_seq().map_values(|e: (u32, V)| e.1)
    }

    pub open spec fn has(&self, k: u32) -> bool {
        exists|i: int| 0 <= i < self.entry_seq().len() && #[trigger] self.entry_seq()[i].0 == k
    }

    pub open spec fn pos(&self, k: u32) -> int {
        choose|i: int| 0 <= i < self.entry_seq().len() && #[trigger] self.entry_seq()[i].0 == k
    }

    pub open spec fn view(&self) -> Map<u32, V> {
        Map::new(|k: u32| self.has(k), |k: u32| self.entry_seq()[self.pos(k)].1)
    }

    /// In a well-formed map, the position of a present page is where it is stored.
    pub proof fn lemma_pos(&self, i: int)
        requires
            self.wf(),
            0 <= i < self.entry_seq().len(),
        ensures
            self.has(self.entry_seq()[i].0),
            self.pos(self.entry_seq()[i].0) == i,
            self@.contains_key(self.entry_seq()[i].0),
            self@[self.entry_seq()[i].0] == self.entry_seq()[i].1,
    {
        let k = self.entry_seq()[i].0;
        assert(self.has(k));
        let p = self.pos(k);
        if p < i {
            assert(self.entry_seq()[p].0 < self.entry_seq()[i].0);
        } else if p > i {
            assert(self.entry_seq()[i].0 < self.entry_seq()[p].0);
        }
    }

    /// The key sequence holds exactly the pages of the map, without repeats, ascending.
    pub proof fn lemma_keys(&self)
        requires
            self.wf(),
        ensures
            forall|k: u32| self@.contains_key(k) <==> self.key_seq().contains(k),
            forall|i: int, j: int|
                0 <= i < j < self.key_seq().len() ==> #[trigger] self.key_seq()[i]
                    < #[trigger] self.key_seq()[j],
            self.key_seq().len() == self.value_seq().len(),
            forall|i: int|
                0 <= i < self.key_seq().len() ==> #[trigger] self@[self.key_seq()[i]]
                    == self.value_seq()[i],
    {
        assert forall|k: u32| self@.contains_key(k) <==> self.key_seq().contains(k) by {
            if self@.contains_key(k) {
                let i = self.pos(k);
                assert(self.key_seq()[i] == k);
            }
            if self.key_seq().contains(k) {
                let i = choose|i: int| 0 <= i < self.key_seq().len() && self.key_seq()[i] == k;
                assert(self.entry_seq()[i].0 == k);
            }
        }
        assert forall|i: int| 0 <= i < self.key_seq().len() implies #[trigger] self@[self.key_seq()[i]]
            == self.value_seq()[i] by {
            self.lemma_pos(i);
        }
    }

    pub fn new() -> (m: Self)
        ensures
            m.wf(),
            m@ == Map::<u32, V>::empty(),
            m.key_seq() == Seq::<u32>::empty(),
    {
        let m = PageMap { entries: Vec::new() };
        assert(m@ =~= Map::<u32, V>::empty());
        assert(m.key_seq() =~= Seq::<u32>::empty());
        m
    }

    pub fn len(&self) -> (n: usize)
        requires
            self.wf(),
        ensures
            n == self.key_seq().len(),
            n == self@.dom().len(),
    {
        proof {
            self.lemma_keys();
            assert(self.key_seq().no_duplicates());
            self.key_seq().unique_seq_to_set();
            assert(self.key_seq().to_set() =~= self@.dom());
        }
        self.entries.len()
    }

    /// First storage position whose page is not below `k`.
    fn lower_bound(&self, k: u32) -> (p: usize)
        requires
            self.wf(),
        ensures
            p <= self.entry_seq().len(),
            forall|i: int| 0 <= i < p ==> #[trigger] self.entry_seq()[i].0 < k,
            p < self.entry_seq().len() ==> self.entry_seq()[p as int].0 >= k,
    {
        let mut i: usize = 0;
        while i < self.entries.len()
            invariant
                self.wf(),
                i <= self.entry_seq().len(),
                forall|j: int| 0 <= j < i ==> #[trigger] self.entry_seq()[j].0 < k,
            decreases self.entry_seq().len() - i,
        {
            if self.entries[i].0 >= k {
                return i;
            }
            i = i + 1;
        }
        i
    }

    pub fn contains_key(&self, k: &u32) -> (r: bool)
        requires
            self.wf(),
        ensures
            r == self@.contains_key(*k),
    {
        let p = self.lower_bound(*k);
        if p < self.entries.len() && self.entries[p].0 == *k {
            proof {
                self.lemma_pos(p as int);
            }
            true
        } else {
            proof {
                if self.has(*k) {
                    let i = self.pos(*k);
                    if i >= p {
                        if i > p {
                            assert(self.entry_seq()[p as int].0 < self.entry_seq()[i].0);
                        }
                    }
                }
            }
            false
        }
    }

    pub fn get(&self, k: &u32) -> (r: Option<&V>)
        requires
            self.wf(),
        ensures
            r matches Some(v) ==> self@.contains_key(*k) && *v == self@[*k],
            r is None ==> !self@.contains_key(*k),
    {
        let p = self.lower_bound(*k);
        if p < self.entries.len() && self.entries[p].0 == *k {
            proof {
                self.lemma_pos(p as int);
            }
            Some(&self.entries[p].1)
        } else {
            proof {
                if self.has(*k) {
                    let i = self.pos(*k);
                    if i > p {
                        assert(self.entry_seq()[p as int].0 < self.entry_seq()[i].0);
                    }
                }
            }
            None
        }
    }

    /// The page stored at a storage position.
    pub fn key_at(&self, i: usize) -> (k: u32)
        requires
            i < self.key_seq().len(),
        ensures
            k == self.key_seq()[i as int],
    {
        self.entries[i].0
    }

    /// The value stored at a storage position.
    pub fn value_at(&self, i: usize) -> (v: &V)
        requires
            i < self.key_seq().len(),
        ensures
            *v == self.value_seq()[i as int],
    {
        &self.entries[i].1
    }

    pub fn insert(&mut self, k: u32, v: V) -> (r: Option<V>)
        requires
            old(self).wf(),
        ensures
            final(self).wf(),
            final(self)@ == old(self)@.insert(k, v),
            r matches Some(x) ==> old(self)@.contains_key(k) && x == old(self)@[k],
            r is None ==> !old(self)@.contains_key(k),
    {
        let p = self.lower_bound(k);
        let ghost old_m = *self;
        if p < self.entries.len() && self.entries[p].0 == k {
            proof {
                old_m.lemma_pos(p as int);
            }
            let (_, old_v) = self.entries.remove(p);
            self.entries.insert(p, (k, v));
            proof {
                assert(self.entry_seq() =~= old_m.entry_seq().update(p as int, (k, v)));
                assert forall|i: int, j: int|
                    0 <= i < j < self.entry_seq().len() implies #[trigger] self.entry_seq()[i].0
                    < #[trigger] self.entry_seq()[j].0 by {
                    assert(old_m.entry_seq()[i].0 < old_m.entry_seq()[j].0);
                }
                assert forall|x: u32| #[trigger] self.has(x) <==> old_m.has(x) by {
                    if self.has(x) {
                        let i = choose|i: int| 0 <= i < self.entry_seq().len() && self.entry_seq()[i].0 == x;
                        assert(old_m.entry_seq()[i].0 == x);
                    }
                    if old_m.has(x) {
                        let i = choose|i: int| 0 <= i < old_m.entry_seq().len() && old_m.entry_seq()[i].0 == x;
                        assert(self.entry_seq()[i].0 == x);
                    }
                }
                assert forall|x: u32| #[trigger] self.has(x) implies self.entry_seq()[self.pos(x)].1
                    == old_m@.insert(k, v)[x] by {
                    let i = self.pos(x);
                    self.lemma_pos(i);
                    if x != k {
                        old_m.lemma_pos(i);
                    }
                }
                assert(self@ =~= old_m@.insert(k, v));
            }
            Some(old_v)
        } else {
            self.entries.insert(p, (k, v));
            proof {
                assert(!old_m.has(k)) by {
                    if old_m.has(k) {
                        let i = old_m.pos(k);
                        if i > p {
                            assert(old_m.entry_seq()[p as int].0 < old_m.entry_seq()[i].0);
                        }
                    }
                }
                assert forall|i: int, j: int|
                    0 <= i < j < self.entry_seq().len() implies #[trigger] self.entry_seq()[i].0
                    < #[trigger] self.entry_seq()[j].0 by {
                    if j < p {
                        assert(old_m.entry_seq()[i].0 < old_m.entry_seq()[j].0);
                    } else if j == p {
                    } else if i < p {
                        assert(old_m.entry_seq()[j - 1].0 >= k);
                    } else if i == p {
                        assert(old_m.entry_seq()[j - 1].0 >= k);
                        assert(old_m.entry_seq()[j - 1].0 != k) by {
                            if old_m.entry_seq()[j - 1].0 == k {
                                assert(old_m.has(k));
                            }
                        }
                    } else {
                        assert(old_m.entry_seq()[i - 1].0 < old_m.entry_seq()[j - 1].0);
                    }
                }
                assert forall|x: u32| #[trigger] self.has(x) <==> (old_m.has(x) || x == k) by {
                    if self.has(x) {
                        let i = choose|i: int| 0 <= i < self.entry_seq().len() && self.entry_seq()[i].0 == x;
                        if i < p {
                            assert(old_m.entry_seq()[i].0 == x);
                        } else if i > p {
                            assert(old_m.entry_seq()[i - 1].0 == x);
                        }
                    }
                    if old_m.has(x) {
                        let i = choose|i: int| 0 <= i < old_m.entry_seq().len() && old_m.entry_seq()[i].0 == x;
                        if i < p {
                            assert(self.entry_seq()[i].0 == x);
                        } else {
                            assert(self.entry_seq()[i + 1].0 == x);
                        }
                    }
                    if x == k {
                        assert(self.entry_seq()[p as int].0 == k);
                    }
                }
                assert forall|x: u32| #[trigger] self.has(x) implies self.entry_seq()[self.pos(x)].1
                    == old_m@.insert(k, v)[x] by {
                    let i = self.pos(x);
                    self.lemma_pos(i);
                    if i < p {
                        old_m.lemma_pos(i);
                    } else if i > p {
                        old_m.lemma_pos(i - 1);
                    }
                }
                assert(self@ =~= old_m@.insert(k, v));
            }
            None
        }
    }

    pub fn remove(&mut self, k: &u32) -> (r: Option<V>)
        requires
            old(self).wf(),
        ensures
            final(self).wf(),
            final(self)@ == old(self)@.remove(*k),
            r matches Some(x) ==> old(self)@.contains_key(*k) && x == old(self)@[*k],
            r is None ==> !old(self)@.contains_key(*k),
    {
        let p = self.lower_bound(*k);
        let ghost old_m = *self;
        if p < self.entries.len() && self.entries[p].0 == *k {
            proof {
                old_m.lemma_pos(p as int);
            }
            let (_, old_v) = self.entries.remove(p);
            proof {
                assert forall|i: int, j: int|
                    0 <= i < j < self.entry_seq().len() implies #[trigger] self.entry_seq()[i].0
                    < #[trigger] self.entry_seq()[j].0 by {
                    if j < p {
                        assert(old_m.entry_seq()[i].0 < old_m.entry_seq()[j].0);
                    } else if i < p {
                        assert(old_m.entry_seq()[i].0 < old_m.entry_seq()[j + 1].0);
                    } else {
                        assert(old_m.entry_seq()[i + 1].0 < old_m.entry_seq()[j + 1].0);
                    }
                }
                assert forall|x: u32| #[trigger] self.has(x) <==> (old_m.has(x) && x != *k) by {
                    if self.has(x) {
                        let i = choose|i: int| 0 <= i < self.entry_seq().len() && self.entry_seq()[i].0 == x;
                        if i < p {
                            assert(old_m.entry_seq()[i].0 == x);
                            assert(old_m.entry_seq()[i].0 < old_m.entry_seq()[p as int].0);
                        } else {
                            assert(old_m.entry_seq()[i + 1].0 == x);
                            assert(old_m.entry_seq()[p as int].0 < old_m.entry_seq()[i + 1].0);
                        }
                    }
                    if old_m.has(x) && x != *k {
                        let i = choose|i: int| 0 <= i < old_m.entry_seq().len() && old_m.entry_seq()[i].0 == x;
                        if i < p {
                            assert(self.entry_seq()[i].0 == x);
                        } else {
                            assert(i != p);
                            assert(self.entry_seq()[i - 1].0 == x);
                        }
                    }
                }
                assert forall|x: u32| #[trigger] self.has(x) implies self.entry_seq()[self.pos(x)].1
                    == old_m@.remove(*k)[x] by {
                    let i = self.pos(x);
                    self.lemma_pos(i);
                    if i < p {
                        old_m.lemma_pos(i);
                    } else {
                        old_m.lemma_pos(i + 1);
                    }
                }
                assert(self@ =~= old_m@.remove(*k));
            }
            Some(old_v)
        } else {
            proof {
                assert(!old_m.has(*k)) by {
                    if old_m.has(*k) {
                        let i = old_m.pos(*k);
                        if i > p {
                            assert(old_m.entry_seq()[p as int].0 < old_m.entry_seq()[i].0);
                        }
                    }
                }
                assert(self@ =~= old_m@.remove(*k));
            }
            None
        }
    }

    pub fn clear(&mut self)
        ensures
            final(self).wf(),
            final(self)@ == Map::<u32, V>::empty(),
            final(self).key_seq() == Seq::<u32>::empty(),
    {
        self.entries.clear();
        assert(self@ =~= Map::<u32, V>::empty());
        assert(self.key_seq() =~= Seq::<u32>::empty());
    }

    /// The pages present, ascending.
    pub fn keys(&self) -> (ks: Vec<u32>)
        ensures
            ks@ == self.key_seq(),
    {
        let mut ks: Vec<u32> = Vec::new();
        let mut i: usize = 0;
        while i < self.entries.len()
            invariant
                i <= self.entry_seq().len(),
                ks@ == self.key_seq().take(i as int),
            decreases self.entry_seq().len() - i,
        {
            ks.push(self.entries[i].0);
            i = i + 1;
            assert(ks@ =~= self.key_seq().take(i as int));
        }
        assert(ks@ =~= self.key_seq());
        ks
    }
}


/// Whether a page sequence strictly ascends.
pub open spec fn ascending(s: Seq<u32>) -> bool {
    forall|i: int, j: int| 0 <= i < j < s.len() ==> #[trigger] s[i] < #[trigger] s[j]
}

/// The pages of a finite set in ascending order.
pub open spec fn sorted_set(pages: Set<u32>) -> Seq<u32> {
    choose|s: Seq<u32>| ascending(s) && s.to_set() == pages
}

/// The pages of a finite map in ascending order.
pub open spec fn sorted_keys<V>(m: Map<u32, V>) -> Seq<u32> {
    sorted_set(m.dom())
}

/// The values of a map in ascending page order.
pub open spec fn values_by_page<V>(m: Map<u32, V>) -> Seq<V> {
    sorted_keys(m).map_values(|k: u32| m[k])
}

/// Two ascending sequences with the same elements are equal.
pub proof fn lemma_ascending_unique(a: Seq<u32>, b: Seq<u32>)
    requires
        ascending(a),
        ascending(b),
        a.to_set() == b.to_set(),
    ensures
        a == b,
    decreases a.len(),
{
    if a.len() == 0 {
        if b.len() > 0 {
            assert(b.to_set().contains(b[0]));
            assert(!a.to_set().contains(b[0]));
        }
        assert(a =~= b);
    } else {
        if b.len() == 0 {
            assert(a.to_set().contains(a[0]));
            assert(!b.to_set().contains(a[0]));
        }
        assert(b.len() > 0);
        // the first elements are both the least element of the common set
        assert(b.to_set().contains(a[0]));
        assert(a.to_set().contains(b[0]));
        let ia = choose|i: int| 0 <= i < b.len() && b[i] == a[0];
        let ib = choose|i: int| 0 <= i < a.len() && a[i] == b[0];
        if ia > 0 {
            assert(b[0] < b[ia]);
            if ib > 0 {
                assert(a[0] < a[ib]);
            }
        }
        if ib > 0 {
            assert(a[0] < a[ib]);
        }
        assert(a[0] == b[0]);
        let a1 = a.drop_first();
        let b1 = b.drop_first();
        assert forall|x: u32| a1.to_set().contains(x) implies b1.to_set().contains(x) by {
            let i = choose|i: int| 0 <= i < a1.len() && a1[i] == x;
            assert(a[i + 1] == x);
            assert(a.to_set().contains(x));
            assert(b.to_set().contains(x));
            let j = choose|j: int| 0 <= j < b.len() && b[j] == x;
            assert(a[0] < a[i + 1]);
            if j == 0 {
                assert(false);
            }
            assert(b1[j - 1] == x);
        }
        assert forall|x: u32| b1.to_set().contains(x) implies a1.to_set().contains(x) by {
            let i = choose|i: int| 0 <= i < b1.len() && b1[i] == x;
            assert(b[i + 1] == x);
            assert(b.to_set().contains(x));
            assert(a.to_set().contains(x));
            let j = choose|j: int| 0 <= j < a.len() && a[j] == x;
            assert(b[0] < b[i + 1]);
            if j == 0 {
                assert(false);
            }
            assert(a1[j - 1] == x);
        }
        assert(a1.to_set() =~= b1.to_set());
        lemma_ascending_unique(a1, b1);
        assert(a.len() == b.len());
        assert forall|i: int| 0 <= i < a.len() implies a[i] == b[i] by {
            if i > 0 {
                assert(a[i] == a1[i - 1]);
                assert(b[i] == b1[i - 1]);
            }
        }
        assert(a =~= b);
    }
}

/// An ascending page sequence holds at most 2^32 pages.
pub proof fn lemma_ascending_len(s: Seq<u32>)
    requires
        ascending(s),
    ensures
        s.len() <= 0x1_0000_0000,
        forall|i: int| 0 <= i < s.len() ==> #[trigger] s[i] >= i,
{
    assert forall|i: int| 0 <= i < s.len() implies #[trigger] s[i] >= i by {
        lemma_ascending_at_least(s, i);
    }
    if s.len() > 0x1_0000_0000 {
        assert(s[0x1_0000_0000] >= 0x1_0000_0000);
    }
}

proof fn lemma_ascending_at_least(s: Seq<u32>, i: int)
    requires
        ascending(s),
        0 <= i < s.len(),
    ensures
        s[i] >= i,
    decreases i,
{
    if i > 0 {
        lemma_ascending_at_least(s, i - 1);
        assert(s[i - 1] < s[i]);
    }
}

impl<V> PageMap<V> {
    /// The key sequence is the ascending order of the map's pages.
    pub proof fn lemma_sorted(&self)
        requires
            self.wf(),
        ensures
            self.key_seq() == sorted_keys(self@),
            self.value_seq() == values_by_page(self@),
            self.key_seq().len() <= 0x1_0000_0000,
            self@.dom().finite(),
    {
        self.lemma_keys();
        assert(ascending(self.key_seq()));
        assert(self.key_seq().to_set() =~= self@.dom());
        let s = sorted_keys(self@);
        assert(ascending(s) && s.to_set() == self@.dom());
        lemma_ascending_unique(self.key_seq(), s);
        assert(self.value_seq() =~= values_by_page(self@));
        lemma_ascending_len(self.key_seq());
        assert(self@.dom() == self.key_seq().to_set());
    }
}

/// A set of texts (repair keys), kept as a vector without repeats.
pub struct KeySet {
    keys: Vec<String>,
}

impl KeySet {
    pub closed spec fn items(&self) -> Seq<Seq<char>> {
        self.keys@.map_values(|k: String| k@)
    }

    pub open spec fn wf(&self) -> bool {
        self.items().no_duplicates()
    }

    pub open spec fn view(&self) -> Set<Seq<char>> {
        self.items().to_set()
    }

    pub fn new() -> (s: Self)
        ensures
            s.wf(),
            s@ == Set::<Seq<char>>::empty(),
    {
        let s = KeySet { keys: Vec::new() };
        assert(s.items() =~= Seq::<Seq<char>>::empty());
        assert(s@ =~= Set::<Seq<char>>::empty());
        s
    }

    fn position(&self, key: &str) -> (r: Option<usize>)
        ensures
            r matches Some(i) ==> i < self.items().len() && self.items()[i as int] == key@,
            r is None ==> !self.items().contains(key@),
    {
        let mut i: usize = 0;
        while i < self.keys.len()
            invariant
                i <= self.keys@.len(),
                forall|j: int| 0 <= j < i ==> #[trigger] self.items()[j] != key@,
            decreases self.keys@.len() - i,
        {
            if crate::text::str_eq(self.keys[i].as_str(), key) {
                return Some(i);
            }
            i = i + 1;
        }
        None
    }

    pub fn contains(&self, key: &str) -> (r: bool)
        ensures
            r == self@.contains(key@),
    {
        match self.position(key) {
            Some(i) => {
                assert(self.items().contains(key@));
                true
            },
            None => false,
        }
    }

    pub fn insert(&mut self, key: String) -> (r: bool)
        requires
            old(self).wf(),
        ensures
            final(self).wf(),
            final(self)@ == old(self)@.insert(key@),
            r == !old(self)@.contains(key@),
    {
        if self.position(key.as_str()).is_some() {
            assert(self@ =~= old(self)@.insert(key@));
            return false;
        }
        let ghost before = self.items();
        let ghost k = key@;
        self.keys.push(key);
        assert(self.items() =~= before.push(k));
        assert forall|x: Seq<char>| #[trigger] self@.contains(x) <==> old(self)@.insert(k).contains(x) by {
            if self@.contains(x) {
                let j = choose|j: int| 0 <= j < self.items().len() && self.items()[j] == x;
                if j < before.len() {
                    assert(before[j] == x);
                }
            }
            if old(self)@.contains(x) {
                let j = choose|j: int| 0 <= j < before.len() && before[j] == x;
                assert(self.items()[j] == x);
            }
            if x == k {
                assert(self.items()[before.len() as int] == x);
            }
        }
        assert(self@ =~= old(self)@.insert(k));
        true
    }

    pub fn remove(&mut self, key: &str) -> (r: bool)
        requires
            old(self).wf(),
        ensures
            final(self).wf(),
            final(self)@ == old(self)@.remove(key@),
            r == old(self)@.contains(key@),
    {
        match self.position(key) {
            None => {
                assert(self@ =~= old(self)@.remove(key@));
                false
            },
            Some(i) => {
                let ghost before = self.items();
                self.keys.remove(i);
                assert(self.items() =~= before.remove(i as int));
                assert forall|x: Seq<char>| #[trigger] self@.contains(x) <==> old(self)@.remove(key@).contains(x) by {
                    if self@.contains(x) {
                        let j = choose|j: int| 0 <= j < self.items().len() && self.items()[j] == x;
                        if j < i {
                            assert(before[j] == x);
                            assert(x != key@);
                        } else {
                            assert(before[j + 1] == x);
                            assert(x != key@);
                        }
                    }
                    if old(self)@.remove(key@).contains(x) {
                        let j = choose|j: int| 0 <= j < before.len() && before[j] == x;
                        if j < i {
                            assert(self.items()[j] == x);
                        } else {
                            assert(j != i);
                            assert(self.items()[j - 1] == x);
                        }
                    }
                }
                assert(self@ =~= old(self)@.remove(key@));
                true
            },
        }
    }

    pub fn clear(&mut self)
        ensures
            final(self).wf(),
            final(self)@ == Set::<Seq<char>>::empty(),
    {
        self.keys.clear();
        assert(self.items() =~= Seq::<Seq<char>>::empty());
        assert(self@ =~= Set::<Seq<char>>::empty());
    }
}

} // verus!
