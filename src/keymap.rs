use vstd::prelude::*;

use crate::rdb::RedisString;

verus! {

/// Whether two byte strings are equal.
pub fn bytes_eq(a: &[u8], b: &[u8]) -> (r: bool)
    ensures
        r == (a@ == b@),
{
    if a.len() != b.len() {
        return false;
    }
    let mut i: usize = 0;
    while i < a.len()
        invariant
            a@.len() == b@.len(),
            i <= a@.len(),
            forall|j: int| 0 <= j < i ==> a@[j] == b@[j],
        decreases a@.len() - i,
    {
        if a[i] != b[i] {
            return false;
        }
        i = i + 1;
    }
    assert(a@ =~= b@);
    true
}

/// A finite map from byte strings to values, kept as a vector of entries
/// whose keys are pairwise distinct. Iteration follows insertion order.
#[derive(Debug)]
pub struct ByteMap<V> {
    entries: Vec<(RedisString, V)>,
}

impl<V> View for ByteMap<V> {
    type V = Map<Seq<u8>, V>;

    /// The contents as a mathematical map.
    closed spec fn view(&self) -> Map<Seq<u8>, V> {
        Map::new(
            |k: Seq<u8>| exists|i: int| self.holds_at(k, i),
            |k: Seq<u8>| self.entries@[choose|i: int| self.holds_at(k, i)].1,
        )
    }
}

impl<V> ByteMap<V> {
    /// The keys are pairwise distinct.
    pub closed spec fn wf(&self) -> bool {
        forall|i: int, j: int|
            0 <= i < self.entries@.len() && 0 <= j < self.entries@.len() && i != j
                ==> #[trigger] self.entries@[i].0@ != #[trigger] self.entries@[j].0@
    }

    pub(crate) closed spec fn holds_at(&self, k: Seq<u8>, i: int) -> bool {
        0 <= i < self.entries@.len() && self.entries@[i].0@ == k
    }

    /// The keys in iteration order.
    pub closed spec fn key_seq(&self) -> Seq<Seq<u8>> {
        self.entries@.map_values(|e: (RedisString, V)| e.0@)
    }

    proof fn lemma_entry(&self, i: int)
        requires
            self.wf(),
            0 <= i < self.entries@.len(),
        ensures
            self.view().contains_key(self.entries@[i].0@),
            self.view()[self.entries@[i].0@] == self.entries@[i].1,
    {
        let k = self.entries@[i].0@;
        assert(self.holds_at(k, i));
        let j = choose|j: int| self.holds_at(k, j);
        assert(self.holds_at(k, j));
        assert(i == j);
    }

    /// The key sequence holds each key of the map exactly once.
    pub proof fn lemma_keys(&self)
        requires
            self.wf(),
        ensures
            self.key_seq().no_duplicates(),
            self.key_seq().to_set() == self.view().dom(),
            self.key_seq().len() == self.view().dom().len(),
    {
        let ks = self.key_seq();
        assert forall|k: Seq<u8>| ks.to_set().contains(k) <==> self.view().dom().contains(k) by {
            if ks.to_set().contains(k) {
                let i = choose|i: int| 0 <= i < ks.len() && ks[i] == k;
                assert(self.holds_at(k, i));
            }
            if self.view().dom().contains(k) {
                let i = choose|i: int| self.holds_at(k, i);
                assert(ks[i] == k);
            }
        }
        assert(ks.to_set() =~= self.view().dom());
        assert(ks.no_duplicates()) by {
            assert forall|i: int, j: int| 0 <= i < ks.len() && 0 <= j < ks.len() && i != j implies ks[i] != ks[j] by {
                assert(self.entries@[i].0@ != self.entries@[j].0@);
            }
        }
        ks.unique_seq_to_set();
    }

    pub fn new() -> (r: Self)
        ensures
            r.wf(),
            r.view() == Map::<Seq<u8>, V>::empty(),
            r.key_seq() == Seq::<Seq<u8>>::empty(),
    {
        let r = ByteMap { entries: Vec::new() };
        assert(r.view() =~= Map::<Seq<u8>, V>::empty());
        assert(r.key_seq() =~= Seq::<Seq<u8>>::empty());
        r
    }

    /// The position of `key` among the entries.
    fn find(&self, key: &[u8]) -> (r: Option<usize>)
        requires
            self.wf(),
        ensures
            match r {
                Some(i) => self.holds_at(key@, i as int),
                None => !self.view().contains_key(key@),
            },
    {
        let mut i: usize = 0;
        while i < self.entries.len()
            invariant
                i <= self.entries@.len(),
                forall|j: int| 0 <= j < i ==> self.entries@[j].0@ != key@,
            decreases self.entries@.len() - i,
        {
            if bytes_eq(self.entries[i].0.as_slice(), key) {
                return Some(i);
            }
            i = i + 1;
        }
        proof {
            if self.view().contains_key(key@) {
                let j = choose|j: int| self.holds_at(key@, j);
                assert(self.entries@[j].0@ != key@);
            }
        }
        None
    }

    pub fn get(&self, key: &[u8]) -> (r: Option<&V>)
        requires
            self.wf(),
        ensures
            match r {
                Some(v) => self.view().contains_key(key@) && *v == self.view()[key@],
                None => !self.view().contains_key(key@),
            },
    {
        match self.find(key) {
            Some(i) => {
                proof { self.lemma_entry(i as int); }
                Some(&self.entries[i].1)
            },
            None => None,
        }
    }

    /// Maps `key` to `value`, replacing an earlier value of the key.
    pub fn insert(&mut self, key: RedisString, value: V)
        requires
            old(self).wf(),
        ensures
            final(self).wf(),
            final(self).view() == old(self).view().insert(key@, value),
    {
        let ghost k = key@;
        let ghost pre = *self;
        match self.find(key.as_slice()) {
            Some(i) => {
                self.entries.set(i, (key, value));
                proof {
                    assert forall|a: int, b: int|
                        0 <= a < self.entries@.len() && 0 <= b < self.entries@.len() && a != b
                        implies #[trigger] self.entries@[a].0@ != #[trigger] self.entries@[b].0@ by {
                        assert(pre.entries@[a].0@ != pre.entries@[b].0@);
                    }
                    assert forall|q: Seq<u8>| #[trigger] self.view().contains_key(q) <==> pre.view().insert(k, value).contains_key(q) by {
                        if self.view().contains_key(q) {
                            let j = choose|j: int| self.holds_at(q, j);
                            if j != i { assert(pre.holds_at(q, j)); }
                        }
                        if pre.view().contains_key(q) && q != k {
                            let j = choose|j: int| pre.holds_at(q, j);
                            assert(self.holds_at(q, j));
                        }
                        if q == k { assert(self.holds_at(q, i as int)); }
                    }
                    assert forall|q: Seq<u8>| #[trigger] self.view().contains_key(q) implies self.view()[q] == pre.view().insert(k, value)[q] by {
                        let j = choose|j: int| self.holds_at(q, j);
                        self.lemma_entry(j);
                        if j != i as int {
                            pre.lemma_entry(j);
                        }
                    }
                    assert(self.view() =~= pre.view().insert(k, value));
                }
            },
            None => {
                self.entries.push((key, value));
                proof {
                    let n = pre.entries@.len() as int;
                    assert forall|a: int, b: int|
                        0 <= a < self.entries@.len() && 0 <= b < self.entries@.len() && a != b
                        implies #[trigger] self.entries@[a].0@ != #[trigger] self.entries@[b].0@ by {
                        if a < n && b < n {
                            assert(pre.entries@[a].0@ != pre.entries@[b].0@);
                        } else if a < n {
                            assert(pre.holds_at(pre.entries@[a].0@, a));
                        } else {
                            assert(pre.holds_at(pre.entries@[b].0@, b));
                        }
                    }
                    assert forall|q: Seq<u8>| #[trigger] self.view().contains_key(q) <==> pre.view().insert(k, value).contains_key(q) by {
                        if self.view().contains_key(q) {
                            let j = choose|j: int| self.holds_at(q, j);
                            if j < n { assert(pre.holds_at(q, j)); }
                        }
                        if pre.view().contains_key(q) {
                            let j = choose|j: int| pre.holds_at(q, j);
                            assert(self.holds_at(q, j));
                        }
                        if q == k { assert(self.holds_at(q, n)); }
                    }
                    assert forall|q: Seq<u8>| #[trigger] self.view().contains_key(q) implies self.view()[q] == pre.view().insert(k, value)[q] by {
                        let j = choose|j: int| self.holds_at(q, j);
                        self.lemma_entry(j);
                        if j < n {
                            pre.lemma_entry(j);
                        }
                    }
                    assert(self.view() =~= pre.view().insert(k, value));
                }
            },
        }
    }

    /// Removes `key` and its value, if present.
    pub fn remove(&mut self, key: &[u8])
        requires
            old(self).wf(),
        ensures
            final(self).wf(),
            final(self).view() == old(self).view().remove(key@),
    {
        let ghost pre = *self;
        match self.find(key) {
            Some(i) => {
                self.entries.remove(i);
                proof {
                    let ii = i as int;
                    assert forall|a: int| 0 <= a < self.entries@.len() implies #[trigger] self.entries@[a]
                        == pre.entries@[if a < ii { a } else { a + 1 }] by {}
                    assert forall|a: int, b: int|
                        0 <= a < self.entries@.len() && 0 <= b < self.entries@.len() && a != b
                        implies #[trigger] self.entries@[a].0@ != #[trigger] self.entries@[b].0@ by {
                        let a2 = if a < ii { a } else { a + 1 };
                        let b2 = if b < ii { b } else { b + 1 };
                        assert(pre.entries@[a2].0@ != pre.entries@[b2].0@);
                    }
                    assert forall|q: Seq<u8>| #[trigger] self.view().contains_key(q) <==> pre.view().remove(key@).contains_key(q) by {
                        if self.view().contains_key(q) {
                            let j = choose|j: int| self.holds_at(q, j);
                            let j2 = if j < ii { j } else { j + 1 };
                            assert(pre.holds_at(q, j2));
                            assert(pre.entries@[j2].0@ != pre.entries@[ii].0@);
                        }
                        if pre.view().contains_key(q) && q != key@ {
                            let j = choose|j: int| pre.holds_at(q, j);
                            assert(j != ii);
                            let j2 = if j < ii { j } else { j - 1 };
                            assert(self.holds_at(q, j2));
                        }
                    }
                    assert forall|q: Seq<u8>| #[trigger] self.view().contains_key(q) implies self.view()[q] == pre.view().remove(key@)[q] by {
                        let j = choose|j: int| self.holds_at(q, j);
                        self.lemma_entry(j);
                        let j2 = if j < ii { j } else { j + 1 };
                        pre.lemma_entry(j2);
                    }
                    assert(self.view() =~= pre.view().remove(key@));
                }
            },
            None => {
                assert(self.view() =~= pre.view().remove(key@));
            },
        }
    }

    /// The key at position `i` of the iteration order.
    pub fn key_at(&self, i: usize) -> (r: &RedisString)
        requires
            i < self.key_seq().len(),
        ensures
            r@ == self.key_seq()[i as int],
    {
        &self.entries[i].0
    }

    /// The number of keys.
    pub fn len(&self) -> (r: usize)
        requires
            self.wf(),
        ensures
            r == self.view().len(),
    {
        proof { self.lemma_keys(); }
        self.entries.len()
    }
}

} // verus!
