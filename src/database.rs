use vstd::prelude::*;

use crate::keymap::ByteMap;
use crate::rdb::RedisString;

verus! {

/// Relies on `SystemTime::now` and `Duration::as_millis`: the wall clock in
/// milliseconds since the Unix epoch; 0 if the clock stands before the epoch.
#[verifier::external_body]
pub fn now_unix_millis() -> u64 {
    match std::time::SystemTime::now().duration_since(std::time::UNIX_EPOCH) {
        Ok(d) => d.as_millis() as u64,
        Err(_) => 0,
    }
}

/// A keyspace: values by key, and absolute expiry timestamps in milliseconds.
/// An expiry without a value is allowed and has no effect.
pub struct Keyspace {
    pub values: Map<Seq<u8>, Seq<u8>>,
    pub expiry: Map<Seq<u8>, u64>,
}

/// The key has an expiry that lies strictly before `now`.
pub open spec fn is_expired(ks: Keyspace, key: Seq<u8>, now: u64) -> bool {
    ks.expiry.contains_key(key) && ks.expiry[key] < now
}

/// `set`: the value is stored and any expiry of the key is cleared.
pub open spec fn spec_set(ks: Keyspace, key: Seq<u8>, value: Seq<u8>) -> Keyspace {
    Keyspace { values: ks.values.insert(key, value), expiry: ks.expiry.remove(key) }
}

/// `expire_at`: the key's expiry becomes `at`.
pub open spec fn spec_expire_at(ks: Keyspace, key: Seq<u8>, at: u64) -> Keyspace {
    Keyspace { values: ks.values, expiry: ks.expiry.insert(key, at) }
}

/// `now + delta`, or the largest timestamp where that does not fit.
pub open spec fn deadline(now: u64, delta: u64) -> u64 {
    if now + delta > u64::MAX {
        u64::MAX
    } else {
        (now + delta) as u64
    }
}

/// `get` at time `now`: the value if the key holds one that has not expired,
/// and the keyspace afterwards, from which an expired key is removed.
pub open spec fn spec_get(ks: Keyspace, key: Seq<u8>, now: u64) -> (Option<Seq<u8>>, Keyspace) {
    if is_expired(ks, key, now) {
        (None, Keyspace { values: ks.values.remove(key), expiry: ks.expiry.remove(key) })
    } else if ks.values.contains_key(key) {
        (Some(ks.values[key]), ks)
    } else {
        (None, ks)
    }
}

/// The keys that hold a value that has not expired at `now`.
pub open spec fn live_keys(ks: Keyspace, now: u64) -> Set<Seq<u8>> {
    ks.values.dom().filter(|k: Seq<u8>| !is_expired(ks, k, now))
}

/// The byte strings of a sequence of keys.
pub open spec fn key_views(keys: Seq<RedisString>) -> Seq<Seq<u8>> {
    keys.map_values(|k: RedisString| k@)
}

/// The keyspace engine: values and expiries, with expiration on read.
pub struct Database {
    content: ByteMap<RedisString>,
    expiry_millis: ByteMap<u64>,
}

impl View for Database {
    type V = Keyspace;

    closed spec fn view(&self) -> Keyspace {
        Keyspace {
            values: self.content@.map_values(|v: RedisString| v@),
            expiry: self.expiry_millis@,
        }
    }
}

impl Database {
    pub closed spec fn wf(&self) -> bool {
        self.content.wf() && self.expiry_millis.wf()
    }

    pub fn new() -> (r: Self)
        ensures
            r.wf(),
            r@.values == Map::<Seq<u8>, Seq<u8>>::empty(),
            r@.expiry == Map::<Seq<u8>, u64>::empty(),
    {
        let r = Database { content: ByteMap::new(), expiry_millis: ByteMap::new() };
        assert(r@.values =~= Map::<Seq<u8>, Seq<u8>>::empty());
        r
    }

    /// Stores `value` under `key` and clears any expiry of the key.
    pub fn set(&mut self, key: &[u8], value: &[u8])
        requires
            old(self).wf(),
        ensures
            final(self).wf(),
            final(self)@ == spec_set(old(self)@, key@, value@),
    {
        let ghost pre = self@;
        self.content.insert(RedisString::new(key), RedisString::new(value));
        self.expiry_millis.remove(key);
        assert(self@.values =~= pre.values.insert(key@, value@));
    }

    /// Makes `key` expire at the absolute time `timestamp`, in milliseconds.
    pub fn expire_at_millis(&mut self, key: &[u8], timestamp: u64)
        requires
            old(self).wf(),
        ensures
            final(self).wf(),
            final(self)@ == spec_expire_at(old(self)@, key@, timestamp),
    {
        self.expiry_millis.insert(RedisString::new(key), timestamp);
    }

    /// Makes `key` expire `delta` milliseconds after `now`.
    pub fn expire_in_millis_at(&mut self, key: &[u8], delta: u64, now: u64)
        requires
            old(self).wf(),
        ensures
            final(self).wf(),
            final(self)@ == spec_expire_at(old(self)@, key@, deadline(now, delta)),
    {
        let at = if delta > u64::MAX - now {
            u64::MAX
        } else {
            now + delta
        };
        self.expire_at_millis(key, at);
    }

    /// Makes `key` expire `delta` milliseconds from now.
    pub fn expire_in_millis(&mut self, key: &[u8], delta: u64)
        requires
            old(self).wf(),
        ensures
            final(self).wf(),
            exists|now: u64| final(self)@ == spec_expire_at(old(self)@, key@, deadline(now, delta)),
    {
        let now = now_unix_millis();
        self.expire_in_millis_at(key, delta, now);
    }

    /// The value of `key` at time `now`; an expired key is removed, with its
    /// expiry.
    pub fn get_at(&mut self, key: &[u8], now: u64) -> (r: Option<RedisString>)
        requires
            old(self).wf(),
        ensures
            final(self).wf(),
            (match r {
                Some(v) => Some(v@),
                None => None::<Seq<u8>>,
            }, final(self)@) == spec_get(old(self)@, key@, now),
    {
        let expired = match self.expiry_millis.get(key) {
            Some(t) => *t < now,
            None => false,
        };
        if expired {
            let ghost pre = self@;
            self.content.remove(key);
            self.expiry_millis.remove(key);
            assert(self@.values =~= pre.values.remove(key@));
            return None;
        }
        match self.content.get(key) {
            Some(v) => Some(RedisString::new(v.as_slice())),
            None => None,
        }
    }

    /// The value of `key` now; an expired key is removed, with its expiry.
    pub fn get(&mut self, key: &[u8]) -> (r: Option<RedisString>)
        requires
            old(self).wf(),
        ensures
            final(self).wf(),
            exists|now: u64|
                (match r {
                    Some(v) => Some(v@),
                    None => None::<Seq<u8>>,
                }, final(self)@) == #[trigger] spec_get(old(self)@, key@, now),
    {
        let now = now_unix_millis();
        self.get_at(key, now)
    }

    /// The keys whose value has not expired at `now`, each once, in no
    /// particular order. Nothing is removed.
    pub fn keys_at(&self, now: u64) -> (r: Vec<RedisString>)
        requires
            self.wf(),
        ensures
            key_views(r@).no_duplicates(),
            key_views(r@).to_set() == live_keys(self@, now),
    {
        proof {
            self.content.lemma_keys();
        }
        let ghost ks = self.content.key_seq();
        let mut out: Vec<RedisString> = Vec::new();
        let ghost mut idx: Seq<int> = Seq::empty();
        let n = self.content.len();
        let mut i: usize = 0;
        while i < n
            invariant
                self.wf(),
                ks == self.content.key_seq(),
                ks.no_duplicates(),
                ks.to_set() == self@.values.dom(),
                n == ks.len(),
                i <= n,
                idx.len() == out@.len(),
                forall|j: int| 0 <= j < out@.len() ==> 0 <= #[trigger] idx[j] < i && out@[j]@ == ks[idx[j]]
                    && !is_expired(self@, ks[idx[j]], now),
                forall|j1: int, j2: int| 0 <= j1 < j2 < out@.len() ==> idx[j1] < idx[j2],
                forall|m: int| 0 <= m < i && !is_expired(self@, #[trigger] ks[m], now)
                    ==> exists|j: int| 0 <= j < out@.len() && idx[j] == m,
            decreases n - i,
        {
            let k = self.content.key_at(i);
            let expired = match self.expiry_millis.get(k.as_slice()) {
                Some(t) => *t < now,
                None => false,
            };
            if !expired {
                let ghost old_idx = idx;
                let ghost old_len = out@.len();
                out.push(RedisString::new(k.as_slice()));
                proof {
                    idx = idx.push(i as int);
                    assert forall|m: int| 0 <= m < i + 1 && !is_expired(self@, #[trigger] ks[m], now)
                        implies exists|j: int| 0 <= j < out@.len() && idx[j] == m by {
                        if m == i {
                            assert(idx[out@.len() - 1] == m);
                        } else {
                            let j = choose|j: int| 0 <= j < old_len && old_idx[j] == m;
                            assert(idx[j] == m);
                        }
                    }
                }
            } else {
                assert forall|m: int| 0 <= m < i + 1 && !is_expired(self@, #[trigger] ks[m], now)
                    implies exists|j: int| 0 <= j < out@.len() && idx[j] == m by {
                    if m == i {
                        assert(is_expired(self@, ks[m], now));
                    }
                }
            }
            i = i + 1;
        }
        let ghost v = key_views(out@);
        assert(v.no_duplicates()) by {
            assert forall|a: int, b: int| 0 <= a < v.len() && 0 <= b < v.len() && a != b implies v[a] != v[b] by {
                if a < b {
                    assert(idx[a] < idx[b]);
                } else {
                    assert(idx[b] < idx[a]);
                }
                assert(ks[idx[a]] != ks[idx[b]]);
            }
        }
        assert forall|k: Seq<u8>| v.to_set().contains(k) <==> live_keys(self@, now).contains(k) by {
            if v.to_set().contains(k) {
                let j = choose|j: int| 0 <= j < v.len() && v[j] == k;
                assert(ks.to_set().contains(ks[idx[j]]));
            }
            if live_keys(self@, now).contains(k) {
                assert(ks.to_set().contains(k));
                let m = choose|m: int| 0 <= m < ks.len() && ks[m] == k;
                let j = choose|j: int| 0 <= j < out@.len() && idx[j] == m;
                assert(v[j] == k);
            }
        }
        assert(v.to_set() =~= live_keys(self@, now));
        out
    }

    /// The keys whose value has not expired now, each once, in no particular
    /// order.
    pub fn keys(&self) -> (r: Vec<RedisString>)
        requires
            self.wf(),
        ensures
            key_views(r@).no_duplicates(),
            exists|now: u64| key_views(r@).to_set() == #[trigger] live_keys(self@, now),
    {
        let now = now_unix_millis();
        self.keys_at(now)
    }
}

/// After `set(key, value)`, a read of `key` at any time gives `value`.
pub proof fn lemma_set_then_get(ks: Keyspace, key: Seq<u8>, value: Seq<u8>, now: u64)
    ensures
        spec_get(spec_set(ks, key, value), key, now).0 == Some(value),
{
}

/// After `set(key, value)` and then `expire_in(key, delta)` issued at time
/// `issued`, a read at a time before `issued + delta` gives `value`, and a read
/// at a time after it gives nothing.
pub proof fn lemma_set_then_expire(
    ks: Keyspace,
    key: Seq<u8>,
    value: Seq<u8>,
    delta: u64,
    issued: u64,
    t: u64,
)
    requires
        delta > 0,
    ensures
        ({
            let after = spec_expire_at(spec_set(ks, key, value), key, deadline(issued, delta));
            &&& t < issued + delta ==> spec_get(after, key, t).0 == Some(value)
            &&& t > issued + delta ==> spec_get(after, key, t).0 is None
        }),
{
}

/// A read that finds `key` expired returns nothing and removes both its value
/// and its expiry, so no later listing of the keys shows it.
pub proof fn lemma_eviction(ks: Keyspace, key: Seq<u8>, now: u64, later: u64)
    requires
        is_expired(ks, key, now),
    ensures
        ({
            let (r, after) = spec_get(ks, key, now);
            &&& r is None
            &&& !after.values.contains_key(key)
            &&& !after.expiry.contains_key(key)
            &&& !live_keys(after, later).contains(key)
        }),
{
}

} // verus!
