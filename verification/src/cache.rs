//! The key-value cache interface used to memoize lookups, one verified
//! in-memory implementation, and the log cache built on it.

use crate::log::LogRecord;
use vstd::prelude::*;

verus! {

/// A key-value cache. Whatever backs it, it behaves as the map
/// `cache_map()`: an insert binds the key, a get reads the binding without
/// changing it.
pub trait Cache<K, V> {
    /// The bindings the cache currently holds.
    spec fn cache_map(&self) -> Map<K, V>;

    /// Inserts a new entry into the cache.
    fn insert(&mut self, key: K, value: V)
        ensures
            final(self).cache_map() == old(self).cache_map().insert(key, value),
    ;

    /// Retrieves the value associated with the given key from the cache.
    fn get(&mut self, key: &K) -> (r: Option<V>)
        ensures
            final(self).cache_map() == old(self).cache_map(),
            match r {
                Some(v) => old(self).cache_map().contains_key(*key) && v == old(
                    self,
                ).cache_map()[*key],
                None => !old(self).cache_map().contains_key(*key),
            },
    ;
}

/// The map an association list stands for; an earlier entry shadows a later
/// one with the same key.
pub open spec fn assoc_map<K, V>(s: Seq<(K, V)>) -> Map<K, V>
    decreases s.len(),
{
    if s.len() == 0 {
        Map::empty()
    } else {
        assoc_map(s.drop_first()).insert(s[0].0, s[0].1)
    }
}

/// The first entry with a key gives that key's binding.
pub proof fn lemma_assoc_map_first<K, V>(s: Seq<(K, V)>, j: int)
    requires
        0 <= j < s.len(),
        forall|k: int| 0 <= k < j ==> s[k].0 != s[j].0,
    ensures
        assoc_map(s).contains_key(s[j].0),
        assoc_map(s)[s[j].0] == s[j].1,
    decreases s.len(),
{
    if j > 0 {
        let t = s.drop_first();
        assert(t[j - 1] == s[j]);
        assert forall|k: int| 0 <= k < j - 1 implies (#[trigger] t[k]).0 != t[j - 1].0 by {
            assert(t[k] == s[k + 1]);
        }
        lemma_assoc_map_first(t, j - 1);
    }
}

/// A key no entry carries is unbound.
pub proof fn lemma_assoc_map_none<K, V>(s: Seq<(K, V)>, key: K)
    requires
        forall|k: int| 0 <= k < s.len() ==> s[k].0 != key,
    ensures
        !assoc_map(s).contains_key(key),
    decreases s.len(),
{
    if s.len() > 0 {
        let t = s.drop_first();
        assert forall|k: int| 0 <= k < t.len() implies t[k].0 != key by {
            assert(t[k] == s[k + 1]);
        }
        lemma_assoc_map_none(t, key);
    }
}

/// Replacing the first entry with a key rebinds exactly that key.
pub proof fn lemma_assoc_map_update_first<K, V>(s: Seq<(K, V)>, j: int, v: V)
    requires
        0 <= j < s.len(),
        forall|k: int| 0 <= k < j ==> s[k].0 != s[j].0,
    ensures
        assoc_map(s.update(j, (s[j].0, v))) == assoc_map(s).insert(s[j].0, v),
    decreases s.len(),
{
    let key = s[j].0;
    let u = s.update(j, (key, v));
    if j == 0 {
        assert(u.drop_first() =~= s.drop_first());
        assert(assoc_map(u) == assoc_map(s.drop_first()).insert(key, v));
        assert(assoc_map(s.drop_first()).insert(key, s[0].1).insert(key, v) =~= assoc_map(
            s.drop_first(),
        ).insert(key, v));
    } else {
        let t = s.drop_first();
        assert(t[j - 1] == s[j]);
        assert forall|k: int| 0 <= k < j - 1 implies (#[trigger] t[k]).0 != t[j - 1].0 by {
            assert(t[k] == s[k + 1]);
        }
        lemma_assoc_map_update_first(t, j - 1, v);
        assert(u.drop_first() =~= t.update(j - 1, (key, v)));
        assert(u[0] == s[0]);
        assert(s[0].0 != key);
        assert(assoc_map(u) == assoc_map(t).insert(key, v).insert(s[0].0, s[0].1));
        assert(assoc_map(t).insert(key, v).insert(s[0].0, s[0].1) =~= assoc_map(t).insert(
            s[0].0,
            s[0].1,
        ).insert(key, v));
    }
}

/// An in-memory cache of log records, held as an association list whose
/// first match wins.
pub struct LogRecordCache {
    pub entries: Vec<(i64, LogRecord)>,
}

impl LogRecordCache {
    pub fn new() -> (r: LogRecordCache)
        ensures
            r.cache_map() == Map::<i64, LogRecord>::empty(),
    {
        LogRecordCache { entries: Vec::new() }
    }
}

impl Cache<i64, LogRecord> for LogRecordCache {
    open spec fn cache_map(&self) -> Map<i64, LogRecord> {
        assoc_map(self.entries@)
    }

    #[verifier::loop_isolation(false)]
    fn insert(&mut self, key: i64, value: LogRecord) {
        let n = self.entries.len();
        let mut j: usize = 0;
        let mut target: usize = n;
        while j < n
            invariant
                j <= n,
                target <= n,
                target == n ==> forall|k: int| 0 <= k < j ==> self.entries@[k].0 != key,
                target < n ==> self.entries@[target as int].0 == key && forall|k: int|
                    0 <= k < target ==> self.entries@[k].0 != key,
            decreases n - j,
        {
            if target == n {
                let entry = &self.entries[j];
                if entry.0 == key {
                    target = j;
                }
            }
            j = j + 1;
        }
        let ghost pre = self.entries@;
        if target < n {
            proof {
                lemma_assoc_map_update_first(pre, target as int, value);
            }
            self.entries[target] = (key, value);
        } else {
            proof {
                lemma_assoc_map_none(pre, key);
            }
            self.entries.insert(0, (key, value));
            proof {
                assert(self.entries@.drop_first() =~= pre);
            }
        }
    }

    #[verifier::loop_isolation(false)]
    fn get(&mut self, key: &i64) -> (r: Option<LogRecord>) {
        let n = self.entries.len();
        let mut j: usize = 0;
        while j < n
            invariant
                j <= n,
                forall|k: int| 0 <= k < j ==> self.entries@[k].0 != *key,
            decreases n - j,
        {
            let entry = &self.entries[j];
            if entry.0 == *key {
                proof {
                    lemma_assoc_map_first(self.entries@, j as int);
                }
                return Some(entry.1.clone());
            }
            j = j + 1;
        }
        proof {
            lemma_assoc_map_none(self.entries@, *key);
        }
        None
    }
}

/// An insert request for a cache that is driven through messages; carries
/// the key and the value to bind.
#[derive(Debug)]
pub struct InsertOperation<K, V> {
    pub key: K,
    pub value: V,
}

impl<K, V> InsertOperation<K, V> {
    pub fn new(key: K, value: V) -> (r: InsertOperation<K, V>)
        ensures
            r.key == key,
            r.value == value,
    {
        InsertOperation { key, value }
    }
}

/// The log cache: memoizes log records by offset on any cache backing.
pub struct LogCache<C: Cache<i64, LogRecord>> {
    pub cache: C,
}

impl<C: Cache<i64, LogRecord>> LogCache<C> {
    pub fn new(cache: C) -> (r: LogCache<C>)
        ensures
            r.cache.cache_map() == cache.cache_map(),
    {
        LogCache { cache }
    }

    /// Binds a record under its own offset.
    pub fn insert_log(&mut self, log: LogRecord)
        ensures
            final(self).cache.cache_map() == old(self).cache.cache_map().insert(log.offset, log),
    {
        let offset = log.offset;
        self.cache.insert(offset, log);
    }

    /// The record cached under this offset, if one is.
    pub fn get_log(&mut self, log_offset: &i64) -> (r: Option<LogRecord>)
        ensures
            final(self).cache.cache_map() == old(self).cache.cache_map(),
            match r {
                Some(v) => old(self).cache.cache_map().contains_key(*log_offset) && v == old(
                    self,
                ).cache.cache_map()[*log_offset],
                None => !old(self).cache.cache_map().contains_key(*log_offset),
            },
    {
        self.cache.get(log_offset)
    }

    /// The cached records for `batch_size` consecutive offsets from
    /// `offset`, in offset order; offsets without a binding are skipped.
    #[verifier::loop_isolation(false)]
    pub fn get_logs(&mut self, offset: i64, batch_size: i32) -> (r: Vec<LogRecord>)
        requires
            batch_size >= 0,
            offset + batch_size <= i64::MAX,
        ensures
            final(self).cache.cache_map() == old(self).cache.cache_map(),
            r@ == cached_range(old(self).cache.cache_map(), offset, batch_size as int),
    {
        let mut logs: Vec<LogRecord> = Vec::new();
        let mut i: i32 = 0;
        while i < batch_size
            invariant
                0 <= i <= batch_size,
                self.cache.cache_map() == old(self).cache.cache_map(),
                logs@ == cached_range(old(self).cache.cache_map(), offset, i as int),
            decreases batch_size - i,
        {
            let log_offset = offset + i as i64;
            let log = self.get_log(&log_offset);
            if let Some(log) = log {
                logs.push(log);
            }
            i = i + 1;
        }
        logs
    }
}

/// The bindings of `n` consecutive offsets from `offset`, in offset order;
/// unbound offsets contribute nothing.
pub open spec fn cached_range(m: Map<i64, LogRecord>, offset: i64, n: int) -> Seq<LogRecord>
    decreases n,
{
    if n <= 0 {
        Seq::empty()
    } else {
        let o = (offset + n - 1) as i64;
        cached_range(m, offset, n - 1) + if m.contains_key(o) {
            seq![m[o]]
        } else {
            Seq::empty()
        }
    }
}

} // verus!
