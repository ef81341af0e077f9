//! Memoized catalog metadata: collection and segment descriptors, the cache
//! that holds them, and the rule that admits a catalog answer into it.
//!
//! The catalog itself is a collaborator outside the library; it hands back
//! plain lists, and only the answer with exactly one match is believed.

use crate::cache::assoc_map;
use crate::cache::lemma_assoc_map_first;
use crate::cache::lemma_assoc_map_none;
use crate::cache::lemma_assoc_map_update_first;
use crate::cache::Cache;
use vstd::prelude::*;

verus! {

/// What the library reads of a catalog collection entry.
#[derive(Debug)]
pub struct Collection {
    pub id: u128,
    pub name: String,
}

impl Clone for Collection {
    fn clone(&self) -> (r: Self)
        ensures
            r == *self,
    {
        Collection { id: self.id, name: self.name.clone() }
    }
}

/// What the library reads of a catalog segment entry.
#[derive(Debug)]
pub struct Segment {
    pub id: u128,
    pub collection_id: u128,
}

impl Clone for Segment {
    fn clone(&self) -> (r: Self)
        ensures
            r == *self,
    {
        Segment { id: self.id, collection_id: self.collection_id }
    }
}

/// Why the catalog could not answer.
#[derive(Clone, Copy, PartialEq, Eq, Structural, Debug)]
pub enum SysDbError {
    Unavailable,
}

/// What a catalog answer is worth: only a successful answer with exactly
/// one entry resolves; an error or an ambiguous answer resolves to nothing.
pub fn resolve_unique<T>(fetched: Result<Vec<T>, SysDbError>) -> (r: Option<T>)
    ensures
        match fetched {
            Ok(items) => {
                if items@.len() == 1 {
                    r matches Some(x) && x == items@[0]
                } else {
                    r is None
                }
            },
            Err(_) => r is None,
        },
{
    match fetched {
        Ok(mut items) => {
            if items.len() == 1 {
                Some(items.remove(0))
            } else {
                None
            }
        },
        Err(_) => None,
    }
}

/// An in-memory cache of collections by identifier, held as an association
/// list whose first match wins.
pub struct CollectionCache {
    pub entries: Vec<(u128, Collection)>,
}

impl CollectionCache {
    pub fn new() -> (r: CollectionCache)
        ensures
            r.cache_map() == Map::<u128, Collection>::empty(),
    {
        CollectionCache { entries: Vec::new() }
    }
}

impl Cache<u128, Collection> for CollectionCache {
    open spec fn cache_map(&self) -> Map<u128, Collection> {
        assoc_map(self.entries@)
    }

    #[verifier::loop_isolation(false)]
    fn insert(&mut self, key: u128, value: Collection) {
        let n = self.entries.len();
        let mut j: usize = 0;
        let mut target: usize = n;
        while j < n
            invariant
                j <= n,
                target <= n,
                target == n ==> forall|k: int| 0 <= k < j ==> self.entries@[k].0 != key,
                target < n ==> self.entries@[target as int].0 == key && forall|k: int|
                    0 <= k < target ==> self.entries@[k].0 != key,
            decreases n - j,
        {
            if target == n {
                let entry = &self.entries[j];
                if entry.0 == key {
                    target = j;
                }
            }
            j = j + 1;
        }
        let ghost pre = self.entries@;
        if target < n {
            proof {
                lemma_assoc_map_update_first(pre, target as int, value);
            }
            self.entries[target] = (key, value);
        } else {
            proof {
                lemma_assoc_map_none(pre, key);
            }
            self.entries.insert(0, (key, value));
            proof {
                assert(self.entries@.drop_first() =~= pre);
            }
        }
    }

    #[verifier::loop_isolation(false)]
    fn get(&mut self, key: &u128) -> (r: Option<Collection>) {
        let n = self.entries.len();
        let mut j: usize = 0;
        while j < n
            invariant
                j <= n,
                forall|k: int| 0 <= k < j ==> self.entries@[k].0 != *key,
            decreases n - j,
        {
            let entry = &self.entries[j];
            if entry.0 == *key {
                proof {
                    lemma_assoc_map_first(self.entries@, j as int);
                }
                return Some(entry.1.clone());
            }
            j = j + 1;
        }
        proof {
            lemma_assoc_map_none(self.entries@, *key);
        }
        None
    }
}

/// An in-memory cache of segments by identifier, in the same shape.
pub struct SegmentCache {
    pub entries: Vec<(u128, Segment)>,
}

impl SegmentCache {
    pub fn new() -> (r: SegmentCache)
        ensures
            r.cache_map() == Map::<u128, Segment>::empty(),
    {
        SegmentCache { entries: Vec::new() }
    }
}

impl Cache<u128, Segment> for SegmentCache {
    open spec fn cache_map(&self) -> Map<u128, Segment> {
        assoc_map(self.entries@)
    }

    #[verifier::loop_isolation(false)]
    fn insert(&mut self, key: u128, value: Segment) {
        let n = self.entries.len();
        let mut j: usize = 0;
        let mut target: usize = n;
        while j < n
            invariant
                j <= n,
                target <= n,
                target == n ==> forall|k: int| 0 <= k < j ==> self.entries@[k].0 != key,
                target < n ==> self.entries@[target as int].0 == key && forall|k: int|
                    0 <= k < target ==> self.entries@[k].0 != key,
            decreases n - j,
        {
            if target == n {
                let entry = &self.entries[j];
                if entry.0 == key {
                    target = j;
                }
            }
            j = j + 1;
        }
        let ghost pre = self.entries@;
        if target < n {
            proof {
                lemma_assoc_map_update_first(pre, target as int, value);
            }
            self.entries[target] = (key, value);
        } else {
            proof {
                lemma_assoc_map_none(pre, key);
            }
            self.entries.insert(0, (key, value));
            proof {
                assert(self.entries@.drop_first() =~= pre);
            }
        }
    }

    #[verifier::loop_isolation(false)]
    fn get(&mut self, key: &u128) -> (r: Option<Segment>) {
        let n = self.entries.len();
        let mut j: usize = 0;
        while j < n
            invariant
                j <= n,
                forall|k: int| 0 <= k < j ==> self.entries@[k].0 != *key,
            decreases n - j,
        {
            let entry = &self.entries[j];
            if entry.0 == *key {
                proof {
                    lemma_assoc_map_first(self.entries@, j as int);
                }
                return Some(entry.1.clone());
            }
            j = j + 1;
        }
        proof {
            lemma_assoc_map_none(self.entries@, *key);
        }
        None
    }
}

/// Caches catalog collections and segments by identifier.
pub struct MetadataCache<CC: Cache<u128, Collection>, SC: Cache<u128, Segment>> {
    pub collection_cache: CC,
    pub segment_cache: SC,
}

impl<CC: Cache<u128, Collection>, SC: Cache<u128, Segment>> MetadataCache<CC, SC> {
    pub fn new(collection_cache: CC, segment_cache: SC) -> (r: MetadataCache<CC, SC>)
        ensures
            r.collection_cache.cache_map() == collection_cache.cache_map(),
            r.segment_cache.cache_map() == segment_cache.cache_map(),
    {
        MetadataCache { collection_cache, segment_cache }
    }

    /// Binds a collection under its own identifier.
    pub fn insert_collection(&mut self, collection: Collection)
        ensures
            final(self).collection_cache.cache_map() == old(
                self).collection_cache.cache_map().insert(collection.id, collection),
            final(self).segment_cache.cache_map() == old(self).segment_cache.cache_map(),
    {
        let id = collection.id;
        self.collection_cache.insert(id, collection);
    }

    /// The collection cached under this identifier, if one is.
    pub fn get_collection(&mut self, id: &u128) -> (r: Option<Collection>)
        ensures
            final(self).collection_cache.cache_map() == old(self).collection_cache.cache_map(),
            final(self).segment_cache.cache_map() == old(self).segment_cache.cache_map(),
            match r {
                Some(c) => old(self).collection_cache.cache_map().contains_key(*id) && c == old(
                    self).collection_cache.cache_map()[*id],
                None => !old(self).collection_cache.cache_map().contains_key(*id),
            },
    {
        self.collection_cache.get(id)
    }

    /// Binds a segment under its own identifier.
    pub fn insert_segment(&mut self, segment: Segment)
        ensures
            final(self).segment_cache.cache_map() == old(self).segment_cache.cache_map().insert(
                segment.id,
                segment,
            ),
            final(self).collection_cache.cache_map() == old(self).collection_cache.cache_map(),
    {
        let id = segment.id;
        self.segment_cache.insert(id, segment);
    }

    /// The segment cached under this identifier, if one is.
    pub fn get_segment(&mut self, id: &u128) -> (r: Option<Segment>)
        ensures
            final(self).segment_cache.cache_map() == old(self).segment_cache.cache_map(),
            final(self).collection_cache.cache_map() == old(self).collection_cache.cache_map(),
            match r {
                Some(c) => old(self).segment_cache.cache_map().contains_key(*id) && c == old(
                    self).segment_cache.cache_map()[*id],
                None => !old(self).segment_cache.cache_map().contains_key(*id),
            },
    {
        self.segment_cache.get(id)
    }

    /// Admits a catalog answer for a collection: a unique answer is cached
    /// under its identifier and returned; anything else changes nothing and
    /// yields nothing.
    pub fn admit_fetched_collection(&mut self, fetched: Result<Vec<Collection>, SysDbError>) -> (r:
        Option<Collection>)
        ensures
            final(self).segment_cache.cache_map() == old(self).segment_cache.cache_map(),
            match fetched {
                Ok(items) => {
                    if items@.len() == 1 {
                        r matches Some(c) && c == items@[0] && final(
                            self).collection_cache.cache_map() == old(
                            self).collection_cache.cache_map().insert(c.id, c)
                    } else {
                        (r is None) && final(self).collection_cache.cache_map() == old(
                            self).collection_cache.cache_map()
                    }
                },
                Err(_) => (r is None) && final(self).collection_cache.cache_map() == old(
                    self).collection_cache.cache_map(),
            },
    {
        match resolve_unique(fetched) {
            Some(collection) => {
                let kept = collection.clone();
                self.insert_collection(collection);
                Some(kept)
            },
            None => None,
        }
    }

    /// Admits a catalog answer for a segment, in the same way.
    pub fn admit_fetched_segment(&mut self, fetched: Result<Vec<Segment>, SysDbError>) -> (r:
        Option<Segment>)
        ensures
            final(self).collection_cache.cache_map() == old(self).collection_cache.cache_map(),
            match fetched {
                Ok(items) => {
                    if items@.len() == 1 {
                        r matches Some(c) && c == items@[0] && final(
                            self).segment_cache.cache_map() == old(self).segment_cache.cache_map().insert(
                            c.id,
                            c,
                        )
                    } else {
                        (r is None) && final(self).segment_cache.cache_map() == old(
                            self).segment_cache.cache_map()
                    }
                },
                Err(_) => (r is None) && final(self).segment_cache.cache_map() == old(
                    self).segment_cache.cache_map(),
            },
    {
        match resolve_unique(fetched) {
            Some(segment) => {
                let kept = segment.clone();
                self.insert_segment(segment);
                Some(kept)
            },
            None => None,
        }
    }
}

} // verus!
