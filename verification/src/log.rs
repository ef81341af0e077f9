//! The in-memory log: one append-only record queue per collection.

use vstd::prelude::*;

verus! {

/// One log entry, addressed by collection and offset.
#[derive(Debug)]
pub struct LogRecord {
    pub collection_id: String,
    pub tenant_id: String,
    pub id: i64,
    pub offset: i64,
}

impl Clone for LogRecord {
    fn clone(&self) -> (r: Self)
        ensures
            r == *self,
    {
        LogRecord {
            collection_id: self.collection_id.clone(),
            tenant_id: self.tenant_id.clone(),
            id: self.id,
            offset: self.offset,
        }
    }
}

/// A collection seen in the log, with the tenant one of its records names.
#[derive(Debug)]
pub struct CollectionRecord {
    pub id: String,
    pub tenant_id: String,
}

impl Clone for CollectionRecord {
    fn clone(&self) -> (r: Self)
        ensures
            r == *self,
    {
        CollectionRecord { id: self.id.clone(), tenant_id: self.tenant_id.clone() }
    }
}

/// Index of the first queue keyed by `cid`, or -1 if none is.
pub open spec fn queue_index(s: Seq<(String, Vec<LogRecord>)>, cid: Seq<char>) -> int
    decreases s.len(),
{
    if s.len() == 0 {
        -1
    } else if s[0].0@ == cid {
        0
    } else {
        let r = queue_index(s.drop_first(), cid);
        if r == -1 {
            -1
        } else {
            1 + r
        }
    }
}

/// A witness for the first queue keyed `cid` pins `queue_index`.
pub proof fn lemma_queue_index_at(s: Seq<(String, Vec<LogRecord>)>, cid: Seq<char>, j: int)
    requires
        0 <= j < s.len(),
        s[j].0@ == cid,
        forall|k: int| 0 <= k < j ==> s[k].0@ != cid,
    ensures
        queue_index(s, cid) == j,
    decreases s.len(),
{
    if j > 0 {
        let t = s.drop_first();
        assert(t[j - 1] == s[j]);
        assert forall|k: int| 0 <= k < j - 1 implies t[k].0@ != cid by {
            assert(t[k] == s[k + 1]);
        }
        lemma_queue_index_at(t, cid, j - 1);
    }
}

/// No queue keyed `cid`: `queue_index` finds nothing.
pub proof fn lemma_queue_index_none(s: Seq<(String, Vec<LogRecord>)>, cid: Seq<char>)
    requires
        forall|k: int| 0 <= k < s.len() ==> s[k].0@ != cid,
    ensures
        queue_index(s, cid) == -1,
    decreases s.len(),
{
    if s.len() > 0 {
        let t = s.drop_first();
        assert forall|k: int| 0 <= k < t.len() implies t[k].0@ != cid by {
            assert(t[k] == s[k + 1]);
        }
        lemma_queue_index_none(t, cid);
    }
}

/// An append-only log held in memory, one queue per collection.
pub struct InMemoryLog<T> {
    pub logs: Vec<(String, Vec<T>)>,
}

impl<T> InMemoryLog<T> {
    pub fn new() -> (r: InMemoryLog<T>)
        ensures
            r.logs@ == Seq::<(String, Vec<T>)>::empty(),
    {
        InMemoryLog { logs: Vec::new() }
    }
}

impl InMemoryLog<LogRecord> {
    /// Whether a record carrying this pair of collection and tenant exists.
    pub open spec fn names_pair(&self, id: Seq<char>, tenant: Seq<char>) -> bool {
        exists|e: int, j: int|
            0 <= e < self.logs@.len() && 0 <= j < self.logs@[e].1@.len() && self.logs@[e].0@ == id
                && self.logs@[e].1@[j].tenant_id@ == tenant
    }

    /// Appends a record to its collection's queue, creating the queue on
    /// the collection's first record.
    #[verifier::loop_isolation(false)]
    pub fn push(&mut self, msg: LogRecord)
        ensures
            ({
                let qi = queue_index(old(self).logs@, msg.collection_id@);
                if qi == -1 {
                    final(self).logs@.len() == old(self).logs@.len() + 1 && (forall|k: int|
                        0 <= k < old(self).logs@.len() ==> final(self).logs@[k] == old(
                            self).logs@[k]) && final(self).logs@.last().0@ == msg.collection_id@
                        && final(self).logs@.last().1@ == seq![msg]
                } else {
                    final(self).logs@.len() == old(self).logs@.len() && (forall|k: int|
                        0 <= k < old(self).logs@.len() && k != qi ==> final(self).logs@[k] == old(
                            self).logs@[k]) && final(self).logs@[qi].0 == old(self).logs@[qi].0
                        && final(self).logs@[qi].1@ == old(self).logs@[qi].1@.push(msg)
                }
            }),
    {
        let n = self.logs.len();
        let mut j: usize = 0;
        let mut target: usize = n;
        while j < n
            invariant
                j <= n,
                target <= n,
                target == n ==> forall|k: int|
                    0 <= k < j ==> self.logs@[k].0@ != msg.collection_id@,
                target < n ==> self.logs@[target as int].0@ == msg.collection_id@ && forall|k: int|
                    0 <= k < target ==> self.logs@[k].0@ != msg.collection_id@,
            decreases n - j,
        {
            if target == n {
                let entry = &self.logs[j];
                if entry.0 == msg.collection_id {
                    target = j;
                }
            }
            j = j + 1;
        }
        let ghost pre = self.logs@;
        if target < n {
            proof {
                lemma_queue_index_at(pre, msg.collection_id@, target as int);
            }
            let entry = &mut self.logs[target];
            entry.1.push(msg);
        } else {
            proof {
                lemma_queue_index_none(pre, msg.collection_id@);
            }
            let cid = msg.collection_id.clone();
            let mut q: Vec<LogRecord> = Vec::new();
            q.push(msg);
            self.logs.push((cid, q));
            proof {
                assert(self.logs@.last().1@ =~= seq![msg]);
            }
        }
    }

    /// Up to `batch_size` records of the collection, starting at `index`;
    /// `None` when the collection has no queue at all.
    #[verifier::loop_isolation(false)]
    pub fn get(&self, collection_id: String, index: usize, batch_size: usize) -> (r: Option<Vec<
        LogRecord,
    >>)
        requires
            index + batch_size <= usize::MAX,
        ensures
            ({
                let qi = queue_index(self.logs@, collection_id@);
                match r {
                    Some(v) => {
                        let q = self.logs@[qi].1@;
                        let lo = if index <= q.len() {
                            index as int
                        } else {
                            q.len() as int
                        };
                        let hi = if index + batch_size <= q.len() {
                            index + batch_size
                        } else {
                            q.len() as int
                        };
                        qi >= 0 && v@ == q.subrange(lo, hi)
                    },
                    None => qi == -1,
                }
            }),
    {
        let n = self.logs.len();
        let mut j: usize = 0;
        let mut target: usize = n;
        while j < n
            invariant
                j <= n,
                target <= n,
                target == n ==> forall|k: int| 0 <= k < j ==> self.logs@[k].0@ != collection_id@,
                target < n ==> self.logs@[target as int].0@ == collection_id@ && forall|k: int|
                    0 <= k < target ==> self.logs@[k].0@ != collection_id@,
            decreases n - j,
        {
            if target == n {
                let entry = &self.logs[j];
                if entry.0 == collection_id {
                    target = j;
                }
            }
            j = j + 1;
        }
        if target == n {
            proof {
                lemma_queue_index_none(self.logs@, collection_id@);
            }
            return None;
        }
        proof {
            lemma_queue_index_at(self.logs@, collection_id@, target as int);
        }
        let entry = &self.logs[target];
        let qlen = entry.1.len();
        let ghost q = entry.1@;
        let ghost lo = if index <= q.len() {
            index as int
        } else {
            q.len() as int
        };
        let mut result: Vec<LogRecord> = Vec::new();
        let mut i: usize = index;
        while i < index + batch_size && i < qlen
            invariant
                index <= i <= index + batch_size,
                i <= qlen || i == index,
                qlen == q.len(),
                result@ == q.subrange(lo, if i as int <= q.len() {
                    i as int
                } else {
                    q.len() as int
                }),
            decreases index + batch_size - i,
        {
            result.push(entry.1[i].clone());
            proof {
                assert(result@ =~= q.subrange(lo, i + 1));
            }
            i = i + 1;
        }
        proof {
            let hi = if index + batch_size <= q.len() {
                (index + batch_size) as int
            } else {
                q.len() as int
            };
            assert(result@ =~= q.subrange(lo, hi));
        }
        Some(result)
    }

    /// The distinct pairs of collection and tenant that the log's records
    /// name, in no particular order: every record's pair is listed, nothing
    /// else is, and no pair is listed twice.
    #[verifier::loop_isolation(false)]
    pub fn get_collections(&self) -> (r: Vec<CollectionRecord>)
        ensures
            forall|k: int|
                0 <= k < r@.len() ==> self.names_pair((#[trigger] r@[k]).id@, r@[k].tenant_id@),
            forall|e: int, j: int|
                0 <= e < self.logs@.len() && 0 <= j < self.logs@[e].1@.len() ==> has_pair(
                    r@,
                    self.logs@[e].0@,
                    (#[trigger] self.logs@[e].1@[j]).tenant_id@,
                ),
            forall|k1: int, k2: int|
                0 <= k1 < r@.len() && 0 <= k2 < r@.len() && k1 != k2 ==> !((#[trigger] r@[k1]).id@
                    == (#[trigger] r@[k2]).id@ && r@[k1].tenant_id@ == r@[k2].tenant_id@),
    {
        let ne = self.logs.len();
        let mut result: Vec<CollectionRecord> = Vec::new();
        let mut e: usize = 0;
        while e < ne
            invariant
                e <= ne,
                ne == self.logs@.len(),
                forall|k: int|
                    0 <= k < result@.len() ==> self.names_pair(
                        (#[trigger] result@[k]).id@,
                        result@[k].tenant_id@,
                    ),
                forall|e2: int, j2: int|
                    0 <= e2 < e && 0 <= j2 < self.logs@[e2].1@.len() ==> has_pair(
                        result@,
                        self.logs@[e2].0@,
                        (#[trigger] self.logs@[e2].1@[j2]).tenant_id@,
                    ),
                forall|k1: int, k2: int|
                    0 <= k1 < result@.len() && 0 <= k2 < result@.len() && k1 != k2 ==> !((
                    #[trigger] result@[k1]).id@ == (#[trigger] result@[k2]).id@
                        && result@[k1].tenant_id@ == result@[k2].tenant_id@),
            decreases ne - e,
        {
            let entry = &self.logs[e];
            let nq = entry.1.len();
            let mut j: usize = 0;
            while j < nq
                invariant
                    j <= nq,
                    nq == entry.1@.len(),
                    *entry == self.logs@[e as int],
                    forall|k: int|
                        0 <= k < result@.len() ==> self.names_pair(
                            (#[trigger] result@[k]).id@,
                            result@[k].tenant_id@,
                        ),
                    forall|e2: int, j2: int|
                        0 <= e2 < e && 0 <= j2 < self.logs@[e2].1@.len() ==> has_pair(
                            result@,
                            self.logs@[e2].0@,
                            (#[trigger] self.logs@[e2].1@[j2]).tenant_id@,
                        ),
                    forall|j2: int|
                        0 <= j2 < j ==> has_pair(
                            result@,
                            self.logs@[e as int].0@,
                            (#[trigger] self.logs@[e as int].1@[j2]).tenant_id@,
                        ),
                    forall|k1: int, k2: int|
                        0 <= k1 < result@.len() && 0 <= k2 < result@.len() && k1 != k2 ==> !((
                        #[trigger] result@[k1]).id@ == (#[trigger] result@[k2]).id@
                            && result@[k1].tenant_id@ == result@[k2].tenant_id@),
                decreases nq - j,
            {
                let rec = &entry.1[j];
                let nr = result.len();
                let mut k: usize = 0;
                let mut found: bool = false;
                while k < nr
                    invariant
                        k <= nr,
                        nr == result@.len(),
                        *rec == self.logs@[e as int].1@[j as int],
                        *entry == self.logs@[e as int],
                        !found ==> forall|k2: int|
                            0 <= k2 < k ==> !((#[trigger] result@[k2]).id@ == entry.0@
                                && result@[k2].tenant_id@ == rec.tenant_id@),
                        found ==> has_pair(result@, entry.0@, rec.tenant_id@),
                    decreases nr - k,
                {
                    if !found {
                        let cand = &result[k];
                        if cand.id == entry.0 && cand.tenant_id == rec.tenant_id {
                            found = true;
                        }
                    }
                    k = k + 1;
                }
                let ghost pre = result@;
                if !found {
                    result.push(
                        CollectionRecord { id: entry.0.clone(), tenant_id: rec.tenant_id.clone() },
                    );
                    proof {
                        let newk = result@.len() - 1;
                        assert(result@[newk].id@ == entry.0@);
                        assert(result@[newk].tenant_id@ == rec.tenant_id@);
                        assert(self.names_pair(result@[newk].id@, result@[newk].tenant_id@)) by {
                            assert(self.logs@[e as int].0@ == entry.0@);
                            assert(self.logs@[e as int].1@[j as int].tenant_id@ == rec.tenant_id@);
                        }
                        assert forall|e2: int, j2: int|
                            0 <= e2 < e && 0 <= j2 < self.logs@[e2].1@.len() implies has_pair(
                            result@,
                            self.logs@[e2].0@,
                            (#[trigger] self.logs@[e2].1@[j2]).tenant_id@,
                        ) by {
                            let kk = choose|kk: int|
                                0 <= kk < pre.len() && pre[kk].id@ == self.logs@[e2].0@
                                    && pre[kk].tenant_id@ == self.logs@[e2].1@[j2].tenant_id@;
                            assert(result@[kk] == pre[kk]);
                        }
                        assert forall|j2: int|
                            0 <= j2 < j + 1 implies has_pair(
                            result@,
                            self.logs@[e as int].0@,
                            (#[trigger] self.logs@[e as int].1@[j2]).tenant_id@,
                        ) by {
                            if j2 < j {
                                let kk = choose|kk: int|
                                    0 <= kk < pre.len() && pre[kk].id@ == self.logs@[e as int].0@
                                        && pre[kk].tenant_id@ == self.logs@[e as int].1@[j2].tenant_id@;
                                assert(result@[kk] == pre[kk]);
                            } else {
                                assert(result@[newk].id@ == self.logs@[e as int].0@);
                            }
                        }
                    }
                } else {
                    proof {
                        assert forall|j2: int|
                            0 <= j2 < j + 1 implies has_pair(
                            result@,
                            self.logs@[e as int].0@,
                            (#[trigger] self.logs@[e as int].1@[j2]).tenant_id@,
                        ) by {}
                    }
                }
                j = j + 1;
            }
            e = e + 1;
        }
        result
    }
}

/// Whether some listed collection record carries this pair of collection
/// and tenant.
pub open spec fn has_pair(r: Seq<CollectionRecord>, id: Seq<char>, tenant: Seq<char>) -> bool {
    exists|k: int| 0 <= k < r.len() && r[k].id@ == id && r[k].tenant_id@ == tenant
}

} // verus!
