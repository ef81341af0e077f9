//! Deduplication of records by identifier, last write wins.
//!
//! A later record with the same identifier replaces the earlier one in
//! place, so the output keeps one record per identifier, each holding the
//! value of its identifier's last occurrence in the input.

use crate::types::EmbeddingRecord;
use vstd::prelude::*;

verus! {

/// Index of the first record of `s` carrying `id`, or -1 if none does.
pub open spec fn first_index_of(s: Seq<EmbeddingRecord>, id: Seq<char>) -> int
    decreases s.len(),
{
    if s.len() == 0 {
        -1
    } else if s[0].id@ == id {
        0
    } else {
        let r = first_index_of(s.drop_first(), id);
        if r == -1 {
            -1
        } else {
            1 + r
        }
    }
}

/// What `first_index_of` finds: the first position with the identifier, if
/// any position has it.
pub proof fn lemma_first_index_of(s: Seq<EmbeddingRecord>, id: Seq<char>)
    ensures
        first_index_of(s, id) == -1 ==> forall|k: int| 0 <= k < s.len() ==> s[k].id@ != id,
        first_index_of(s, id) != -1 ==> {
            let fi = first_index_of(s, id);
            &&& 0 <= fi < s.len()
            &&& s[fi].id@ == id
            &&& forall|k: int| 0 <= k < fi ==> s[k].id@ != id
        },
    decreases s.len(),
{
    if s.len() > 0 && s[0].id@ != id {
        lemma_first_index_of(s.drop_first(), id);
        let t = s.drop_first();
        let r = first_index_of(t, id);
        if r == -1 {
            assert forall|k: int| 0 <= k < s.len() implies s[k].id@ != id by {
                if k > 0 {
                    assert(t[k - 1] == s[k]);
                }
            }
        } else {
            assert(s[1 + r] == t[r]);
            assert forall|k: int| 0 <= k < 1 + r implies s[k].id@ != id by {
                if k > 0 {
                    assert(t[k - 1] == s[k]);
                }
            }
        }
    }
}

/// The converse: a witness for the first position pins `first_index_of`.
pub proof fn lemma_first_index_of_at(s: Seq<EmbeddingRecord>, id: Seq<char>, j: int)
    requires
        0 <= j < s.len(),
        s[j].id@ == id,
        forall|k: int| 0 <= k < j ==> s[k].id@ != id,
    ensures
        first_index_of(s, id) == j,
    decreases s.len(),
{
    if j == 0 {
    } else {
        let t = s.drop_first();
        assert(t[j - 1] == s[j]);
        assert forall|k: int| 0 <= k < j - 1 implies t[k].id@ != id by {
            assert(t[k] == s[k + 1]);
        }
        lemma_first_index_of_at(t, id, j - 1);
    }
}

/// No position carries the identifier: `first_index_of` finds nothing.
pub proof fn lemma_first_index_of_none(s: Seq<EmbeddingRecord>, id: Seq<char>)
    requires
        forall|k: int| 0 <= k < s.len() ==> s[k].id@ != id,
    ensures
        first_index_of(s, id) == -1,
    decreases s.len(),
{
    if s.len() > 0 {
        let t = s.drop_first();
        assert forall|k: int| 0 <= k < t.len() implies t[k].id@ != id by {
            assert(t[k] == s[k + 1]);
        }
        lemma_first_index_of_none(t, id);
    }
}

/// One deduplication step: `r` replaces the first record carrying its
/// identifier, or is appended if its identifier is new.
pub open spec fn upsert(acc: Seq<EmbeddingRecord>, r: EmbeddingRecord) -> Seq<EmbeddingRecord> {
    let fi = first_index_of(acc, r.id@);
    if fi >= 0 {
        acc.update(fi, r)
    } else {
        acc.push(r)
    }
}

/// The deduplication of `s` by identifier, last write wins: identifiers keep
/// the position of their first occurrence, and each holds the record of its
/// identifier's last occurrence.
pub open spec fn spec_dedup(s: Seq<EmbeddingRecord>) -> Seq<EmbeddingRecord>
    decreases s.len(),
{
    if s.len() == 0 {
        Seq::empty()
    } else {
        upsert(spec_dedup(s.drop_last()), s.last())
    }
}

/// No two records of `s` carry the same identifier.
pub open spec fn ids_distinct(s: Seq<EmbeddingRecord>) -> bool {
    forall|k1: int, k2: int|
        0 <= k1 < s.len() && 0 <= k2 < s.len() && k1 != k2 ==> (#[trigger] s[k1].id@) != (
        #[trigger] s[k2].id@)
}

/// An upsert keeps identifiers distinct.
proof fn lemma_upsert_distinct(acc: Seq<EmbeddingRecord>, r: EmbeddingRecord)
    requires
        ids_distinct(acc),
    ensures
        ids_distinct(upsert(acc, r)),
{
    lemma_first_index_of(acc, r.id@);
    let fi = first_index_of(acc, r.id@);
    let out = upsert(acc, r);
    if fi >= 0 {
        assert forall|k1: int, k2: int|
            0 <= k1 < out.len() && 0 <= k2 < out.len() && k1 != k2 implies (#[trigger] out[k1].id@)
            != (#[trigger] out[k2].id@) by {
            if k1 == fi {
                assert(out[k2] == acc[k2]);
                assert(acc[fi].id@ == r.id@);
            } else if k2 == fi {
                assert(out[k1] == acc[k1]);
                assert(acc[fi].id@ == r.id@);
            } else {
                assert(out[k1] == acc[k1] && out[k2] == acc[k2]);
            }
        }
    } else {
        assert forall|k1: int, k2: int|
            0 <= k1 < out.len() && 0 <= k2 < out.len() && k1 != k2 implies (#[trigger] out[k1].id@)
            != (#[trigger] out[k2].id@) by {
            if k1 == out.len() - 1 {
                assert(out[k2] == acc[k2]);
            } else if k2 == out.len() - 1 {
                assert(out[k1] == acc[k1]);
            } else {
                assert(out[k1] == acc[k1] && out[k2] == acc[k2]);
            }
        }
    }
}

/// Deduplication leaves no two records with one identifier.
pub proof fn lemma_spec_dedup_distinct(s: Seq<EmbeddingRecord>)
    ensures
        ids_distinct(spec_dedup(s)),
    decreases s.len(),
{
    if s.len() == 0 {
    } else {
        lemma_spec_dedup_distinct(s.drop_last());
        lemma_upsert_distinct(spec_dedup(s.drop_last()), s.last());
    }
}

/// On records whose identifiers are already distinct, deduplication is the
/// identity.
pub proof fn lemma_spec_dedup_of_distinct(s: Seq<EmbeddingRecord>)
    requires
        ids_distinct(s),
    ensures
        spec_dedup(s) == s,
    decreases s.len(),
{
    if s.len() == 0 {
        assert(spec_dedup(s) =~= s);
    } else {
        let t = s.drop_last();
        assert(ids_distinct(t)) by {
            assert(forall|k: int| 0 <= k < t.len() ==> t[k] == s[k]);
        }
        lemma_spec_dedup_of_distinct(t);
        let r = s.last();
        assert forall|k: int| 0 <= k < t.len() implies t[k].id@ != r.id@ by {
            assert(s[k].id@ != s[s.len() - 1].id@);
        }
        lemma_first_index_of_none(t, r.id@);
        assert(upsert(t, r) == t.push(r));
        assert(t.push(r) =~= s);
    }
}

/// Deduplication never grows a batch, and keeps at least one record of a
/// non-empty batch.
pub proof fn lemma_spec_dedup_len(s: Seq<EmbeddingRecord>)
    ensures
        spec_dedup(s).len() <= s.len(),
        s.len() > 0 ==> spec_dedup(s).len() >= 1,
    decreases s.len(),
{
    if s.len() > 0 {
        lemma_spec_dedup_len(s.drop_last());
        lemma_first_index_of(spec_dedup(s.drop_last()), s.last().id@);
    }
}

/// Deduplication is idempotent: deduplicating an already deduplicated batch
/// returns it unchanged, so the set of surviving records is stable.
pub proof fn lemma_dedup_idempotent(s: Seq<EmbeddingRecord>)
    ensures
        spec_dedup(spec_dedup(s)) == spec_dedup(s),
{
    lemma_spec_dedup_distinct(s);
    lemma_spec_dedup_of_distinct(spec_dedup(s));
}

/// Collapses records by identifier, last write wins: a later record
/// replaces an earlier one with the same identifier, in place.
#[verifier::loop_isolation(false)]
pub fn dedup_records(records: &Vec<EmbeddingRecord>) -> (result: Vec<EmbeddingRecord>)
    ensures
        result@ == spec_dedup(records@),
        ids_distinct(result@),
{
    let n = records.len();
    let mut result: Vec<EmbeddingRecord> = Vec::new();
    let mut i: usize = 0;
    proof {
        assert(records@.take(0) =~= Seq::<EmbeddingRecord>::empty());
    }
    while i < n
        invariant
            n == records@.len(),
            i <= n,
            result@ == spec_dedup(records@.take(i as int)),
        decreases n - i,
    {
        let rec = &records[i];
        let rlen = result.len();
        let mut j: usize = 0;
        let mut target: usize = rlen;
        while j < rlen
            invariant
                rlen == result@.len(),
                j <= rlen,
                target <= rlen,
                target == rlen ==> forall|k: int| 0 <= k < j ==> result@[k].id@ != records@[
                    i as int].id@,
                target < rlen ==> result@[target as int].id@ == records@[i as int].id@ && forall|
                    k: int,
                | 0 <= k < target ==> result@[k].id@ != records@[i as int].id@,
            decreases rlen - j,
        {
            if target == rlen {
                if result[j].id == rec.id {
                    target = j;
                }
            }
            j = j + 1;
        }
        let ghost pre = result@;
        if target < rlen {
            result[target] = rec.clone();
            proof {
                lemma_first_index_of_at(pre, records@[i as int].id@, target as int);
                assert(result@ =~= upsert(pre, records@[i as int]));
            }
        } else {
            result.push(rec.clone());
            proof {
                lemma_first_index_of_none(pre, records@[i as int].id@);
                assert(result@ =~= upsert(pre, records@[i as int]));
            }
        }
        i = i + 1;
        proof {
            assert(records@.take(i as int).drop_last() =~= records@.take(i as int - 1));
            assert(records@.take(i as int).last() == records@[i as int - 1]);
        }
    }
    proof {
        assert(records@.take(n as int) =~= records@);
        lemma_spec_dedup_distinct(records@);
    }
    result
}

} // verus!
