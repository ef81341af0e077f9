//! A sharable view over an ordered batch of records.
//!
//! A `DataChunk` owns a shared handle to an immutable record batch together
//! with a visibility mask over it. Several chunks can present disjoint
//! selections of one batch without copying any record data: the partitioner
//! emits its output this way.

use crate::types::EmbeddingRecord;
use std::sync::Arc;
use vstd::prelude::*;

verus! {

/// Number of `true` entries in a boolean mask.
pub open spec fn count_true(s: Seq<bool>) -> nat
    decreases s.len(),
{
    if s.len() == 0 {
        0
    } else {
        count_true(s.drop_last()) + if s.last() {
            1nat
        } else {
            0nat
        }
    }
}

/// Counting distributes over extending a mask by one entry.
pub proof fn lemma_count_true_take_step(s: Seq<bool>, i: int)
    requires
        0 <= i < s.len(),
    ensures
        count_true(s.take(i + 1)) == count_true(s.take(i)) + if s[i] {
            1nat
        } else {
            0nat
        },
{
    assert(s.take(i + 1).drop_last() =~= s.take(i));
    assert(s.take(i + 1).last() == s[i]);
}

/// A mask never counts more entries than it has.
pub proof fn lemma_count_true_le(s: Seq<bool>)
    ensures
        count_true(s) <= s.len(),
    decreases s.len(),
{
    if s.len() > 0 {
        lemma_count_true_le(s.drop_last());
    }
}

/// A mask counts zero exactly when no entry is set.
pub proof fn lemma_count_true_zero(s: Seq<bool>)
    ensures
        (count_true(s) == 0) <==> (forall|k: int| 0 <= k < s.len() ==> !s[k]),
    decreases s.len(),
{
    if s.len() > 0 {
        lemma_count_true_zero(s.drop_last());
        if count_true(s) == 0 {
            assert forall|k: int| 0 <= k < s.len() implies !s[k] by {
                if k < s.len() - 1 {
                    assert(s.drop_last()[k] == s[k]);
                }
            }
        } else {
            if !s.last() {
                let k = choose|k: int| 0 <= k < s.len() - 1 && s.drop_last()[k];
                assert(s[k]);
            }
        }
    }
}

/// Setting an unset entry raises the count by one.
pub proof fn lemma_count_true_update(s: Seq<bool>, i: int)
    requires
        0 <= i < s.len(),
        !s[i],
    ensures
        count_true(s.update(i, true)) == count_true(s) + 1,
    decreases s.len(),
{
    let t = s.update(i, true);
    if i == s.len() - 1 {
        assert(t.drop_last() =~= s.drop_last());
    } else {
        assert(t.drop_last() =~= s.drop_last().update(i, true));
        lemma_count_true_update(s.drop_last(), i);
    }
}

/// An ordered, indexable record batch with a visibility mask. The batch
/// itself is shared and immutable; only the mask distinguishes views.
pub struct DataChunk {
    pub data: Arc<Vec<EmbeddingRecord>>,
    pub visibility: Vec<bool>,
}

/// Relies on Arc::clone from std: the returned handle refers to the same
/// record batch, so no record data is copied.
#[verifier::external_body]
fn share_batch(data: &Arc<Vec<EmbeddingRecord>>) -> (r: Arc<Vec<EmbeddingRecord>>)
    ensures
        r == *data,
{
    data.clone()
}

impl DataChunk {
    /// All records of the underlying batch, visible or not.
    pub open spec fn all_records(&self) -> Seq<EmbeddingRecord> {
        self.data@
    }

    /// Size of the underlying batch.
    pub open spec fn total_spec(&self) -> nat {
        self.data@.len()
    }

    /// The mask matches the batch.
    pub open spec fn wf(&self) -> bool {
        self.visibility@.len() == self.data@.len()
    }

    /// Whether the record at index `i` is visible in this view.
    pub open spec fn visible(&self, i: int) -> bool {
        0 <= i < self.total_spec() && self.visibility@[i]
    }

    /// The grouping key (record identifier) of the record at index `i`.
    pub open spec fn key_at(&self, i: int) -> Seq<char> {
        self.data@[i].id@
    }

    /// Number of visible records.
    pub open spec fn len_spec(&self) -> nat {
        count_true(self.visibility@)
    }

    /// Wraps a record batch as a chunk with every record visible.
    pub fn new(records: Vec<EmbeddingRecord>) -> (r: DataChunk)
        ensures
            r.wf(),
            r.all_records() == records@,
            forall|i: int| 0 <= i < records@.len() ==> r.visible(i),
    {
        let n = records.len();
        let visibility = vec![true; n];
        let r = DataChunk { data: Arc::new(records), visibility };
        proof {
            assert(forall|i: int| 0 <= i < n ==> r.visibility@[i]);
        }
        r
    }

    /// Size of the underlying batch.
    pub fn total_len(&self) -> (r: usize)
        requires
            self.wf(),
        ensures
            r == self.total_spec(),
    {
        self.visibility.len()
    }

    /// Number of visible records.
    pub fn len(&self) -> (r: usize)
        requires
            self.wf(),
        ensures
            r == self.len_spec(),
    {
        let n = self.visibility.len();
        let mut count: usize = 0;
        let mut i: usize = 0;
        while i < n
            invariant
                n == self.visibility@.len(),
                i <= n,
                count <= i,
                count == count_true(self.visibility@.take(i as int)),
            decreases n - i,
        {
            proof {
                lemma_count_true_take_step(self.visibility@, i as int);
            }
            if self.visibility[i] {
                count = count + 1;
            }
            i = i + 1;
        }
        proof {
            assert(self.visibility@.take(n as int) =~= self.visibility@);
        }
        count
    }

    /// A reference to the record at index `i` of the underlying batch.
    pub fn get_record(&self, i: usize) -> (r: &EmbeddingRecord)
        requires
            self.wf(),
            i < self.total_spec(),
        ensures
            *r == self.all_records()[i as int],
    {
        &(*self.data)[i]
    }

    /// Whether the record at index `i` is visible.
    pub fn is_visible(&self, i: usize) -> (r: bool)
        requires
            self.wf(),
            i < self.total_spec(),
        ensures
            r == self.visible(i as int),
    {
        self.visibility[i]
    }

    /// Replaces this view's visibility mask.
    pub fn set_visibility(&mut self, visibility: Vec<bool>)
        requires
            visibility@.len() == old(self).total_spec(),
        ensures
            final(self).wf(),
            final(self).all_records() == old(self).all_records(),
            final(self).visibility@ == visibility@,
    {
        self.visibility = visibility;
    }

    /// A new view of the same batch under the given mask, sharing the
    /// record data.
    pub fn view_with_visibility(&self, visibility: Vec<bool>) -> (r: DataChunk)
        requires
            self.wf(),
            visibility@.len() == self.total_spec(),
        ensures
            r.wf(),
            r.all_records() == self.all_records(),
            r.visibility@ == visibility@,
            forall|i: int| r.visible(i) == (0 <= i < visibility@.len() && visibility@[i]),
    {
        DataChunk { data: share_batch(&self.data), visibility }
    }
}

} // verus!
