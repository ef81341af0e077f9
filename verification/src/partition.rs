//! The key-aware, zero-copy record partitioner.
//!
//! Records are grouped by their identifier; whole key-groups are packed into
//! output partitions, so no two records sharing a key ever land in different
//! partitions, and every visible input record appears in exactly one output
//! partition. Each output partition is a view over the original batch.

use crate::data_chunk::count_true;
use crate::data_chunk::lemma_count_true_le;
use crate::data_chunk::lemma_count_true_update;
use crate::data_chunk::lemma_count_true_zero;
use crate::data_chunk::DataChunk;
use vstd::prelude::*;

verus! {

/// Whether index `i` is listed in the group `g`.
pub open spec fn in_group(g: Seq<usize>, i: int) -> bool {
    exists|k: int| 0 <= k < g.len() && g[k] == i
}

/// The key a group collects: the key of its first listed record.
pub open spec fn group_key(c: DataChunk, g: Seq<usize>) -> Seq<char> {
    c.key_at(g[0] as int)
}

/// Every listed index is visible in `c` and carries its group's key.
pub open spec fn groups_members_ok(c: DataChunk, gs: Seq<Vec<usize>>) -> bool {
    forall|j: int, k: int|
        0 <= j < gs.len() && 0 <= k < gs[j]@.len() ==> c.visible(#[trigger] gs[j]@[k] as int)
            && c.key_at(gs[j]@[k] as int) == group_key(c, gs[j]@)
}

/// No group is empty.
pub open spec fn groups_nonempty(gs: Seq<Vec<usize>>) -> bool {
    forall|j: int| 0 <= j < gs.len() ==> (#[trigger] gs[j]@).len() > 0
}

/// Each group holds every visible index that carries its key.
pub open spec fn groups_complete(c: DataChunk, gs: Seq<Vec<usize>>) -> bool {
    forall|j: int, i: int|
        0 <= j < gs.len() && c.visible(i) && c.key_at(i) == group_key(c, gs[j]@)
            ==> #[trigger] in_group(gs[j]@, i)
}

/// Every visible index is listed in some group.
pub open spec fn groups_cover(c: DataChunk, gs: Seq<Vec<usize>>) -> bool {
    forall|i: int| #[trigger]
        c.visible(i) ==> exists|j: int| 0 <= j < gs.len() && in_group(gs[j]@, i)
}

/// No index is listed twice, within one group or across groups.
pub open spec fn groups_distinct(gs: Seq<Vec<usize>>) -> bool {
    forall|j1: int, k1: int, j2: int, k2: int|
        0 <= j1 < gs.len() && 0 <= k1 < gs[j1]@.len() && 0 <= j2 < gs.len() && 0 <= k2
            < gs[j2]@.len() && (#[trigger] gs[j1]@[k1]) == (#[trigger] gs[j2]@[k2]) ==> j1 == j2
            && k1 == k2
}

/// Distinct groups collect distinct keys.
pub open spec fn groups_keys_distinct(c: DataChunk, gs: Seq<Vec<usize>>) -> bool {
    forall|j1: int, j2: int|
        0 <= j1 < gs.len() && 0 <= j2 < gs.len() && j1 != j2 ==> group_key(c, #[trigger] gs[j1]@)
            != group_key(c, #[trigger] gs[j2]@)
}

/// A correct grouping of the visible records of `c` by key.
pub open spec fn groups_wf(c: DataChunk, gs: Seq<Vec<usize>>) -> bool {
    &&& groups_members_ok(c, gs)
    &&& groups_nonempty(gs)
    &&& groups_complete(c, gs)
    &&& groups_cover(c, gs)
    &&& groups_distinct(gs)
    &&& groups_keys_distinct(c, gs)
}

/// Collects the visible indices of `records` into key-groups, in order of
/// each key's first visible occurrence.
pub fn group_visible_indices(records: &DataChunk) -> (groups: Vec<Vec<usize>>)
    requires
        records.wf(),
    ensures
        groups_wf(*records, groups@),
{
    let n = records.total_len();
    let mut groups: Vec<Vec<usize>> = Vec::new();
    let mut i: usize = 0;
    while i < n
        invariant
            records.wf(),
            n == records.total_spec(),
            i <= n,
            groups_members_ok(*records, groups@),
            groups_nonempty(groups@),
            groups_distinct(groups@),
            groups_keys_distinct(*records, groups@),
            forall|j: int, i2: int|
                0 <= j < groups@.len() && 0 <= i2 < i && records.visible(i2) && records.key_at(i2)
                    == group_key(*records, groups@[j]@) ==> #[trigger] in_group(groups@[j]@, i2),
            forall|i2: int|
                0 <= i2 < i && #[trigger] records.visible(i2) ==> exists|j: int|
                    0 <= j < groups@.len() && in_group(groups@[j]@, i2),
            forall|j: int, k: int|
                0 <= j < groups@.len() && 0 <= k < groups@[j]@.len() ==> (#[trigger] groups@[j]@[k])
                    < i,
        decreases n - i,
    {
        if records.is_visible(i) {
            let rec_key_holder = records.get_record(i);
            let glen = groups.len();
            let mut j: usize = 0;
            let mut target: usize = glen;
            while j < glen
                invariant
                    records.wf(),
                    i < records.total_spec(),
                    records.visible(i as int),
                    glen == groups@.len(),
                    j <= glen,
                    groups_members_ok(*records, groups@),
                    groups_nonempty(groups@),
                    *rec_key_holder == records.all_records()[i as int],
                    target <= glen,
                    target == glen ==> forall|j2: int|
                        0 <= j2 < j ==> group_key(*records, #[trigger] groups@[j2]@)
                            != records.key_at(i as int),
                    target < glen ==> group_key(*records, groups@[target as int]@) == records.key_at(
                        i as int,
                    ),
                decreases glen - j,
            {
                if target == glen {
                    let gj = &groups[j];
                    let first = gj[0];
                    let first_rec = records.get_record(first);
                    if first_rec.id == rec_key_holder.id {
                        target = j;
                    }
                }
                j = j + 1;
            }
            if target < glen {
                let ghost old_groups = groups@;
                let grp = &mut groups[target];
                grp.push(i);
                proof {
                    assert(groups@.len() == old_groups.len());
                    assert(groups@[target as int]@ == old_groups[target as int]@.push(i));
                    assert(forall|j2: int|
                        0 <= j2 < groups@.len() && j2 != target as int ==> groups@[j2]
                            == old_groups[j2]);
                    let gnew = groups@[target as int]@;
                    assert(gnew[gnew.len() - 1] == i);
                    assert(gnew[0] == old_groups[target as int]@[0]);
                    assert forall|j2: int, k: int|
                        0 <= j2 < groups@.len() && 0 <= k < groups@[j2]@.len() implies records.visible(
                        #[trigger] groups@[j2]@[k] as int,
                    ) && records.key_at(groups@[j2]@[k] as int) == group_key(
                        *records,
                        groups@[j2]@,
                    ) && groups@[j2]@[k] < i + 1 by {
                        if j2 == target as int && k == gnew.len() - 1 {
                        } else {
                            assert(groups@[j2]@[k] == old_groups[j2]@[k]);
                        }
                    }
                    assert forall|j2: int, i2: int|
                        0 <= j2 < groups@.len() && 0 <= i2 < i + 1 && records.visible(i2)
                            && records.key_at(i2) == group_key(*records, groups@[j2]@) implies #[trigger] in_group(
                        groups@[j2]@,
                        i2,
                    ) by {
                        if i2 < i {
                            assert(in_group(old_groups[j2]@, i2));
                            let k = choose|k: int|
                                0 <= k < old_groups[j2]@.len() && old_groups[j2]@[k] == i2;
                            assert(groups@[j2]@[k] == i2);
                        } else {
                            if j2 == target as int {
                                assert(gnew[gnew.len() - 1] == i2);
                            } else {
                                // distinct keys forbid a second group with this key
                                assert(group_key(*records, groups@[j2]@) == group_key(
                                    *records,
                                    groups@[target as int]@,
                                ));
                                assert(false);
                            }
                        }
                    }
                    assert forall|i2: int| 0 <= i2 < i + 1 && #[trigger] records.visible(i2) implies exists|
                        j2: int,
                    | 0 <= j2 < groups@.len() && in_group(groups@[j2]@, i2) by {
                        if i2 < i {
                            let j2 = choose|j2: int|
                                0 <= j2 < old_groups.len() && in_group(old_groups[j2]@, i2);
                            if j2 == target as int {
                                let k = choose|k: int|
                                    0 <= k < old_groups[j2]@.len() && old_groups[j2]@[k] == i2;
                                assert(groups@[j2]@[k] == i2);
                                assert(in_group(groups@[j2]@, i2));
                            } else {
                                assert(in_group(groups@[j2]@, i2));
                            }
                        } else {
                            assert(in_group(groups@[target as int]@, i2));
                        }
                    }
                    assert forall|j1: int, k1: int, j2: int, k2: int|
                        0 <= j1 < groups@.len() && 0 <= k1 < groups@[j1]@.len() && 0 <= j2
                            < groups@.len() && 0 <= k2 < groups@[j2]@.len() && (
                        #[trigger] groups@[j1]@[k1]) == (#[trigger] groups@[j2]@[k2]) implies j1
                        == j2 && k1 == k2 by {
                        let t = target as int;
                        let newlen = gnew.len();
                        if (j1 == t && k1 == newlen - 1) && (j2 == t && k2 == newlen - 1) {
                        } else if j1 == t && k1 == newlen - 1 {
                            assert(old_groups[j2]@[k2] < i);
                            assert(false);
                        } else if j2 == t && k2 == newlen - 1 {
                            assert(old_groups[j1]@[k1] < i);
                            assert(false);
                        } else {
                            assert(old_groups[j1]@[k1] == groups@[j1]@[k1]);
                            assert(old_groups[j2]@[k2] == groups@[j2]@[k2]);
                        }
                    }
                    assert forall|j1: int, j2: int|
                        0 <= j1 < groups@.len() && 0 <= j2 < groups@.len() && j1 != j2 implies group_key(
                        *records,
                        #[trigger] groups@[j1]@,
                    ) != group_key(*records, #[trigger] groups@[j2]@) by {
                        assert(group_key(*records, groups@[j1]@) == group_key(
                            *records,
                            old_groups[j1]@,
                        ));
                        assert(group_key(*records, groups@[j2]@) == group_key(
                            *records,
                            old_groups[j2]@,
                        ));
                    }
                }
            } else {
                let ghost old_groups = groups@;
                let mut ng: Vec<usize> = Vec::new();
                ng.push(i);
                groups.push(ng);
                proof {
                    let newlen = groups@.len();
                    assert(groups@[newlen - 1]@ =~= seq![i]);
                    assert forall|j2: int| 0 <= j2 < newlen - 1 implies groups@[j2]@
                        == old_groups[j2]@ by {}
                    // no earlier visible index carries this key
                    assert forall|j2: int, i2: int|
                        0 <= j2 < groups@.len() && 0 <= i2 < i + 1 && records.visible(i2)
                            && records.key_at(i2) == group_key(*records, groups@[j2]@) implies #[trigger] in_group(
                        groups@[j2]@,
                        i2,
                    ) by {
                        if j2 < newlen - 1 {
                            if i2 < i {
                                assert(in_group(old_groups[j2]@, i2));
                            } else {
                                assert(group_key(*records, groups@[j2]@) != records.key_at(
                                    i as int,
                                ));
                                assert(false);
                            }
                        } else {
                            if i2 < i {
                                // i2 would lie in an old group whose key matches, which the
                                // scan ruled out
                                let jold = choose|jold: int|
                                    0 <= jold < old_groups.len() && in_group(old_groups[jold]@, i2);
                                assert(records.key_at(i2) == group_key(
                                    *records,
                                    old_groups[jold]@,
                                ));
                                assert(group_key(*records, old_groups[jold]@) != records.key_at(
                                    i as int,
                                ));
                                assert(group_key(*records, groups@[newlen - 1]@) == records.key_at(
                                    i as int,
                                ));
                                assert(false);
                            } else {
                                assert(groups@[newlen - 1]@[0] == i2);
                            }
                        }
                    }
                    assert forall|i2: int| 0 <= i2 < i + 1 && #[trigger] records.visible(i2) implies exists|
                        j2: int,
                    | 0 <= j2 < groups@.len() && in_group(groups@[j2]@, i2) by {
                        if i2 < i {
                            let j2 = choose|j2: int|
                                0 <= j2 < old_groups.len() && in_group(old_groups[j2]@, i2);
                            assert(in_group(groups@[j2]@, i2));
                        } else {
                            assert(groups@[newlen - 1]@[0] == i2);
                            assert(in_group(groups@[newlen - 1]@, i2));
                        }
                    }
                    assert forall|j1: int, j2: int|
                        0 <= j1 < groups@.len() && 0 <= j2 < groups@.len() && j1 != j2 implies group_key(
                        *records,
                        #[trigger] groups@[j1]@,
                    ) != group_key(*records, #[trigger] groups@[j2]@) by {
                        if j1 < newlen - 1 && j2 < newlen - 1 {
                        } else if j1 == newlen - 1 {
                            assert(group_key(*records, groups@[j1]@) == records.key_at(i as int));
                            assert(group_key(*records, groups@[j2]@) == group_key(
                                *records,
                                old_groups[j2]@,
                            ));
                        } else {
                            assert(group_key(*records, groups@[j2]@) == records.key_at(i as int));
                            assert(group_key(*records, groups@[j1]@) == group_key(
                                *records,
                                old_groups[j1]@,
                            ));
                        }
                    }
                }
            }
        }
        i = i + 1;
    }
    groups
}

/// Whether every index of group `g` is set in the mask `m`.
pub open spec fn group_in_mask(m: Seq<bool>, g: Seq<usize>) -> bool {
    forall|k: int| 0 <= k < g.len() ==> m[#[trigger] g[k] as int]
}

/// Whether every index of group `g` is visible in the chunk `c`.
pub open spec fn group_in_chunk(c: DataChunk, g: Seq<usize>) -> bool {
    forall|k: int| 0 <= k < g.len() ==> c.visible(#[trigger] g[k] as int)
}

/// The mask selecting the visible records of `c` whose key differs from `key`.
pub open spec fn exclusion_mask(c: DataChunk, key: Seq<char>) -> Seq<bool> {
    Seq::new(c.total_spec() as nat, |i: int| c.visible(i) && c.key_at(i) != key)
}

/// How many visible records of `c` carry a key other than `key`.
pub open spec fn count_visible_excluding(c: DataChunk, key: Seq<char>) -> nat {
    count_true(exclusion_mask(c, key))
}

/// Whether some partition of `result` shows every index of group `g`.
pub open spec fn some_partition_holds_group(result: Seq<DataChunk>, g: Seq<usize>) -> bool {
    exists|p: int| 0 <= p < result.len() && group_in_chunk(result[p], g)
}

/// Whether the view `c` shows at least one record.
pub open spec fn shows_a_record(c: DataChunk) -> bool {
    exists|i: int| c.visible(i)
}

/// Whether `c` is maximally packed for the threshold `size`: some key set
/// aside, fewer than `size` records show. The partitioner flushes as soon as
/// a partition gathers `size` records, so only the final key-group can push
/// a partition past the threshold.
pub open spec fn packed_tightly(c: DataChunk, size: int) -> bool {
    exists|key: Seq<char>| count_visible_excluding(c, key) < size
}

/// A pointwise-smaller mask counts no more entries.
pub proof fn lemma_count_true_mono(s: Seq<bool>, t: Seq<bool>)
    requires
        s.len() == t.len(),
        forall|k: int| 0 <= k < s.len() && #[trigger] s[k] ==> t[k],
    ensures
        count_true(s) <= count_true(t),
    decreases s.len(),
{
    if s.len() > 0 {
        assert(forall|k: int|
            0 <= k < s.len() - 1 && #[trigger] s.drop_last()[k] ==> t.drop_last()[k]);
        lemma_count_true_mono(s.drop_last(), t.drop_last());
    }
}

/// What the partitioner guarantees of its output, relative to the input
/// view and the requested partition size:
/// - every output partition is a view over the same record batch;
/// - the output partitions' visible indices form a partition of the input's
///   visible indices (no omission, no duplication);
/// - records sharing a key are never split across two output partitions;
/// - every output partition shows at least one record;
/// - packing is maximal in both directions: every partition but (possibly)
///   the final one shows at least `partition_size` records, and each
///   partition, its last key-group set aside, shows fewer than
///   `partition_size` records.
pub open spec fn partition_post(records: DataChunk, partition_size: int, result: Seq<DataChunk>) -> bool {
    &&& forall|p: int|
        0 <= p < result.len() ==> (#[trigger] result[p]).wf() && result[p].all_records()
            == records.all_records()
    &&& forall|p: int, i: int|
        0 <= p < result.len() && #[trigger] result[p].visible(i) ==> records.visible(i)
    &&& forall|i: int| #[trigger]
        records.visible(i) ==> exists|p: int| 0 <= p < result.len() && result[p].visible(i)
    &&& forall|p1: int, p2: int, i: int|
        0 <= p1 < result.len() && 0 <= p2 < result.len() && #[trigger] result[p1].visible(i)
            && #[trigger] result[p2].visible(i) ==> p1 == p2
    &&& forall|p1: int, p2: int, i1: int, i2: int|
        0 <= p1 < result.len() && 0 <= p2 < result.len() && #[trigger] result[p1].visible(i1)
            && #[trigger] result[p2].visible(i2) && records.key_at(i1) == records.key_at(i2)
            ==> p1 == p2
    &&& forall|p: int| 0 <= p < result.len() ==> shows_a_record(#[trigger] result[p])
    &&& forall|p: int|
        0 <= p < result.len() - 1 ==> (#[trigger] result[p]).len_spec() >= partition_size
    &&& partition_size >= 1 ==> forall|p: int|
        0 <= p < result.len() ==> packed_tightly(#[trigger] result[p], partition_size)
}

/// Groups the visible records of a batch by key and packs whole key-groups
/// into partitions of at least `partition_size` records each (except,
/// possibly, the last), without copying record data.
pub struct PartitionOperator {}

/// Whether `i` is listed among the first `upto` entries of group `g`.
pub open spec fn marked_prefix(g: Seq<usize>, upto: int, i: int) -> bool {
    exists|k2: int| 0 <= k2 < upto && g[k2] == i
}

/// Whether `i` is listed in one of the first `upto` groups.
pub open spec fn in_some_group(gs: Seq<Vec<usize>>, upto: int, i: int) -> bool {
    exists|j: int| 0 <= j < upto && in_group(gs[j]@, i)
}

proof fn lemma_in_some_group_mono(gs: Seq<Vec<usize>>, upto1: int, upto2: int, i: int)
    requires
        0 <= upto1 <= upto2,
        in_some_group(gs, upto1, i),
    ensures
        in_some_group(gs, upto2, i),
{
    let j = choose|j: int| 0 <= j < upto1 && in_group(gs[j]@, i);
    assert(0 <= j < upto2 && in_group(gs[j]@, i));
}

/// Appending a non-empty partition keeps every partition non-empty.
proof fn lemma_push_keeps_nonempty(old_r: Seq<DataChunk>, new_r: Seq<DataChunk>, c: DataChunk)
    requires
        new_r == old_r.push(c),
        forall|p: int| 0 <= p < old_r.len() ==> shows_a_record(#[trigger] old_r[p]),
        shows_a_record(c),
    ensures
        forall|p: int| 0 <= p < new_r.len() ==> shows_a_record(#[trigger] new_r[p]),
{
    assert forall|p: int| 0 <= p < new_r.len() implies shows_a_record(#[trigger] new_r[p]) by {
        if p < old_r.len() {
            assert(new_r[p] == old_r[p]);
            assert(shows_a_record(old_r[p]));
        } else {
            assert(new_r[p] == c);
        }
    }
}

/// Appending a maximally packed partition keeps every partition maximally
/// packed: setting one key aside, fewer than `size` records show.
proof fn lemma_push_keeps_packing(old_r: Seq<DataChunk>, new_r: Seq<DataChunk>, c: DataChunk, size: int)
    requires
        new_r == old_r.push(c),
        forall|p: int| 0 <= p < old_r.len() ==> packed_tightly(#[trigger] old_r[p], size),
        packed_tightly(c, size),
    ensures
        forall|p: int| 0 <= p < new_r.len() ==> packed_tightly(#[trigger] new_r[p], size),
{
    assert forall|p: int| 0 <= p < new_r.len() implies packed_tightly(
        #[trigger] new_r[p],
        size,
    ) by {
        if p < old_r.len() {
            assert(new_r[p] == old_r[p]);
            assert(packed_tightly(old_r[p], size));
        } else {
            assert(new_r[p] == c);
        }
    }
}

/// Packs whole key-groups, in order, into partitions over `records`: a
/// partition is flushed as soon as it has gathered `partition_size` records,
/// and a final partial partition collects whatever remains.
#[verifier::loop_isolation(false)]
#[verifier::rlimit(100)]
#[verifier::spinoff_prover]
fn pack_groups(records: &DataChunk, groups: &Vec<Vec<usize>>, partition_size: usize) -> (result:
    Vec<DataChunk>)
    requires
        records.wf(),
        groups_wf(*records, groups@),
    ensures
        forall|p: int|
            0 <= p < result@.len() ==> (#[trigger] result@[p]).wf() && result@[p].all_records()
                == records.all_records(),
        forall|p: int, i: int|
            0 <= p < result@.len() && #[trigger] result@[p].visible(i) ==> records.visible(i)
                && in_some_group(groups@, groups@.len() as int, i),
        forall|p1: int, p2: int, i: int|
            0 <= p1 < result@.len() && 0 <= p2 < result@.len() && #[trigger] result@[p1].visible(i)
                && #[trigger] result@[p2].visible(i) ==> p1 == p2,
        forall|j: int|
            0 <= j < groups@.len() ==> some_partition_holds_group(result@, #[trigger] groups@[j]@),
        forall|p: int| 0 <= p < result@.len() ==> shows_a_record(#[trigger] result@[p]),
        forall|p: int|
            0 <= p < result@.len() - 1 ==> (#[trigger] result@[p]).len_spec()
                >= partition_size as int,
        partition_size >= 1 ==> forall|p: int|
            0 <= p < result@.len() ==> packed_tightly(#[trigger] result@[p], partition_size as int),
{
    let ghost gs = groups@;
    let n = records.total_len();
    let glen_total = groups.len();
    let mut result: Vec<DataChunk> = Vec::new();
    let mut mask: Vec<bool> = vec![false; n];
    let mut count: usize = 0;
    let mut new_partition: bool = true;
    let mut g: usize = 0;
    proof {
        assert(forall|i: int| 0 <= i < n ==> !mask@[i]);
        lemma_count_true_zero(mask@);
    }
    while g < glen_total
        invariant
            mask@.len() == n,
            g <= glen_total,
            forall|p: int|
                0 <= p < result@.len() ==> (#[trigger] result@[p]).wf()
                    && result@[p].all_records() == records.all_records(),
            forall|p: int, i: int|
                0 <= p < result@.len() && #[trigger] result@[p].visible(i) ==> records.visible(i)
                    && in_some_group(gs, g as int, i),
            forall|i: int|
                0 <= i < n && #[trigger] mask@[i] ==> records.visible(i) && in_some_group(
                    gs,
                    g as int,
                    i,
                ),
            forall|p1: int, p2: int, i: int|
                0 <= p1 < result@.len() && 0 <= p2 < result@.len() && #[trigger] result@[p1].visible(
                    i,
                ) && #[trigger] result@[p2].visible(i) ==> p1 == p2,
            forall|p: int, i: int|
                0 <= p < result@.len() && #[trigger] result@[p].visible(i) ==> !mask@[i],
            forall|j: int|
                0 <= j < g ==> group_in_mask(mask@, #[trigger] gs[j]@)
                    || some_partition_holds_group(result@, gs[j]@),
            count == count_true(mask@),
            new_partition ==> count == 0,
            !new_partition ==> 1 <= count && count < partition_size,
            forall|p: int|
                0 <= p < result@.len() ==> (#[trigger] result@[p]).len_spec()
                    >= partition_size as int,
            partition_size >= 1 ==> forall|p: int|
                0 <= p < result@.len() ==> packed_tightly(#[trigger] result@[p], partition_size as int),
            forall|p: int| 0 <= p < result@.len() ==> shows_a_record(#[trigger] result@[p]),
        decreases glen_total - g,
    {
        let ghost pre_mask = mask@;
        let ghost pre_count = count as int;
        let grp = &groups[g];
        let grp_len = grp.len();
        let mut k: usize = 0;
        while k < grp_len
            invariant
                k <= grp_len,
                mask@.len() == n,
                count == count_true(mask@),
                count == pre_count + k,
                forall|i: int|
                    0 <= i < n ==> #[trigger] mask@[i] == (pre_mask[i] || marked_prefix(
                        gs[g as int]@,
                        k as int,
                        i,
                    )),
                forall|p: int, i: int|
                    0 <= p < result@.len() && #[trigger] result@[p].visible(i) ==> !mask@[i],
            decreases grp_len - k,
        {
            let idx = grp[k];
            proof {
                assert(records.visible(idx as int));
                // the index is not yet in the mask: earlier groups and the
                // earlier entries of this group are all distinct from it
                if pre_mask[idx as int] {
                    let j2 = choose|j2: int| 0 <= j2 < g && in_group(gs[j2]@, idx as int);
                    let k2 = choose|k2: int|
                        0 <= k2 < gs[j2]@.len() && gs[j2]@[k2] == idx as int;
                    assert(gs[j2]@[k2] == gs[g as int]@[k as int]);
                    assert(false);
                }
                if marked_prefix(gs[g as int]@, k as int, idx as int) {
                    let k2 = choose|k2: int| 0 <= k2 < k && gs[g as int]@[k2] == idx as int;
                    assert(gs[g as int]@[k2] == gs[g as int]@[k as int]);
                    assert(false);
                }
                assert(!mask@[idx as int]);
                lemma_count_true_update(mask@, idx as int);
                lemma_count_true_le(mask@.update(idx as int, true));
                // a record of this group cannot already sit in an output
                // partition
                assert forall|p: int, i: int|
                    0 <= p < result@.len() && #[trigger] result@[p].visible(i) implies !mask@.update(
                    idx as int,
                    true,
                )[i] by {
                    if i == idx as int {
                        let j2 = choose|j2: int| 0 <= j2 < g && in_group(gs[j2]@, i);
                        let k2 = choose|k2: int| 0 <= k2 < gs[j2]@.len() && gs[j2]@[k2] == i;
                        assert(gs[j2]@[k2] == gs[g as int]@[k as int]);
                        assert(false);
                    }
                }
            }
            let ghost step_mask = mask@;
            mask[idx] = true;
            count = count + 1;
            k = k + 1;
            proof {
                assert forall|i: int| 0 <= i < n implies #[trigger] mask@[i] == (pre_mask[i]
                    || marked_prefix(gs[g as int]@, k as int, i)) by {
                    if i == idx as int {
                        assert(mask@[i]);
                        assert(0 <= k - 1 < k && gs[g as int]@[k - 1] == i);
                        assert(marked_prefix(gs[g as int]@, k as int, i));
                    } else {
                        assert(mask@[i] == step_mask[i]);
                        if step_mask[i] {
                            if !pre_mask[i] {
                                assert(marked_prefix(gs[g as int]@, (k - 1) as int, i));
                                let k2 = choose|k2: int|
                                    0 <= k2 < k - 1 && gs[g as int]@[k2] == i;
                                assert(0 <= k2 < k && gs[g as int]@[k2] == i);
                                assert(marked_prefix(gs[g as int]@, k as int, i));
                            }
                        } else {
                            if marked_prefix(gs[g as int]@, k as int, i) {
                                let k2 = choose|k2: int| 0 <= k2 < k && gs[g as int]@[k2] == i;
                                assert(k2 != k - 1);
                                assert(marked_prefix(gs[g as int]@, (k - 1) as int, i));
                                assert(false);
                            }
                        }
                    }
                }
            }
        }
        proof {
            // the mask now holds the earlier unflushed groups plus group g
            assert forall|i: int| 0 <= i < n && #[trigger] mask@[i] implies records.visible(i)
                && in_some_group(gs, g + 1, i) by {
                if pre_mask[i] {
                    lemma_in_some_group_mono(gs, g as int, g + 1, i);
                } else {
                    assert(marked_prefix(gs[g as int]@, grp_len as int, i));
                    let k2 = choose|k2: int| 0 <= k2 < grp_len && gs[g as int]@[k2] == i;
                    assert(records.visible(gs[g as int]@[k2] as int));
                    assert(in_group(gs[g as int]@, i));
                    assert(0 <= g < g + 1 && in_group(gs[g as int]@, i));
                }
            }
            assert forall|p: int, i: int|
                0 <= p < result@.len() && #[trigger] result@[p].visible(i) implies records.visible(
                i,
            ) && in_some_group(gs, g + 1, i) by {
                lemma_in_some_group_mono(gs, g as int, g + 1, i);
            }
            // every group up to and including g is in the mask or flushed
            assert forall|j: int| 0 <= j < g + 1 implies group_in_mask(mask@, #[trigger] gs[j]@)
                || some_partition_holds_group(result@, gs[j]@) by {
                if j < g {
                    if group_in_mask(pre_mask, gs[j]@) {
                        assert forall|k2: int| 0 <= k2 < gs[j]@.len() implies mask@[
                        #[trigger] gs[j]@[k2] as int] by {
                            let i2 = gs[j]@[k2] as int;
                            assert(pre_mask[i2]);
                            assert(records.visible(i2));
                            assert(mask@[i2] == (pre_mask[i2] || marked_prefix(
                                gs[g as int]@,
                                grp_len as int,
                                i2,
                            )));
                        }
                        assert(group_in_mask(mask@, gs[j]@));
                    }
                } else {
                    assert forall|k2: int| 0 <= k2 < gs[j]@.len() implies mask@[#[trigger] gs[j]@[k2] as int] by {
                        let i2 = gs[j]@[k2] as int;
                        assert(records.visible(i2));
                        assert(0 <= k2 < grp_len && gs[g as int]@[k2] == gs[j]@[k2]);
                        assert(marked_prefix(gs[g as int]@, grp_len as int, i2));
                        assert(mask@[i2] == (pre_mask[i2] || marked_prefix(
                            gs[g as int]@,
                            grp_len as int,
                            i2,
                        )));
                    }
                    assert(group_in_mask(mask@, gs[j]@));
                }
            }
        }
        let ghost flush_mask = mask@;
        let ghost pre_result = result@;
        if count >= partition_size {
            let mv = mask.clone();
            proof {
                assert(mv@ =~= mask@);
            }
            let chunk = records.view_with_visibility(mv);
            proof {
                // the flushed partition, its last key-group set aside, shows
                // fewer than partition_size records
                if partition_size >= 1 {
                    let key_g = group_key(*records, gs[g as int]@);
                    assert forall|i: int|
                        0 <= i < n && #[trigger] exclusion_mask(chunk, key_g)[i] implies pre_mask[i] by {
                        if !pre_mask[i] {
                            assert(mask@[i] == (pre_mask[i] || marked_prefix(
                                gs[g as int]@,
                                grp_len as int,
                                i,
                            )));
                            let k2 = choose|k2: int| 0 <= k2 < grp_len && gs[g as int]@[k2] == i;
                            assert(records.key_at(i) == key_g);
                        }
                    }
                    lemma_count_true_mono(exclusion_mask(chunk, key_g), pre_mask);
                    assert(count_visible_excluding(chunk, key_g) < partition_size);
                    assert(packed_tightly(chunk, partition_size as int));
                }
                // the flushed partition is not empty
                lemma_count_true_zero(mask@);
                assert(count >= 1) by {
                    assert(gs[g as int]@.len() >= 1);
                }
                let iw = choose|iw: int| 0 <= iw < mask@.len() && mask@[iw];
                assert(chunk.visible(iw));
                assert(shows_a_record(chunk));
                // a flush happens only once the threshold is gathered
                assert(chunk.len_spec() == count_true(mask@));
                assert(chunk.len_spec() >= partition_size as int);
            }
            result.push(chunk);
            mask = vec![false; n];
            count = 0;
            new_partition = true;
            proof {
                assert(forall|i: int| 0 <= i < n ==> !mask@[i]);
                lemma_count_true_zero(mask@);
                let pnew = result@.len() - 1;
                assert(result@.len() == pre_result.len() + 1);
                assert(forall|p: int| 0 <= p < pre_result.len() ==> result@[p] == pre_result[p]);
                // the new partition shows exactly the flushed mask and is
                // disjoint from every earlier partition
                assert forall|p1: int, p2: int, i: int|
                    0 <= p1 < result@.len() && 0 <= p2 < result@.len() && #[trigger] result@[p1].visible(
                        i,
                    ) && #[trigger] result@[p2].visible(i) implies p1 == p2 by {
                    if p1 < pre_result.len() && p2 < pre_result.len() {
                        assert(pre_result[p1].visible(i) && pre_result[p2].visible(i));
                    } else if p1 < pre_result.len() {
                        assert(pre_result[p1].visible(i));
                        assert(flush_mask[i]);
                        assert(false);
                    } else if p2 < pre_result.len() {
                        assert(pre_result[p2].visible(i));
                        assert(flush_mask[i]);
                        assert(false);
                    }
                }
                // carry the packing and non-emptiness facts over the push
                let chunk_new = result@[pnew];
                if partition_size >= 1 {
                    assert(packed_tightly(chunk_new, partition_size as int));
                    lemma_push_keeps_packing(pre_result, result@, chunk_new, partition_size as int);
                }
                assert(shows_a_record(chunk_new));
                lemma_push_keeps_nonempty(pre_result, result@, chunk_new);
                assert forall|p: int| 0 <= p < result@.len() implies (
                #[trigger] result@[p]).len_spec() >= partition_size as int by {
                    if p < pre_result.len() {
                        assert(result@[p] == pre_result[p]);
                        assert(pre_result[p].len_spec() >= partition_size as int);
                    } else {
                        assert(result@[p] == chunk_new);
                    }
                }
                // a group is either in the new partition or in an earlier one
                assert forall|j: int| 0 <= j < g + 1 implies group_in_mask(mask@, #[trigger] gs[j]@)
                    || some_partition_holds_group(result@, gs[j]@) by {
                    if group_in_mask(flush_mask, gs[j]@) {
                        assert forall|k2: int| 0 <= k2 < gs[j]@.len() implies result@[pnew].visible(
                            #[trigger] gs[j]@[k2] as int,
                        ) by {
                            assert(records.visible(gs[j]@[k2] as int));
                            assert(flush_mask[gs[j]@[k2] as int]);
                        }
                        assert(group_in_chunk(result@[pnew], gs[j]@));
                        assert(0 <= pnew < result@.len());
                        assert(some_partition_holds_group(result@, gs[j]@));
                    } else {
                        assert(j < g);
                        assert(some_partition_holds_group(pre_result, gs[j]@));
                        let p = choose|p: int|
                            0 <= p < pre_result.len() && group_in_chunk(pre_result[p], gs[j]@);
                        assert(result@[p] == pre_result[p]);
                        assert(group_in_chunk(result@[p], gs[j]@));
                        assert(some_partition_holds_group(result@, gs[j]@));
                    }
                }
            }
        } else {
            new_partition = false;
            proof {
                assert(gs[g as int]@.len() > 0);
            }
        }
        g = g + 1;
    }
    let ghost fin_mask = mask@;
    let ghost old_result = result@;
    proof {
        assert(forall|p: int|
            0 <= p < old_result.len() ==> (#[trigger] old_result[p]).len_spec()
                >= partition_size as int);
    }
    if !new_partition {
        let mv = mask.clone();
        proof {
            assert(mv@ =~= mask@);
        }
        let chunk = records.view_with_visibility(mv);
        proof {
            if partition_size >= 1 {
                let key_e = Seq::<char>::empty();
                assert forall|i: int|
                    0 <= i < n && #[trigger] exclusion_mask(chunk, key_e)[i] implies mask@[i] by {}
                lemma_count_true_mono(exclusion_mask(chunk, key_e), mask@);
                assert(count_visible_excluding(chunk, key_e) < partition_size);
                assert(packed_tightly(chunk, partition_size as int));
            }
            lemma_count_true_zero(mask@);
            let iw = choose|iw: int| 0 <= iw < mask@.len() && mask@[iw];
            assert(chunk.visible(iw));
            assert(shows_a_record(chunk));
        }
        result.push(chunk);
        proof {
            // carry the packing and non-emptiness facts over the push
            let pnew = result@.len() - 1;
            let chunk_new = result@[pnew];
            if partition_size >= 1 {
                assert(packed_tightly(chunk_new, partition_size as int));
                lemma_push_keeps_packing(old_result, result@, chunk_new, partition_size as int);
            }
            assert(shows_a_record(chunk_new));
            lemma_push_keeps_nonempty(old_result, result@, chunk_new);
            // the final partial partition may stay under the threshold; every
            // earlier one was flushed at it
            assert forall|p: int| 0 <= p < result@.len() - 1 implies (
            #[trigger] result@[p]).len_spec() >= partition_size as int by {
                assert(result@[p] == old_result[p]);
                assert(old_result[p].len_spec() >= partition_size as int);
            }
        }
    } else {
        proof {
            lemma_count_true_zero(mask@);
        }
    }
    proof {
        assert(forall|p: int| 0 <= p < old_result.len() ==> result@[p] == old_result[p]);
        // origin: every record visible in the output stems from a group
        assert forall|p: int, i: int|
            0 <= p < result@.len() && #[trigger] result@[p].visible(i) implies records.visible(i)
            && in_some_group(gs, gs.len() as int, i) by {
            if p < old_result.len() {
                assert(old_result[p].visible(i));
            } else {
                assert(fin_mask[i]);
            }
        }
        // the output partitions are pairwise disjoint
        assert forall|p1: int, p2: int, i: int|
            0 <= p1 < result@.len() && 0 <= p2 < result@.len() && #[trigger] result@[p1].visible(i)
                && #[trigger] result@[p2].visible(i) implies p1 == p2 by {
            if p1 < old_result.len() && p2 < old_result.len() {
                assert(old_result[p1].visible(i) && old_result[p2].visible(i));
            } else if p1 < old_result.len() {
                assert(old_result[p1].visible(i) && fin_mask[i]);
                assert(false);
            } else if p2 < old_result.len() {
                assert(old_result[p2].visible(i) && fin_mask[i]);
                assert(false);
            }
        }
        // every key-group sits wholly inside one output partition
        assert forall|j: int| 0 <= j < gs.len() implies some_partition_holds_group(
            result@,
            #[trigger] gs[j]@,
        ) by {
            if some_partition_holds_group(old_result, gs[j]@) {
                let p = choose|p: int|
                    0 <= p < old_result.len() && group_in_chunk(old_result[p], gs[j]@);
                assert(result@[p] == old_result[p]);
                assert(group_in_chunk(result@[p], gs[j]@));
                assert(0 <= p < result@.len());
                assert(some_partition_holds_group(result@, gs[j]@));
            } else {
                assert(group_in_mask(fin_mask, gs[j]@));
                assert(gs[j]@.len() >= 1);
                assert(fin_mask[gs[j]@[0] as int]);
                if new_partition {
                    assert(!fin_mask[gs[j]@[0] as int]);
                    assert(false);
                }
                // groups left in the mask went into the final partition
                let pnew = result@.len() - 1;
                assert forall|k2: int| 0 <= k2 < gs[j]@.len() implies result@[pnew].visible(
                    #[trigger] gs[j]@[k2] as int,
                ) by {
                    assert(records.visible(gs[j]@[k2] as int));
                    assert(fin_mask[gs[j]@[k2] as int]);
                }
                assert(group_in_chunk(result@[pnew], gs[j]@));
                assert(0 <= pnew < result@.len());
                assert(some_partition_holds_group(result@, gs[j]@));
            }
        }
    }
    result
}

impl PartitionOperator {
    pub fn new() -> (r: Box<PartitionOperator>) {
        Box::new(PartitionOperator {})
    }

    /// Packs whole key-groups of visible records into partitions, flushing a
    /// partition as soon as it has gathered `partition_size` records.
    #[verifier::rlimit(50)]
    pub fn partition(&self, records: &DataChunk, partition_size: usize) -> (result: Vec<DataChunk>)
        requires
            records.wf(),
        ensures
            partition_post(*records, partition_size as int, result@),
    {
        let groups = group_visible_indices(records);
        let ghost gs = groups@;
        let result = pack_groups(records, &groups, partition_size);
        proof {
            // coverage of every visible input record
            assert forall|i: int| #[trigger] records.visible(i) implies exists|p: int|
                0 <= p < result@.len() && result[p as int].visible(i) by {
                let j = choose|j: int| 0 <= j < gs.len() && in_group(gs[j]@, i);
                assert(some_partition_holds_group(result@, gs[j]@));
                let p = choose|p: int|
                    0 <= p < result@.len() && group_in_chunk(result@[p], gs[j]@);
                let k2 = choose|k2: int| 0 <= k2 < gs[j]@.len() && gs[j]@[k2] == i;
                assert(result@[p].visible(gs[j]@[k2] as int));
            }
            // records sharing a key are never split across partitions
            assert forall|p1: int, p2: int, i1: int, i2: int|
                0 <= p1 < result@.len() && 0 <= p2 < result@.len() && #[trigger] result@[p1].visible(
                    i1,
                ) && #[trigger] result@[p2].visible(i2) && records.key_at(i1) == records.key_at(
                    i2,
                ) implies p1 == p2 by {
                assert(in_some_group(gs, gs.len() as int, i1));
                assert(in_some_group(gs, gs.len() as int, i2));
                let j1 = choose|j1: int| 0 <= j1 < gs.len() && in_group(gs[j1]@, i1);
                let j2 = choose|j2: int| 0 <= j2 < gs.len() && in_group(gs[j2]@, i2);
                let k1 = choose|k1: int| 0 <= k1 < gs[j1]@.len() && gs[j1]@[k1] == i1;
                let k2 = choose|k2: int| 0 <= k2 < gs[j2]@.len() && gs[j2]@[k2] == i2;
                assert(records.key_at(i1) == group_key(*records, gs[j1]@));
                assert(records.key_at(i2) == group_key(*records, gs[j2]@));
                assert(j1 == j2);
                assert(some_partition_holds_group(result@, gs[j1]@));
                let p = choose|p: int|
                    0 <= p < result@.len() && group_in_chunk(result@[p], gs[j1]@);
                assert(result@[p].visible(gs[j1]@[k1] as int));
                assert(result@[p].visible(gs[j1]@[k2] as int));
            }
        }
        result
    }

    /// Clamps the requested partition threshold to the batch size when the
    /// batch is smaller.
    pub fn determine_partition_size(&self, num_records: usize, threshold: usize) -> (r: usize)
        ensures
            r == if num_records < threshold {
                num_records as int
            } else {
                threshold as int
            },
    {
        if num_records < threshold {
            num_records
        } else {
            threshold
        }
    }

    /// The partition stage as one unit of work: clamps the requested
    /// threshold to the batch's visible size and partitions. Partitioning
    /// never fails.
    pub fn run(&self, input: &PartitionInput) -> (r: Result<PartitionOutput, PartitionError>)
        requires
            input.records.wf(),
        ensures
            ({
                let clamped = if input.records.len_spec() < input.max_partition_size {
                    input.records.len_spec() as int
                } else {
                    input.max_partition_size as int
                };
                r matches Ok(out) && partition_post(input.records, clamped, out.records@)
            }),
    {
        let records = &input.records;
        let partition_size = self.determine_partition_size(records.len(), input.max_partition_size);
        let deduped_records = self.partition(records, partition_size);
        Ok(PartitionOutput { records: deduped_records })
    }
}

/// The input to the partition operator: the records to partition and the
/// requested partition size. Since records are grouped by identifier, an
/// output partition can grow past the requested size.
pub struct PartitionInput {
    pub records: DataChunk,
    pub max_partition_size: usize,
}

impl PartitionInput {
    /// Create a new partition input.
    pub fn new(records: DataChunk, max_partition_size: usize) -> (r: PartitionInput)
        ensures
            r.records == records,
            r.max_partition_size == max_partition_size,
    {
        PartitionInput { records, max_partition_size }
    }
}

/// The output of the partition operator: the partitioned record views.
pub struct PartitionOutput {
    pub records: Vec<DataChunk>,
}

/// A broad classification of errors, for reporting.
#[derive(Clone, Copy, PartialEq, Eq, Structural, Debug)]
pub enum ErrorCodes {
    Internal,
}

/// The partition stage's error.
#[derive(Clone, Copy, PartialEq, Eq, Structural, Debug)]
pub enum PartitionError {
    FailedToPartition,
}

impl PartitionError {
    /// The error's reporting code.
    pub fn code(&self) -> (r: ErrorCodes)
        ensures
            r == ErrorCodes::Internal,
    {
        match self {
            PartitionError::FailedToPartition => ErrorCodes::Internal,
        }
    }
}

} // verus!
