//! The aggregation engine: merging the reports of the branches into one table
//! of objects, tallying the table for each branch, and ranking the branches.

use crate::error::Error;
use crate::fx::{
    blob_map_entries, blob_map_is_empty, blob_sizes, contributor_clone, contributor_insert,
    contributor_list, contributor_set, lists_blobs, lists_contributors, lists_records,
    new_contributor_set, new_object_table, object_records, object_table_put,
    object_table_records, object_table_take,
};
use crate::git::GitOps;
use crate::ranking::{all_below, heavier, rank_by_total};
use crate::tally::{
    contribution, first_objects, lemma_first_objects_all, lemma_first_objects_step,
    lemma_merged_object, lemma_tally_insert, lemma_tally_part, merge_all, merge_branch,
    object_count, shared_count, shared_size, table_finite, table_wf, tally, total_size,
    unique_count, unique_size, BlobSizes, ObjectRecord, ObjectTable, Tally,
};
use crate::text::texts;
use crate::weights::{
    is_ranking, is_sound_report, is_weight_report, lemma_no_branches_no_weights,
    lemma_report_sound, outranks, states_weights, weight_of, weights_fit, WeightRecord,
};
use rayon::prelude::{IndexedParallelIterator, IntoParallelRefIterator, ParallelIterator};
use rustc_hash::{FxHashMap, FxHashSet};
use vstd::prelude::*;

verus! {

/// One object of the global table: its byte size and the indices of the
/// branches that it was seen in.
#[derive(Debug)]
pub struct ObjectInfo {
    pub size: u64,
    pub branches: FxHashSet<u32>,
}

impl View for ObjectInfo {
    type V = ObjectRecord;

    open spec fn view(&self) -> ObjectRecord {
        ObjectRecord { size: self.size as nat, contributors: contributor_set(self.branches) }
    }
}

impl Clone for ObjectInfo {
    fn clone(&self) -> (r: Self)
        ensures
            r@ == self@,
    {
        ObjectInfo { size: self.size, branches: contributor_clone(&self.branches) }
    }
}

impl ObjectInfo {
    /// The record of an object at its first sighting, in branch `branch`.
    pub fn first_sighting(size: u64, branch: u32) -> (info: ObjectInfo)
        ensures
            info@ == (ObjectRecord { size: size as nat, contributors: set![branch as nat] }),
    {
        let mut branches = new_contributor_set();
        contributor_insert(&mut branches, branch);
        ObjectInfo { size, branches }
    }

    /// Records a further sighting, in branch `branch`. The size stays as it
    /// was first seen.
    pub fn add_contributor(&mut self, branch: u32)
        ensures
            final(self)@ == (ObjectRecord {
                size: old(self)@.size,
                contributors: old(self)@.contributors.insert(branch as nat),
            }),
    {
        contributor_insert(&mut self.branches, branch);
    }
}

/// The weight of one branch.
#[derive(Debug, Clone)]
pub struct BranchWeight {
    pub branch: String,
    pub unique_size: u64,
    pub shared_size: u64,
    pub total_size: u64,
    pub object_count: usize,
    pub unique_count: usize,
    pub shared_count: usize,
}

impl View for BranchWeight {
    type V = WeightRecord;

    open spec fn view(&self) -> WeightRecord {
        WeightRecord {
            branch: self.branch@,
            unique_size: self.unique_size as nat,
            shared_size: self.shared_size as nat,
            total_size: self.total_size as nat,
            object_count: self.object_count as nat,
            unique_count: self.unique_count as nat,
            shared_count: self.shared_count as nat,
        }
    }
}

/// The weights that a sequence of `BranchWeight` states.
pub open spec fn weight_views(weights: Seq<BranchWeight>) -> Seq<WeightRecord> {
    Seq::new(weights.len(), |i: int| weights[i]@)
}

/// What the branches reported: for each report the branch's index and its
/// blob sizes.
pub open spec fn reports_of(partial_maps: Seq<(u32, FxHashMap<String, u64>)>) -> Seq<
    (nat, BlobSizes),
> {
    Seq::new(partial_maps.len(), |i: int| (partial_maps[i].0 as nat, blob_sizes(partial_maps[i].1)))
}

/// The ids of the first `k` of `entries`.
spec fn merged_ids(entries: Seq<(String, u64)>, k: int) -> Set<Seq<char>> {
    Set::new(|id: Seq<char>| exists|i: int| 0 <= i < k && (#[trigger] entries[i]).0@ == id)
}

/// Merges the report of one branch into the table: an object that the table
/// does not hold enters with the reported size and `branch` as its only
/// contributor; one that it holds keeps its size and gains `branch` as a
/// contributor.
fn merge_report(
    table: &mut FxHashMap<String, ObjectInfo>,
    branch: u32,
    blobs: FxHashMap<String, u64>,
)
    requires
        table_finite(object_records(*old(table))),
    ensures
        object_records(*final(table)) == merge_branch(
            object_records(*old(table)),
            branch as nat,
            blob_sizes(blobs),
        ),
        table_finite(object_records(*final(table))),
{
    let ghost start = object_records(*table);
    let ghost sizes = blob_sizes(blobs);
    let entries = blob_map_entries(blobs);
    let ghost all = entries@;
    let total: usize = entries.len();
    assert(merge_branch(start, branch as nat, sizes.restrict(merged_ids(all, 0))) =~= start);
    for entry in it: entries
        invariant
            it.seq() == all,
            all.len() == total,
            lists_blobs(all, sizes),
            table_finite(start),
            table_finite(object_records(*table)),
            object_records(*table) == merge_branch(
                start,
                branch as nat,
                sizes.restrict(merged_ids(all, it.index() as int)),
            ),
    {
        let ghost k = it.index() as int;
        let (id, size) = entry;
        let ghost key = id@;
        proof {
            assert(all[k].0@ == key);
            assert(!merged_ids(all, k).contains(key));
            assert forall|x: Seq<char>|
                merged_ids(all, k + 1).contains(x) <==> merged_ids(all, k).contains(x) || x
                    == key by {
                if merged_ids(all, k + 1).contains(x) {
                    let i = choose|i: int| 0 <= i < k + 1 && (#[trigger] all[i]).0@ == x;
                    if i < k {
                        assert(merged_ids(all, k).contains(x));
                    }
                }
            }
        }
        let info = match object_table_take(table, id.as_str()) {
            Some(mut info) => {
                info.add_contributor(branch);
                info
            },
            None => ObjectInfo::first_sighting(size, branch),
        };
        object_table_put(table, id, info);
        proof {
            assert(object_records(*table) =~= merge_branch(
                start,
                branch as nat,
                sizes.restrict(merged_ids(all, k + 1)),
            ));
        }
    }
    proof {
        assert(sizes.restrict(merged_ids(all, all.len() as int)) =~= sizes);
    }
}

/// Builds the global table from the reports of all branches, merged first
/// to last.
pub fn merge_reports(partial_maps: Vec<(u32, FxHashMap<String, u64>)>) -> (table: FxHashMap<
    String,
    ObjectInfo,
>)
    ensures
        object_records(table) == merge_all(reports_of(partial_maps@)),
        table_finite(object_records(table)),
{
    let ghost all = partial_maps@;
    let total: usize = partial_maps.len();
    let mut table = new_object_table();
    assert(reports_of(all.take(0)) =~= Seq::empty());
    assert(object_records(table) =~= merge_all(reports_of(all.take(0))));
    for report in it: partial_maps
        invariant
            it.seq() == all,
            all.len() == total,
            table_finite(object_records(table)),
            object_records(table) == merge_all(reports_of(all.take(it.index() as int))),
    {
        let ghost k = it.index() as int;
        let (branch, blobs) = report;
        proof {
            assert(all[k].0 == branch);
            let now = reports_of(all.take(k + 1));
            assert(now.drop_last() =~= reports_of(all.take(k)));
            assert(now.last() == (branch as nat, blob_sizes(blobs)));
        }
        merge_report(&mut table, branch, blobs);
    }
    proof {
        assert(all.take(all.len() as int) =~= all);
    }
    table
}

/// The running totals of one branch.
#[derive(Clone, Copy)]
struct BranchTotals {
    unique_size: u64,
    shared_size: u64,
    unique_count: usize,
    shared_count: usize,
}

/// One of the four running totals.
spec fn running(t: BranchTotals, what: Tally) -> nat {
    match what {
        Tally::UniqueSize => t.unique_size as nat,
        Tally::SharedSize => t.shared_size as nat,
        Tally::UniqueCount => t.unique_count as nat,
        Tally::SharedCount => t.shared_count as nat,
    }
}

/// Whether `b` is among the first `j` of `list`.
spec fn listed(list: Seq<u32>, j: int, b: int) -> bool {
    exists|i: int| 0 <= i < j && #[trigger] list[i] == b
}

/// Whether the running totals are the tallies of `table`, with what `rec` adds
/// for the branches among the first `j` of `list`.
spec fn totals_match(
    stats: Seq<BranchTotals>,
    table: ObjectTable,
    rec: ObjectRecord,
    list: Seq<u32>,
    j: int,
) -> bool {
    forall|b: int, what: Tally|
        0 <= b < stats.len() ==> #[trigger] running(stats[b], what) == tally(
            table,
            b as nat,
            what,
        ) + if listed(list, j, b) {
            contribution(rec, b as nat, what)
        } else {
            0
        }
}

/// Whether no branch has more objects counted than `bound`, or one more where
/// the branch is among the first `j` of `list`.
spec fn counts_bounded(stats: Seq<BranchTotals>, bound: int, list: Seq<u32>, j: int) -> bool {
    forall|b: int|
        0 <= b < stats.len() ==> (#[trigger] stats[b]).unique_count + stats[b].shared_count
            <= bound + if listed(list, j, b) {
            1int
        } else {
            0int
        }
}

/// Whether the running totals of every branch are its tallies over `table`.
spec fn tallied(stats: Seq<BranchTotals>, table: ObjectTable) -> bool {
    forall|b: int, what: Tally|
        0 <= b < stats.len() ==> #[trigger] running(stats[b], what) == tally(
            table,
            b as nat,
            what,
        )
}

/// Whether no branch has more than `bound` objects counted.
spec fn counts_within(stats: Seq<BranchTotals>, bound: int) -> bool {
    forall|b: int|
        0 <= b < stats.len() ==> (#[trigger] stats[b]).unique_count + stats[b].shared_count
            <= bound
}

/// A set that a list of distinct indices enumerates is finite and as large as
/// the list is long.
proof fn lemma_listed_len(list: Seq<u32>, s: Set<nat>)
    requires
        lists_contributors(list, s),
    ensures
        s.finite(),
        s.len() == list.len(),
    decreases list.len(),
{
    if list.len() == 0 {
        assert(s =~= Set::empty());
    } else {
        let last = list.last();
        let rest = list.drop_last();
        let smaller = s.remove(last as nat);
        assert forall|b: nat| smaller.contains(b) implies exists|i: int|
            0 <= i < rest.len() && #[trigger] rest[i] == b by {
            let i = choose|i: int| 0 <= i < list.len() && #[trigger] list[i] == b;
            assert(rest[i] == b);
        }
        assert forall|i: int| 0 <= i < rest.len() implies smaller.contains(
            #[trigger] rest[i] as nat,
        ) by {
            assert(list[i] == rest[i]);
            assert(list[i] != list[list.len() - 1]);
        }
        assert(lists_contributors(rest, smaller)) by {
            assert forall|i: int, j: int| 0 <= i < j < rest.len() implies #[trigger] rest[i]
                != #[trigger] rest[j] by {
                assert(list[i] != list[j]);
            }
        }
        lemma_listed_len(rest, smaller);
        assert(s.contains(last as nat)) by {
            assert(s.contains(list[list.len() - 1] as nat));
        }
        assert(s =~= smaller.insert(last as nat));
    }
}

/// Adds up, for every branch, what each object of the table contributes.
/// Gives nothing where a byte total cannot be held in 64 bits.
fn sum_contributions(
    records: Vec<ObjectInfo>,
    branch_count: usize,
    Ghost(ids): Ghost<Seq<Seq<char>>>,
    Ghost(table): Ghost<ObjectTable>,
) -> (r: Option<Vec<BranchTotals>>)
    requires
        lists_records(records@, ids, table),
        table_wf(table, branch_count as nat),
    ensures
        match r {
            Some(stats) => {
                &&& stats.len() == branch_count
                &&& tallied(stats@, table)
                &&& counts_within(stats@, usize::MAX as int)
            },
            None => !weights_fit(table, branch_count as nat),
        },
{
    let mut stats: Vec<BranchTotals> = Vec::new();
    let mut b: usize = 0;
    assert(first_objects(table, ids, 0) =~= Map::empty());
    while b < branch_count
        invariant
            b <= branch_count,
            stats.len() == b,
            forall|c: int|
                0 <= c < b ==> (#[trigger] stats[c]) == (BranchTotals {
                    unique_size: 0,
                    shared_size: 0,
                    unique_count: 0,
                    shared_count: 0,
                }),
        decreases branch_count - b,
    {
        stats.push(
            BranchTotals { unique_size: 0, shared_size: 0, unique_count: 0, shared_count: 0 },
        );
        b = b + 1;
    }
    assert(tallied(stats@, first_objects(table, ids, 0))) by {
        assert forall|c: int, what: Tally| 0 <= c < stats.len() implies #[trigger] running(
            stats[c],
            what,
        ) == tally(first_objects(table, ids, 0), c as nat, what) by {
            assert(first_objects(table, ids, 0).dom().len() == 0);
        }
    }
    let total: usize = records.len();
    let mut i: usize = 0;
    while i < total
        invariant
            i <= total,
            total == records.len(),
            stats.len() == branch_count,
            lists_records(records@, ids, table),
            table_wf(table, branch_count as nat),
            tallied(stats@, first_objects(table, ids, i as int)),
            counts_within(stats@, i as int),
        decreases total - i,
    {
        let ghost seen = first_objects(table, ids, i as int);
        let ghost rec = records[i as int]@;
        let size: u64 = records[i].size;
        let list = contributor_list(&records[i].branches);
        let shared: bool = list.len() > 1;
        proof {
            lemma_listed_len(list@, rec.contributors);
            lemma_first_objects_step(table, ids, i as int);
            assert(table[ids[i as int]] == rec);
        }
        proof {
            assert(totals_match(stats@, seen, rec, list@, 0)) by {
                assert forall|c: int, what: Tally| 0 <= c < stats.len() implies #[trigger] running(
                    stats@[c],
                    what,
                ) == tally(seen, c as nat, what) + if listed(list@, 0, c) {
                    contribution(rec, c as nat, what)
                } else {
                    0
                } by {
                    assert(!listed(list@, 0, c));
                }
            }
            assert(counts_bounded(stats@, i as int, list@, 0)) by {
                assert forall|c: int| 0 <= c < stats.len() implies (
                #[trigger] stats@[c]).unique_count + stats@[c].shared_count <= i + if listed(
                    list@,
                    0,
                    c,
                ) {
                    1int
                } else {
                    0int
                } by {
                    assert(!listed(list@, 0, c));
                }
            }
        }
        let mut j: usize = 0;
        while j < list.len()
            invariant
                j <= list.len(),
                i < total,
                total == records.len(),
                stats.len() == branch_count,
                lists_contributors(list@, rec.contributors),
                rec.contributors.finite(),
                rec.contributors.len() == list.len(),
                shared == (list.len() > 1),
                rec.size == size,
                rec == table[ids[i as int]],
                lists_records(records@, ids, table),
                table_wf(table, branch_count as nat),
                seen == first_objects(table, ids, i as int),
                seen.dom().finite(),
                !seen.contains_key(ids[i as int]),
                first_objects(table, ids, i + 1) == seen.insert(ids[i as int], rec),
                totals_match(stats@, seen, rec, list@, j as int),
                counts_bounded(stats@, i as int, list@, j as int),
            decreases list.len() - j,
        {
            let branch: u32 = list[j];
            let at: usize = branch as usize;
            let ghost before = stats@;
            proof {
                assert(rec.contributors.contains(list@[j as int] as nat));
                assert(table.contains_key(ids[i as int]));
                assert(at < branch_count);
                assert(!listed(list@, j as int, at as int)) by {
                    if listed(list@, j as int, at as int) {
                        let p = choose|p: int| 0 <= p < j && #[trigger] list@[p] == at;
                        assert(list@[p] != list@[j as int]);
                    }
                }
                assert(running(before[at as int], Tally::UniqueSize) == tally(
                    seen,
                    at as nat,
                    Tally::UniqueSize,
                ));
                assert(running(before[at as int], Tally::SharedSize) == tally(
                    seen,
                    at as nat,
                    Tally::SharedSize,
                ));
                assert(running(before[at as int], Tally::UniqueCount) == tally(
                    seen,
                    at as nat,
                    Tally::UniqueCount,
                ));
                assert(running(before[at as int], Tally::SharedCount) == tally(
                    seen,
                    at as nat,
                    Tally::SharedCount,
                ));
            }
            let t: BranchTotals = stats[at];
            let grown: Option<u64> = if shared {
                t.shared_size.checked_add(size)
            } else {
                t.unique_size.checked_add(size)
            };
            let sum: u64 = match grown {
                Some(sum) => sum,
                None => {
                    proof {
                        let what = if shared {
                            Tally::SharedSize
                        } else {
                            Tally::UniqueSize
                        };
                        lemma_tally_insert(seen, at as nat, what, ids[i as int], rec);
                        lemma_tally_part(table, ids.take(i + 1).to_set(), at as nat, what);
                        assert(total_size(table, at as nat) > u64::MAX);
                    }
                    return None;
                },
            };
            let next: BranchTotals = if shared {
                BranchTotals {
                    unique_size: t.unique_size,
                    shared_size: sum,
                    unique_count: t.unique_count,
                    shared_count: t.shared_count + 1,
                }
            } else {
                BranchTotals {
                    unique_size: sum,
                    shared_size: t.shared_size,
                    unique_count: t.unique_count + 1,
                    shared_count: t.shared_count,
                }
            };
            stats.set(at, next);
            proof {
                assert forall|c: int|
                    listed(list@, j + 1, c) <==> listed(list@, j as int, c) || c == at by {
                    if listed(list@, j + 1, c) {
                        let p = choose|p: int| 0 <= p < j + 1 && #[trigger] list@[p] == c;
                        if p < j {
                            assert(listed(list@, j as int, c));
                        }
                    }
                    if c == at {
                        assert(list@[j as int] == c);
                    }
                    if listed(list@, j as int, c) {
                        let p = choose|p: int| 0 <= p < j && #[trigger] list@[p] == c;
                        assert(list@[p] == c);
                    }
                }
                assert forall|c: int, what: Tally| 0 <= c < stats.len() implies #[trigger] running(
                    stats@[c],
                    what,
                ) == tally(seen, c as nat, what) + if listed(list@, j + 1, c) {
                    contribution(rec, c as nat, what)
                } else {
                    0
                } by {
                    if c != at {
                        assert(stats@[c] == before[c]);
                        assert(running(before[c], what) == tally(seen, c as nat, what) + if listed(
                            list@,
                            j as int,
                            c,
                        ) {
                            contribution(rec, c as nat, what)
                        } else {
                            0
                        });
                    }
                }
                assert forall|c: int| 0 <= c < stats.len() implies (
                #[trigger] stats@[c]).unique_count + stats@[c].shared_count <= i + if listed(
                    list@,
                    j + 1,
                    c,
                ) {
                    1int
                } else {
                    0int
                } by {
                    if c != at {
                        assert(stats@[c] == before[c]);
                    }
                }
            }
            j = j + 1;
        }
        proof {
            let after = first_objects(table, ids, i + 1);
            assert forall|c: int, what: Tally| 0 <= c < stats.len() implies #[trigger] running(
                stats@[c],
                what,
            ) == tally(after, c as nat, what) by {
                lemma_tally_insert(seen, c as nat, what, ids[i as int], rec);
                if !listed(list@, list.len() as int, c) {
                    if rec.contributors.contains(c as nat) {
                        let p = choose|p: int|
                            0 <= p < list.len() && #[trigger] list@[p] == c as nat;
                        assert(list@[p] == c);
                        assert(listed(list@, list.len() as int, c));
                    }
                }
            }
            assert forall|c: int| 0 <= c < stats.len() implies (#[trigger] stats@[c]).unique_count
                + stats@[c].shared_count <= i + 1 by {}
        }
        i = i + 1;
    }
    proof {
        lemma_first_objects_all(table, ids);
    }
    Some(stats)
}

/// The weights of all branches from what each of them reported.
///
/// `partial_maps` holds, for each branch that reported, its index in
/// `branch_names` and the blobs it reaches that the baseline does not. The
/// reports are merged into one table; each object then counts with its full
/// size for every branch that contributed it, as unique where that is one
/// branch and as shared where it is more. The result states the branches that
/// contribute at least one object, heaviest first, equally heavy ones in the
/// order of `branch_names`.
///
/// Fails with `Error::SizeOverflow` exactly when the byte total of some branch
/// is beyond what 64 bits hold.
pub fn compute_weights(
    branch_names: &Vec<String>,
    partial_maps: Vec<(u32, FxHashMap<String, u64>)>,
) -> (r: Result<Vec<BranchWeight>, Error>)
    requires
        forall|p: int|
            0 <= p < partial_maps.len() ==> (#[trigger] partial_maps[p]).0 < branch_names.len(),
    ensures
        match r {
            Ok(weights) => {
                &&& weights_fit(merge_all(reports_of(partial_maps@)), branch_names.len() as nat)
                &&& is_weight_report(
                    texts(branch_names@),
                    merge_all(reports_of(partial_maps@)),
                    weight_views(weights@),
                )
            },
            Err(e) => {
                &&& e == Error::SizeOverflow
                &&& !weights_fit(merge_all(reports_of(partial_maps@)), branch_names.len() as nat)
            },
        },
        r matches Ok(weights) ==> is_sound_report(weight_views(weights@)),
        branch_names.len() == 0 ==> r is Ok && r->Ok_0.len() == 0,
{
    let branch_count: usize = branch_names.len();
    let ghost names = texts(branch_names@);
    let ghost table = merge_all(reports_of(partial_maps@));
    let merged = merge_reports(partial_maps);
    proof {
        assert forall|id: Seq<char>, b: nat|
            table.contains_key(id) && #[trigger] table[id].contributors.contains(
                b,
            ) implies b < branch_count by {
            lemma_merged_object(reports_of(partial_maps@), id);
            let p = choose|p: int|
                0 <= p < partial_maps.len() && (#[trigger] reports_of(partial_maps@)[p]).0 == b
                    && reports_of(partial_maps@)[p].1.contains_key(id);
            assert(partial_maps[p].0 < branch_count);
        }
    }
    let records = object_table_records(merged);
    let ghost ids = choose|ids: Seq<Seq<char>>| lists_records(records@, ids, table);
    let stats = match sum_contributions(records, branch_count, Ghost(ids), Ghost(table)) {
        Some(stats) => stats,
        None => {
            return Err(Error::SizeOverflow);
        },
    };
    let mut totals: Vec<u64> = Vec::new();
    let mut candidates: Vec<usize> = Vec::new();
    let mut b: usize = 0;
    while b < branch_count
        invariant
            b <= branch_count,
            stats.len() == branch_count,
            totals.len() == b,
            branch_count == branch_names.len(),
            table == merge_all(reports_of(partial_maps@)),
            tallied(stats@, table),
            counts_within(stats@, usize::MAX as int),
            forall|c: int| 0 <= c < b ==> #[trigger] totals[c] == total_size(table, c as nat),
            forall|k: int| 0 <= k < candidates.len() ==> #[trigger] candidates[k] < b,
            forall|j: int, k: int|
                0 <= j < k < candidates.len() ==> #[trigger] candidates[j]
                    < #[trigger] candidates[k],
            forall|k: int|
                0 <= k < candidates.len() ==> object_count(table, #[trigger] candidates[k] as nat)
                    > 0,
            forall|c: int|
                0 <= c < b && #[trigger] object_count(table, c as nat) > 0
                    ==> candidates@.contains(c as usize),
        decreases branch_count - b,
    {
        let t: BranchTotals = stats[b];
        proof {
            assert(running(stats@[b as int], Tally::UniqueSize) == unique_size(table, b as nat));
            assert(running(stats@[b as int], Tally::SharedSize) == shared_size(table, b as nat));
            assert(running(stats@[b as int], Tally::UniqueCount) == unique_count(table, b as nat));
            assert(running(stats@[b as int], Tally::SharedCount) == shared_count(table, b as nat));
        }
        let total: u64 = match t.unique_size.checked_add(t.shared_size) {
            Some(total) => total,
            None => {
                proof {
                    assert(total_size(table, b as nat) > u64::MAX);
                }
                return Err(Error::SizeOverflow);
            },
        };
        totals.push(total);
        let ghost before = candidates@;
        if t.unique_count + t.shared_count > 0 {
            candidates.push(b);
            proof {
                assert(candidates@[before.len() as int] == b);
                assert forall|c: int|
                    0 <= c < b && #[trigger] object_count(table, c as nat)
                        > 0 implies candidates@.contains(c as usize) by {
                    let k = choose|k: int| 0 <= k < before.len() && before[k] == c as usize;
                    assert(candidates@[k] == c as usize);
                }
            }
        }
        b = b + 1;
    }
    proof {
        assert forall|c: nat| c < branch_count implies #[trigger] total_size(table, c)
            <= u64::MAX by {
            assert(totals[c as int] == total_size(table, c));
        }
    }
    let order = rank_by_total(&candidates, &totals);
    let ghost ranking = Seq::new(order.len() as nat, |k: int| order[k] as int);
    proof {
        assert forall|k: int| 0 <= k < ranking.len() implies 0 <= #[trigger] ranking[k]
            < branch_count && object_count(table, ranking[k] as nat) > 0 by {
            assert(order@.contains(order[k]));
            let c = choose|c: int| 0 <= c < candidates.len() && candidates[c] == order[k];
            assert(object_count(table, candidates[c] as nat) > 0);
        }
        assert forall|c: int|
            0 <= c < branch_count && #[trigger] object_count(table, c as nat)
                > 0 implies ranking.contains(c) by {
            assert(candidates@.contains(c as usize));
            assert(order@.contains(c as usize));
            let k = choose|k: int| 0 <= k < order.len() && order[k] == c as usize;
            assert(ranking[k] == c);
        }
        assert forall|j: int, k: int|
            #![trigger ranking[j], ranking[k]]
            0 <= j < k < ranking.len() implies outranks(
            table,
            ranking[j],
            ranking[k],
        ) by {
            assert(heavier(totals@, order[j] as int, order[k] as int));
            assert(totals[order[j] as int] == total_size(table, order[j] as nat));
            assert(totals[order[k] as int] == total_size(table, order[k] as nat));
        }
        assert(is_ranking(table, branch_count as nat, ranking));
    }
    let mut weights: Vec<BranchWeight> = Vec::new();
    let mut k: usize = 0;
    while k < order.len()
        invariant
            k <= order.len(),
            weights.len() == k,
            stats.len() == branch_count,
            totals.len() == branch_count,
            branch_names.len() == branch_count,
            names == texts(branch_names@),
            all_below(order@, branch_count as nat),
            tallied(stats@, table),
            counts_within(stats@, usize::MAX as int),
            forall|c: int|
                0 <= c < branch_count ==> #[trigger] totals[c] == total_size(table, c as nat),
            forall|p: int|
                0 <= p < k ==> (#[trigger] weights[p])@ == weight_of(names, table, order[p] as int),
        decreases order.len() - k,
    {
        let at: usize = order[k];
        let t: BranchTotals = stats[at];
        proof {
            assert(running(stats@[at as int], Tally::UniqueSize) == unique_size(table, at as nat));
            assert(running(stats@[at as int], Tally::SharedSize) == shared_size(table, at as nat));
            assert(running(stats@[at as int], Tally::UniqueCount) == unique_count(
                table,
                at as nat,
            ));
            assert(running(stats@[at as int], Tally::SharedCount) == shared_count(
                table,
                at as nat,
            ));
            assert(totals[at as int] == total_size(table, at as nat));
        }
        let weight = BranchWeight {
            branch: branch_names[at].clone(),
            unique_size: t.unique_size,
            shared_size: t.shared_size,
            total_size: totals[at],
            object_count: t.unique_count + t.shared_count,
            unique_count: t.unique_count,
            shared_count: t.shared_count,
        };
        weights.push(weight);
        k = k + 1;
    }
    proof {
        assert(states_weights(names, table, ranking, weight_views(weights@)));
        assert(is_ranking(table, names.len(), ranking));
        lemma_report_sound(names, table, weight_views(weights@));
        if branch_count == 0 {
            lemma_no_branches_no_weights(names, table, weight_views(weights@));
        }
    }
    Ok(weights)
}

/// The names of the listed branches.
pub open spec fn names_of(branches: Seq<(String, String)>) -> Seq<Seq<char>> {
    Seq::new(branches.len(), |i: int| branches[i].0@)
}

/// The names of the listed branches, in the order of the listing.
pub fn branch_names(branches: &Vec<(String, String)>) -> (names: Vec<String>)
    ensures
        names.len() == branches.len(),
        texts(names@) == names_of(branches@),
{
    let mut names: Vec<String> = Vec::new();
    let mut i: usize = 0;
    while i < branches.len()
        invariant
            i <= branches.len(),
            names.len() == i,
            forall|k: int| 0 <= k < i ==> (#[trigger] names[k])@ == branches[k].0@,
        decreases branches.len() - i,
    {
        names.push(branches[i].0.clone());
        i = i + 1;
    }
    assert(texts(names@) =~= names_of(branches@));
    names
}

/// The weights of the listed branches from what each of them reported: what
/// `compute_weights` states, for the names of the listing.
pub fn weigh_branches(
    branches: &Vec<(String, String)>,
    partial_maps: Vec<(u32, FxHashMap<String, u64>)>,
) -> (r: Result<Vec<BranchWeight>, Error>)
    requires
        forall|p: int|
            0 <= p < partial_maps.len() ==> (#[trigger] partial_maps[p]).0 < branches.len(),
    ensures
        match r {
            Ok(weights) => {
                &&& weights_fit(merge_all(reports_of(partial_maps@)), branches.len() as nat)
                &&& is_weight_report(
                    names_of(branches@),
                    merge_all(reports_of(partial_maps@)),
                    weight_views(weights@),
                )
            },
            Err(e) => {
                &&& e == Error::SizeOverflow
                &&& !weights_fit(merge_all(reports_of(partial_maps@)), branches.len() as nat)
            },
        },
        r matches Ok(weights) ==> is_sound_report(weight_views(weights@)),
        branches.len() == 0 ==> r is Ok && r->Ok_0.len() == 0,
{
    let names = branch_names(branches);
    compute_weights(&names, partial_maps)
}

/// What the analysis keeps of the answer to the blob query of branch
/// `index`: the blob map under the branch's index where the query succeeded
/// and found a blob, nothing where it failed or found none.
pub fn keep_report(index: usize, outcome: Result<FxHashMap<String, u64>, Error>) -> (report:
    Option<(u32, FxHashMap<String, u64>)>)
    requires
        index <= u32::MAX,
    ensures
        report == match outcome {
            Ok(blobs) => if blob_sizes(blobs).dom().is_empty() {
                None
            } else {
                Some((index as u32, blobs))
            },
            Err(_) => None,
        },
{
    match outcome {
        Ok(blobs) => {
            if blob_map_is_empty(&blobs) {
                None
            } else {
                Some((index as u32, blobs))
            }
        },
        Err(_) => None,
    }
}

/// Asks for the blobs that the branch with index `index` and tip `tip`
/// reaches and `exclude` does not, and keeps what `keep_report` keeps of the
/// answer.
pub fn collect_report<G: GitOps>(
    git: &G,
    repo: &str,
    index: usize,
    tip: &str,
    exclude: &str,
) -> (report: Option<(u32, FxHashMap<String, u64>)>)
    requires
        index <= u32::MAX,
    ensures
        report matches Some(kept) ==> kept.0 == index && !blob_sizes(kept.1).dom().is_empty(),
{
    keep_report(index, git.get_unmerged_blobs(repo, tip, exclude))
}

/// Whether `reports` can come of `branches` branches: every report is under
/// the index of a branch and holds a blob, and the indices rise.
pub open spec fn reports_in_order(
    reports: Seq<(u32, FxHashMap<String, u64>)>,
    branches: nat,
) -> bool {
    &&& forall|k: int|
        0 <= k < reports.len() ==> (#[trigger] reports[k]).0 < branches && !blob_sizes(
            reports[k].1,
        ).dom().is_empty()
    &&& forall|j: int, k: int|
        0 <= j < k < reports.len() ==> (#[trigger] reports[j]).0 < (#[trigger] reports[k]).0
}

/// `rayon`'s `par_iter`, `enumerate`, `filter_map` and `collect`: calls
/// `collect_report` once for each branch, with the branch's position as
/// index, on the threads of the pool, and collects what the calls kept in the
/// order of the branches. So every report is under the index of a branch and,
/// as `collect_report` ensures, holds a blob, and the indices rise.
#[verifier::external_body]
fn collect_reports<G: GitOps>(
    git: &G,
    repo: &str,
    branches: &Vec<(String, String)>,
    exclude: &str,
) -> (reports: Vec<(u32, FxHashMap<String, u64>)>)
    requires
        branches.len() <= u32::MAX,
    ensures
        reports_in_order(reports@, branches.len() as nat),
{
    branches.par_iter().enumerate().filter_map(
        |(index, branch)| collect_report(git, repo, index, branch.1.as_str(), exclude),
    ).collect()
}

/// Whether `count` branches can be numbered with 32-bit indices: fails with
/// `Error::TooManyBranches` exactly when `count` is beyond `u32::MAX`.
pub fn check_branch_count(count: usize) -> (r: Result<(), Error>)
    ensures
        r == if count <= u32::MAX {
            Ok::<(), Error>(())
        } else {
            Err(Error::TooManyBranches)
        },
{
    if count > u32::MAX as usize {
        Err(Error::TooManyBranches)
    } else {
        Ok(())
    }
}

/// What the analysis makes of the answer to the listing of the branches: the
/// error of a listing that failed, `Error::TooManyBranches` for a listing of
/// more branches than a 32-bit index can number, and else the listing as it
/// is.
pub fn accept_listing(listing: Result<Vec<(String, String)>, Error>) -> (r: Result<
    Vec<(String, String)>,
    Error,
>)
    ensures
        r == match listing {
            Ok(branches) => if branches.len() <= u32::MAX {
                Ok(branches)
            } else {
                Err(Error::TooManyBranches)
            },
            Err(e) => Err(e),
        },
{
    match listing {
        Ok(branches) => match check_branch_count(branches.len()) {
            Ok(()) => Ok(branches),
            Err(e) => Err(e),
        },
        Err(e) => Err(e),
    }
}

/// Weighs the unmerged branches of the repository at `repo` against the
/// baseline `default_branch`.
///
/// Lists the branches, asks for the blobs of each on the threads of the pool,
/// and computes the weights from the answers. The repository decides whether
/// there is a result and which: `accept_listing` states what is made of every
/// answer to the listing, `keep_report` what is kept of every answer to a blob
/// query, and `weigh_branches` the result for every listing and every set of
/// reports. A branch whose blob query fails counts as a branch without blobs.
/// Whatever the repository answers, a result is a sound report.
///
/// Fails where the listing of the branches fails, with the error of the
/// listing; with `Error::TooManyBranches` where more branches are listed than
/// a 32-bit index can number; and with `Error::SizeOverflow` as
/// `compute_weights` does.
pub fn analyze_branches<G: GitOps>(git: &G, repo: &str, default_branch: &str) -> (r: Result<
    Vec<BranchWeight>,
    Error,
>)
    ensures
        r matches Ok(weights) ==> is_sound_report(weight_views(weights@)),
{
    let branches = match accept_listing(git.get_branches(repo)) {
        Ok(branches) => branches,
        Err(e) => {
            return Err(e);
        },
    };
    let partial_maps = collect_reports(git, repo, &branches, default_branch);
    weigh_branches(&branches, partial_maps)
}

} // verus!
