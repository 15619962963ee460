//! The model of the analysis: the table of objects that the reports of the
//! branches merge into, and the four totals that each branch draws from it.

use vstd::prelude::*;

verus! {

/// One object of the global table: its byte size and the indices of the
/// branches it was seen in.
pub struct ObjectRecord {
    pub size: nat,
    pub contributors: Set<nat>,
}

/// The global table: object id to record.
pub type ObjectTable = Map<Seq<char>, ObjectRecord>;

/// What one branch reported: object id to byte size.
pub type BlobSizes = Map<Seq<char>, u64>;

/// The four per-branch totals.
pub enum Tally {
    UniqueSize,
    SharedSize,
    UniqueCount,
    SharedCount,
}

/// The table after branch `branch` has reported `blobs`: a new id enters with
/// the reported size and `branch` as its only contributor; a known id keeps
/// its size and gains `branch` as a contributor.
pub open spec fn merge_branch(table: ObjectTable, branch: nat, blobs: BlobSizes) -> ObjectTable {
    Map::new(
        |id: Seq<char>| table.contains_key(id) || blobs.contains_key(id),
        |id: Seq<char>|
            if !table.contains_key(id) {
                ObjectRecord { size: blobs[id] as nat, contributors: set![branch] }
            } else if blobs.contains_key(id) {
                ObjectRecord {
                    size: table[id].size,
                    contributors: table[id].contributors.insert(branch),
                }
            } else {
                table[id]
            },
    )
}

/// The table after every report of `reports` was merged, first to last.
pub open spec fn merge_all(reports: Seq<(nat, BlobSizes)>) -> ObjectTable
    decreases reports.len(),
{
    if reports.len() == 0 {
        Map::empty()
    } else {
        merge_branch(merge_all(reports.drop_last()), reports.last().0, reports.last().1)
    }
}

/// Whether an object is shared: seen in more than one branch.
pub open spec fn is_shared(rec: ObjectRecord) -> bool {
    rec.contributors.len() > 1
}

/// What one object adds to one total of one branch. An object counts for the
/// branches that contribute it, with its full size, as unique where it has one
/// contributor and as shared where it has more.
pub open spec fn contribution(rec: ObjectRecord, branch: nat, what: Tally) -> nat {
    if !rec.contributors.contains(branch) {
        0
    } else {
        match what {
            Tally::UniqueSize => if is_shared(rec) { 0 } else { rec.size },
            Tally::SharedSize => if is_shared(rec) { rec.size } else { 0 },
            Tally::UniqueCount => if is_shared(rec) { 0 } else { 1 },
            Tally::SharedCount => if is_shared(rec) { 1 } else { 0 },
        }
    }
}

/// The sum of `contribution` over all objects of a finite table.
pub open spec fn tally(table: ObjectTable, branch: nat, what: Tally) -> nat
    decreases table.dom().len(),
    when table.dom().finite()
{
    if table.dom().len() == 0 {
        0
    } else {
        let id = table.dom().choose();
        contribution(table[id], branch, what) + tally(table.remove(id), branch, what)
    }
}

/// The bytes of the objects that `branch` alone contributes.
pub open spec fn unique_size(table: ObjectTable, branch: nat) -> nat {
    tally(table, branch, Tally::UniqueSize)
}

/// The bytes of the objects that `branch` contributes together with other
/// branches, each object at its full size.
pub open spec fn shared_size(table: ObjectTable, branch: nat) -> nat {
    tally(table, branch, Tally::SharedSize)
}

/// The number of objects that `branch` alone contributes.
pub open spec fn unique_count(table: ObjectTable, branch: nat) -> nat {
    tally(table, branch, Tally::UniqueCount)
}

/// The number of objects that `branch` contributes together with other
/// branches.
pub open spec fn shared_count(table: ObjectTable, branch: nat) -> nat {
    tally(table, branch, Tally::SharedCount)
}

/// The bytes of all objects that `branch` contributes.
pub open spec fn total_size(table: ObjectTable, branch: nat) -> nat {
    unique_size(table, branch) + shared_size(table, branch)
}

/// The number of objects that `branch` contributes.
pub open spec fn object_count(table: ObjectTable, branch: nat) -> nat {
    unique_count(table, branch) + shared_count(table, branch)
}

/// A total can be taken apart at any object of the table.
pub proof fn lemma_tally_remove(table: ObjectTable, branch: nat, what: Tally, id: Seq<char>)
    requires
        table.dom().finite(),
        table.contains_key(id),
    ensures
        tally(table, branch, what) == contribution(table[id], branch, what) + tally(
            table.remove(id),
            branch,
            what,
        ),
    decreases table.dom().len(),
{
    let first = table.dom().choose();
    if first != id {
        lemma_tally_remove(table.remove(first), branch, what, id);
        lemma_tally_remove(table.remove(id), branch, what, first);
        assert(table.remove(first).remove(id) =~= table.remove(id).remove(first));
    }
}

/// A new object adds its contribution to each total and changes nothing else.
pub proof fn lemma_tally_insert(
    table: ObjectTable,
    branch: nat,
    what: Tally,
    id: Seq<char>,
    rec: ObjectRecord,
)
    requires
        table.dom().finite(),
        !table.contains_key(id),
    ensures
        tally(table.insert(id, rec), branch, what) == tally(table, branch, what) + contribution(
            rec,
            branch,
            what,
        ),
{
    lemma_tally_remove(table.insert(id, rec), branch, what, id);
    assert(table.insert(id, rec).remove(id) =~= table);
}

/// A table of finitely many objects, each with finitely many contributors.
pub open spec fn table_finite(table: ObjectTable) -> bool {
    &&& table.dom().finite()
    &&& forall|id: Seq<char>|
        table.contains_key(id) ==> (#[trigger] table[id]).contributors.finite()
}

/// A table that can be tallied for `branches` branches: it is finite, and
/// every contributor of an object is below `branches`.
pub open spec fn table_wf(table: ObjectTable, branches: nat) -> bool {
    &&& table_finite(table)
    &&& forall|id: Seq<char>, b: nat|
        table.contains_key(id) && #[trigger] table[id].contributors.contains(b) ==> b < branches
}

/// The objects of `table` under the first `k` ids of `ids`.
pub open spec fn first_objects(table: ObjectTable, ids: Seq<Seq<char>>, k: int) -> ObjectTable {
    table.restrict(ids.take(k).to_set())
}

/// The part of a table under the first `k + 1` ids is the part under the first
/// `k` with one more object.
pub proof fn lemma_first_objects_step(table: ObjectTable, ids: Seq<Seq<char>>, k: int)
    requires
        ids.no_duplicates(),
        0 <= k < ids.len(),
        forall|i: int| 0 <= i < ids.len() ==> table.contains_key(#[trigger] ids[i]),
    ensures
        first_objects(table, ids, k).dom().finite(),
        !first_objects(table, ids, k).contains_key(ids[k]),
        first_objects(table, ids, k + 1) == first_objects(table, ids, k).insert(
            ids[k],
            table[ids[k]],
        ),
{
    let before = ids.take(k);
    let after = ids.take(k + 1);
    vstd::seq_lib::seq_to_set_is_finite(before);
    assert(after =~= before.push(ids[k]));
    assert forall|id: Seq<char>| after.to_set().contains(id) <==> before.to_set().contains(id)
        || id == ids[k] by {
        if before.contains(id) {
            let i = choose|i: int| 0 <= i < before.len() && before[i] == id;
            assert(after[i] == id);
        }
        if id == ids[k] {
            assert(after[k] == id);
        }
    }
    if before.contains(ids[k]) {
        let i = choose|i: int| 0 <= i < before.len() && before[i] == ids[k];
        assert(ids[i] == ids[k]);
    }
    assert(first_objects(table, ids, k).dom() =~= before.to_set()) by {
        assert forall|id: Seq<char>| before.to_set().contains(id) implies table.contains_key(
            id,
        ) by {
            let i = choose|i: int| 0 <= i < before.len() && before[i] == id;
            assert(ids[i] == id);
        }
    }
    assert(first_objects(table, ids, k + 1) =~= first_objects(table, ids, k).insert(
        ids[k],
        table[ids[k]],
    ));
}

/// Where `ids` names every object, the part under all of `ids` is the table.
pub proof fn lemma_first_objects_all(table: ObjectTable, ids: Seq<Seq<char>>)
    requires
        forall|id: Seq<char>| table.contains_key(id) ==> ids.contains(id),
    ensures
        first_objects(table, ids, ids.len() as int) == table,
{
    assert(ids.take(ids.len() as int) =~= ids);
    assert(first_objects(table, ids, ids.len() as int) =~= table);
}

/// A part of a table never tallies to more than the table.
pub proof fn lemma_tally_part(table: ObjectTable, keys: Set<Seq<char>>, branch: nat, what: Tally)
    requires
        table.dom().finite(),
    ensures
        tally(table.restrict(keys), branch, what) <= tally(table, branch, what),
    decreases table.dom().len(),
{
    if exists|id: Seq<char>| table.contains_key(id) && !keys.contains(id) {
        let id = choose|id: Seq<char>| table.contains_key(id) && !keys.contains(id);
        lemma_tally_remove(table, branch, what, id);
        lemma_tally_part(table.remove(id), keys, branch, what);
        assert(table.remove(id).restrict(keys) =~= table.restrict(keys));
    } else {
        assert(table.restrict(keys) =~= table);
    }
}

/// An object seen in one branch alone adds its full size to the unique size
/// of that branch and one to its unique count; it adds nothing to the
/// shared totals of that branch, and nothing at all to any other branch.
pub proof fn lemma_unique_object(
    table: ObjectTable,
    id: Seq<char>,
    rec: ObjectRecord,
    branch: nat,
    other: nat,
)
    requires
        table.dom().finite(),
        !table.contains_key(id),
        rec.contributors == set![branch],
        other != branch,
    ensures
        unique_size(table.insert(id, rec), branch) == unique_size(table, branch) + rec.size,
        unique_count(table.insert(id, rec), branch) == unique_count(table, branch) + 1,
        shared_size(table.insert(id, rec), branch) == shared_size(table, branch),
        shared_count(table.insert(id, rec), branch) == shared_count(table, branch),
        forall|what: Tally|
            #[trigger] tally(table.insert(id, rec), other, what) == tally(table, other, what),
{
    assert(set![branch].len() == 1) by {
        assert(set![branch] =~= Set::<nat>::empty().insert(branch));
    }
    lemma_tally_insert(table, branch, Tally::UniqueSize, id, rec);
    lemma_tally_insert(table, branch, Tally::UniqueCount, id, rec);
    lemma_tally_insert(table, branch, Tally::SharedSize, id, rec);
    lemma_tally_insert(table, branch, Tally::SharedCount, id, rec);
    assert forall|what: Tally|
        #[trigger] tally(table.insert(id, rec), other, what) == tally(table, other, what) by {
        lemma_tally_insert(table, other, what, id, rec);
    }
}

/// An object seen in more than one branch adds its full size, undivided, to
/// the shared size of each branch that it was seen in, and one to the shared
/// count of each; it adds nothing to their unique totals.
pub proof fn lemma_shared_object(table: ObjectTable, id: Seq<char>, rec: ObjectRecord, branch: nat)
    requires
        table.dom().finite(),
        !table.contains_key(id),
        rec.contributors.finite(),
        rec.contributors.len() > 1,
        rec.contributors.contains(branch),
    ensures
        shared_size(table.insert(id, rec), branch) == shared_size(table, branch) + rec.size,
        shared_count(table.insert(id, rec), branch) == shared_count(table, branch) + 1,
        unique_size(table.insert(id, rec), branch) == unique_size(table, branch),
        unique_count(table.insert(id, rec), branch) == unique_count(table, branch),
{
    lemma_tally_insert(table, branch, Tally::UniqueSize, id, rec);
    lemma_tally_insert(table, branch, Tally::UniqueCount, id, rec);
    lemma_tally_insert(table, branch, Tally::SharedSize, id, rec);
    lemma_tally_insert(table, branch, Tally::SharedCount, id, rec);
}

/// The branches that saw the object `id`: the indices under which a report
/// holds it.
pub open spec fn sighted_in(reports: Seq<(nat, BlobSizes)>, id: Seq<char>) -> Set<nat> {
    Set::new(
        |b: nat|
            exists|p: int|
                0 <= p < reports.len() && (#[trigger] reports[p]).0 == b
                    && reports[p].1.contains_key(id),
    )
}

/// Whether report `p` is the first that holds the object `id`.
pub open spec fn first_sighting(reports: Seq<(nat, BlobSizes)>, id: Seq<char>, p: int) -> bool {
    &&& 0 <= p < reports.len()
    &&& reports[p].1.contains_key(id)
    &&& forall|q: int| 0 <= q < p ==> !(#[trigger] reports[q]).1.contains_key(id)
}

/// The merged table holds the objects that some report holds. The
/// contributors of an object are the branches that saw it, and its size is
/// the size under which it was first seen.
pub proof fn lemma_merged_object(reports: Seq<(nat, BlobSizes)>, id: Seq<char>)
    ensures
        merge_all(reports).contains_key(id) <==> exists|p: int|
            0 <= p < reports.len() && (#[trigger] reports[p]).1.contains_key(id),
        merge_all(reports).contains_key(id) ==> merge_all(reports)[id].contributors == sighted_in(
            reports,
            id,
        ),
        forall|p: int|
            first_sighting(reports, id, p) ==> merge_all(reports)[id].size == (
            #[trigger] reports[p]).1[id],
    decreases reports.len(),
{
    if reports.len() > 0 {
        let before = reports.drop_last();
        let last = reports.last();
        let n = before.len() as int;
        lemma_merged_object(before, id);
        assert(reports[n] == last);
        assert forall|p: int| 0 <= p < n implies #[trigger] before[p] == reports[p] by {}
        if merge_all(before).contains_key(id) {
            let p = choose|p: int| 0 <= p < n && (#[trigger] before[p]).1.contains_key(id);
            assert(reports[p].1.contains_key(id));
        }
        if last.1.contains_key(id) {
            assert(reports[n].1.contains_key(id));
        }
        if exists|p: int| 0 <= p < reports.len() && (#[trigger] reports[p]).1.contains_key(id) {
            let p = choose|p: int|
                0 <= p < reports.len() && (#[trigger] reports[p]).1.contains_key(id);
            if p < n {
                assert(before[p].1.contains_key(id));
            }
            assert(merge_all(reports).contains_key(id));
        }
        if merge_all(reports).contains_key(id) {
            assert forall|b: nat|
                merge_all(reports)[id].contributors.contains(b) <==> sighted_in(
                    reports,
                    id,
                ).contains(b) by {
                if sighted_in(before, id).contains(b) {
                    let p = choose|p: int|
                        0 <= p < n && (#[trigger] before[p]).0 == b && before[p].1.contains_key(id);
                    assert(reports[p].0 == b && reports[p].1.contains_key(id));
                }
                if sighted_in(reports, id).contains(b) {
                    let p = choose|p: int|
                        0 <= p < reports.len() && (#[trigger] reports[p]).0 == b
                            && reports[p].1.contains_key(id);
                    if p < n {
                        assert(before[p].0 == b && before[p].1.contains_key(id));
                        assert(sighted_in(before, id).contains(b));
                    }
                }
            }
            assert(merge_all(reports)[id].contributors =~= sighted_in(reports, id));
        }
        assert forall|p: int| first_sighting(reports, id, p) implies merge_all(reports)[id].size
            == (#[trigger] reports[p]).1[id] by {
            if p < n {
                assert(first_sighting(before, id, p)) by {
                    assert(before[p] == reports[p]);
                    assert forall|q: int| 0 <= q < p implies !(#[trigger] before[q]).1.contains_key(
                        id,
                    ) by {
                        assert(before[q] == reports[q]);
                    }
                }
                assert(merge_all(before).contains_key(id));
            } else {
                if merge_all(before).contains_key(id) {
                    let q = choose|q: int| 0 <= q < n && (#[trigger] before[q]).1.contains_key(id);
                    assert(reports[q].1.contains_key(id));
                }
            }
        }
    }
}

} // verus!
