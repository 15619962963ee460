//! The hash collections of `rustc_hash` as this library uses them.
//!
//! `FxHashMap` and `FxHashSet` are the standard hash map and set with the
//! deterministic Fx hasher. What such a collection holds is given a name here,
//! and each operation the library performs on one is a small function whose
//! contract is stated over those names and taken on trust.

use crate::objects::ObjectInfo;
use crate::tally::ObjectRecord;
use rustc_hash::{FxBuildHasher, FxHashMap, FxHashSet};
use vstd::prelude::*;

verus! {

/// `rustc_hash::FxBuildHasher`, the hasher parameter of `FxHashMap` and
/// `FxHashSet`. Nothing is known of a value of it.
#[verifier::external_type_specification]
#[verifier::external_body]
pub struct ExFxBuildHasher(FxBuildHasher);

/// What a blob map holds: object id to byte size.
pub uninterp spec fn blob_sizes(m: FxHashMap<String, u64>) -> Map<Seq<char>, u64>;

/// The branch indices that a contributor set holds.
pub uninterp spec fn contributor_set(s: FxHashSet<u32>) -> Set<nat>;

/// What an object table holds: object id to the view of its record.
pub uninterp spec fn object_records(m: FxHashMap<String, ObjectInfo>) -> Map<
    Seq<char>,
    ObjectRecord,
>;

/// `entries` lists each entry of `m` once.
pub open spec fn lists_blobs(entries: Seq<(String, u64)>, m: Map<Seq<char>, u64>) -> bool {
    &&& forall|i: int|
        0 <= i < entries.len() ==> m.contains_key(#[trigger] entries[i].0@) && m[entries[i].0@]
            == entries[i].1
    &&& forall|i: int, j: int|
        0 <= i < j < entries.len() ==> (#[trigger] entries[i]).0@ != (#[trigger] entries[j]).0@
    &&& forall|id: Seq<char>|
        m.contains_key(id) ==> exists|i: int|
            0 <= i < entries.len() && (#[trigger] entries[i]).0@ == id
}

/// `branches` lists each member of `s` once.
pub open spec fn lists_contributors(branches: Seq<u32>, s: Set<nat>) -> bool {
    &&& forall|i: int| 0 <= i < branches.len() ==> s.contains(#[trigger] branches[i] as nat)
    &&& forall|i: int, j: int|
        0 <= i < j < branches.len() ==> #[trigger] branches[i] != #[trigger] branches[j]
    &&& forall|b: nat|
        s.contains(b) ==> exists|i: int| 0 <= i < branches.len() && #[trigger] branches[i] == b
}

/// `ids` names each object of `m` once, and `records` holds, place by place,
/// the records under those ids.
pub open spec fn lists_records(
    records: Seq<ObjectInfo>,
    ids: Seq<Seq<char>>,
    m: Map<Seq<char>, ObjectRecord>,
) -> bool {
    &&& ids.len() == records.len()
    &&& ids.no_duplicates()
    &&& forall|i: int|
        0 <= i < ids.len() ==> m.contains_key(#[trigger] ids[i]) && m[ids[i]] == records[i]@
    &&& forall|id: Seq<char>| m.contains_key(id) ==> ids.contains(id)
}

/// `FxHashMap::default`: a map that holds nothing.
#[verifier::external_body]
pub(crate) fn new_blob_map() -> (m: FxHashMap<String, u64>)
    ensures
        blob_sizes(m).dom() =~= Set::empty(),
{
    FxHashMap::default()
}

/// `HashMap::insert`: afterwards `id` maps to `size`, whether or not it was
/// present, and no other entry has changed.
#[verifier::external_body]
pub(crate) fn blob_map_insert(m: &mut FxHashMap<String, u64>, id: String, size: u64)
    ensures
        blob_sizes(*final(m)) == blob_sizes(*old(m)).insert(id@, size),
{
    m.insert(id, size);
}

/// `HashMap::is_empty`: true exactly when the map holds no entry.
#[verifier::external_body]
pub(crate) fn blob_map_is_empty(m: &FxHashMap<String, u64>) -> (r: bool)
    ensures
        r == blob_sizes(*m).dom().is_empty(),
{
    m.is_empty()
}

/// `HashMap::into_iter`, collected: every entry of the map, each once, in
/// an order that nothing is said about.
#[verifier::external_body]
pub(crate) fn blob_map_entries(m: FxHashMap<String, u64>) -> (entries: Vec<(String, u64)>)
    ensures
        lists_blobs(entries@, blob_sizes(m)),
{
    m.into_iter().collect()
}

/// `FxHashSet::default`: a set that holds nothing.
#[verifier::external_body]
pub(crate) fn new_contributor_set() -> (s: FxHashSet<u32>)
    ensures
        contributor_set(s) =~= Set::empty(),
{
    FxHashSet::default()
}

/// `HashSet::insert`: afterwards the set holds `branch` beside what it held.
#[verifier::external_body]
pub(crate) fn contributor_insert(s: &mut FxHashSet<u32>, branch: u32)
    ensures
        contributor_set(*final(s)) == contributor_set(*old(s)).insert(branch as nat),
{
    s.insert(branch);
}

/// `HashSet::iter`, collected: every member of the set, each once, in an
/// order that nothing is said about.
#[verifier::external_body]
pub(crate) fn contributor_list(s: &FxHashSet<u32>) -> (branches: Vec<u32>)
    ensures
        lists_contributors(branches@, contributor_set(*s)),
{
    s.iter().copied().collect()
}

/// `HashSet::clone`: a set that holds what `s` holds.
#[verifier::external_body]
pub(crate) fn contributor_clone(s: &FxHashSet<u32>) -> (r: FxHashSet<u32>)
    ensures
        contributor_set(r) == contributor_set(*s),
{
    s.clone()
}

/// `FxHashMap::default`: a table that holds nothing.
#[verifier::external_body]
pub(crate) fn new_object_table() -> (m: FxHashMap<String, ObjectInfo>)
    ensures
        object_records(m).dom() =~= Set::empty(),
{
    FxHashMap::default()
}

/// `HashMap::remove`: the record under `id` leaves the table and is handed
/// out; where there is none the table is unchanged and nothing is handed out.
#[verifier::external_body]
pub(crate) fn object_table_take(m: &mut FxHashMap<String, ObjectInfo>, id: &str) -> (r: Option<
    ObjectInfo,
>)
    ensures
        object_records(*final(m)) == object_records(*old(m)).remove(id@),
        r is Some == object_records(*old(m)).contains_key(id@),
        r matches Some(info) ==> info@ == object_records(*old(m))[id@],
{
    m.remove(id)
}

/// `HashMap::insert`: afterwards `id` maps to `info`, and no other entry has
/// changed.
#[verifier::external_body]
pub(crate) fn object_table_put(m: &mut FxHashMap<String, ObjectInfo>, id: String, info: ObjectInfo)
    ensures
        object_records(*final(m)) == object_records(*old(m)).insert(id@, info@),
{
    m.insert(id, info);
}

/// `HashMap::into_values`, collected: the record of every object of the table,
/// each once, in an order that nothing is said about.
#[verifier::external_body]
pub(crate) fn object_table_records(m: FxHashMap<String, ObjectInfo>) -> (records: Vec<ObjectInfo>)
    ensures
        exists|ids: Seq<Seq<char>>| lists_records(records@, ids, object_records(m)),
{
    m.into_values().collect()
}

} // verus!
