//! What the analysis asks of git, and how it reads git's answers.

use crate::error::Error;
use crate::fx::{blob_map_insert, blob_sizes, new_blob_map};
use crate::text::{
    chars_of, ends_with, first_token, lines, parse_u64, parsed_u64, same_text, split_lines,
    split_whitespace, starts_with, text_of, texts, tokens,
};
use rustc_hash::FxHashMap;
use vstd::prelude::*;

verus! {

/// The queries that the analysis puts to a repository.
///
/// Nothing is promised of what an implementation answers: the analysis states
/// what it makes of any answer.
pub trait GitOps: Send + Sync {
    /// The unmerged branches of the repository at `repo`: name and tip.
    fn get_branches(&self, repo: &str) -> Result<Vec<(String, String)>, Error>;

    /// The blobs that `branch` reaches and `exclude` does not, with their
    /// sizes.
    fn get_unmerged_blobs(&self, repo: &str, branch: &str, exclude: &str) -> Result<
        FxHashMap<String, u64>,
        Error,
    >;

    /// The reference that serves as baseline where none was named.
    fn detect_default_branch(&self, repo: &str) -> Result<String, Error>;
}

/// The prefix of the reference of a local branch.
pub open spec fn heads_prefix() -> Seq<char> {
    "refs/heads/"@
}

/// The prefix of the reference of a remote-tracking branch.
pub open spec fn remotes_prefix() -> Seq<char> {
    "refs/remotes/"@
}

/// The end of a reference that stands for a remote's default branch.
pub open spec fn head_suffix() -> Seq<char> {
    "/HEAD"@
}

/// The name of a branch from its reference: the reference without the prefix
/// of local branches, else without that of remote-tracking branches, else
/// whole.
pub open spec fn short_name(refname: Seq<char>) -> Seq<char> {
    if heads_prefix().is_prefix_of(refname) {
        refname.skip(heads_prefix().len() as int)
    } else if remotes_prefix().is_prefix_of(refname) {
        refname.skip(remotes_prefix().len() as int)
    } else {
        refname
    }
}

/// The branch that a line of the branch listing names, as name and tip. A
/// line names a branch if it has two tokens or more and its first token, the
/// reference, does not end in `/HEAD`; its second token is the tip.
pub open spec fn branch_of_line(line: Seq<char>) -> Option<(Seq<char>, Seq<char>)> {
    let parts = tokens(line);
    if parts.len() >= 2 && !head_suffix().is_suffix_of(parts[0]) {
        Some((short_name(parts[0]), parts[1]))
    } else {
        None
    }
}

/// The branches that the lines of a listing name, first to last.
pub open spec fn branches_of(listing: Seq<Seq<char>>) -> Seq<(Seq<char>, Seq<char>)>
    decreases listing.len(),
{
    if listing.len() == 0 {
        Seq::empty()
    } else {
        match branch_of_line(listing.last()) {
            Some(branch) => branches_of(listing.drop_last()).push(branch),
            None => branches_of(listing.drop_last()),
        }
    }
}

/// The texts of a sequence of pairs of strings.
pub open spec fn pair_texts(pairs: Seq<(String, String)>) -> Seq<(Seq<char>, Seq<char>)> {
    Seq::new(pairs.len(), |i: int| (pairs[i].0@, pairs[i].1@))
}

/// Reads one line of the branch listing.
pub fn parse_branch_line(line: &str) -> (branch: Option<(String, String)>)
    ensures
        match branch {
            Some(pair) => branch_of_line(line@) == Some((pair.0@, pair.1@)),
            None => branch_of_line(line@) is None,
        },
{
    let parts = split_whitespace(line);
    if parts.len() < 2 {
        return None;
    }
    assert(texts(parts@)[0] == parts@[0]@);
    assert(texts(parts@)[1] == parts@[1]@);
    let refname = chars_of(parts[0].as_str());
    let head = chars_of("/HEAD");
    if ends_with(&refname, &head) {
        return None;
    }
    let heads = chars_of("refs/heads/");
    let remotes = chars_of("refs/remotes/");
    let from: usize = if starts_with(&refname, &heads) {
        heads.len()
    } else if starts_with(&refname, &remotes) {
        remotes.len()
    } else {
        0
    };
    let name = text_of(&refname, from, refname.len());
    assert(refname@.subrange(from as int, refname.len() as int) =~= refname@.skip(from as int));
    assert(refname@.skip(0) =~= refname@);
    Some((name, parts[1].clone()))
}

/// Reads the listing of unmerged branches: one reference and its tip on each
/// line.
pub fn parse_branch_listing(stdout: &str) -> (branches: Vec<(String, String)>)
    ensures
        pair_texts(branches@) == branches_of(lines(stdout@)),
{
    let listing = split_lines(stdout);
    let mut branches: Vec<(String, String)> = Vec::new();
    let mut i: usize = 0;
    assert(texts(listing@).take(0) =~= Seq::empty());
    while i < listing.len()
        invariant
            i <= listing.len(),
            texts(listing@) == lines(stdout@),
            pair_texts(branches@) == branches_of(texts(listing@).take(i as int)),
        decreases listing.len() - i,
    {
        let ghost found = pair_texts(branches@);
        proof {
            let now = texts(listing@).take(i + 1);
            assert(now.drop_last() =~= texts(listing@).take(i as int));
            assert(now.last() == listing@[i as int]@);
        }
        match parse_branch_line(listing[i].as_str()) {
            Some(pair) => {
                let ghost view = (pair.0@, pair.1@);
                branches.push(pair);
                assert(pair_texts(branches@) =~= found.push(view));
            },
            None => {},
        }
        i = i + 1;
    }
    assert(texts(listing@).take(i as int) =~= texts(listing@));
    branches
}

/// The type name of an object that holds file content.
pub open spec fn blob_kind() -> Seq<char> {
    "blob"@
}

/// One answer of the metadata probe: the id of an object, its type and its
/// size, each as the probe wrote it.
#[derive(Debug, Clone, PartialEq, Eq)]
pub struct ObjectLine {
    pub id: String,
    pub kind: String,
    pub size: String,
}

/// The object that a line of the metadata probe describes, as id, type and
/// size: its first three tokens. A line of fewer tokens describes none.
pub open spec fn object_of_line(line: Seq<char>) -> Option<(Seq<char>, Seq<char>, Seq<char>)> {
    let parts = tokens(line);
    if parts.len() >= 3 {
        Some((parts[0], parts[1], parts[2]))
    } else {
        None
    }
}

/// The blob that an object of type `kind` and size `size` is, as id and
/// size. An object is a blob if its type is `blob` and its size writes an
/// unsigned decimal number of at most 64 bits.
pub open spec fn blob_of_object(id: Seq<char>, kind: Seq<char>, size: Seq<char>) -> Option<
    (Seq<char>, u64),
> {
    if kind == blob_kind() && parsed_u64(size) is Some {
        Some((id, parsed_u64(size)->0))
    } else {
        None
    }
}

/// The blob that a line of the metadata probe reports, as id and size: the
/// object that the line describes, if it is a blob.
pub open spec fn blob_of_line(line: Seq<char>) -> Option<(Seq<char>, u64)> {
    match object_of_line(line) {
        Some((id, kind, size)) => blob_of_object(id, kind, size),
        None => None,
    }
}

/// The blob map after a line of the metadata probe was read: with the blob
/// that the line reports, or unchanged where it reports none.
pub open spec fn with_line(blobs: Map<Seq<char>, u64>, line: Seq<char>) -> Map<Seq<char>, u64> {
    match blob_of_line(line) {
        Some((id, size)) => blobs.insert(id, size),
        None => blobs,
    }
}

/// The blob map after the lines of the metadata probe were read, first to
/// last.
pub open spec fn blobs_of(probe: Seq<Seq<char>>) -> Map<Seq<char>, u64>
    decreases probe.len(),
{
    if probe.len() == 0 {
        Map::empty()
    } else {
        with_line(blobs_of(probe.drop_last()), probe.last())
    }
}

/// Reads one line of the metadata probe as id, type and size.
pub fn parse_object_line(line: &str) -> (object: Option<ObjectLine>)
    ensures
        match object {
            Some(o) => object_of_line(line@) == Some((o.id@, o.kind@, o.size@)),
            None => object_of_line(line@) is None,
        },
{
    let parts = split_whitespace(line);
    if parts.len() < 3 {
        return None;
    }
    assert(texts(parts@)[0] == parts@[0]@);
    assert(texts(parts@)[1] == parts@[1]@);
    assert(texts(parts@)[2] == parts@[2]@);
    Some(ObjectLine { id: parts[0].clone(), kind: parts[1].clone(), size: parts[2].clone() })
}

/// The id and size of an object that is a blob; nothing for an object of
/// another type or of a size that cannot be read.
pub fn blob_entry(object: &ObjectLine) -> (blob: Option<(String, u64)>)
    ensures
        match blob {
            Some(pair) => blob_of_object(object.id@, object.kind@, object.size@) == Some(
                (pair.0@, pair.1),
            ),
            None => blob_of_object(object.id@, object.kind@, object.size@) is None,
        },
{
    if !same_text(object.kind.as_str(), "blob") {
        return None;
    }
    match parse_u64(object.size.as_str()) {
        Some(size) => Some((object.id.clone(), size)),
        None => None,
    }
}

/// Reads one line of the metadata probe as a blob.
pub fn parse_blob_line(line: &str) -> (blob: Option<(String, u64)>)
    ensures
        match blob {
            Some(pair) => blob_of_line(line@) == Some((pair.0@, pair.1)),
            None => blob_of_line(line@) is None,
        },
{
    match parse_object_line(line) {
        Some(object) => blob_entry(&object),
        None => None,
    }
}

/// Reads one line of the metadata probe into the blob map of a branch. A
/// line that reports no blob leaves the map as it is; a blob that the map
/// holds already is entered anew.
pub fn record_blob_line(blobs: &mut FxHashMap<String, u64>, line: &str)
    ensures
        blob_sizes(*final(blobs)) == with_line(blob_sizes(*old(blobs)), line@),
{
    match parse_blob_line(line) {
        Some(pair) => {
            blob_map_insert(blobs, pair.0, pair.1);
        },
        None => {},
    }
}

/// The blob map of a branch from the lines of its metadata probe.
pub fn collect_blobs(probe: &Vec<String>) -> (blobs: FxHashMap<String, u64>)
    ensures
        blob_sizes(blobs) == blobs_of(texts(probe@)),
{
    let mut blobs = new_blob_map();
    let mut i: usize = 0;
    assert(texts(probe@).take(0) =~= Seq::empty());
    assert(blob_sizes(blobs) =~= Map::empty());
    while i < probe.len()
        invariant
            i <= probe.len(),
            blob_sizes(blobs) == blobs_of(texts(probe@).take(i as int)),
        decreases probe.len() - i,
    {
        proof {
            let now = texts(probe@).take(i + 1);
            assert(now.drop_last() =~= texts(probe@).take(i as int));
            assert(now.last() == probe@[i as int]@);
        }
        record_blob_line(&mut blobs, probe[i].as_str());
        i = i + 1;
    }
    assert(texts(probe@).take(i as int) =~= texts(probe@));
    blobs
}

/// The object id that a line of the reachability query names: its first
/// token. The forwarding task hands these ids to the metadata probe.
pub fn object_id_of_line(line: &str) -> (id: Option<String>)
    ensures
        match id {
            Some(token) => tokens(line@).len() > 0 && token@ == tokens(line@)[0],
            None => tokens(line@).len() == 0,
        },
{
    first_token(line)
}

/// The references that are tried as baseline, in the order of trial.
pub open spec fn baseline_candidates() -> Seq<Seq<char>> {
    seq!["refs/heads/master"@, "refs/heads/main"@]
}

/// The references that are tried as baseline, in the order of trial.
pub fn default_branch_candidates() -> (candidates: Vec<String>)
    ensures
        texts(candidates@) == baseline_candidates(),
{
    let mut candidates: Vec<String> = Vec::new();
    candidates.push("refs/heads/master".to_owned());
    candidates.push("refs/heads/main".to_owned());
    assert(texts(candidates@) =~= baseline_candidates());
    candidates
}

/// What the search for a baseline does next.
#[derive(Debug, Clone, PartialEq, Eq)]
pub enum BaselineStep {
    /// Ask the repository whether this reference resolves.
    Probe(String),
    /// The search is over: this reference is the baseline.
    Found(String),
    /// The search is over: no candidate resolves.
    Undetectable,
}

/// Whether candidate `i` was the first to resolve.
pub open spec fn resolved_first(outcomes: Seq<bool>, i: int) -> bool {
    &&& 0 <= i < outcomes.len()
    &&& i < baseline_candidates().len()
    &&& outcomes[i]
    &&& forall|j: int| 0 <= j < i ==> !outcomes[j]
}

/// Decides the next step of the search for a baseline. `outcomes` holds,
/// for each candidate probed so far, whether it resolved.
///
/// The first candidate that resolved is the baseline. While none has and one
/// is left, the next is to be probed. When all were probed and none resolved,
/// no baseline can be detected.
pub fn next_baseline_step(outcomes: &Vec<bool>) -> (step: BaselineStep)
    ensures
        match step {
            BaselineStep::Found(name) => exists|i: int|
                resolved_first(outcomes@, i) && name@ == baseline_candidates()[i],
            BaselineStep::Probe(name) => {
                &&& outcomes.len() < baseline_candidates().len()
                &&& forall|j: int| 0 <= j < outcomes.len() ==> !outcomes[j]
                &&& name@ == baseline_candidates()[outcomes.len() as int]
            },
            BaselineStep::Undetectable => {
                &&& outcomes.len() >= baseline_candidates().len()
                &&& forall|j: int| 0 <= j < baseline_candidates().len() ==> !outcomes[j]
            },
        },
{
    let candidates = default_branch_candidates();
    let mut i: usize = 0;
    while i < candidates.len()
        invariant
            i <= candidates.len(),
            texts(candidates@) == baseline_candidates(),
            i <= outcomes.len(),
            forall|j: int| 0 <= j < i ==> !outcomes[j],
        decreases candidates.len() - i,
    {
        assert(texts(candidates@)[i as int] == candidates@[i as int]@);
        if i >= outcomes.len() {
            return BaselineStep::Probe(candidates[i].clone());
        }
        if outcomes[i] {
            assert(resolved_first(outcomes@, i as int));
            return BaselineStep::Found(candidates[i].clone());
        }
        i = i + 1;
    }
    BaselineStep::Undetectable
}

/// The arguments of the query that lists the unmerged branches.
pub fn for_each_ref_args() -> (args: Vec<String>)
    ensures
        texts(args@) == seq![
            "for-each-ref"@,
            "--format=%(refname) %(objectname)"@,
            "--no-merged=HEAD"@,
            "refs/heads"@,
            "refs/remotes"@,
        ],
{
    let mut args: Vec<String> = Vec::new();
    args.push("for-each-ref".to_owned());
    args.push("--format=%(refname) %(objectname)".to_owned());
    args.push("--no-merged=HEAD".to_owned());
    args.push("refs/heads".to_owned());
    args.push("refs/remotes".to_owned());
    assert(texts(args@) =~= seq![
        "for-each-ref"@,
        "--format=%(refname) %(objectname)"@,
        "--no-merged=HEAD"@,
        "refs/heads"@,
        "refs/remotes"@,
    ]);
    args
}

/// The arguments of the reachability query: the objects that `branch`
/// reaches and `exclude` does not.
pub fn rev_list_args(branch: &str, exclude: &str) -> (args: Vec<String>)
    ensures
        texts(args@) == seq!["rev-list"@, "--objects"@, branch@, "--not"@, exclude@],
{
    let mut args: Vec<String> = Vec::new();
    args.push("rev-list".to_owned());
    args.push("--objects".to_owned());
    args.push(branch.to_owned());
    args.push("--not".to_owned());
    args.push(exclude.to_owned());
    assert(texts(args@) =~= seq!["rev-list"@, "--objects"@, branch@, "--not"@, exclude@]);
    args
}

/// The arguments of the metadata probe, which answers each id with a line
/// of id, type and size.
pub fn cat_file_args() -> (args: Vec<String>)
    ensures
        texts(args@) == seq![
            "cat-file"@,
            "--batch-check=%(objectname) %(objecttype) %(objectsize)"@,
        ],
{
    let mut args: Vec<String> = Vec::new();
    args.push("cat-file".to_owned());
    args.push("--batch-check=%(objectname) %(objecttype) %(objectsize)".to_owned());
    assert(texts(args@) =~= seq![
        "cat-file"@,
        "--batch-check=%(objectname) %(objecttype) %(objectsize)"@,
    ]);
    args
}

/// The arguments of the probe of one candidate baseline.
pub fn rev_parse_args(name: &str) -> (args: Vec<String>)
    ensures
        texts(args@) == seq!["rev-parse"@, "--verify"@, name@],
{
    let mut args: Vec<String> = Vec::new();
    args.push("rev-parse".to_owned());
    args.push("--verify".to_owned());
    args.push(name.to_owned());
    assert(texts(args@) =~= seq!["rev-parse"@, "--verify"@, name@]);
    args
}

} // verus!
