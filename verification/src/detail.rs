//! The weight of the heaviest branches, commit by commit.
//!
//! The detail of a branch is taken from its history alone: each commit
//! counts with the sizes of the blobs at the paths that it added or
//! modified. A blob that several commits of a branch touch counts once for
//! each, so the total of a detail is a figure of its own and need not be the
//! total size of the branch.

use crate::error::Error;
use crate::objects::BranchWeight;
use crate::text::texts;
use vstd::prelude::*;

verus! {

/// What a commit did to a path.
#[derive(Debug, Clone, Copy, PartialEq, Eq, Structural)]
pub enum ChangeKind {
    Added,
    Modified,
    Deleted,
}

/// One path that a commit changed, with the size of the blob that the commit
/// left at the path.
#[derive(Debug, Clone, Copy)]
pub struct PathChange {
    pub kind: ChangeKind,
    pub size: u64,
}

/// A commit of a branch that the baseline does not reach, with the paths
/// that it changed against its parents.
#[derive(Debug, Clone)]
pub struct CommitChanges {
    pub commit: String,
    pub changes: Vec<PathChange>,
}

/// The weight of one commit.
#[derive(Debug, Clone)]
pub struct CommitWeight {
    pub commit: String,
    pub size: u64,
}

/// The detail of one branch: the weights of its commits and their sum.
#[derive(Debug, Clone)]
pub struct BranchDetail {
    pub branch: String,
    pub total_size: u64,
    pub commits: Vec<CommitWeight>,
}

/// What one changed path adds to the weight of its commit: the size of the
/// blob where the path was added or modified, nothing where it was deleted.
pub open spec fn change_size(change: PathChange) -> nat {
    if change.kind == ChangeKind::Deleted {
        0
    } else {
        change.size as nat
    }
}

/// The weight of a commit: the sum over the paths that it changed.
pub open spec fn changes_size(changes: Seq<PathChange>) -> nat
    decreases changes.len(),
{
    if changes.len() == 0 {
        0
    } else {
        changes_size(changes.drop_last()) + change_size(changes.last())
    }
}

/// The commits of a history that weigh something, each with its weight, in
/// the order of the history.
pub open spec fn retained(history: Seq<CommitChanges>) -> Seq<(Seq<char>, nat)>
    decreases history.len(),
{
    if history.len() == 0 {
        Seq::empty()
    } else if changes_size(history.last().changes@) == 0 {
        retained(history.drop_last())
    } else {
        retained(history.drop_last()).push(
            (history.last().commit@, changes_size(history.last().changes@)),
        )
    }
}

/// The sum of the weights of the commits of a history.
pub open spec fn history_size(history: Seq<CommitChanges>) -> nat
    decreases history.len(),
{
    if history.len() == 0 {
        0
    } else {
        history_size(history.drop_last()) + changes_size(history.last().changes@)
    }
}

/// The sum of the weights of `commits`.
pub open spec fn weights_sum(commits: Seq<(Seq<char>, nat)>) -> nat
    decreases commits.len(),
{
    if commits.len() == 0 {
        0
    } else {
        weights_sum(commits.drop_last()) + commits.last().1
    }
}

/// The size of a history is the sum of the weights of its retained commits,
/// and every retained commit weighs something.
pub proof fn lemma_retained(history: Seq<CommitChanges>)
    ensures
        history_size(history) == weights_sum(retained(history)),
        forall|i: int| 0 <= i < retained(history).len() ==> (#[trigger] retained(history)[i]).1 > 0,
    decreases history.len(),
{
    if history.len() > 0 {
        lemma_retained(history.drop_last());
        let before = retained(history.drop_last());
        let size = changes_size(history.last().changes@);
        if size > 0 {
            assert(retained(history).drop_last() =~= before);
        }
    }
}

/// The commits that a sequence of commit weights states, each with its
/// weight.
pub open spec fn commit_views(commits: Seq<CommitWeight>) -> Seq<(Seq<char>, nat)> {
    Seq::new(commits.len(), |i: int| (commits[i].commit@, commits[i].size as nat))
}

/// The names of the first `n` of `weights`, or of all where there are fewer.
pub open spec fn top_names(weights: Seq<BranchWeight>, n: nat) -> Seq<Seq<char>> {
    Seq::new(
        if n < weights.len() {
            n
        } else {
            weights.len()
        },
        |i: int| weights[i].branch@,
    )
}

/// The weight of the first paths is no more than the weight of all.
pub proof fn lemma_changes_size_grows(changes: Seq<PathChange>, k: int)
    requires
        0 <= k <= changes.len(),
    ensures
        changes_size(changes.take(k)) <= changes_size(changes),
    decreases changes.len() - k,
{
    if k < changes.len() {
        lemma_changes_size_grows(changes, k + 1);
        assert(changes.take(k + 1).drop_last() =~= changes.take(k));
    } else {
        assert(changes.take(k) =~= changes);
    }
}

/// The size of the first commits is no more than the size of all.
pub proof fn lemma_history_size_grows(history: Seq<CommitChanges>, k: int)
    requires
        0 <= k <= history.len(),
    ensures
        history_size(history.take(k)) <= history_size(history),
    decreases history.len() - k,
{
    if k < history.len() {
        lemma_history_size_grows(history, k + 1);
        assert(history.take(k + 1).drop_last() =~= history.take(k));
    } else {
        assert(history.take(k) =~= history);
    }
}

/// The branches to expand: the names of the `n` heaviest branches of a weight
/// report, which are its first `n`.
pub fn top_branches(weights: &Vec<BranchWeight>, n: usize) -> (names: Vec<String>)
    ensures
        texts(names@) == top_names(weights@, n as nat),
{
    let count: usize = if n < weights.len() {
        n
    } else {
        weights.len()
    };
    let mut names: Vec<String> = Vec::new();
    let mut i: usize = 0;
    while i < count
        invariant
            i <= count <= weights.len(),
            names.len() == i,
            forall|k: int| 0 <= k < i ==> (#[trigger] names[k])@ == weights[k].branch@,
        decreases count - i,
    {
        names.push(weights[i].branch.clone());
        i = i + 1;
    }
    assert(texts(names@) =~= top_names(weights@, n as nat));
    names
}

/// The weight of the paths that a commit changed, or nothing where it is
/// beyond what 64 bits hold.
pub fn sum_changes(changes: &Vec<PathChange>) -> (size: Option<u64>)
    ensures
        match size {
            Some(sum) => sum == changes_size(changes@),
            None => changes_size(changes@) > u64::MAX,
        },
{
    let mut sum: u64 = 0;
    let mut i: usize = 0;
    assert(changes@.take(0) =~= Seq::empty());
    while i < changes.len()
        invariant
            i <= changes.len(),
            sum == changes_size(changes@.take(i as int)),
        decreases changes.len() - i,
    {
        proof {
            assert(changes@.take(i + 1).drop_last() =~= changes@.take(i as int));
            lemma_changes_size_grows(changes@, i + 1);
        }
        let change: PathChange = changes[i];
        let added: u64 = match change.kind {
            ChangeKind::Deleted => 0,
            _ => change.size,
        };
        sum = match sum.checked_add(added) {
            Some(next) => next,
            None => {
                return None;
            },
        };
        i = i + 1;
    }
    assert(changes@.take(i as int) =~= changes@);
    Some(sum)
}

/// The detail of the branch `branch` from its history: the commits that
/// weigh something, each with its weight, in the order of the history, and
/// the sum of their weights.
///
/// Fails with `Error::SizeOverflow` exactly when that sum is beyond what 64
/// bits hold.
pub fn expand_branch(branch: &str, history: &Vec<CommitChanges>) -> (r: Result<BranchDetail, Error>)
    ensures
        match r {
            Ok(detail) => {
                &&& detail.branch@ == branch@
                &&& commit_views(detail.commits@) == retained(history@)
                &&& detail.total_size == history_size(history@)
                &&& detail.total_size == weights_sum(commit_views(detail.commits@))
            },
            Err(e) => e == Error::SizeOverflow && history_size(history@) > u64::MAX,
        },
{
    let mut commits: Vec<CommitWeight> = Vec::new();
    let mut total: u64 = 0;
    let mut i: usize = 0;
    assert(history@.take(0) =~= Seq::empty());
    while i < history.len()
        invariant
            i <= history.len(),
            commit_views(commits@) == retained(history@.take(i as int)),
            total == history_size(history@.take(i as int)),
        decreases history.len() - i,
    {
        let ghost found = commit_views(commits@);
        proof {
            assert(history@.take(i + 1).drop_last() =~= history@.take(i as int));
            lemma_history_size_grows(history@, i + 1);
        }
        let size: u64 = match sum_changes(&history[i].changes) {
            Some(size) => size,
            None => {
                return Err(Error::SizeOverflow);
            },
        };
        total = match total.checked_add(size) {
            Some(next) => next,
            None => {
                return Err(Error::SizeOverflow);
            },
        };
        if size > 0 {
            commits.push(CommitWeight { commit: history[i].commit.clone(), size });
            assert(commit_views(commits@) =~= found.push(
                (history@[i as int].commit@, size as nat),
            ));
        }
        i = i + 1;
    }
    proof {
        assert(history@.take(i as int) =~= history@);
        lemma_retained(history@);
    }
    Ok(BranchDetail { branch: branch.to_owned(), total_size: total, commits })
}

} // verus!
