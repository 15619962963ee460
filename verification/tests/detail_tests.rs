use git_branch_weight::detail::{
    expand_branch, sum_changes, top_branches, ChangeKind, CommitChanges, PathChange,
};
use git_branch_weight::error::Error;
use git_branch_weight::objects::BranchWeight;

fn change(kind: ChangeKind, size: u64) -> PathChange {
    PathChange { kind, size }
}

fn commit(id: &str, changes: Vec<PathChange>) -> CommitChanges {
    CommitChanges { commit: id.to_string(), changes }
}

fn weight(branch: &str, total_size: u64) -> BranchWeight {
    BranchWeight {
        branch: branch.to_string(),
        unique_size: total_size,
        shared_size: 0,
        total_size,
        object_count: 1,
        unique_count: 1,
        shared_count: 0,
    }
}

#[test]
fn top_branches_are_the_first_of_the_report() {
    let weights = vec![weight("big", 30), weight("mid", 20), weight("small", 10)];
    assert_eq!(top_branches(&weights, 2), vec!["big".to_string(), "mid".to_string()]);
    assert_eq!(top_branches(&weights, 3).len(), 3);
    assert_eq!(top_branches(&weights, 10).len(), 3);
    assert!(top_branches(&weights, 0).is_empty());
    assert!(top_branches(&Vec::new(), 5).is_empty());
}

#[test]
fn deleted_paths_add_nothing() {
    let changes = vec![
        change(ChangeKind::Added, 100),
        change(ChangeKind::Deleted, 5000),
        change(ChangeKind::Modified, 20),
    ];
    assert_eq!(sum_changes(&changes), Some(120));
    assert_eq!(sum_changes(&Vec::new()), Some(0));
    assert_eq!(sum_changes(&vec![change(ChangeKind::Deleted, u64::MAX)]), Some(0));
    let too_much = vec![change(ChangeKind::Added, u64::MAX), change(ChangeKind::Modified, 1)];
    assert_eq!(sum_changes(&too_much), None);
}

#[test]
fn commits_without_weight_are_dropped() {
    let history = vec![
        commit("c3", vec![change(ChangeKind::Added, 100), change(ChangeKind::Modified, 50)]),
        commit("c2", vec![change(ChangeKind::Deleted, 400)]),
        commit("c1", vec![]),
        commit("c0", vec![change(ChangeKind::Modified, 7), change(ChangeKind::Added, 0)]),
    ];
    let detail = expand_branch("topic", &history).unwrap();
    assert_eq!(detail.branch, "topic");
    assert_eq!(detail.total_size, 157);
    assert_eq!(detail.commits.len(), 2);
    assert_eq!(detail.commits[0].commit, "c3");
    assert_eq!(detail.commits[0].size, 150);
    assert_eq!(detail.commits[1].commit, "c0");
    assert_eq!(detail.commits[1].size, 7);
    let sum: u64 = detail.commits.iter().map(|c| c.size).sum();
    assert_eq!(detail.total_size, sum);
}

#[test]
fn a_blob_touched_twice_counts_twice() {
    let history = vec![
        commit("c2", vec![change(ChangeKind::Modified, 300)]),
        commit("c1", vec![change(ChangeKind::Added, 300)]),
    ];
    let detail = expand_branch("topic", &history).unwrap();
    assert_eq!(detail.total_size, 600);
}

#[test]
fn detail_of_an_empty_history() {
    let detail = expand_branch("merged", &Vec::new()).unwrap();
    assert_eq!(detail.branch, "merged");
    assert_eq!(detail.total_size, 0);
    assert!(detail.commits.is_empty());
}

#[test]
fn detail_beyond_64_bits_is_an_error() {
    let history = vec![
        commit("c2", vec![change(ChangeKind::Added, u64::MAX)]),
        commit("c1", vec![change(ChangeKind::Added, 1)]),
    ];
    assert_eq!(expand_branch("topic", &history).err(), Some(Error::SizeOverflow));
    let history = vec![commit(
        "c1",
        vec![change(ChangeKind::Added, u64::MAX), change(ChangeKind::Added, 1)],
    )];
    assert_eq!(expand_branch("topic", &history).err(), Some(Error::SizeOverflow));
    let history = vec![commit("c1", vec![change(ChangeKind::Added, u64::MAX)])];
    assert_eq!(expand_branch("topic", &history).unwrap().total_size, u64::MAX);
}
