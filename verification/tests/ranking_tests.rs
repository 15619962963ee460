use git_branch_weight::error::Error;
use git_branch_weight::objects::{compute_weights, merge_reports, BranchWeight};
use git_branch_weight::ranking::rank_by_total;
use rustc_hash::FxHashMap;
use std::collections::{BTreeMap, BTreeSet};

struct Lcg(u64);

impl Lcg {
    fn next(&mut self, bound: u64) -> u64 {
        self.0 = self.0.wrapping_mul(6364136223846793005).wrapping_add(1442695040888963407);
        (self.0 >> 33) % bound
    }
}

fn expected_weights(
    names: &[String],
    reports: &[(u32, Vec<(String, u64)>)],
) -> Vec<(String, u64, u64, u64, usize, usize, usize)> {
    let mut table: BTreeMap<String, (u64, BTreeSet<u32>)> = BTreeMap::new();
    for (branch, entries) in reports {
        for (id, size) in entries {
            let record = table.entry(id.clone()).or_insert((*size, BTreeSet::new()));
            record.1.insert(*branch);
        }
    }
    let mut rows = Vec::new();
    for (b, name) in names.iter().enumerate() {
        let mut row = (name.clone(), 0u64, 0u64, 0u64, 0usize, 0usize, 0usize);
        for (size, contributors) in table.values() {
            if contributors.contains(&(b as u32)) {
                if contributors.len() > 1 {
                    row.2 += size;
                    row.6 += 1;
                } else {
                    row.1 += size;
                    row.5 += 1;
                }
            }
        }
        row.3 = row.1 + row.2;
        row.4 = row.5 + row.6;
        if row.4 > 0 {
            rows.push(row);
        }
    }
    rows.sort_by(|a, b| b.3.cmp(&a.3));
    rows
}

fn fields(w: &BranchWeight) -> (String, u64, u64, u64, usize, usize, usize) {
    (
        w.branch.clone(),
        w.unique_size,
        w.shared_size,
        w.total_size,
        w.object_count,
        w.unique_count,
        w.shared_count,
    )
}

#[test]
fn rank_by_total_sorts_by_falling_total() {
    let totals: Vec<u64> = vec![5, 9, 5, 0, 9, 7];
    assert_eq!(rank_by_total(&vec![0, 1, 2, 3, 4, 5], &totals), vec![1, 4, 5, 0, 2, 3]);
    assert_eq!(rank_by_total(&vec![5, 4, 3, 2, 1, 0], &totals), vec![1, 4, 5, 0, 2, 3]);
    assert_eq!(rank_by_total(&vec![2, 0], &totals), vec![0, 2]);
    assert_eq!(rank_by_total(&vec![3], &totals), vec![3]);
    assert!(rank_by_total(&Vec::new(), &totals).is_empty());
}

#[test]
fn rank_by_total_of_many() {
    let mut random = Lcg(7);
    let totals: Vec<u64> = (0..1000).map(|_| random.next(50)).collect();
    let candidates: Vec<usize> = (0..1000).filter(|i| i % 3 != 0).collect();
    let order = rank_by_total(&candidates, &totals);
    let mut expected = candidates.clone();
    expected.sort_by(|a, b| totals[*b].cmp(&totals[*a]));
    assert_eq!(order, expected);
}

#[test]
fn weights_agree_with_a_plain_computation() {
    let mut random = Lcg(2024);
    for round in 0..60 {
        let branch_count = 1 + random.next(12) as usize;
        let object_count = 1 + random.next(40);
        let names: Vec<String> =
            (0..branch_count).map(|b| format!("round{}/b{}", round, b)).collect();
        let mut reports: Vec<(u32, Vec<(String, u64)>)> = Vec::new();
        for b in 0..branch_count {
            if random.next(5) == 0 {
                continue;
            }
            let mut entries: Vec<(String, u64)> = Vec::new();
            for o in 0..object_count {
                if random.next(3) == 0 {
                    let size = if o % 7 == 0 { 0 } else { (o * 37) % 11 * 100 };
                    entries.push((format!("object{}", o), size));
                }
            }
            reports.push((b as u32, entries));
        }
        let maps: Vec<(u32, FxHashMap<String, u64>)> = reports
            .iter()
            .map(|(b, entries)| (*b, entries.iter().cloned().collect()))
            .collect();
        let weights = compute_weights(&names, maps).unwrap();
        let got: Vec<_> = weights.iter().map(fields).collect();
        assert_eq!(got, expected_weights(&names, &reports), "round {}", round);
    }
}

#[test]
fn merged_table_agrees_with_a_plain_merge() {
    let mut random = Lcg(99);
    let mut reports: Vec<(u32, FxHashMap<String, u64>)> = Vec::new();
    let mut expected: BTreeMap<String, (u64, BTreeSet<u32>)> = BTreeMap::new();
    for b in 0..20u32 {
        let mut map = FxHashMap::default();
        for o in 0..50u64 {
            if random.next(4) == 0 {
                let id = format!("object{}", o);
                map.insert(id.clone(), o * 10 + b as u64);
                expected.entry(id).or_insert((o * 10 + b as u64, BTreeSet::new())).1.insert(b);
            }
        }
        reports.push((b, map));
    }
    let table = merge_reports(reports);
    assert_eq!(table.len(), expected.len());
    for (id, (size, contributors)) in &expected {
        let info = &table[id];
        assert_eq!(info.size, *size);
        let got: BTreeSet<u32> = info.branches.iter().copied().collect();
        assert_eq!(&got, contributors);
    }
}

#[test]
fn overflow_is_told_from_the_largest_fit() {
    let names = vec!["a".to_string()];
    let mut map = FxHashMap::default();
    map.insert("x".to_string(), u64::MAX - 5);
    map.insert("y".to_string(), 5u64);
    let weights = compute_weights(&names, vec![(0, map.clone())]).unwrap();
    assert_eq!(weights[0].unique_size, u64::MAX);
    map.insert("z".to_string(), 1u64);
    assert_eq!(compute_weights(&names, vec![(0, map)]).err(), Some(Error::SizeOverflow));
}
