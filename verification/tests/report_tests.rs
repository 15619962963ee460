use git_branch_weight::error::Error;
use git_branch_weight::objects::BranchWeight;
use git_branch_weight::report::{
    format_size_mb, full_report, full_reports, light_report, light_reports, summarize,
    BranchReportLight,
};

fn with_floats(size: u64) -> String {
    let mb = size as f64 / (1024.0 * 1024.0);
    if mb >= 0.1 {
        format!("{:.1} MB", mb)
    } else if mb >= 0.01 {
        format!("{:.2} MB", mb)
    } else {
        "0 MB".to_string()
    }
}

#[test]
fn test_format_size_mb_large() {
    assert_eq!(format_size_mb(1024 * 1024), "1.0 MB");
    assert_eq!(format_size_mb(1024 * 1024 * 100), "100.0 MB");
    assert_eq!(format_size_mb(1024 * 1024 * 1024), "1024.0 MB");
}

#[test]
fn test_format_size_mb_medium() {
    assert_eq!(format_size_mb(1024 * 100), "0.10 MB");
    assert_eq!(format_size_mb(1024 * 512), "0.5 MB");
}

#[test]
fn test_format_size_mb_small() {
    assert_eq!(format_size_mb(1024 * 10), "0 MB");
    assert_eq!(format_size_mb(1024 * 15), "0.01 MB");
}

#[test]
fn test_format_size_mb_zero() {
    assert_eq!(format_size_mb(0), "0 MB");
    assert_eq!(format_size_mb(100), "0 MB");
}

#[test]
fn format_size_mb_thresholds() {
    assert_eq!(format_size_mb(10485), "0 MB");
    assert_eq!(format_size_mb(10486), "0.01 MB");
    assert_eq!(format_size_mb(104857), "0.10 MB");
    assert_eq!(format_size_mb(104858), "0.1 MB");
}

#[test]
fn format_size_mb_rounds_half_to_even() {
    assert_eq!(format_size_mb(262144), "0.2 MB");
    assert_eq!(format_size_mb(786432), "0.8 MB");
    assert_eq!(format_size_mb(1048576 + 52428), "1.0 MB");
    assert_eq!(format_size_mb(1048576 + 52429), "1.1 MB");
    assert_eq!(format_size_mb(1048576 * 5 / 2 + 1048576 / 20), "2.5 MB");
}

#[test]
fn format_size_mb_agrees_with_double_precision() {
    let mut size: u64 = 1;
    while size < u64::MAX / 3 {
        for probe in [size - 1, size, size + 1, size + size / 7, size + size / 3] {
            assert_eq!(format_size_mb(probe), with_floats(probe), "size {}", probe);
        }
        size = size * 3 / 2 + 1;
    }
    for shift in 0..64 {
        let power: u64 = 1 << shift;
        for probe in [power - 1, power, power + 1, power + power / 4, power / 4 * 3] {
            assert_eq!(format_size_mb(probe), with_floats(probe), "size {}", probe);
        }
    }
    for step in 0..4096 {
        let probe: u64 = step * 6553;
        assert_eq!(format_size_mb(probe), with_floats(probe), "size {}", probe);
        let tie: u64 = step * 262144;
        assert_eq!(format_size_mb(tie), with_floats(tie), "size {}", tie);
    }
}

#[test]
fn format_size_mb_of_the_largest_sizes() {
    assert_eq!(format_size_mb(u64::MAX), with_floats(u64::MAX));
    assert_eq!(format_size_mb(u64::MAX), "17592186044416.0 MB");
    assert_eq!(format_size_mb((1 << 53) + 1), with_floats((1 << 53) + 1));
    assert_eq!(format_size_mb((1 << 53) + 3), with_floats((1 << 53) + 3));
    assert_eq!(format_size_mb(u64::MAX - 1024), with_floats(u64::MAX - 1024));
    assert_eq!(format_size_mb(u64::MAX - 1023), with_floats(u64::MAX - 1023));
}

fn weight(branch: &str, unique_size: u64, shared_size: u64) -> BranchWeight {
    BranchWeight {
        branch: branch.to_string(),
        unique_size,
        shared_size,
        total_size: unique_size + shared_size,
        object_count: 5,
        unique_count: 3,
        shared_count: 2,
    }
}

#[test]
fn test_branch_report_serialization() {
    let report = BranchReportLight {
        branch: "test/branch".to_string(),
        total_size_mb: "10.0 MB".to_string(),
        unique_size_mb: "8.0 MB".to_string(),
        shared_size_mb: "2.0 MB".to_string(),
    };
    let mut object = serde_json::Map::new();
    object.insert("branch".to_string(), serde_json::Value::String(report.branch));
    object.insert("totalSizeMB".to_string(), serde_json::Value::String(report.total_size_mb));
    object.insert("uniqueSizeMB".to_string(), serde_json::Value::String(report.unique_size_mb));
    object.insert("sharedSizeMB".to_string(), serde_json::Value::String(report.shared_size_mb));
    let json = serde_json::to_string(&serde_json::Value::Object(object)).unwrap();
    assert!(json.contains("\"branch\":\"test/branch\""));
    assert!(json.contains("\"totalSizeMB\":\"10.0 MB\""));
}

#[test]
fn light_report_states_the_sizes_as_text() {
    let report = light_report(&weight("test/branch", 8 * 1048576, 2 * 1048576));
    assert_eq!(report.branch, "test/branch");
    assert_eq!(report.total_size_mb, "10.0 MB");
    assert_eq!(report.unique_size_mb, "8.0 MB");
    assert_eq!(report.shared_size_mb, "2.0 MB");
}

#[test]
fn full_report_states_sizes_and_counts() {
    let report = full_report(&weight("topic", 1536 * 1024, 15360));
    assert_eq!(report.branch, "topic");
    assert_eq!(report.total_size_mb, "1.5 MB");
    assert_eq!(report.unique_size_mb, "1.5 MB");
    assert_eq!(report.shared_size_mb, "0.01 MB");
    assert_eq!(report.total_size, 1536 * 1024 + 15360);
    assert_eq!(report.unique_size, 1536 * 1024);
    assert_eq!(report.shared_size, 15360);
    assert_eq!(report.object_count, 5);
    assert_eq!(report.unique_object_count, 3);
    assert_eq!(report.shared_object_count, 2);
}

#[test]
fn reports_follow_the_branches() {
    let branches = vec![weight("a", 1048576, 0), weight("b", 0, 524288)];
    let full = full_reports(&branches);
    let light = light_reports(&branches);
    assert_eq!(full.len(), 2);
    assert_eq!(light.len(), 2);
    assert_eq!(full[0].branch, "a");
    assert_eq!(full[1].branch, "b");
    assert_eq!(full[1].shared_size_mb, "0.5 MB");
    assert_eq!(light[0].total_size_mb, "1.0 MB");
    assert_eq!(light[1].branch, "b");
    assert!(full_reports(&Vec::new()).is_empty());
    assert!(light_reports(&Vec::new()).is_empty());
}

#[test]
fn summary_adds_up_the_branches() {
    let branches = vec![weight("a", 1048576, 3), weight("b", 2 * 1048576, 524288 - 3)];
    let summary = summarize(&branches).unwrap();
    assert_eq!(summary.total_branches, 2);
    assert_eq!(summary.total_unique_size, 3 * 1048576);
    assert_eq!(summary.total_unique_size_mb, "3.0 MB");
    assert_eq!(summary.total_shared_size, 524288);
    assert_eq!(summary.total_shared_size_mb, "0.5 MB");

    let summary = summarize(&Vec::new()).unwrap();
    assert_eq!(summary.total_branches, 0);
    assert_eq!(summary.total_unique_size, 0);
    assert_eq!(summary.total_unique_size_mb, "0 MB");
    assert_eq!(summary.total_shared_size, 0);
    assert_eq!(summary.total_shared_size_mb, "0 MB");
}

#[test]
fn summary_beyond_64_bits_is_an_error() {
    let mut heavy = weight("a", u64::MAX, 0);
    heavy.total_size = u64::MAX;
    let mut light = weight("b", 1, 0);
    light.total_size = 1;
    assert_eq!(summarize(&vec![heavy.clone(), light.clone()]).err(), Some(Error::SizeOverflow));
    let mut shared = weight("c", 0, u64::MAX);
    shared.total_size = u64::MAX;
    let mut more = weight("d", 0, 1);
    more.total_size = 1;
    assert_eq!(summarize(&vec![shared, more]).err(), Some(Error::SizeOverflow));
    assert_eq!(summarize(&vec![heavy]).unwrap().total_unique_size, u64::MAX);
}
