use git_branch_weight::error::Error;
use git_branch_weight::git::{
    blob_entry, cat_file_args, collect_blobs, default_branch_candidates, for_each_ref_args,
    next_baseline_step, object_id_of_line, parse_blob_line, parse_branch_line,
    parse_branch_listing, parse_object_line, record_blob_line, rev_list_args, rev_parse_args,
    BaselineStep, ObjectLine,
};
use rustc_hash::FxHashMap;

fn pair(name: &str, tip: &str) -> (String, String) {
    (name.to_string(), tip.to_string())
}

fn detect_with(resolves: &dyn Fn(&str) -> Result<bool, Error>) -> Result<String, Error> {
    let mut outcomes: Vec<bool> = Vec::new();
    loop {
        match next_baseline_step(&outcomes) {
            BaselineStep::Probe(name) => outcomes.push(resolves(&name)?),
            BaselineStep::Found(name) => return Ok(name),
            BaselineStep::Undetectable => return Err(Error::NoDefaultBranch),
        }
    }
}

#[test]
fn test_detect_default_branch() {
    let result = detect_with(&|name| Ok(name == "refs/heads/main"));
    assert!(result.is_ok());
    let branch = result.unwrap();
    assert!(branch == "refs/heads/master" || branch == "refs/heads/main");
}

#[test]
fn test_detect_default_branch_nonexistent_repo() {
    let result = detect_with(&|_name| Err(Error::RevParse));
    assert!(result.is_err());
    let result = detect_with(&|_name| Ok(false));
    assert!(result.is_err());
}

#[test]
fn baseline_search_prefers_master() {
    assert_eq!(detect_with(&|_name| Ok(true)), Ok("refs/heads/master".to_string()));
    assert_eq!(
        detect_with(&|name| Ok(name == "refs/heads/master")),
        Ok("refs/heads/master".to_string())
    );
    assert_eq!(
        detect_with(&|name| Ok(name == "refs/heads/main")),
        Ok("refs/heads/main".to_string())
    );
    assert_eq!(detect_with(&|_name| Ok(false)), Err(Error::NoDefaultBranch));
}

#[test]
fn baseline_search_step_by_step() {
    assert_eq!(
        next_baseline_step(&vec![]),
        BaselineStep::Probe("refs/heads/master".to_string())
    );
    assert_eq!(
        next_baseline_step(&vec![true]),
        BaselineStep::Found("refs/heads/master".to_string())
    );
    assert_eq!(
        next_baseline_step(&vec![false]),
        BaselineStep::Probe("refs/heads/main".to_string())
    );
    assert_eq!(
        next_baseline_step(&vec![false, true]),
        BaselineStep::Found("refs/heads/main".to_string())
    );
    assert_eq!(next_baseline_step(&vec![false, false]), BaselineStep::Undetectable);
    assert_eq!(
        next_baseline_step(&vec![true, true]),
        BaselineStep::Found("refs/heads/master".to_string())
    );
    assert_eq!(next_baseline_step(&vec![false, false, true]), BaselineStep::Undetectable);
}

#[test]
fn candidates_are_master_and_main() {
    assert_eq!(
        default_branch_candidates(),
        vec!["refs/heads/master".to_string(), "refs/heads/main".to_string()]
    );
}

#[test]
fn branch_line_gives_name_and_tip() {
    assert_eq!(
        parse_branch_line("refs/heads/feature/x 1a2b3c"),
        Some(pair("feature/x", "1a2b3c"))
    );
    assert_eq!(
        parse_branch_line("refs/remotes/origin/topic 4d5e6f"),
        Some(pair("origin/topic", "4d5e6f"))
    );
    assert_eq!(parse_branch_line("refs/tags/v1 778899"), Some(pair("refs/tags/v1", "778899")));
    assert_eq!(
        parse_branch_line("  refs/heads/spaced \t aabbcc  extra"),
        Some(pair("spaced", "aabbcc"))
    );
    assert_eq!(parse_branch_line("refs/heads/refs/heads/x 11"), Some(pair("refs/heads/x", "11")));
    assert_eq!(parse_branch_line("refs/heads/ 22"), Some(pair("", "22")));
}

#[test]
fn branch_line_without_a_branch() {
    assert_eq!(parse_branch_line("refs/remotes/origin/HEAD 1a2b3c"), None);
    assert_eq!(parse_branch_line("refs/heads/HEAD 1a2b3c"), None);
    assert_eq!(parse_branch_line("refs/heads/lonely"), None);
    assert_eq!(parse_branch_line(""), None);
    assert_eq!(parse_branch_line("   "), None);
    assert_eq!(parse_branch_line("HEAD 1a2b3c"), Some(pair("HEAD", "1a2b3c")));
    assert_eq!(parse_branch_line("refs/heads/AHEAD 1a"), Some(pair("AHEAD", "1a")));
}

#[test]
fn branch_listing_is_read_line_by_line() {
    let stdout = "refs/heads/a 1111\nrefs/remotes/origin/HEAD 2222\n\n\
                  refs/remotes/origin/b 3333\r\nbroken\nrefs/heads/c 4444";
    assert_eq!(
        parse_branch_listing(stdout),
        vec![pair("a", "1111"), pair("origin/b", "3333"), pair("c", "4444")]
    );
    assert!(parse_branch_listing("").is_empty());
}

#[test]
fn blob_line_gives_id_and_size() {
    assert_eq!(parse_blob_line("abc123 blob 42"), Some(("abc123".to_string(), 42)));
    assert_eq!(parse_blob_line("  abc123\tblob   0  trailing"), Some(("abc123".to_string(), 0)));
    assert_eq!(
        parse_blob_line("abc123 blob 18446744073709551615"),
        Some(("abc123".to_string(), u64::MAX))
    );
}

#[test]
fn blob_line_without_a_blob() {
    assert_eq!(parse_blob_line("abc123 tree 42"), None);
    assert_eq!(parse_blob_line("abc123 commit 42"), None);
    assert_eq!(parse_blob_line("abc123 tag 42"), None);
    assert_eq!(parse_blob_line("abc123 Blob 42"), None);
    assert_eq!(parse_blob_line("abc123 blob"), None);
    assert_eq!(parse_blob_line("abc123 missing"), None);
    assert_eq!(parse_blob_line("abc123 blob size"), None);
    assert_eq!(parse_blob_line("abc123 blob -1"), None);
    assert_eq!(parse_blob_line("abc123 blob 18446744073709551616"), None);
    assert_eq!(parse_blob_line(""), None);
}

#[test]
fn blob_lines_fill_the_map() {
    let mut blobs: FxHashMap<String, u64> = FxHashMap::default();
    record_blob_line(&mut blobs, "aaa blob 10");
    record_blob_line(&mut blobs, "bbb tree 20");
    record_blob_line(&mut blobs, "warning: stray output");
    record_blob_line(&mut blobs, "ccc blob 30");
    record_blob_line(&mut blobs, "aaa blob 10");
    record_blob_line(&mut blobs, "ddd blob many");
    assert_eq!(blobs.len(), 2);
    assert_eq!(blobs.get("aaa"), Some(&10));
    assert_eq!(blobs.get("ccc"), Some(&30));
    record_blob_line(&mut blobs, "aaa blob 11");
    assert_eq!(blobs.get("aaa"), Some(&11));
    assert_eq!(blobs.len(), 2);
}

#[test]
fn blobs_are_collected_from_the_probe() {
    let probe = vec![
        "aaa blob 10".to_string(),
        "bbb commit 200".to_string(),
        "ccc blob 30".to_string(),
        "short".to_string(),
    ];
    let blobs = collect_blobs(&probe);
    assert_eq!(blobs.len(), 2);
    assert_eq!(blobs.get("aaa"), Some(&10));
    assert_eq!(blobs.get("ccc"), Some(&30));
    assert!(collect_blobs(&Vec::new()).is_empty());
}

#[test]
fn object_id_is_the_first_token() {
    assert_eq!(object_id_of_line("abc123 src/main.rs"), Some("abc123".to_string()));
    assert_eq!(object_id_of_line("abc123"), Some("abc123".to_string()));
    assert_eq!(object_id_of_line(""), None);
}

#[test]
fn git_is_asked_with_these_arguments() {
    assert_eq!(
        for_each_ref_args(),
        vec![
            "for-each-ref",
            "--format=%(refname) %(objectname)",
            "--no-merged=HEAD",
            "refs/heads",
            "refs/remotes"
        ]
    );
    assert_eq!(
        rev_list_args("1a2b", "refs/heads/main"),
        vec!["rev-list", "--objects", "1a2b", "--not", "refs/heads/main"]
    );
    assert_eq!(
        cat_file_args(),
        vec!["cat-file", "--batch-check=%(objectname) %(objecttype) %(objectsize)"]
    );
    assert_eq!(
        rev_parse_args("refs/heads/master"),
        vec!["rev-parse", "--verify", "refs/heads/master"]
    );
}

#[test]
fn every_error_has_its_message() {
    assert_eq!(Error::ListBranches.message(), "Failed to run git for-each-ref");
    assert_eq!(Error::RevList.message(), "Failed to spawn git rev-list");
    assert_eq!(Error::CatFile.message(), "Failed to spawn git cat-file");
    assert_eq!(Error::RevParse.message(), "Failed to run git rev-parse");
    assert_eq!(
        Error::NoDefaultBranch.message(),
        "Could not detect default branch (master/main). Use --branch to specify."
    );
    assert_eq!(Error::TooManyBranches.message(), "Too many branches to number with 32 bits");
    assert_eq!(Error::SizeOverflow.message(), "The size of a branch exceeds 64 bits");
}

fn object(id: &str, kind: &str, size: &str) -> ObjectLine {
    ObjectLine { id: id.to_string(), kind: kind.to_string(), size: size.to_string() }
}

#[test]
fn object_line_gives_id_type_and_size() {
    assert_eq!(parse_object_line("abc123 blob 42"), Some(object("abc123", "blob", "42")));
    assert_eq!(parse_object_line("abc123 tree 7 more"), Some(object("abc123", "tree", "7")));
    assert_eq!(parse_object_line("abc123 missing x"), Some(object("abc123", "missing", "x")));
    assert_eq!(parse_object_line("abc123 missing"), None);
    assert_eq!(parse_object_line("fatal:"), None);
    assert_eq!(parse_object_line(""), None);
}

#[test]
fn only_blobs_of_readable_size_are_entered() {
    assert_eq!(blob_entry(&object("abc", "blob", "42")), Some(("abc".to_string(), 42)));
    assert_eq!(blob_entry(&object("abc", "blob", "0")), Some(("abc".to_string(), 0)));
    assert_eq!(blob_entry(&object("abc", "tree", "42")), None);
    assert_eq!(blob_entry(&object("abc", "commit", "42")), None);
    assert_eq!(blob_entry(&object("abc", "tag", "42")), None);
    assert_eq!(blob_entry(&object("abc", "blob", "4 2")), None);
    assert_eq!(blob_entry(&object("abc", "blob", "")), None);
}
