use csv_render::index::{
    default_glob_exclude, default_glob_include, default_status, default_true, CsvIndexEntry, IndexError,
    IndexRules, RepoIndex as CheckedIndex,
};
use csv_render::index_scan::{scan_repo as scan_checked, walk_root, ScanError};
use csv_render::scan::{
    scan_exclude_globs, scan_include_globs, scan_repo, scan_report, scan_root, CsvFileEntry, RepoIndex, RepoRules,
    ScanResult,
};

fn s(x: &str) -> String {
    x.to_string()
}

fn entry(id: &str, path: &str) -> CsvFileEntry {
    CsvFileEntry { id: s(id), path: s(path), schema: None, status: None, description: None, tags: None }
}

fn legacy_index(root: Option<&str>, entries: Vec<CsvFileEntry>, rules: Option<RepoRules>) -> RepoIndex {
    RepoIndex { version: 1, root: root.map(s), csv_files: entries, rules }
}

#[test]
fn scan_root_and_globs_default() {
    let idx = legacy_index(None, vec![], None);
    assert_eq!(scan_root("/repo", &idx), "/repo");
    assert_eq!(scan_include_globs(&idx), vec![s("**/*.csv")]);
    assert_eq!(scan_exclude_globs(&idx), vec![s("target/**"), s(".git/**")]);
    let rules = RepoRules {
        fail_on_unregistered_csv: None,
        fail_on_duplicate_paths: None,
        fail_on_duplicate_ids: None,
        include_globs: Some(vec![s("data/*.csv")]),
        exclude_globs: None,
    };
    let idx = legacy_index(Some("sub"), vec![], Some(rules));
    assert_eq!(scan_root("/repo", &idx), "/repo/sub");
    assert_eq!(scan_include_globs(&idx), vec![s("data/*.csv")]);
    assert_eq!(scan_exclude_globs(&idx), vec![s("target/**"), s(".git/**")]);
}

#[test]
fn scan_finds_unregistered_missing_and_duplicates() {
    let idx = legacy_index(
        None,
        vec![entry("a", "data/a.csv"), entry("c", "data/c.csv"), entry("a", "data//c.csv")],
        None,
    );
    let walked = vec![s("/repo/data/a.csv"), s("/repo/data/b.csv"), s("/repo/data/a.csv")];
    let r = scan_repo("/repo", &idx, &walked);
    assert_eq!(r.unregistered_csvs, vec![s("data/b.csv")]);
    assert_eq!(r.missing_csvs, vec![s("data/c.csv")]);
    assert_eq!(r.duplicate_ids, vec![s("a")]);
    assert_eq!(r.duplicate_paths, vec![s("data/c.csv")]);
    assert!(!r.is_clean());

    let rep = scan_report(&idx, &r);
    assert_eq!(rep.exit_code, 1);
    assert_eq!(rep.ok_message, None);
    assert_eq!(
        rep.messages,
        vec![
            s("Duplicate CSV ids found in repo-index.yaml:"),
            s("  - a"),
            s("Duplicate CSV paths found in repo-index.yaml:"),
            s("  - data/c.csv"),
            s("Unregistered CSV files discovered in repository:"),
            s("  - data/b.csv"),
            s("CSV files listed in repo-index.yaml but missing on disk:"),
            s("  - data/c.csv"),
        ]
    );
}

#[test]
fn clean_scan_reports_ok() {
    let idx = legacy_index(Some("sub"), vec![entry("a", "a.csv")], None);
    let r = scan_repo("/repo", &idx, &vec![s("/repo/sub/a.csv")]);
    assert!(r.is_clean());
    let rep = scan_report(&idx, &r);
    assert_eq!(rep.exit_code, 0);
    assert!(rep.messages.is_empty());
    assert_eq!(rep.ok_message, Some(s("csv-cli scan: OK (all CSV files match repo-index.yaml)")));
}

#[test]
fn rules_can_tolerate_findings_but_not_missing_files() {
    let rules = RepoRules {
        fail_on_unregistered_csv: Some(false),
        fail_on_duplicate_paths: Some(false),
        fail_on_duplicate_ids: Some(false),
        include_globs: None,
        exclude_globs: None,
    };
    let idx = legacy_index(None, vec![entry("a", "a.csv"), entry("a", "a.csv")], Some(rules));
    let r = scan_repo("/repo", &idx, &vec![s("/repo/a.csv"), s("/repo/b.csv")]);
    assert_eq!(r.unregistered_csvs, vec![s("b.csv")]);
    assert!(r.missing_csvs.is_empty());
    let rep = scan_report(&idx, &r);
    assert_eq!(rep.exit_code, 0);
    assert_eq!(rep.messages.len(), 6);
    let missing = ScanResult {
        unregistered_csvs: vec![],
        missing_csvs: vec![s("gone.csv")],
        duplicate_ids: vec![],
        duplicate_paths: vec![],
    };
    assert_eq!(scan_report(&idx, &missing).exit_code, 1);
}

fn checked_entry(id: &str, path: &str) -> CsvIndexEntry {
    CsvIndexEntry { id: s(id), path: s(path), schema: s("configs/schema.yaml"), status: default_status() }
}

fn checked_index(root: Option<&str>, entries: Vec<CsvIndexEntry>) -> CheckedIndex {
    CheckedIndex { version: 1, root: root.map(s), csv_files: entries, rules: IndexRules::default() }
}

#[test]
fn index_defaults() {
    assert_eq!(default_status(), "current");
    assert!(default_true());
    assert_eq!(default_glob_include(), vec![s("**/*.csv")]);
    assert_eq!(default_glob_exclude(), vec![s("target/**"), s(".git/**")]);
    let r = IndexRules::default();
    assert!(r.fail_on_unregistered_csv && r.fail_on_duplicate_ids && r.fail_on_duplicate_paths);
}

#[test]
fn default_root_and_resolution() {
    let mut idx = checked_index(None, vec![]);
    assert_eq!(idx.resolve_path("data/a.csv"), "data/a.csv");
    idx.set_default_root();
    assert_eq!(idx.root, Some(s(".")));
    assert_eq!(idx.resolve_path("data/a.csv"), "./data/a.csv");
    assert_eq!(idx.resolve_path("/abs/a.csv"), "/abs/a.csv");
    let mut kept = checked_index(Some("repo"), vec![]);
    kept.set_default_root();
    assert_eq!(kept.root, Some(s("repo")));
}

#[test]
fn index_invariants_are_checked_in_order() {
    let idx = checked_index(Some("."), vec![checked_entry("a", "x.csv"), checked_entry("b", "y.csv")]);
    assert!(idx.check_invariants(&vec![true, true]).is_ok());
    match idx.check_invariants(&vec![true, false]) {
        Err(IndexError::MissingFile { path }) => assert_eq!(path, "./y.csv"),
        other => panic!("unexpected {:?}", other),
    }
    let dup = checked_index(Some("."), vec![checked_entry("a", "x.csv"), checked_entry("a", "x.csv")]);
    match dup.check_invariants(&vec![true, true]) {
        Err(IndexError::DuplicateId { id }) => assert_eq!(id, "a"),
        other => panic!("unexpected {:?}", other),
    }
    let dup_path = checked_index(Some("."), vec![checked_entry("a", "x.csv"), checked_entry("b", "x.csv")]);
    match dup_path.check_invariants(&vec![true, true]) {
        Err(IndexError::DuplicatePath { path }) => assert_eq!(path, "./x.csv"),
        other => panic!("unexpected {:?}", other),
    }
}

#[test]
fn tolerated_duplicates_still_need_files() {
    let mut idx = checked_index(Some("."), vec![checked_entry("a", "x.csv"), checked_entry("a", "x.csv")]);
    idx.rules.fail_on_duplicate_ids = false;
    idx.rules.fail_on_duplicate_paths = false;
    assert!(idx.check_invariants(&vec![true, true]).is_ok());
    assert!(idx.check_invariants(&vec![true, false]).is_err());
}

#[test]
fn by_id_keeps_the_last_entry() {
    let idx = checked_index(None, vec![checked_entry("a", "1.csv"), checked_entry("b", "2.csv"), checked_entry("a", "3.csv")]);
    let m = idx.by_id();
    assert_eq!(m.len(), 2);
    assert_eq!(m.get("a").map(|e| e.path.clone()), Some(s("3.csv")));
    assert_eq!(m.get("b").map(|e| e.path.clone()), Some(s("2.csv")));
    assert!(m.get("c").is_none());
}

#[test]
fn index_scan_reports_unregistered_csv_files() {
    let idx = checked_index(Some("."), vec![checked_entry("a", "x.csv")]);
    assert_eq!(walk_root(&idx), ".");
    assert_eq!(walk_root(&checked_index(None, vec![])), ".");
    let walked = vec![s("./x.csv"), s("./notes.txt"), s("./y.csv"), s("./y.csv")];
    match scan_checked(&idx, &walked) {
        Err(ScanError::Unregistered(files)) => assert_eq!(files, vec![s("./y.csv")]),
        other => panic!("unexpected {:?}", other),
    }
    assert!(scan_checked(&idx, &vec![s("./x.csv"), s("./readme.md")]).is_ok());
    let mut lenient = checked_index(Some("."), vec![]);
    lenient.rules.fail_on_unregistered_csv = false;
    assert!(scan_checked(&lenient, &walked).is_ok());
}
