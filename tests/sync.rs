use aeroftp::sync::{
    build_comparison_results, compare_file_pair, compare_timestamps, get_recommended_action,
    matches_lowered, should_exclude, timestamps_equal, CompareOptions, FileComparison, FileInfo,
    Inventory, SyncAction, SyncDirection, SyncResult, SyncStatus, Timestamp,
};
use chrono::Utc;

const T: i64 = 1_700_000_000;

fn ts(secs: i64, nanos: u32) -> Option<Timestamp> {
    Some(Timestamp { secs, nanos })
}

fn file(path: &str, size: u64, modified: Option<Timestamp>) -> FileInfo {
    FileInfo {
        name: path.rsplit('/').next().unwrap_or(path).to_string(),
        path: path.to_string(),
        size,
        modified,
        is_dir: false,
        checksum: None,
    }
}

fn dir(path: &str) -> FileInfo {
    FileInfo {
        name: path.to_string(),
        path: path.to_string(),
        size: 0,
        modified: ts(T, 0),
        is_dir: true,
        checksum: None,
    }
}

fn both_flags() -> CompareOptions {
    CompareOptions {
        compare_timestamp: true,
        compare_size: true,
        compare_checksum: false,
        exclude_patterns: Vec::new(),
        direction: SyncDirection::Bidirectional,
    }
}

fn inventory(files: Vec<(&str, FileInfo)>) -> Inventory {
    let mut inv = Inventory::new();
    for (p, f) in files {
        inv.insert(p.to_string(), f);
    }
    inv
}

fn paths(r: &[FileComparison]) -> Vec<String> {
    r.iter().map(|c| c.relative_path.clone()).collect()
}

#[test]
fn test_should_exclude() {
    let patterns = vec!["node_modules".to_string(), "*.pyc".to_string()];

    assert!(should_exclude("node_modules/package/file.js", &patterns));
    assert!(should_exclude("src/__pycache__/module.pyc", &patterns));
    assert!(!should_exclude("src/main.rs", &patterns));
}

#[test]
fn test_compare_file_pair_local_only() {
    let now = Utc::now();
    let local = FileInfo {
        name: "test.txt".to_string(),
        path: "/local/test.txt".to_string(),
        size: 100,
        modified: Some(Timestamp { secs: now.timestamp(), nanos: now.timestamp_subsec_nanos() }),
        is_dir: false,
        checksum: None,
    };

    let options = CompareOptions::default();
    let status = compare_file_pair(Some(&local), None, &options);

    assert_eq!(status, SyncStatus::LocalOnly);
}

#[test]
fn exclusion_ignores_case() {
    let patterns = vec!["Node_Modules".to_string(), "*.PYC".to_string()];
    assert!(should_exclude("NODE_MODULES/pkg/index.js", &patterns));
    assert!(should_exclude("lib/Module.pyc", &patterns));
    assert!(!should_exclude("lib/module.py", &patterns));
}

#[test]
fn exclusion_lowercases_path_before_matching() {
    let patterns = vec!["main.rs".to_string()];
    assert!(should_exclude("SRC/Main.RS", &patterns));
}

#[test]
fn exclusion_substring_is_coarse() {
    let patterns = vec!["target".to_string()];
    assert!(should_exclude("docs/retargeting.md", &patterns));
    assert!(!should_exclude("docs/readme.md", &patterns));
}

#[test]
fn exclusion_star_is_suffix_only() {
    let patterns = vec!["*.log".to_string()];
    assert!(should_exclude("var/app.log", &patterns));
    assert!(!should_exclude("var/app.log.gz", &patterns));
    let star = vec!["*".to_string()];
    assert!(should_exclude("anything", &star));
}

#[test]
fn exclusion_with_no_patterns_keeps_everything() {
    assert!(!should_exclude("node_modules/x.js", &[]));
    let empty = vec!["".to_string()];
    assert!(should_exclude("x", &empty));
}

#[test]
fn lowered_pattern_matching() {
    assert!(matches_lowered("src/a.pyc", "*.pyc"));
    assert!(!matches_lowered("src/a.py", "*.pyc"));
    assert!(matches_lowered("a/node_modules/b", "node_modules"));
    assert!(!matches_lowered("a/node_module/b", "node_modules"));
    assert!(matches_lowered("abc", ""));
    assert!(!matches_lowered("ab", "abc"));
    assert!(matches_lowered("x*y", "*y"));
}

#[test]
fn timestamps_within_tolerance() {
    assert!(timestamps_equal(ts(T, 0), ts(T + 2, 0)));
    assert!(timestamps_equal(ts(T + 2, 999_999_999), ts(T, 0)));
    assert!(!timestamps_equal(ts(T + 3, 0), ts(T, 0)));
    assert!(!timestamps_equal(ts(T, 0), ts(T + 3, 0)));
    assert!(!timestamps_equal(None, ts(T, 0)));
    assert!(!timestamps_equal(ts(T, 0), None));
    assert!(!timestamps_equal(None, None));
}

#[test]
fn compare_timestamps_orders_beyond_tolerance() {
    assert_eq!(compare_timestamps(ts(T + 10, 0), ts(T, 0)), Some(SyncStatus::LocalNewer));
    assert_eq!(compare_timestamps(ts(T, 0), ts(T + 10, 0)), Some(SyncStatus::RemoteNewer));
    assert_eq!(compare_timestamps(ts(T + 3, 0), ts(T, 0)), Some(SyncStatus::LocalNewer));
    assert_eq!(compare_timestamps(ts(T, 0), ts(T + 3, 0)), Some(SyncStatus::RemoteNewer));
    assert_eq!(compare_timestamps(ts(T, 500_000_000), ts(T + 3, 0)), None);
    assert_eq!(compare_timestamps(ts(T, 0), ts(T + 1, 0)), None);
    assert_eq!(compare_timestamps(None, ts(T, 0)), None);
    assert_eq!(compare_timestamps(ts(T, 0), None), None);
}

#[test]
fn compare_timestamps_swaps_sides() {
    let pairs = [(T, T + 1), (T, T + 5), (T + 7, T), (T, T)];
    for (a, b) in pairs {
        let ab = compare_timestamps(ts(a, 0), ts(b, 0));
        let ba = compare_timestamps(ts(b, 0), ts(a, 0));
        let flipped = match ab {
            Some(SyncStatus::LocalNewer) => Some(SyncStatus::RemoteNewer),
            Some(SyncStatus::RemoteNewer) => Some(SyncStatus::LocalNewer),
            other => other,
        };
        assert_eq!(ba, flipped);
    }
}

#[test]
fn timestamps_extreme_values() {
    assert_eq!(
        compare_timestamps(ts(i64::MAX, 999_999_999), ts(i64::MIN, 0)),
        Some(SyncStatus::LocalNewer)
    );
    assert_eq!(
        compare_timestamps(ts(i64::MIN, 0), ts(i64::MAX, 0)),
        Some(SyncStatus::RemoteNewer)
    );
}

#[test]
fn local_only_whatever_the_options() {
    let f = file("a", 1, None);
    let mut o = both_flags();
    assert_eq!(compare_file_pair(Some(&f), None, &o), SyncStatus::LocalOnly);
    o.compare_size = false;
    o.compare_timestamp = false;
    assert_eq!(compare_file_pair(Some(&f), None, &o), SyncStatus::LocalOnly);
    o.exclude_patterns = vec!["a".to_string()];
    o.direction = SyncDirection::RemoteToLocal;
    assert_eq!(compare_file_pair(Some(&f), None, &o), SyncStatus::LocalOnly);
}

#[test]
fn remote_only_and_neither() {
    let f = file("a", 1, None);
    let o = both_flags();
    assert_eq!(compare_file_pair(None, Some(&f), &o), SyncStatus::RemoteOnly);
    assert_eq!(compare_file_pair(None, None, &o), SyncStatus::Identical);
}

#[test]
fn equal_size_close_times_identical() {
    let o = both_flags();
    let l = file("a", 10, ts(T, 0));
    let r = file("a", 10, ts(T + 2, 0));
    assert_eq!(compare_file_pair(Some(&l), Some(&r), &o), SyncStatus::Identical);
    assert_eq!(compare_file_pair(Some(&r), Some(&l), &o), SyncStatus::Identical);
}

#[test]
fn scenario_identical_one_second_apart() {
    let l = file("a.txt", 100, ts(T, 0));
    let r = file("a.txt", 100, ts(T + 1, 0));
    let o = CompareOptions::default();
    assert_eq!(compare_file_pair(Some(&l), Some(&r), &o), SyncStatus::Identical);
    let out = build_comparison_results(
        inventory(vec![("a.txt", l)]),
        inventory(vec![("a.txt", r)]),
        &o,
    );
    assert!(out.is_empty());
}

#[test]
fn scenario_size_mismatch() {
    let l = file("b.txt", 100, ts(T, 0));
    let r = file("b.txt", 200, ts(T, 0));
    assert_eq!(compare_file_pair(Some(&l), Some(&r), &both_flags()), SyncStatus::SizeMismatch);
}

#[test]
fn scenario_local_newer_despite_size() {
    let l = file("c.txt", 50, ts(T + 10, 0));
    let r = file("c.txt", 80, ts(T, 0));
    assert_eq!(compare_file_pair(Some(&l), Some(&r), &both_flags()), SyncStatus::LocalNewer);
    assert_eq!(compare_file_pair(Some(&r), Some(&l), &both_flags()), SyncStatus::RemoteNewer);
}

#[test]
fn size_differs_without_timestamps() {
    let l = file("d", 1, None);
    let r = file("d", 2, ts(T, 0));
    assert_eq!(compare_file_pair(Some(&l), Some(&r), &both_flags()), SyncStatus::SizeMismatch);
    let mut o = both_flags();
    o.compare_timestamp = false;
    let l2 = file("d", 1, ts(T + 100, 0));
    assert_eq!(compare_file_pair(Some(&l2), Some(&r), &o), SyncStatus::SizeMismatch);
}

#[test]
fn same_size_missing_timestamp_is_identical() {
    let l = file("e", 5, None);
    let r = file("e", 5, ts(T, 0));
    assert_eq!(compare_file_pair(Some(&l), Some(&r), &both_flags()), SyncStatus::Identical);
}

#[test]
fn size_ignored_when_disabled() {
    let mut o = both_flags();
    o.compare_size = false;
    let l = file("f", 1, ts(T, 0));
    let r = file("f", 999, ts(T + 50, 0));
    assert_eq!(compare_file_pair(Some(&l), Some(&r), &o), SyncStatus::RemoteNewer);
    o.compare_timestamp = false;
    assert_eq!(compare_file_pair(Some(&l), Some(&r), &o), SyncStatus::Identical);
}

#[test]
fn scenario_resolve_remote_only() {
    assert_eq!(
        get_recommended_action(&SyncStatus::RemoteOnly, &SyncDirection::RemoteToLocal),
        SyncAction::Download
    );
    assert_eq!(
        get_recommended_action(&SyncStatus::RemoteOnly, &SyncDirection::LocalToRemote),
        SyncAction::DeleteRemote
    );
}

#[test]
fn resolve_full_table() {
    let (up, down, skip, ask) =
        (SyncAction::Upload, SyncAction::Download, SyncAction::Skip, SyncAction::AskUser);
    let table = [
        (SyncStatus::LocalNewer, [up, up, skip]),
        (SyncStatus::RemoteNewer, [down, skip, down]),
        (SyncStatus::LocalOnly, [up, up, SyncAction::DeleteLocal]),
        (SyncStatus::RemoteOnly, [down, SyncAction::DeleteRemote, down]),
        (SyncStatus::Conflict, [ask, ask, ask]),
        (SyncStatus::SizeMismatch, [ask, ask, ask]),
        (SyncStatus::Identical, [skip, skip, skip]),
    ];
    let dirs = [
        SyncDirection::Bidirectional,
        SyncDirection::LocalToRemote,
        SyncDirection::RemoteToLocal,
    ];
    let mut n = 0;
    for (status, actions) in table {
        for (d, a) in dirs.iter().zip(actions) {
            assert_eq!(get_recommended_action(&status, d), a);
            assert_eq!(get_recommended_action(&status, d), get_recommended_action(&status, d));
            n += 1;
        }
    }
    assert_eq!(n, 21);
}

#[test]
fn scenario_excluded_path_absent() {
    let mut o = both_flags();
    o.exclude_patterns = vec!["node_modules".to_string()];
    let out = build_comparison_results(
        inventory(vec![("node_modules/x.js", file("node_modules/x.js", 3, ts(T, 0)))]),
        Inventory::new(),
        &o,
    );
    assert!(out.is_empty());
}

#[test]
fn excluded_paths_never_listed() {
    let o = CompareOptions::default();
    let out = build_comparison_results(
        inventory(vec![
            (".git/HEAD", file(".git/HEAD", 1, ts(T, 0))),
            ("src/lib.rs", file("src/lib.rs", 1, ts(T, 0))),
            ("build/x.PYC", file("build/x.PYC", 1, ts(T, 0))),
        ]),
        inventory(vec![
            ("target/debug/app", file("target/debug/app", 1, ts(T, 0))),
            ("README.md", file("README.md", 1, ts(T, 0))),
        ]),
        &o,
    );
    assert_eq!(paths(&out), vec!["README.md".to_string(), "src/lib.rs".to_string()]);
    for c in &out {
        assert!(!should_exclude(&c.relative_path, &o.exclude_patterns));
    }
}

#[test]
fn scenario_empty_inventories() {
    let out = build_comparison_results(Inventory::new(), Inventory::new(), &CompareOptions::default());
    assert!(out.is_empty());
}

#[test]
fn output_sorted_byte_wise() {
    let o = both_flags();
    let out = build_comparison_results(
        inventory(vec![
            ("b", file("b", 1, None)),
            ("a/b", file("a/b", 1, None)),
            ("\u{e9}", file("\u{e9}", 1, None)),
            ("B", file("B", 1, None)),
        ]),
        inventory(vec![("a", file("a", 1, None)), ("z", file("z", 1, None)), ("a-", file("a-", 1, None))]),
        &o,
    );
    let got = paths(&out);
    let mut expected = got.clone();
    expected.sort();
    assert_eq!(got, expected);
    assert_eq!(got, vec!["B", "a", "a-", "a/b", "b", "z", "\u{e9}"]);
    for w in got.windows(2) {
        assert!(w[0].as_bytes() < w[1].as_bytes());
    }
}

#[test]
fn build_records_carry_both_sides() {
    let o = both_flags();
    let out = build_comparison_results(
        inventory(vec![
            ("same.txt", file("same.txt", 4, ts(T, 0))),
            ("new.txt", file("new.txt", 4, ts(T + 60, 0))),
            ("mine.txt", file("mine.txt", 1, None)),
        ]),
        inventory(vec![
            ("same.txt", file("same.txt", 4, ts(T, 0))),
            ("new.txt", file("new.txt", 4, ts(T, 0))),
            ("theirs.txt", file("theirs.txt", 9, ts(T, 0))),
        ]),
        &o,
    );
    assert_eq!(paths(&out), vec!["mine.txt", "new.txt", "theirs.txt"]);
    assert_eq!(out[0].status, SyncStatus::LocalOnly);
    assert!(out[0].local_info.is_some() && out[0].remote_info.is_none());
    assert_eq!(out[1].status, SyncStatus::LocalNewer);
    assert_eq!(out[1].local_info.as_ref().unwrap().modified, ts(T + 60, 0));
    assert_eq!(out[1].remote_info.as_ref().unwrap().modified, ts(T, 0));
    assert_eq!(out[2].status, SyncStatus::RemoteOnly);
    assert_eq!(out[2].remote_info.as_ref().unwrap().size, 9);
    assert!(out.iter().all(|c| !c.is_dir));
}

#[test]
fn identical_directories_are_kept() {
    let o = both_flags();
    let out = build_comparison_results(
        inventory(vec![("docs", dir("docs")), ("docs/a", file("docs/a", 1, ts(T, 0)))]),
        inventory(vec![("docs", dir("docs")), ("docs/a", file("docs/a", 1, ts(T, 0)))]),
        &o,
    );
    assert_eq!(paths(&out), vec!["docs"]);
    assert_eq!(out[0].status, SyncStatus::Identical);
    assert!(out[0].is_dir);
}

#[test]
fn directory_flag_from_either_side() {
    let o = both_flags();
    let out = build_comparison_results(
        inventory(vec![("x", file("x", 0, ts(T, 0)))]),
        inventory(vec![("x", dir("x"))]),
        &o,
    );
    assert_eq!(out.len(), 1);
    assert!(out[0].is_dir);
}

#[test]
fn building_twice_gives_same_output() {
    let o = CompareOptions::default();
    let make = || {
        (
            inventory(vec![("k", file("k", 1, ts(T, 0))), ("m", file("m", 2, ts(T, 0)))]),
            inventory(vec![("k", file("k", 3, ts(T + 9, 0))), ("j", file("j", 2, ts(T, 0)))]),
        )
    };
    let (l1, r1) = make();
    let (l2, r2) = make();
    let a = build_comparison_results(l1, r1, &o);
    let b = build_comparison_results(l2, r2, &o);
    assert_eq!(paths(&a), paths(&b));
    assert_eq!(paths(&a), vec!["j", "k", "m"]);
    for (x, y) in a.iter().zip(b.iter()) {
        assert_eq!(x.status, y.status);
        assert_eq!(x.is_dir, y.is_dir);
    }
    assert_eq!(a[1].status, SyncStatus::RemoteNewer);
}

#[test]
fn inventory_insert_replaces() {
    let mut inv = Inventory::new();
    inv.insert("p".to_string(), file("p", 1, None));
    inv.insert("p".to_string(), file("p", 2, None));
    let out = build_comparison_results(inv, Inventory::new(), &both_flags());
    assert_eq!(out.len(), 1);
    assert_eq!(out[0].local_info.as_ref().unwrap().size, 2);
}

#[test]
fn default_options() {
    let o = CompareOptions::default();
    assert!(o.compare_timestamp);
    assert!(o.compare_size);
    assert!(!o.compare_checksum);
    assert_eq!(o.direction, SyncDirection::Bidirectional);
    assert_eq!(
        o.exclude_patterns,
        vec!["node_modules", ".git", ".DS_Store", "Thumbs.db", "__pycache__", "*.pyc", ".env", "target"]
    );
}

#[test]
fn sync_result_tally() {
    let mut r = SyncResult::new();
    assert_eq!((r.uploaded, r.downloaded, r.deleted, r.skipped), (0, 0, 0, 0));
    assert!(r.errors.is_empty());
    r.record_uploaded();
    r.record_uploaded();
    r.record_downloaded();
    r.record_deleted();
    r.record_skipped();
    r.record_error("upload of a.txt failed".to_string());
    assert_eq!((r.uploaded, r.downloaded, r.deleted, r.skipped), (2, 1, 1, 1));
    assert_eq!(r.errors, vec!["upload of a.txt failed".to_string()]);
}
