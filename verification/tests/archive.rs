use github_actions_local_cache::archive::{
    ancestors_below, PathMatcher,
    check_collected, check_entry_count, checked_entry_path, compressed_write_allowed,
    header_mtime, header_size, modified_nanos, opened_unchanged, paths_match_patterns,
    paths_within_scope, portable_path, portable_text, snapshot_entry, source_unchanged,
    streamed_unchanged, symlink_probe_paths, EntrySet,
};
use github_actions_local_cache::model::{ArchiveEntry, EntryKind};

fn strings(values: &[&str]) -> Vec<String> {
    values.iter().map(|value| (*value).to_owned()).collect()
}

fn entry(relative: &str, kind: EntryKind, size: u64) -> ArchiveEntry {
    ArchiveEntry {
        relative: relative.to_owned(),
        absolute: format!("/w/{relative}"),
        kind,
        mode: 0o644,
        size,
        modified_nanos: 1_500_000_000,
        device: 1,
        inode: 2,
    }
}

#[test]
fn archive_names_are_workspace_relative() {
    assert_eq!(portable_path("/w", "/w/a/b.txt").unwrap(), "a/b.txt");
    assert_eq!(portable_path("/w/", "/w//a/./b").unwrap(), "a/b");
    let root = portable_path("/w", "/w").unwrap_err();
    assert_eq!(root.code, "invalid-path");
    assert_eq!(root.message, "workspace root cannot be archived");
    assert_eq!(
        portable_path("/w", "/wx/a").unwrap_err().message,
        "path escapes workspace"
    );
    assert_eq!(
        portable_path("/w", "/w/../a").unwrap_err().message,
        "archive path is not portable"
    );
}

#[test]
fn restore_refuses_unsafe_entry_names() {
    assert_eq!(checked_entry_path("a/./b//c/").unwrap(), "a/b/c");
    for unsafe_name in ["../escape", "/abs", "./a", "a/../b", "."] {
        let error = checked_entry_path(unsafe_name).unwrap_err();
        assert_eq!(error.code, "unsafe-archive");
        assert_eq!(error.message, "absolute or traversal archive path");
    }
    assert_eq!(checked_entry_path("").unwrap_err().message, "empty archive path");
    let saved = portable_path("/w", "/w/x/y.bin").unwrap();
    assert_eq!(checked_entry_path(&saved).unwrap(), saved);
}

#[test]
fn restored_paths_must_lie_in_the_declared_scope() {
    let globbed = strings(&["dist/*.tgz"]);
    assert!(paths_match_patterns(&strings(&["dist/a.tgz"]), &globbed).unwrap());
    assert!(!paths_match_patterns(&strings(&["a.tgz"]), &globbed).unwrap());
    assert!(!paths_match_patterns(&strings(&["dist/x/a.tgz"]), &globbed).unwrap());
    assert!(paths_match_patterns(&strings(&["dist", "dist/a.tgz"]), &globbed).unwrap());
    assert!(!paths_match_patterns(&strings(&["dist", "dist/a.bin"]), &globbed).unwrap());
    assert!(
        !paths_match_patterns(&strings(&["dist/a.tgz"]), &strings(&["*.tgz"])).unwrap(),
        "a separator is literal"
    );
    let literal = strings(&["artifacts"]);
    assert!(paths_match_patterns(
        &strings(&["artifacts", "artifacts/empty", "artifacts/result.txt"]),
        &literal
    )
    .unwrap());
    assert!(!paths_match_patterns(&strings(&["artifactsx"]), &literal).unwrap());
    assert!(paths_match_patterns(&strings(&["dist/a.tgz"]), &strings(&["dist\\*.tgz"])).unwrap());
    assert!(paths_match_patterns(&strings(&[]), &globbed).unwrap());
    assert!(paths_match_patterns(&strings(&["a/b/c"]), &strings(&["a/**"])).unwrap());
    let error = paths_match_patterns(&strings(&["a"]), &strings(&["[a"])).unwrap_err();
    assert_eq!(error.code, "invalid-input");
}

#[test]
fn scope_rules_apply_to_given_match_flags() {
    let paths = strings(&["a", "a/b", "c"]);
    let patterns = strings(&["a/*"]);
    assert!(!paths_within_scope(&paths, &patterns, &[false, true, false]));
    assert!(paths_within_scope(&paths, &patterns, &[false, true, true]));
    assert!(paths_within_scope(&paths, &strings(&["c"]), &[false, true, false]));
    assert!(!paths_within_scope(&paths, &strings(&["c*"]), &[false, true, false]));
}

#[test]
fn symlink_probes_follow_literal_prefixes() {
    assert_eq!(
        symlink_probe_paths("/w", "a//b/*.c/d"),
        ["/w/a", "/w/a/b"]
    );
    assert_eq!(symlink_probe_paths("/w", "x\\y"), ["/w/x", "/w/x/y"]);
    assert!(symlink_probe_paths("/w", "**").is_empty());
    assert_eq!(portable_text("a\\b\\c"), "a/b/c");
}

#[test]
fn snapshots_refuse_links_special_files_and_large_files() {
    let file = snapshot_entry(
        "a".to_owned(), "/w/a".to_owned(), false, true, false, 1, 3, 0o100755, 2, 5, 9, 10,
    )
    .unwrap();
    assert_eq!(file.kind, EntryKind::File);
    assert_eq!(file.mode, 0o755);
    assert_eq!(file.modified_nanos, 2_000_000_005);
    let dir = snapshot_entry(
        "d".to_owned(), "/w/d".to_owned(), false, false, true, 3, 4096, 0o40700, 0, 0, 9, 11,
    )
    .unwrap();
    assert_eq!(dir.kind, EntryKind::Directory);
    let snap = |symlink, file, dir, links, len| {
        snapshot_entry("x".to_owned(), "/w/x".to_owned(), symlink, file, dir, links, len, 0, 0, 0, 0, 0)
            .unwrap_err()
    };
    assert_eq!(snap(true, true, false, 1, 1).message, "symlinks are unsupported");
    assert_eq!(snap(false, false, false, 1, 1).message, "special files are unsupported");
    assert_eq!(snap(false, true, false, 2, 1).message, "hard-linked files are unsupported");
    let large = snap(false, true, false, 1, 1024 * 1024 * 1024 + 1);
    assert_eq!(large.code, "file-limit");
    assert_eq!(modified_nanos(-1, 5), -999_999_995);
}

#[test]
fn entry_set_keeps_first_snapshot_in_name_order() {
    let mut set = EntrySet::new();
    assert!(set.insert_if_absent(entry("b", EntryKind::File, 1)));
    assert!(set.insert_if_absent(entry("a", EntryKind::Directory, 0)));
    assert!(set.insert_if_absent(entry("a/x", EntryKind::File, 2)));
    assert!(!set.insert_if_absent(entry("b", EntryKind::File, 99)));
    assert!(set.insert_if_absent(entry("a.txt", EntryKind::File, 3)));
    assert_eq!(set.len(), 4);
    let entries = set.into_entries();
    let names: Vec<&str> = entries.iter().map(|e| e.relative.as_str()).collect();
    assert_eq!(names, ["a", "a.txt", "a/x", "b"]);
    assert_eq!(entries[3].size, 1);
    assert_eq!(check_collected(&entries).unwrap(), 6);
}

#[test]
fn collected_entries_respect_limits() {
    assert!(check_entry_count(100_000).is_ok());
    assert_eq!(check_entry_count(100_001).unwrap_err().code, "entry-limit");
    let big = vec![
        entry("a", EntryKind::File, 5 * 1024 * 1024 * 1024),
        entry("b", EntryKind::File, 4 * 1024 * 1024 * 1024),
    ];
    let error = check_collected(&big).unwrap_err();
    assert_eq!(error.code, "size-limit");
    assert_eq!(error.message, "archive exceeds 8 GiB");
    let overflow = vec![entry("a", EntryKind::File, u64::MAX), entry("b", EntryKind::File, 1)];
    assert_eq!(check_collected(&overflow).unwrap_err().message, "archive size overflow");
    let dirs = vec![entry("a", EntryKind::Directory, u64::MAX)];
    assert_eq!(check_collected(&dirs).unwrap(), 0);
}

#[test]
fn archive_writing_rules() {
    assert_eq!(header_mtime(-5), 0);
    assert_eq!(header_mtime(999_999_999), 0);
    assert_eq!(header_mtime(1_700_000_000_123_456_789), 1_700_000_000);
    let file = entry("a", EntryKind::File, 7);
    let dir = entry("d", EntryKind::Directory, 4096);
    assert_eq!(header_size(&file), 7);
    assert_eq!(header_size(&dir), 0);
    assert!(opened_unchanged(&file, true, 1, 7, 1, 2));
    assert!(!opened_unchanged(&file, true, 1, 8, 1, 2));
    assert!(streamed_unchanged(&file, true, false, 1, 7, 1, 2, 1_500_000_000));
    assert!(!streamed_unchanged(&file, true, false, 1, 7, 1, 2, 1_500_000_001));
    assert!(source_unchanged(&dir, false, false, true, 2, 4096, 1, 2, 1_500_000_000));
    assert!(!source_unchanged(&dir, false, true, false, 1, 4096, 1, 2, 1_500_000_000));
    assert!(compressed_write_allowed(0, 2 * 1024 * 1024 * 1024));
    assert!(!compressed_write_allowed(1, 2 * 1024 * 1024 * 1024));
    assert!(!compressed_write_allowed(u64::MAX, 1));
}

#[test]
fn more_patterns_keep_paths_in_scope() {
    let paths = strings(&["dist", "dist/a.tgz", "docs/x.md"]);
    let patterns = strings(&["dist/*.tgz", "docs"]);
    let more = strings(&["build", "dist/*.tgz", "docs", "*.md"]);
    assert!(paths_match_patterns(&paths, &patterns).unwrap());
    assert!(paths_match_patterns(&paths, &more).unwrap());
    assert!(!paths_match_patterns(&paths, &strings(&["dist/*.tgz"])).unwrap());
    let error = paths_match_patterns(&paths, &strings(&["dist/[a"])).unwrap_err();
    assert_eq!(error.code, "invalid-input");
}

#[test]
fn ancestors_are_listed_nearest_first_below_the_workspace() {
    assert_eq!(
        ancestors_below("/w", "/w/a/b/c.txt").unwrap(),
        ["/w/a/b/c.txt", "/w/a/b", "/w/a"]
    );
    assert_eq!(ancestors_below("/w/", "/w/./a//b").unwrap(), ["/w/a/b", "/w/a"]);
    assert!(ancestors_below("/w", "/w").unwrap().is_empty());
    assert_eq!(ancestors_below("/", "/x").unwrap(), ["/x"]);
    let outside = ancestors_below("/w", "/other/a").unwrap_err();
    assert_eq!(outside.code, "invalid-path");
    assert_eq!(outside.message, "path escapes workspace");
    let traversal = ancestors_below("/w", "/w/a/../b").unwrap_err();
    assert_eq!(traversal.message, "archive path is not portable");
}

#[test]
fn walked_paths_are_selected_by_pattern() {
    let matcher = PathMatcher::new(&strings(&["dist/*.tgz"])).unwrap();
    assert!(!matcher.selects("/w", "/w", 0, false).unwrap());
    assert!(matcher.selects("/w", "/w/dist/a.tgz", 2, false).unwrap());
    assert!(!matcher.selects("/w", "/w/dist/a.bin", 2, false).unwrap());
    assert!(!matcher.selects("/w", "/w/dist/a.bin", 2, true).unwrap());
    let link = matcher.selects("/w", "/w/dist/a.tgz", 2, true).unwrap_err();
    assert_eq!(link.code, "unsupported-file");
    assert_eq!(link.message, "symlinks are unsupported");
    assert_eq!(matcher.selects("/w", "/v/a", 1, false).unwrap_err().code, "invalid-path");
}
