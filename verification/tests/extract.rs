use github_actions_local_cache::extract::{ExtractState, TarEntryType};
use github_actions_local_cache::model::EntryKind;

fn strings(values: &[&str]) -> Vec<String> {
    values.iter().map(|value| (*value).to_owned()).collect()
}

#[test]
fn extraction_accepts_a_well_formed_tree() {
    let mut state = ExtractState::new();
    let (path, kind) = state.accept_entry("artifacts/", TarEntryType::Directory).unwrap();
    assert_eq!(path, "artifacts");
    assert_eq!(kind, EntryKind::Directory);
    state.account_size(0).unwrap();
    let (_, kind) = state.accept_entry("artifacts/result.txt", TarEntryType::Regular).unwrap();
    assert_eq!(kind, EntryKind::File);
    state.account_size(16).unwrap();
    assert_eq!(state.files(), 2);
    assert_eq!(state.bytes(), 16);
    assert_eq!(
        state.finish(&strings(&["artifacts/result.txt", "artifacts"])).unwrap(),
        (2, 16)
    );
    let error = state.finish(&strings(&["artifacts"])).unwrap_err();
    assert_eq!(error.code, "invalid-entry");
    assert_eq!(error.message, "archive paths do not match metadata");
    assert!(state.finish(&strings(&["artifacts", "artifacts"])).is_err());
    assert!(state.finish(&strings(&["artifacts", "other"])).is_err());
}

#[test]
fn extraction_refuses_unsafe_entries() {
    let mut state = ExtractState::new();
    let traversal = state.accept_entry("../escape", TarEntryType::Regular).unwrap_err();
    assert_eq!(traversal.code, "unsafe-archive");
    let link = state.accept_entry("link", TarEntryType::Other).unwrap_err();
    assert_eq!(link.message, "links and special archive entries are unsupported");
    let orphan = state.accept_entry("missing/file", TarEntryType::Regular).unwrap_err();
    assert_eq!(orphan.message, "archive path has a missing or non-directory parent");
    let (path, _) = state.accept_entry("file", TarEntryType::Regular).unwrap();
    assert_eq!(path, "file");
    let duplicate = state.accept_entry("./file", TarEntryType::Regular);
    assert_eq!(duplicate.unwrap_err().code, "unsafe-archive");
    let again = state.accept_entry("file", TarEntryType::Directory).unwrap_err();
    assert_eq!(again.message, "archive contains duplicate paths");
    let under_file = state.accept_entry("file/x", TarEntryType::Regular).unwrap_err();
    assert_eq!(under_file.message, "archive path has a missing or non-directory parent");
    assert_eq!(state.files(), 1);
}

#[test]
fn extraction_enforces_size_limits() {
    let mut state = ExtractState::new();
    let large = state.account_size(1024 * 1024 * 1024 + 1).unwrap_err();
    assert_eq!(large.code, "file-limit");
    assert_eq!(large.message, "archive file exceeds 1 GiB");
    for _ in 0..8 {
        state.account_size(1024 * 1024 * 1024).unwrap();
    }
    assert_eq!(state.bytes(), 8 * 1024 * 1024 * 1024);
    let total = state.account_size(1).unwrap_err();
    assert_eq!(total.code, "size-limit");
    assert_eq!(total.message, "archive exceeds 8 GiB");
    assert_eq!(state.bytes(), 8 * 1024 * 1024 * 1024);
}

#[test]
fn extraction_counts_entries() {
    let mut state = ExtractState::new();
    for i in 0..100_000 {
        let name = format!("f{i}");
        state.accept_entry(&name, TarEntryType::Regular).unwrap();
    }
    let error = state.accept_entry("one-more", TarEntryType::Regular).unwrap_err();
    assert_eq!(error.code, "entry-limit");
    assert_eq!(state.files(), 100_000);
}
