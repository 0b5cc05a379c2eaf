use github_actions_local_cache::config::CacheContext;
use github_actions_local_cache::digest::{sha256, PayloadHasher};
use github_actions_local_cache::entry::{
    check_claim_contents, check_claim_file, check_complete_marker, check_entry_directory,
    check_json_file, check_payload_file, check_private_directory, classify_validation,
    entry_directory, is_entry_path, is_foreign_namespace, join_path_text, lock_path,
    quarantinable, quarantine_name, repository_directory, validate_entry, validate_metadata,
    Validation,
};
use github_actions_local_cache::archive::portable_path;
use github_actions_local_cache::entry::{check_metadata_len, saved_metadata, staging_name};
use github_actions_local_cache::model::{ArchiveEntry, CompleteMarker, EntryKind, EntryMetadata};
use github_actions_local_cache::CacheError;

fn context() -> CacheContext {
    CacheContext {
        cache_root: "/srv/cache".to_owned(),
        workspace: "/home/runner/work".to_owned(),
        repository_id: "12345".to_owned(),
        arch: "x64".to_owned(),
    }
}

fn metadata() -> EntryMetadata {
    EntryMetadata {
        schema: 1,
        archive_policy: 1,
        key: "key".to_owned(),
        created_at: "2026-08-28T00:00:00Z".to_owned(),
        payload_bytes: 10,
        payload_sha256: "a".repeat(64),
        os: "linux".to_owned(),
        arch: "x64".to_owned(),
        paths: vec!["file".to_owned(), "dir/nested".to_owned()],
    }
}

#[test]
fn entry_layout_is_addressed_by_key_digest() {
    let context = context();
    assert_eq!(repository_directory(&context), "/srv/cache/v1/12345");
    let digest = sha256("build-v1");
    assert_eq!(
        entry_directory(&context, &digest),
        format!("/srv/cache/v1/12345/{digest}")
    );
    let mut root = context.clone();
    root.cache_root = "/".to_owned();
    assert_eq!(repository_directory(&root), "/v1/12345");
    assert_eq!(lock_path("/r", "abc"), "/r/abc.lock");
    assert_eq!(join_path_text("/a/", "b"), "/a/b");
    assert_eq!(join_path_text("/a", "/b"), "/b");
    assert_eq!(join_path_text("", "b"), "b");
    assert_eq!(quarantine_name("abc", "u-1"), ".quarantine-abc-u-1");
}

#[test]
fn metadata_is_validated_against_runner_and_address() {
    let context = context();
    let good = metadata();
    assert!(validate_metadata(&good, &context, &sha256("key")).is_ok());
    assert!(good.compatible(&context));

    let wrong_address = validate_metadata(&good, &context, &sha256("other")).unwrap_err();
    assert_eq!(wrong_address.code, "invalid-entry");
    assert_eq!(wrong_address.message, "entry key or address is invalid");

    let mut arm = good.clone();
    arm.arch = "arm64".to_owned();
    let incompatible = validate_metadata(&arm, &context, &sha256("key")).unwrap_err();
    assert_eq!(incompatible.code, "incompatible-entry");

    let mut schema = good.clone();
    schema.schema = 2;
    assert_eq!(
        validate_metadata(&schema, &context, &sha256("key")).unwrap_err().code,
        "incompatible-entry"
    );

    let mut payload = good.clone();
    payload.payload_sha256 = "A".repeat(64);
    assert_eq!(
        validate_metadata(&payload, &context, &sha256("key")).unwrap_err().message,
        "entry payload fields are invalid"
    );
    let mut too_big = good.clone();
    too_big.payload_bytes = 2 * 1024 * 1024 * 1024 + 1;
    assert_eq!(
        validate_metadata(&too_big, &context, &sha256("key")).unwrap_err().message,
        "entry payload fields are invalid"
    );

    let mut time = good.clone();
    time.created_at = "2026-08-28T00:00:00".to_owned();
    assert_eq!(
        validate_metadata(&time, &context, &sha256("key")).unwrap_err().message,
        "entry timestamp is invalid"
    );
    let mut offset = good.clone();
    offset.created_at = "2026-08-28T01:02:03.5+02:00".to_owned();
    assert!(validate_metadata(&offset, &context, &sha256("key")).is_ok());

    for bad in ["", "/abs", "a//b", "a/../b", "a/", ".."] {
        let mut paths = good.clone();
        paths.paths = vec![bad.to_owned()];
        assert_eq!(
            validate_metadata(&paths, &context, &sha256("key")).unwrap_err().message,
            "entry paths are invalid",
            "{bad}"
        );
    }

    let mut long = good.clone();
    long.key = "é".repeat(257);
    assert_eq!(
        validate_metadata(&long, &context, &sha256(&long.key)).unwrap_err().message,
        "entry key or address is invalid"
    );
}

#[test]
fn recorded_paths_are_relative_segments() {
    assert!(is_entry_path("a/b.c/d"));
    assert!(is_entry_path("..a/b.."));
    assert!(is_entry_path("."));
    assert!(!is_entry_path("a/../b"));
    assert!(!is_entry_path("a/"));
}

#[test]
fn entry_files_are_checked() {
    let m = metadata();
    assert!(check_entry_directory(true, false).is_ok());
    assert_eq!(
        check_entry_directory(true, true).unwrap_err().message,
        "entry is not a regular directory"
    );
    assert!(check_json_file(true, false, 1024 * 1024).is_ok());
    assert_eq!(
        check_json_file(true, false, 1024 * 1024 + 1).unwrap_err().message,
        "entry JSON file is invalid"
    );
    let complete = CompleteMarker { schema: 1, payload_sha256: "a".repeat(64) };
    assert!(check_complete_marker(&complete, &m).is_ok());
    let other = CompleteMarker { schema: 1, payload_sha256: "b".repeat(64) };
    assert_eq!(
        check_complete_marker(&other, &m).unwrap_err().message,
        "complete marker is invalid"
    );
    assert!(check_payload_file(true, false, 1, 10, &m).is_ok());
    assert_eq!(
        check_payload_file(true, false, 2, 10, &m).unwrap_err().message,
        "payload type or size is invalid"
    );
    assert!(check_payload_file(true, false, 1, 11, &m).is_err());
    let payload = |bytes: &[u8]| {
        let mut hasher = PayloadHasher::new();
        hasher.update(bytes);
        hasher
    };
    let mut recorded = m.clone();
    recorded.payload_sha256 = sha256("payload bytes");
    assert_eq!(validate_entry(recorded.clone(), payload(b"payload bytes")).unwrap().key, "key");
    assert_eq!(
        validate_entry(recorded, payload(b"payload byteS")).unwrap_err().message,
        "payload digest does not match metadata"
    );
    assert!(validate_entry(m, payload(b"")).is_err());
}

#[test]
fn root_claim_and_namespaces() {
    assert!(check_claim_file(true, false, 7, 7, 0o100600, 6).is_ok());
    assert_eq!(
        check_claim_file(true, false, 7, 7, 0o644, 6).unwrap_err().code,
        "invalid-root"
    );
    assert!(check_claim_file(true, false, 7, 7, 0o600, 33).is_err());
    assert!(check_claim_contents("12345\n", "12345").is_ok());
    assert_eq!(
        check_claim_contents("999\n", "12345").unwrap_err().code,
        "shared-root-detected"
    );
    assert!(check_claim_contents("12345", "12345").is_err());
    assert!(is_foreign_namespace("999", "12345"));
    assert!(!is_foreign_namespace("12345", "12345"));
    assert!(!is_foreign_namespace(".tmp", "12345"));
    assert!(!is_foreign_namespace("", "12345"));
    assert!(check_private_directory(true, false, 0o700, 5, 5).is_ok());
    assert_eq!(
        check_private_directory(true, false, 0o700, 4, 5).unwrap_err().message,
        "cache namespaces must be owned by the runner user"
    );
    assert_eq!(
        check_private_directory(true, true, 0o700, 5, 5).unwrap_err().message,
        "cache namespaces must be non-symlinked mode-0700 directories"
    );
}

#[test]
fn invalid_entries_are_set_aside_and_other_errors_reported() {
    assert!(quarantinable(&CacheError::new("invalid-entry", "x")));
    assert!(quarantinable(&CacheError::new("incompatible-entry", "x")));
    assert!(!quarantinable(&CacheError::new("lock-timeout", "x")));
    assert!(matches!(classify_validation::<u8>(Ok(3)), Validation::Accepted(3)));
    assert!(matches!(
        classify_validation::<u8>(Err(CacheError::new("invalid-entry", "x"))),
        Validation::SetAside(_)
    ));
    assert!(matches!(
        classify_validation::<u8>(Err(CacheError::new("payload-read", "x"))),
        Validation::Failed(_)
    ));
}

#[test]
fn saved_metadata_is_accepted_by_restore() {
    let context = context();
    let source = |absolute: &str, kind: EntryKind| ArchiveEntry {
        relative: portable_path(&context.workspace, absolute).unwrap(),
        absolute: absolute.to_owned(),
        kind,
        mode: 0o644,
        size: 0,
        modified_nanos: 0,
        device: 1,
        inode: 2,
    };
    let entries = vec![
        source("/home/runner/work/out", EntryKind::Directory),
        source("/home/runner/work/out/./data.bin", EntryKind::File),
    ];
    let digest = "0123456789abcdef".repeat(4);
    let saved = saved_metadata(
        "build-v1",
        "2026-08-28T12:30:00Z".to_owned(),
        42,
        digest.clone(),
        &context,
        &entries,
    );
    assert_eq!(saved.schema, 1);
    assert_eq!(saved.archive_policy, 1);
    assert_eq!(saved.key, "build-v1");
    assert_eq!(saved.os, "linux");
    assert_eq!(saved.arch, "x64");
    assert_eq!(saved.payload_bytes, 42);
    assert_eq!(saved.paths, vec!["out".to_owned(), "out/data.bin".to_owned()]);
    assert!(validate_metadata(&saved, &context, &sha256("build-v1")).is_ok());
    let complete = CompleteMarker { schema: 1, payload_sha256: digest.clone() };
    assert!(check_complete_marker(&complete, &saved).is_ok());
    assert!(validate_metadata(&saved, &context, &sha256("build-v2")).is_err());
}

#[test]
fn staging_names_and_metadata_limit() {
    assert_eq!(staging_name("abc", "u-1"), ".tmp-abc-u-1");
    assert!(check_metadata_len(0).is_ok());
    assert!(check_metadata_len(1024 * 1024).is_ok());
    let error = check_metadata_len(1024 * 1024 + 1).unwrap_err();
    assert_eq!(error.code, "metadata-limit");
    assert_eq!(error.message, "metadata exceeds 1 MiB");
}
