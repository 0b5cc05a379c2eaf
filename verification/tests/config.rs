use github_actions_local_cache::config::{
    check_root_metadata, normalize_absolute, parse_boolean, parse_lines, required_input,
    root_prefixes, select_cache_root,
};
use github_actions_local_cache::{validate_key, validate_patterns, CacheContext};

#[test]
fn parses_strict_input_grammar() {
    assert_eq!(parse_lines(" one\r\n\n two \n"), ["one", "two"]);
    assert!(parse_boolean("true", "flag").unwrap());
    assert!(parse_boolean("True", "flag").is_err());
    assert!(validate_key(&"é".repeat(256)).is_ok());
    assert!(validate_key(&"é".repeat(257)).is_err());
    assert!(validate_patterns(&["dist/**/*.tgz".to_owned()]).is_ok());
    assert!(validate_patterns(&["!ignored".to_owned()]).is_err());
    assert!(validate_patterns(&["../secret".to_owned()]).is_err());
}

#[test]
fn parse_lines_trims_unicode_space_and_drops_blank_lines() {
    assert_eq!(parse_lines("\u{a0} a \u{3000}\r\n\t\r\n b\n"), ["a", "b"]);
    assert!(parse_lines("").is_empty());
    assert!(parse_lines("\n\r\n  \n").is_empty());
    assert_eq!(parse_lines("x"), ["x"]);
    let parsed = parse_lines("  keep  inner  space \n");
    assert_eq!(parsed, ["keep  inner  space"]);
    assert_eq!(parse_lines(&parsed.join("\n")), parsed);
}

#[test]
fn parse_boolean_reports_the_input_name() {
    assert!(!parse_boolean("false", "flag").unwrap());
    let error = parse_boolean("", "fail-on-cache-error").unwrap_err();
    assert_eq!(error.code, "invalid-input");
    assert_eq!(error.message, "fail-on-cache-error must be exactly true or false");
}

#[test]
fn key_length_is_counted_in_bytes() {
    assert!(validate_key("").is_err());
    assert!(validate_key(&"a".repeat(512)).is_ok());
    let error = validate_key(&"a".repeat(513)).unwrap_err();
    assert_eq!(error.code, "invalid-input");
    assert_eq!(error.message, "key must contain 1-512 UTF-8 bytes");
}

#[test]
fn patterns_must_be_relative_and_positive() {
    let empty = validate_patterns(&[]).unwrap_err();
    assert_eq!(empty.message, "path must contain at least one path");
    let negated = validate_patterns(&["ok".to_owned(), "!no".to_owned()]).unwrap_err();
    assert_eq!(negated.message, "negated globs are unsupported");
    let absolute = validate_patterns(&["/etc".to_owned()]).unwrap_err();
    assert_eq!(absolute.message, "paths must be workspace-relative");
    let windows = validate_patterns(&["a\\..\\b".to_owned()]).unwrap_err();
    assert_eq!(windows.message, "paths must be workspace-relative");
    let rooted_windows = validate_patterns(&["\\abs".to_owned()]).unwrap_err();
    assert_eq!(rooted_windows.code, "invalid-input");
    assert!(validate_patterns(&["a/..b/c".to_owned(), "x...".to_owned()]).is_ok());
}

#[test]
fn absolute_paths_are_normalized() {
    assert_eq!(normalize_absolute("/a//b/./c/", "cache-dir").unwrap(), "/a/b/c");
    assert_eq!(normalize_absolute("/", "cache-dir").unwrap(), "/");
    let relative = normalize_absolute("a/b", "cache-dir").unwrap_err();
    assert_eq!(relative.code, "invalid-path");
    assert_eq!(relative.message, "cache-dir must be absolute");
    let parent = normalize_absolute("/a/../b", "GITHUB_WORKSPACE").unwrap_err();
    assert_eq!(parent.message, "GITHUB_WORKSPACE cannot contain parent traversal");
    let normal = normalize_absolute("/x/./y//z", "p").unwrap();
    assert_eq!(normalize_absolute(&normal, "p").unwrap(), normal);
}

#[test]
fn platform_inputs_are_checked_before_the_file_system() {
    let context =
        CacheContext::check_platform("/srv//cache/", "/home/w", "12345", "linux", "x86_64").unwrap();
    assert_eq!(context.cache_root, "/srv/cache");
    assert_eq!(context.workspace, "/home/w");
    assert_eq!(context.arch, "x64");
    let arm = CacheContext::check_platform("/c", "/w", "1", "linux", "aarch64").unwrap();
    assert_eq!(arm.arch, "arm64");
    let code = |r: github_actions_local_cache::Result<CacheContext>| r.unwrap_err().code;
    assert_eq!(code(CacheContext::check_platform("", "/w", "1", "linux", "x64")), "invalid-root");
    assert_eq!(
        code(CacheContext::check_platform("/c", "", "1", "linux", "x64")),
        "invalid-environment"
    );
    assert_eq!(code(CacheContext::check_platform("c", "/w", "1", "linux", "x64")), "invalid-path");
    assert_eq!(
        code(CacheContext::check_platform("/c", "/w", "12a", "linux", "x64")),
        "invalid-environment"
    );
    assert_eq!(
        code(CacheContext::check_platform("/c", "/w", "", "linux", "x64")),
        "invalid-environment"
    );
    assert_eq!(
        code(CacheContext::check_platform("/c", "/w", "1", "macos", "x64")),
        "unsupported-platform"
    );
    assert_eq!(
        code(CacheContext::check_platform("/c", "/w", "1", "linux", "riscv64")),
        "unsupported-platform"
    );
    assert_eq!(
        code(CacheContext::check_platform("/a", "/a/b", "1", "linux", "x64")),
        "invalid-root"
    );
    assert_eq!(
        code(CacheContext::check_platform("/srv/../cache", "/w", "1", "linux", "x64")),
        "invalid-path"
    );
    assert_eq!(code(CacheContext::check_platform("/c", "w", "1", "linux", "x64")), "invalid-path");
    assert_eq!(
        code(CacheContext::check_platform("/c", "/w/../x", "1", "linux", "x64")),
        "invalid-path"
    );
    assert_eq!(
        code(CacheContext::check_platform("/srv/work/cache", "/srv/work", "1", "linux", "x64")),
        "invalid-root"
    );
    assert_eq!(
        code(CacheContext::check_platform("/srv/./work", "/srv/work/", "1", "linux", "x64")),
        "invalid-root"
    );
    assert_eq!(
        code(CacheContext::check_platform("/a/b/", "/a", "1", "linux", "x64")),
        "invalid-root"
    );
    assert!(CacheContext::check_platform("/a/bc", "/a/b", "1", "linux", "x64").is_ok());
}

#[test]
fn root_prefixes_and_metadata_checks() {
    assert_eq!(root_prefixes("/a/b/c"), ["/a", "/a/b", "/a/b/c"]);
    assert!(root_prefixes("/").is_empty());
    assert!(check_root_metadata(true, 1000, 1000, 0o40700).is_ok());
    assert_eq!(
        check_root_metadata(false, 1000, 1000, 0o700).unwrap_err().message,
        "cache-dir must be a directory"
    );
    assert_eq!(
        check_root_metadata(true, 0, 1000, 0o700).unwrap_err().message,
        "cache-dir must be owned by the runner user"
    );
    assert_eq!(
        check_root_metadata(true, 1000, 1000, 0o755).unwrap_err().message,
        "cache-dir mode must be 0700"
    );
}

#[test]
fn required_inputs_and_root_selection() {
    assert_eq!(required_input("k", "key").unwrap(), "k");
    let error = required_input("", "path").unwrap_err();
    assert_eq!(error.code, "invalid-input");
    assert_eq!(error.message, "path is required");
    assert_eq!(select_cache_root(Some("/a"), Some("/b")), "/a");
    assert_eq!(select_cache_root(Some(""), Some("/b")), "/b");
    assert_eq!(select_cache_root(None, None), "");
}

#[test]
fn parsed_lists_written_back_parse_to_themselves() {
    for value in ["a\r\n b \n\n c", "", " \n\t", "x y\n\u{a0}z", "one"] {
        let parsed = parse_lines(value);
        assert_eq!(parse_lines(&parsed.join("\n")), parsed);
    }
}
