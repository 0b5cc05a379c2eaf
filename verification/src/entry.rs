//! The on-disk entry layout `<root>/v1/<repository-id>/<sha256(key)>/` and
//! the decisions that validate an entry, the repository namespace and the
//! root claim from what the file system reported.
use vstd::prelude::*;

use time::format_description::well_known::Rfc3339;
use time::OffsetDateTime;

use crate::config::CacheContext;
use crate::digest::{
    absorbed, digest_of, hex_lower, is_hex_digest, is_sha256, sha256, sha256_bytes, PayloadHasher,
};
use crate::error::{fails_with, CacheError, Result};
use crate::archive::{lemma_saved_name_restores, workspace_relative};
use crate::limits::{
    ARCHIVE_POLICY, CACHE_VERSION, MAX_COMPRESSED_BYTES, MAX_METADATA_BYTES, SCHEMA,
};
use crate::model::{is_compatible, ArchiveEntry, CompleteMarker, EntryMetadata};
use crate::paths::{dot_dot, is_rooted};
use crate::text::{chars_of, range_equals, split_on, split_ranges, text_equal};

verus! {

// ---------------------------------------------------------------------------
// Layout
// ---------------------------------------------------------------------------

/// `PathBuf::join`: an absolute `part` replaces `base`; otherwise `part` is
/// appended after a separator, unless `base` is empty or already ends in one.
pub open spec fn join_path(base: Seq<char>, part: Seq<char>) -> Seq<char> {
    if is_rooted(part) {
        part
    } else if base.len() == 0 {
        part
    } else if base.last() == '/' {
        base + part
    } else {
        base + seq!['/'] + part
    }
}

pub fn join_path_text(base: &str, part: &str) -> (r: String)
    ensures
        r@ == join_path(base@, part@),
{
    let b = chars_of(base);
    let p = chars_of(part);
    if p.len() > 0 && p[0] == '/' {
        return part.to_owned();
    }
    if b.len() == 0 {
        return part.to_owned();
    }
    let mut r = base.to_owned();
    if b[b.len() - 1] != '/' {
        r.append("/");
        proof {
            reveal_strlit("/");
        }
    }
    r.append(part);
    r
}

/// `<cache-root>/v1/<repository-id>`.
pub open spec fn repository_path(context: CacheContext) -> Seq<char> {
    join_path(join_path(context.cache_root@, "v1"@), context.repository_id@)
}

pub fn repository_directory(context: &CacheContext) -> (r: String)
    ensures
        r@ == repository_path(*context),
{
    let version = join_path_text(context.cache_root.as_str(), CACHE_VERSION);
    join_path_text(version.as_str(), context.repository_id.as_str())
}

pub fn entry_directory(context: &CacheContext, digest: &str) -> (r: String)
    ensures
        r@ == join_path(repository_path(*context), digest@),
{
    let repository = repository_directory(context);
    join_path_text(repository.as_str(), digest)
}

/// The lock file of the entry with address `digest`: `<repository>/<digest>.lock`.
pub fn lock_path(repository: &str, digest: &str) -> (r: String)
    ensures
        r@ == join_path(repository@, digest@ + ".lock"@),
{
    let mut name = digest.to_owned();
    name.append(".lock");
    join_path_text(repository, name.as_str())
}

/// The name of the private directory in which a save stages the entry for
/// `digest` before publishing it: `.tmp-<digest>-<unique>`.
pub fn staging_name(digest: &str, unique: &str) -> (r: String)
    ensures
        r@ == ".tmp-"@ + digest@ + "-"@ + unique@,
{
    let mut r = ".tmp-".to_owned();
    r.append(digest);
    r.append("-");
    r.append(unique);
    r
}

/// A metadata or marker file of `len` bytes may be written: at most 1 MiB.
pub fn check_metadata_len(len: usize) -> (r: Result<()>)
    ensures
        r is Ok <==> len <= MAX_METADATA_BYTES,
        r is Err ==> fails_with(r, "metadata-limit"@, "metadata exceeds 1 MiB"@),
{
    if len as u64 > MAX_METADATA_BYTES {
        return Err(CacheError::new("metadata-limit", "metadata exceeds 1 MiB"));
    }
    Ok(())
}

/// The name under which an invalid entry `name` is set aside:
/// `.quarantine-<name>-<unique>`.
pub fn quarantine_name(name: &str, unique: &str) -> (r: String)
    ensures
        r@ == ".quarantine-"@ + name@ + "-"@ + unique@,
{
    let mut r = ".quarantine-".to_owned();
    r.append(name);
    r.append("-");
    r.append(unique);
    r
}

/// Errors after which an entry is set aside rather than reported.
pub fn quarantinable(error: &CacheError) -> (r: bool)
    ensures
        r == (error.code@ == "invalid-entry"@ || error.code@ == "incompatible-entry"@),
{
    text_equal(error.code, "invalid-entry") || text_equal(error.code, "incompatible-entry")
}

// ---------------------------------------------------------------------------
// The root claim and the repository namespace
// ---------------------------------------------------------------------------

/// The claim file must be a regular, non-symlinked, runner-owned mode-0600
/// file of at most 32 bytes.
pub fn check_claim_file(
    is_file: bool,
    is_symlink: bool,
    owner_uid: u32,
    effective_uid: u32,
    mode: u32,
    len: u64,
) -> (r: Result<()>)
    ensures
        r is Ok <==> is_file && !is_symlink && owner_uid == effective_uid && mode & 0o777 == 0o600
            && len <= 32,
        r is Err ==> fails_with(
            r,
            "invalid-root"@,
            "cache root claim must be a runner-owned mode-0600 regular file"@,
        ),
{
    if !is_file || is_symlink || owner_uid != effective_uid || mode & 0o777 != 0o600 || len > 32 {
        return Err(
            CacheError::new(
                "invalid-root",
                "cache root claim must be a runner-owned mode-0600 regular file",
            ),
        );
    }
    Ok(())
}

/// The claim must name this repository: its id and a newline.
pub fn check_claim_contents(value: &str, repository_id: &str) -> (r: Result<()>)
    ensures
        r is Ok <==> value@ == repository_id@ + "\n"@,
        r is Err ==> fails_with(
            r,
            "shared-root-detected"@,
            "cache-dir is already claimed by a different repository"@,
        ),
{
    let mut expected = repository_id.to_owned();
    expected.append("\n");
    if !text_equal(value, expected.as_str()) {
        return Err(
            CacheError::new(
                "shared-root-detected",
                "cache-dir is already claimed by a different repository",
            ),
        );
    }
    Ok(())
}

/// A directory `name` under `v1/` that is the namespace of another
/// repository: numeric, not empty, and not this repository's id.
pub fn is_foreign_namespace(name: &str, repository_id: &str) -> (r: bool)
    ensures
        r == (name@ != repository_id@ && name@.len() > 0 && crate::config::all_digits(name@)),
{
    !text_equal(name, repository_id) && crate::config::is_numeric(name)
}

/// The version and repository directories must be non-symlinked,
/// runner-owned mode-0700 directories.
pub fn check_private_directory(
    is_dir: bool,
    is_symlink: bool,
    mode: u32,
    owner_uid: u32,
    effective_uid: u32,
) -> (r: Result<()>)
    ensures
        !is_dir || is_symlink || mode & 0o777 != 0o700 ==> fails_with(
            r,
            "invalid-root"@,
            "cache namespaces must be non-symlinked mode-0700 directories"@,
        ),
        is_dir && !is_symlink && mode & 0o777 == 0o700 && owner_uid != effective_uid ==> fails_with(
            r,
            "invalid-root"@,
            "cache namespaces must be owned by the runner user"@,
        ),
        r is Ok <==> is_dir && !is_symlink && mode & 0o777 == 0o700 && owner_uid == effective_uid,
{
    if !is_dir || is_symlink || mode & 0o777 != 0o700 {
        return Err(
            CacheError::new(
                "invalid-root",
                "cache namespaces must be non-symlinked mode-0700 directories",
            ),
        );
    }
    if owner_uid != effective_uid {
        return Err(
            CacheError::new("invalid-root", "cache namespaces must be owned by the runner user"),
        );
    }
    Ok(())
}

// ---------------------------------------------------------------------------
// Entries
// ---------------------------------------------------------------------------

/// An entry directory must be a directory and not a symlink.
pub fn check_entry_directory(is_dir: bool, is_symlink: bool) -> (r: Result<()>)
    ensures
        r is Ok <==> is_dir && !is_symlink,
        r is Err ==> fails_with(r, "invalid-entry"@, "entry is not a regular directory"@),
{
    if !is_dir || is_symlink {
        return Err(CacheError::new("invalid-entry", "entry is not a regular directory"));
    }
    Ok(())
}

/// An entry's JSON files must be regular, non-symlinked and at most 1 MiB.
pub fn check_json_file(is_file: bool, is_symlink: bool, len: u64) -> (r: Result<()>)
    ensures
        r is Ok <==> is_file && !is_symlink && len <= MAX_METADATA_BYTES,
        r is Err ==> fails_with(r, "invalid-entry"@, "entry JSON file is invalid"@),
{
    if !is_file || is_symlink || len > MAX_METADATA_BYTES {
        return Err(CacheError::new("invalid-entry", "entry JSON file is invalid"));
    }
    Ok(())
}

/// Whether `text` parses as an RFC 3339 timestamp (`time::OffsetDateTime::parse`
/// with `Rfc3339`).
pub uninterp spec fn rfc3339_valid(text: Seq<char>) -> bool;

/// The instant that the RFC 3339 timestamp `text` denotes, in nanoseconds
/// since the Unix epoch (`OffsetDateTime::unix_timestamp_nanos` of what
/// `OffsetDateTime::parse(text, &Rfc3339)` gives).
pub uninterp spec fn rfc3339_instant(text: Seq<char>) -> i128;

/// `time::OffsetDateTime::parse(text, &Rfc3339)` followed by
/// `unix_timestamp_nanos`: the instant when the text parses, else nothing.
#[verifier::external_body]
pub(crate) fn timestamp_nanos(text: &str) -> (r: Option<i128>)
    ensures
        r is Some <==> rfc3339_valid(text@),
        r is Some ==> r->0 == rfc3339_instant(text@),
{
    match OffsetDateTime::parse(text, &Rfc3339) {
        Ok(time) => Some(time.unix_timestamp_nanos()),
        Err(_) => None,
    }
}

/// The first instant whose RFC 3339 form has a four-digit year:
/// `0000-01-01T00:00:00Z`, in nanoseconds since the Unix epoch.
pub const RFC3339_MIN_NANOS: i128 = -62_167_219_200_000_000_000;

/// The last instant whose RFC 3339 form has a four-digit year:
/// `9999-12-31T23:59:59.999999999Z`, in nanoseconds since the Unix epoch.
pub const RFC3339_MAX_NANOS: i128 = 253_402_300_799_999_999_999;

/// `time::OffsetDateTime::from_unix_timestamp_nanos` followed by
/// `format(&Rfc3339)`: the UTC timestamp of an instant. Formatting succeeds
/// exactly for the years 0 to 9999, and what it writes parses back to the
/// same instant.
#[verifier::external_body]
fn format_rfc3339(unix_nanos: i128) -> (r: Option<String>)
    ensures
        r is Some <==> RFC3339_MIN_NANOS <= unix_nanos <= RFC3339_MAX_NANOS,
        r is Some ==> rfc3339_valid(r->0@) && rfc3339_instant(r->0@) == unix_nanos,
{
    match OffsetDateTime::from_unix_timestamp_nanos(unix_nanos) {
        Ok(time) => time.format(&Rfc3339).ok(),
        Err(_) => None,
    }
}

/// The creation timestamp a save records for the instant `unix_nanos`.
pub fn created_at_text(unix_nanos: i128) -> (r: Result<String>)
    ensures
        r is Ok <==> RFC3339_MIN_NANOS <= unix_nanos <= RFC3339_MAX_NANOS,
        r is Ok ==> rfc3339_valid(r->Ok_0@) && rfc3339_instant(r->Ok_0@) == unix_nanos,
        r is Err ==> fails_with(r, "metadata-create"@, "timestamp is out of range"@),
{
    match format_rfc3339(unix_nanos) {
        Some(text) => Ok(text),
        None => Err(CacheError::new("metadata-create", "timestamp is out of range")),
    }
}

/// A recorded archive path: not empty, relative, and made of non-empty
/// segments none of which is `..`.
pub open spec fn entry_path_ok(p: Seq<char>) -> bool {
    &&& p.len() > 0
    &&& !is_rooted(p)
    &&& forall|i: int|
        0 <= i < split_on(p, '/').len() ==> (#[trigger] split_on(p, '/')[i]) != dot_dot()
            && split_on(p, '/')[i].len() > 0
}

pub fn is_entry_path(p: &str) -> (r: bool)
    ensures
        r == entry_path_ok(p@),
{
    let v = chars_of(p);
    if v.len() == 0 || v[0] == '/' {
        return false;
    }
    let ranges = split_ranges(&v, '/');
    let dd: Vec<char> = vec!['.', '.'];
    assert(dd@ =~= dot_dot());
    let mut i: usize = 0;
    while i < ranges.len()
        invariant
            v@ == p@,
            dd@ == dot_dot(),
            ranges.len() == split_on(v@, '/').len(),
            forall|k: int|
                #![trigger ranges[k]]
                0 <= k < ranges.len() ==> {
                    &&& ranges[k].0 <= ranges[k].1 && ranges[k].1 <= v.len()
                    &&& v@.subrange(ranges[k].0 as int, ranges[k].1 as int) == split_on(v@, '/')[k]
                },
            i <= ranges.len(),
            forall|k: int|
                0 <= k < i ==> (#[trigger] split_on(v@, '/')[k]) != dot_dot() && split_on(
                    v@,
                    '/',
                )[k].len() > 0,
        decreases ranges.len() - i,
    {
        let (lo, hi) = ranges[i];
        assert(v@.subrange(lo as int, hi as int) == split_on(v@, '/')[i as int]);
        if lo == hi || range_equals(&v, lo, hi, &dd) {
            return false;
        }
        i = i + 1;
    }
    true
}

/// The first reason, if any, for which metadata found in directory `name`
/// is refused: its error class and message.
pub open spec fn metadata_problem(m: EntryMetadata, context: CacheContext, name: Seq<char>) -> Option<
    (Seq<char>, Seq<char>),
> {
    if !is_compatible(m, context) {
        Some(("incompatible-entry"@, "entry is not compatible with this runner"@))
    } else if m.key@.len() == 0 || vstd::utf8::encode_utf8(m.key@).len() > 512 || digest_of(m.key@)
        != name {
        Some(("invalid-entry"@, "entry key or address is invalid"@))
    } else if m.payload_bytes > MAX_COMPRESSED_BYTES || !is_hex_digest(m.payload_sha256@) {
        Some(("invalid-entry"@, "entry payload fields are invalid"@))
    } else if !rfc3339_valid(m.created_at@) {
        Some(("invalid-entry"@, "entry timestamp is invalid"@))
    } else if exists|i: int| 0 <= i < m.paths.len() && !entry_path_ok(#[trigger] m.paths[i]@) {
        Some(("invalid-entry"@, "entry paths are invalid"@))
    } else {
        None
    }
}

/// Metadata is accepted only in the directory its key addresses, only for
/// this runner, and only with a well-formed payload digest.
pub proof fn lemma_accepted_metadata_is_addressed(
    m: EntryMetadata,
    context: CacheContext,
    name: Seq<char>,
)
    requires
        metadata_problem(m, context, name) is None,
    ensures
        name == digest_of(m.key@),
        is_compatible(m, context),
        is_hex_digest(m.payload_sha256@),
        forall|i: int| 0 <= i < m.paths.len() ==> entry_path_ok(#[trigger] m.paths[i]@),
{
}

/// An entry written under another schema or archive policy, for another
/// operating system than Linux, or for another architecture than the
/// runner's is refused as incompatible, whatever else it holds; an entry
/// that agrees with the runner in all four is compatible, and an accepted
/// entry always agrees in all four.
pub proof fn lemma_incompatible_entries_refused(
    m: EntryMetadata,
    context: CacheContext,
    name: Seq<char>,
)
    ensures
        m.schema != SCHEMA || m.archive_policy != ARCHIVE_POLICY || m.os@ != "linux"@ || m.arch@
            != context.arch@ ==> metadata_problem(m, context, name) == Some(
            ("incompatible-entry"@, "entry is not compatible with this runner"@),
        ),
        m.schema == SCHEMA && m.archive_policy == ARCHIVE_POLICY && m.os@ == "linux"@ && m.arch@
            == context.arch@ ==> is_compatible(m, context),
        metadata_problem(m, context, name) is None ==> m.schema == SCHEMA && m.archive_policy
            == ARCHIVE_POLICY && m.os@ == "linux"@ && m.arch@ == context.arch@,
{
}

/// Every reason to refuse an entry's metadata is one for which the entry is
/// set aside (quarantined) rather than reported.
pub proof fn lemma_metadata_problems_quarantinable(
    m: EntryMetadata,
    context: CacheContext,
    name: Seq<char>,
)
    requires
        metadata_problem(m, context, name) is Some,
    ensures
        metadata_problem(m, context, name).unwrap().0 == "invalid-entry"@ || metadata_problem(
            m,
            context,
            name,
        ).unwrap().0 == "incompatible-entry"@,
{
}

/// Checks an entry's metadata against the runner and the directory `name`
/// that holds it.
#[verifier::loop_isolation(false)]
pub fn validate_metadata(metadata: &EntryMetadata, context: &CacheContext, name: &str) -> (r: Result<
    (),
>)
    ensures
        match metadata_problem(*metadata, *context, name@) {
            None => r is Ok,
            Some(p) => fails_with(r, p.0, p.1),
        },
{
    if !metadata.compatible(context) {
        return Err(
            CacheError::new("incompatible-entry", "entry is not compatible with this runner"),
        );
    }
    let key = metadata.key.as_str();
    let bytes = key.as_bytes().len();
    if key.is_empty() || bytes > 512 {
        return Err(CacheError::new("invalid-entry", "entry key or address is invalid"));
    }
    let address = sha256(key);
    if !text_equal(address.as_str(), name) {
        return Err(CacheError::new("invalid-entry", "entry key or address is invalid"));
    }
    if metadata.payload_bytes > MAX_COMPRESSED_BYTES || !is_sha256(metadata.payload_sha256.as_str()) {
        return Err(CacheError::new("invalid-entry", "entry payload fields are invalid"));
    }
    if timestamp_nanos(metadata.created_at.as_str()).is_none() {
        return Err(CacheError::new("invalid-entry", "entry timestamp is invalid"));
    }
    let mut i: usize = 0;
    while i < metadata.paths.len()
        invariant
            i <= metadata.paths.len(),
            forall|k: int| 0 <= k < i ==> entry_path_ok(#[trigger] metadata.paths[k]@),
        decreases metadata.paths.len() - i,
    {
        if !is_entry_path(metadata.paths[i].as_str()) {
            return Err(CacheError::new("invalid-entry", "entry paths are invalid"));
        }
        i = i + 1;
    }
    Ok(())
}

/// A `complete` marker carries this schema and the metadata's payload digest.
pub open spec fn complete_marker_ok(complete: CompleteMarker, metadata: EntryMetadata) -> bool {
    &&& complete.schema == SCHEMA
    &&& is_hex_digest(complete.payload_sha256@)
    &&& complete.payload_sha256@ == metadata.payload_sha256@
}

/// The `complete` marker must carry this schema and the metadata's payload
/// digest.
pub fn check_complete_marker(complete: &CompleteMarker, metadata: &EntryMetadata) -> (r: Result<
    (),
>)
    ensures
        r is Ok <==> complete_marker_ok(*complete, *metadata),
        r is Err ==> fails_with(r, "invalid-entry"@, "complete marker is invalid"@),
{
    if complete.schema != SCHEMA || !is_sha256(complete.payload_sha256.as_str()) || !text_equal(
        complete.payload_sha256.as_str(),
        metadata.payload_sha256.as_str(),
    ) {
        return Err(CacheError::new("invalid-entry", "complete marker is invalid"));
    }
    Ok(())
}

/// The payload must be a regular, non-symlinked, singly-linked file of the
/// recorded size.
pub fn check_payload_file(
    is_file: bool,
    is_symlink: bool,
    links: u64,
    len: u64,
    metadata: &EntryMetadata,
) -> (r: Result<()>)
    ensures
        r is Ok <==> is_file && !is_symlink && links == 1 && len == metadata.payload_bytes,
        r is Err ==> fails_with(r, "invalid-entry"@, "payload type or size is invalid"@),
{
    if !is_file || is_symlink || links != 1 || len != metadata.payload_bytes {
        return Err(CacheError::new("invalid-entry", "payload type or size is invalid"));
    }
    Ok(())
}

/// An inspected entry is valid when the SHA-256 of its payload bytes (all
/// fed to `payload`) is the digest its metadata records.
pub fn validate_entry(metadata: EntryMetadata, payload: PayloadHasher) -> (r: Result<
    EntryMetadata,
>)
    ensures
        hex_lower(sha256_bytes(absorbed(payload))) == metadata.payload_sha256@ ==> r == Ok::<
            EntryMetadata,
            CacheError,
        >(metadata),
        hex_lower(sha256_bytes(absorbed(payload))) != metadata.payload_sha256@ ==> fails_with(
            r,
            "invalid-entry"@,
            "payload digest does not match metadata"@,
        ),
{
    let digest = payload.digest_hex();
    if !text_equal(digest.as_str(), metadata.payload_sha256.as_str()) {
        return Err(CacheError::new("invalid-entry", "payload digest does not match metadata"));
    }
    Ok(metadata)
}

/// What becomes of an entry after validating it.
pub enum Validation<T> {
    /// The entry is valid.
    Accepted(T),
    /// The entry is invalid or incompatible: it is set aside (quarantined)
    /// and the search goes on.
    SetAside(CacheError),
    /// Validation failed for another reason, which is reported.
    Failed(CacheError),
}

/// Sorts the result of validating an entry into accepted, set aside or failed.
pub fn classify_validation<T>(result: Result<T>) -> (r: Validation<T>)
    ensures
        result is Ok ==> r == Validation::<T>::Accepted(result->Ok_0),
        result is Err && (result->Err_0.code@ == "invalid-entry"@ || result->Err_0.code@
            == "incompatible-entry"@) ==> r == Validation::<T>::SetAside(result->Err_0),
        result is Err && !(result->Err_0.code@ == "invalid-entry"@ || result->Err_0.code@
            == "incompatible-entry"@) ==> r == Validation::<T>::Failed(result->Err_0),
{
    match result {
        Ok(value) => Validation::Accepted(value),
        Err(error) => if quarantinable(&error) {
            Validation::SetAside(error)
        } else {
            Validation::Failed(error)
        },
    }
}

// ---------------------------------------------------------------------------
// What a save records
// ---------------------------------------------------------------------------

/// `m` is the metadata a save records for `key` on this runner: this schema
/// and archive policy, Linux, the runner's architecture, and the names of
/// the archived entries in archive order.
pub open spec fn is_saved_metadata(
    m: EntryMetadata,
    key: Seq<char>,
    created_at: Seq<char>,
    payload_bytes: u64,
    payload_sha256: Seq<char>,
    context: CacheContext,
    entries: Seq<ArchiveEntry>,
) -> bool {
    &&& m.schema == SCHEMA
    &&& m.archive_policy == ARCHIVE_POLICY
    &&& m.key@ == key
    &&& m.created_at@ == created_at
    &&& m.payload_bytes == payload_bytes
    &&& m.payload_sha256@ == payload_sha256
    &&& m.os@ == "linux"@
    &&& m.arch@ == context.arch@
    &&& m.paths.len() == entries.len()
    &&& forall|i: int| 0 <= i < entries.len() ==> (#[trigger] m.paths[i])@ == entries[i].relative@
}

/// The metadata a save writes for `key`, once the payload has been written
/// and digested.
pub fn saved_metadata(
    key: &str,
    created_at: String,
    payload_bytes: u64,
    payload_sha256: String,
    context: &CacheContext,
    entries: &[ArchiveEntry],
) -> (m: EntryMetadata)
    ensures
        is_saved_metadata(
            m,
            key@,
            created_at@,
            payload_bytes,
            payload_sha256@,
            *context,
            entries@,
        ),
{
    let mut paths: Vec<String> = Vec::new();
    let mut i: usize = 0;
    while i < entries.len()
        invariant
            i <= entries.len(),
            paths.len() == i,
            forall|k: int| 0 <= k < i ==> (#[trigger] paths@[k])@ == entries@[k].relative@,
        decreases entries.len() - i,
    {
        paths.push(entries[i].relative.clone());
        i = i + 1;
    }
    EntryMetadata {
        schema: SCHEMA,
        archive_policy: ARCHIVE_POLICY,
        key: key.to_owned(),
        created_at,
        payload_bytes,
        payload_sha256,
        os: "linux".to_owned(),
        arch: context.arch.clone(),
        paths,
    }
}

/// What a save records is accepted by a restore on the same runner: in the
/// directory its key addresses, the metadata has no problem, and the
/// `complete` marker written beside it is accepted. This holds for a valid
/// key (1 to 512 UTF-8 bytes), a payload within the compressed limit with a
/// SHA-256 hex digest, a timestamp that parses as RFC 3339, and entries
/// named by their workspace-relative portable names.
pub proof fn lemma_saved_entry_is_accepted(
    m: EntryMetadata,
    key: Seq<char>,
    created_at: Seq<char>,
    payload_bytes: u64,
    payload_sha256: Seq<char>,
    context: CacheContext,
    workspace: Seq<char>,
    entries: Seq<ArchiveEntry>,
    complete: CompleteMarker,
)
    requires
        is_saved_metadata(m, key, created_at, payload_bytes, payload_sha256, context, entries),
        key.len() > 0,
        vstd::utf8::encode_utf8(key).len() <= 512,
        payload_bytes <= MAX_COMPRESSED_BYTES,
        is_hex_digest(payload_sha256),
        rfc3339_valid(created_at),
        forall|i: int|
            0 <= i < entries.len() ==> workspace_relative(workspace, (#[trigger] entries[i]).absolute@)
                == Ok::<Seq<char>, Seq<char>>(entries[i].relative@),
        complete.schema == SCHEMA,
        complete.payload_sha256@ == payload_sha256,
    ensures
        metadata_problem(m, context, digest_of(key)) is None,
        complete_marker_ok(complete, m),
{
    assert forall|i: int| 0 <= i < m.paths.len() implies entry_path_ok(#[trigger] m.paths[i]@) by {
        lemma_saved_name_restores(workspace, entries[i].absolute@);
    }
}

} // verus!
