//! The records that describe cache entries, requests and results.
use vstd::prelude::*;

use crate::config::CacheContext;
use crate::limits::{ARCHIVE_POLICY, SCHEMA};
use crate::text::text_equal;

verus! {

/// The contents of an entry's `metadata.json`.
#[derive(Debug, Clone)]
pub struct EntryMetadata {
    pub schema: u32,
    pub archive_policy: u32,
    pub key: String,
    pub created_at: String,
    pub payload_bytes: u64,
    pub payload_sha256: String,
    pub os: String,
    pub arch: String,
    pub paths: Vec<String>,
}

/// An entry may be used by this runner: same schema and archive policy,
/// Linux, and the runner's architecture.
pub open spec fn is_compatible(m: EntryMetadata, context: CacheContext) -> bool {
    &&& m.schema == SCHEMA
    &&& m.archive_policy == ARCHIVE_POLICY
    &&& m.os@ == "linux"@
    &&& m.arch@ == context.arch@
}

impl EntryMetadata {
    pub fn compatible(&self, context: &CacheContext) -> (r: bool)
        ensures
            r == is_compatible(*self, *context),
    {
        self.schema == SCHEMA && self.archive_policy == ARCHIVE_POLICY && text_equal(
            self.os.as_str(),
            "linux",
        ) && text_equal(self.arch.as_str(), context.arch.as_str())
    }
}

/// The contents of an entry's `complete` marker.
#[derive(Debug, Clone)]
pub struct CompleteMarker {
    pub schema: u32,
    pub payload_sha256: String,
}

#[derive(Debug, Clone)]
pub struct RestoreRequest {
    pub context: CacheContext,
    pub key: String,
    pub patterns: Vec<String>,
    pub restore_keys: Vec<String>,
}

#[derive(Debug, Clone, Copy, PartialEq, Eq, Structural)]
pub enum RestoreMatch {
    Exact,
    Fallback,
    Miss,
}

impl RestoreMatch {
    /// `cache-hit` is true only for an exact match.
    pub fn cache_hit(self) -> (r: bool)
        ensures
            r == (self == RestoreMatch::Exact),
    {
        self == RestoreMatch::Exact
    }

    pub fn as_str(self) -> (r: &'static str)
        ensures
            self == RestoreMatch::Exact ==> r@ == "exact"@,
            self == RestoreMatch::Fallback ==> r@ == "fallback"@,
            self == RestoreMatch::Miss ==> r@ == "miss"@,
    {
        match self {
            RestoreMatch::Exact => "exact",
            RestoreMatch::Fallback => "fallback",
            RestoreMatch::Miss => "miss",
        }
    }
}

#[derive(Debug, PartialEq, Eq)]
pub struct RestoreResult {
    pub cache_match: RestoreMatch,
    pub digest: Option<String>,
    pub files: usize,
    pub bytes: u64,
}

#[derive(Debug, Clone)]
pub struct SaveRequest {
    pub context: CacheContext,
    pub key: String,
    pub patterns: Vec<String>,
}

#[derive(Debug, Clone, Copy, PartialEq, Eq, Structural)]
pub enum SaveResult {
    Saved,
    Raced,
    SkippedNoPaths,
}

impl SaveResult {
    pub fn as_str(self) -> (r: &'static str)
        ensures
            self == SaveResult::Saved ==> r@ == "saved"@,
            self == SaveResult::Raced ==> r@ == "raced"@,
            self == SaveResult::SkippedNoPaths ==> r@ == "skipped-no-paths"@,
    {
        match self {
            SaveResult::Saved => "saved",
            SaveResult::Raced => "raced",
            SaveResult::SkippedNoPaths => "skipped-no-paths",
        }
    }
}

#[derive(Debug, Clone, Copy, PartialEq, Eq, Structural)]
pub enum EntryKind {
    File,
    Directory,
}

/// A file or directory chosen for an archive, with the `stat` facts that
/// must still hold while it is streamed.
#[derive(Debug, Clone)]
pub struct ArchiveEntry {
    pub relative: String,
    pub absolute: String,
    pub kind: EntryKind,
    pub mode: u32,
    pub size: u64,
    pub modified_nanos: i128,
    pub device: u64,
    pub inode: u64,
}

} // verus!
