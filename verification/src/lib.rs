//! Secure, persistent local filesystem caches for self-hosted runners: the
//! verified rules of the cache engine (inputs, paths, entry layout and
//! validation, archive naming and limits, restore selection and locking).
pub mod archive;
pub mod cache;
pub mod config;
pub mod digest;
pub mod entry;
pub mod error;
pub mod extract;
pub mod limits;
pub mod lock;
pub mod materialize;
pub mod model;
pub mod paths;
pub mod sorted;
pub mod text;

pub use config::{validate_key, validate_patterns, CacheContext};
pub use error::{CacheError, Result};
pub use limits::{
    ARCHIVE_POLICY, CACHE_VERSION, LOCK_TIMEOUT_SECS, MAX_COMPRESSED_BYTES, MAX_ENTRIES,
    MAX_EXTRACTED_BYTES, MAX_FALLBACK_CANDIDATES, MAX_FILE_BYTES, MAX_METADATA_BYTES,
    OPERATION_TIMEOUT_SECS, SCHEMA,
};
pub use model::{RestoreMatch, RestoreRequest, RestoreResult, SaveRequest, SaveResult};
