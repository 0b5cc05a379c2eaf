//! Fixed format versions and resource limits.
use vstd::prelude::*;

verus! {

pub const SCHEMA: u32 = 1;

pub const ARCHIVE_POLICY: u32 = 1;

pub const CACHE_VERSION: &'static str = "v1";

pub const MAX_COMPRESSED_BYTES: u64 = 2 * 1024 * 1024 * 1024;

pub const MAX_EXTRACTED_BYTES: u64 = 8 * 1024 * 1024 * 1024;

pub const MAX_ENTRIES: usize = 100_000;

pub const MAX_FILE_BYTES: u64 = 1024 * 1024 * 1024;

pub const MAX_METADATA_BYTES: u64 = 1024 * 1024;

/// A cache operation may run for 20 minutes.
pub const OPERATION_TIMEOUT_SECS: u64 = 20 * 60;

/// A wait for an entry lock may last 30 seconds.
pub const LOCK_TIMEOUT_SECS: u64 = 30;

pub const MAX_FALLBACK_CANDIDATES: usize = 256;

/// The operation time limit in nanoseconds.
pub const OPERATION_TIMEOUT_NANOS: u128 = 1_200_000_000_000;

/// An operation that has run for `elapsed_nanos` is over its time limit.
pub fn operation_timed_out(elapsed_nanos: u128) -> (r: bool)
    ensures
        r == (elapsed_nanos > OPERATION_TIMEOUT_NANOS),
{
    elapsed_nanos > OPERATION_TIMEOUT_NANOS
}

/// Fails once an operation has run for more than 20 minutes.
pub fn check_operation_timeout(elapsed_nanos: u128) -> (r: crate::error::Result<()>)
    ensures
        r is Ok <==> elapsed_nanos <= OPERATION_TIMEOUT_NANOS,
        r is Err ==> crate::error::fails_with(
            r,
            "operation-timeout"@,
            "cache operation exceeded 20 minutes"@,
        ),
{
    if operation_timed_out(elapsed_nanos) {
        return Err(
            crate::error::CacheError::new(
                "operation-timeout",
                "cache operation exceeded 20 minutes",
            ),
        );
    }
    Ok(())
}

} // verus!
