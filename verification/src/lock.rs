//! The per-entry lock protocol's decisions: when a lock file is stale, how
//! long to wait before trying again, when to give up, and what a locked
//! operation returns.
use vstd::prelude::*;

use crate::error::{fails_with, is_error, CacheError, Result};
use crate::text::text_equal;

verus! {

/// The record written into a lock file.
#[derive(Debug, Clone)]
pub struct LockRecord {
    pub pid: u32,
    pub boot_id: String,
    pub created_at_ms: u128,
    pub nonce: String,
}

/// A lock older than an operation and a lock wait together is stale:
/// (20 min + 30 s) in milliseconds.
pub const STALE_LOCK_MS: u128 = 1_230_000;

/// An unreadable lock file older than the lock wait is stale: 30 s in
/// nanoseconds.
pub const STALE_UNREADABLE_LOCK_NANOS: u128 = 30_000_000_000;

/// The longest pause between attempts: 500 ms in nanoseconds.
pub const MAX_BACKOFF_NANOS: u128 = 500_000_000;

/// A lock is stale when its record comes from another boot or is too old;
/// a lock file without a readable record is stale when the file is too old.
pub open spec fn is_stale(
    record: Option<LockRecord>,
    current_boot_id: Seq<char>,
    now_ms: u128,
    file_age_nanos: u128,
) -> bool {
    match record {
        Some(r) => r.boot_id@ != current_boot_id || (if now_ms >= r.created_at_ms {
            now_ms - r.created_at_ms
        } else {
            0
        }) > STALE_LOCK_MS,
        None => file_age_nanos > STALE_UNREADABLE_LOCK_NANOS,
    }
}

pub fn lock_is_stale(
    record: Option<&LockRecord>,
    current_boot_id: &str,
    now_ms: u128,
    file_age_nanos: u128,
) -> (r: bool)
    ensures
        r == is_stale(
            match record {
                Some(x) => Some(*x),
                None => None,
            },
            current_boot_id@,
            now_ms,
            file_age_nanos,
        ),
{
    match record {
        Some(record) => !text_equal(record.boot_id.as_str(), current_boot_id)
            || now_ms.saturating_sub(record.created_at_ms) > STALE_LOCK_MS,
        None => file_age_nanos > STALE_UNREADABLE_LOCK_NANOS,
    }
}

/// What to do after finding the lock held by someone else.
#[derive(Debug, Clone, Copy, PartialEq, Eq, Structural)]
pub struct LockPause {
    /// How long to sleep before the next attempt.
    pub sleep_nanos: u128,
    /// The pause to use after the next failed attempt.
    pub next_backoff_nanos: u128,
}

/// The pause after a failed attempt: the current backoff, cut to the time
/// left, and a doubled backoff of at most 500 ms for the next time.
pub open spec fn pause_after(elapsed_nanos: u128, timeout_nanos: u128, backoff_nanos: u128) -> LockPause {
    LockPause {
        sleep_nanos: if backoff_nanos <= timeout_nanos - elapsed_nanos {
            backoff_nanos
        } else {
            (timeout_nanos - elapsed_nanos) as u128
        },
        next_backoff_nanos: if 2 * backoff_nanos <= MAX_BACKOFF_NANOS {
            (2 * backoff_nanos) as u128
        } else {
            MAX_BACKOFF_NANOS
        },
    }
}

/// Waiting for a lock is bounded: no pause outlasts the time left or 500 ms,
/// and the backoff grows up to 500 ms and stays there.
pub proof fn lemma_lock_wait_bounded(elapsed_nanos: u128, timeout_nanos: u128, backoff_nanos: u128)
    requires
        elapsed_nanos < timeout_nanos,
        0 < backoff_nanos <= MAX_BACKOFF_NANOS,
    ensures
        pause_after(elapsed_nanos, timeout_nanos, backoff_nanos).sleep_nanos <= timeout_nanos
            - elapsed_nanos,
        pause_after(elapsed_nanos, timeout_nanos, backoff_nanos).sleep_nanos <= MAX_BACKOFF_NANOS,
        backoff_nanos <= pause_after(elapsed_nanos, timeout_nanos, backoff_nanos).next_backoff_nanos
            <= MAX_BACKOFF_NANOS,
{
}

/// After `elapsed_nanos` of a wait bounded by `timeout_nanos`, a held lock
/// either ends the wait or calls for a pause: the current backoff, cut to
/// the time left, and a doubled backoff of at most 500 ms for the next time.
pub fn lock_wait_step(elapsed_nanos: u128, timeout_nanos: u128, backoff_nanos: u128) -> (r: Result<
    LockPause,
>)
    requires
        backoff_nanos <= u128::MAX / 2,
    ensures
        elapsed_nanos >= timeout_nanos ==> fails_with(
            r,
            "lock-timeout"@,
            "timed out waiting for cache entry lock"@,
        ),
        elapsed_nanos < timeout_nanos ==> r is Ok && r->Ok_0 == pause_after(
            elapsed_nanos,
            timeout_nanos,
            backoff_nanos,
        ),
{
    if elapsed_nanos >= timeout_nanos {
        return Err(CacheError::new("lock-timeout", "timed out waiting for cache entry lock"));
    }
    let left = timeout_nanos - elapsed_nanos;
    let sleep_nanos = if backoff_nanos <= left {
        backoff_nanos
    } else {
        left
    };
    let doubled = backoff_nanos * 2;
    let next_backoff_nanos = if doubled <= MAX_BACKOFF_NANOS {
        doubled
    } else {
        MAX_BACKOFF_NANOS
    };
    Ok(LockPause { sleep_nanos, next_backoff_nanos })
}

/// The lock file still holds this holder's record, so the holder removes it.
pub fn owns_lock(current: &LockRecord, own: &LockRecord) -> (r: bool)
    ensures
        r == (current.nonce@ == own.nonce@),
{
    text_equal(current.nonce.as_str(), own.nonce.as_str())
}

/// What a locked operation returns: its own error first, then an error of
/// releasing the lock, else its value.
pub fn locked_result<T>(result: Result<T>, release: Result<()>) -> (r: Result<T>)
    ensures
        result is Err ==> r == result,
        result is Ok && release is Err ==> r == Err::<T, CacheError>(release->Err_0),
        result is Ok && release is Ok ==> r == result,
{
    match (result, release) {
        (Err(error), _) => Err(error),
        (Ok(_), Err(error)) => Err(error),
        (Ok(value), Ok(())) => Ok(value),
    }
}

/// The first pause between attempts: 20 ms in nanoseconds.
pub const INITIAL_BACKOFF_NANOS: u128 = 20_000_000;

/// Where a locked operation stands.
#[derive(Debug, Clone, Copy, PartialEq, Eq, Structural)]
pub enum LockPhase {
    /// Trying to create the lock file.
    Acquiring,
    /// The lock file is this call's: the operation runs.
    Held,
    /// The operation has finished: the lock is released.
    Releasing,
    /// Nothing is left to do.
    Finished,
}

/// What the file system reported for the last action.
#[derive(Debug, Clone)]
pub enum LockEvent {
    /// The first step; nothing has been tried yet.
    Begin,
    /// This call created the lock file exclusively and wrote its record.
    Created,
    /// The lock file already exists: its readable record (if any), the time
    /// now in milliseconds, the file's age, and the time waited so far.
    Exists { record: Option<LockRecord>, now_ms: u128, file_age_nanos: u128, elapsed_nanos: u128 },
    /// The stale lock file was removed (or was already gone).
    StaleRemoved,
    /// The pause asked for is over.
    Waited,
    /// The operation has run.
    OperationFinished,
    /// Releasing the lock was attempted.
    Released,
}

/// What to do next.
#[derive(Debug)]
pub enum LockAction {
    /// Create the lock file exclusively (`O_CREAT|O_EXCL`) with this call's record.
    TryCreate,
    /// Remove the stale lock file.
    RemoveStale,
    /// Sleep this many nanoseconds.
    Sleep(u128),
    /// Run the operation, once.
    RunOperation,
    /// Remove the lock file if it still holds this call's record.
    Release,
    /// Give up without running the operation.
    Fail(CacheError),
    /// Return the operation's result (see `locked_result`).
    Finish,
}

/// The progress of one locked operation.
pub struct LockState {
    phase: LockPhase,
    boot_id: String,
    timeout_nanos: u128,
    backoff_nanos: u128,
}

/// The order of the phases; a step never goes back.
pub open spec fn lock_phase_rank(p: LockPhase) -> int {
    match p {
        LockPhase::Acquiring => 0,
        LockPhase::Held => 1,
        LockPhase::Releasing => 2,
        LockPhase::Finished => 3,
    }
}

impl LockState {
    #[verifier::type_invariant]
    spec fn well_formed(self) -> bool {
        0 < self.backoff_nanos <= MAX_BACKOFF_NANOS
    }

    pub closed spec fn phase(&self) -> LockPhase {
        self.phase
    }

    /// The boot id of this process, against which lock records are judged.
    pub closed spec fn boot_id(&self) -> Seq<char> {
        self.boot_id@
    }

    /// How long this call waits for the lock at most.
    pub closed spec fn timeout_nanos(&self) -> u128 {
        self.timeout_nanos
    }

    /// The next pause, if the lock is found held again.
    pub closed spec fn backoff_nanos(&self) -> u128 {
        self.backoff_nanos
    }

    /// A locked operation that has not started, on this boot, waiting at most
    /// `timeout_nanos` for the lock.
    pub fn new(boot_id: String, timeout_nanos: u128) -> (r: LockState)
        ensures
            r.phase() == LockPhase::Acquiring,
            r.boot_id() == boot_id@,
            r.timeout_nanos() == timeout_nanos,
            r.backoff_nanos() == INITIAL_BACKOFF_NANOS,
    {
        LockState {
            phase: LockPhase::Acquiring,
            boot_id,
            timeout_nanos,
            backoff_nanos: INITIAL_BACKOFF_NANOS,
        }
    }

    fn with(&self, phase: LockPhase, backoff_nanos: u128) -> (r: LockState)
        requires
            0 < backoff_nanos <= MAX_BACKOFF_NANOS,
        ensures
            r.phase() == phase,
            r.boot_id() == self.boot_id(),
            r.timeout_nanos() == self.timeout_nanos(),
            r.backoff_nanos() == backoff_nanos,
    {
        LockState {
            phase,
            boot_id: self.boot_id.clone(),
            timeout_nanos: self.timeout_nanos,
            backoff_nanos,
        }
    }
}

/// The next state and action of a locked operation, given what the last
/// action reported.
///
/// - While acquiring: try to create the lock file; once created, run the
///   operation. A lock found held is removed when stale; otherwise the wait
///   goes on with a bounded pause, or ends with `lock-timeout` once the
///   timeout is reached, without running the operation.
/// - The operation runs only right after this call created the lock file,
///   and at most once: the phase never goes back.
/// - After the operation the lock is released, then the call finishes.
pub fn lock_step(state: &LockState, event: LockEvent) -> (r: (LockState, LockAction))
    ensures
        r.0.boot_id() == state.boot_id(),
        r.0.timeout_nanos() == state.timeout_nanos(),
        lock_phase_rank(r.0.phase()) >= lock_phase_rank(state.phase()),
        state.phase() == LockPhase::Acquiring ==> match event {
            LockEvent::Begin | LockEvent::StaleRemoved | LockEvent::Waited => r.0.phase()
                == LockPhase::Acquiring && r.0.backoff_nanos() == state.backoff_nanos() && r.1
                is TryCreate,
            LockEvent::Created => r.0.phase() == LockPhase::Held && r.1 is RunOperation,
            LockEvent::Exists { record, now_ms, file_age_nanos, elapsed_nanos } => if is_stale(
                record,
                state.boot_id(),
                now_ms,
                file_age_nanos,
            ) {
                r.0.phase() == LockPhase::Acquiring && r.0.backoff_nanos() == state.backoff_nanos()
                    && r.1 is RemoveStale
            } else if elapsed_nanos >= state.timeout_nanos() {
                r.0.phase() == LockPhase::Finished && r.1 is Fail && is_error(
                    r.1->Fail_0,
                    "lock-timeout"@,
                    "timed out waiting for cache entry lock"@,
                )
            } else {
                r.0.phase() == LockPhase::Acquiring && r.1 == LockAction::Sleep(
                    pause_after(elapsed_nanos, state.timeout_nanos(), state.backoff_nanos()).sleep_nanos,
                ) && r.0.backoff_nanos() == pause_after(
                    elapsed_nanos,
                    state.timeout_nanos(),
                    state.backoff_nanos(),
                ).next_backoff_nanos
            },
            _ => r.0.phase() == LockPhase::Finished && r.1 is Fail && r.1->Fail_0.code@
                == "lock-create"@,
        },
        state.phase() == LockPhase::Held ==> r.0.phase() == LockPhase::Releasing && r.1 is Release,
        state.phase() == LockPhase::Releasing || state.phase() == LockPhase::Finished ==> r.0.phase()
            == LockPhase::Finished && r.1 is Finish,
        r.1 is RunOperation ==> state.phase() == LockPhase::Acquiring && event is Created
            && r.0.phase() == LockPhase::Held,
        r.1 is Release ==> state.phase() == LockPhase::Held,
        r.1 is Sleep ==> 0 < r.1->Sleep_0 <= MAX_BACKOFF_NANOS && (event is Exists && r.1->Sleep_0
            <= state.timeout_nanos() - event->elapsed_nanos),
{
    proof {
        use_type_invariant(state);
    }
    match state.phase {
        LockPhase::Acquiring => match event {
            LockEvent::Begin | LockEvent::StaleRemoved | LockEvent::Waited => (
                state.with(LockPhase::Acquiring, state.backoff_nanos),
                LockAction::TryCreate,
            ),
            LockEvent::Created => (
                state.with(LockPhase::Held, state.backoff_nanos),
                LockAction::RunOperation,
            ),
            LockEvent::Exists { record, now_ms, file_age_nanos, elapsed_nanos } => {
                if lock_is_stale(record.as_ref(), state.boot_id.as_str(), now_ms, file_age_nanos) {
                    (state.with(LockPhase::Acquiring, state.backoff_nanos), LockAction::RemoveStale)
                } else {
                    match lock_wait_step(elapsed_nanos, state.timeout_nanos, state.backoff_nanos) {
                        Ok(pause) => {
                            proof {
                                lemma_lock_wait_bounded(
                                    elapsed_nanos,
                                    state.timeout_nanos,
                                    state.backoff_nanos,
                                );
                            }
                            (
                                state.with(LockPhase::Acquiring, pause.next_backoff_nanos),
                                LockAction::Sleep(pause.sleep_nanos),
                            )
                        },
                        Err(error) => (
                            state.with(LockPhase::Finished, state.backoff_nanos),
                            LockAction::Fail(error),
                        ),
                    }
                }
            },
            _ => (
                state.with(LockPhase::Finished, state.backoff_nanos),
                LockAction::Fail(CacheError::new("lock-create", "lock step out of order")),
            ),
        },
        LockPhase::Held => (state.with(LockPhase::Releasing, state.backoff_nanos), LockAction::Release),
        _ => (state.with(LockPhase::Finished, state.backoff_nanos), LockAction::Finish),
    }
}

} // verus!
