//! Moving restored content from private staging into the workspace: the
//! decisions of each step. A top-level name that already exists in the
//! workspace stops the restore before anything is moved; any later failure
//! moves back exactly what was moved, last first, so that an error leaves
//! the workspace as it was.
use vstd::prelude::*;

verus! {

/// Where a materialization stands.
#[derive(Debug, Clone, Copy, PartialEq, Eq, Structural)]
pub enum MaterializePhase {
    /// Checking that no top-level destination exists yet.
    Checking,
    /// Moving the top-level names into the workspace.
    Moving,
    /// Syncing the workspace directory.
    Syncing,
    /// Restoring the recorded modes of the top-level directories.
    RestoringModes,
    /// Stopped: done, failed, or rolled back.
    Finished,
}

/// What the file system reported for the last action.
#[derive(Debug, Clone, Copy, PartialEq, Eq, Structural)]
pub enum MaterializeEvent {
    /// The first step; no action has been performed yet.
    Begin,
    /// The destination of the checked name exists (`true`) or not.
    DestinationChecked(bool),
    /// The move of the name succeeded (`true`) or failed.
    Moved(bool),
    /// The workspace sync succeeded (`true`) or failed.
    Synced(bool),
    /// Restoring the top-level directory modes succeeded (`true`) or failed.
    ModesRestored(bool),
}

/// What to do next. Names are numbered in the (sorted) order of the staged
/// top-level names.
#[derive(Debug)]
pub enum MaterializeAction {
    /// Check whether the destination of name `i` exists.
    CheckDestination(usize),
    /// Move name `i` from staging into the workspace.
    Move(usize),
    /// Sync the workspace directory.
    SyncWorkspace,
    /// Restore the recorded modes of the moved top-level directories.
    RestoreModes,
    /// Move these names back into staging, in this order, and fail with the
    /// error that stopped the restore.
    RollBack(Vec<usize>),
    /// Fail with this error class; nothing was moved.
    Fail(&'static str),
    /// Every name was moved and every mode restored.
    Done,
}

/// The progress of a materialization of `count` top-level names.
pub struct MaterializeState {
    count: usize,
    phase: MaterializePhase,
    next: usize,
}

/// Names `k - 1` down to `0`: the order in which the first `k` moved names
/// are moved back.
pub open spec fn rollback_order(k: nat) -> Seq<usize> {
    Seq::new(k, |i: int| (k - 1 - i) as usize)
}

/// The order of the phases; a step never goes back.
pub open spec fn phase_rank(p: MaterializePhase) -> int {
    match p {
        MaterializePhase::Checking => 0,
        MaterializePhase::Moving => 1,
        MaterializePhase::Syncing => 2,
        MaterializePhase::RestoringModes => 3,
        MaterializePhase::Finished => 4,
    }
}

/// `a` is the action `Fail(code)`.
pub open spec fn fails_with_class(a: MaterializeAction, code: Seq<char>) -> bool {
    a is Fail && a->Fail_0@ == code
}

/// `a` is the action `RollBack` of the first `k` names, last first.
pub open spec fn rolls_back(a: MaterializeAction, k: nat) -> bool {
    a is RollBack && a->RollBack_0@ == rollback_order(k)
}

impl MaterializeState {
    #[verifier::type_invariant]
    spec fn well_formed(self) -> bool {
        &&& self.next <= self.count
        &&& self.phase == MaterializePhase::Moving ==> self.next < self.count
        &&& (self.phase == MaterializePhase::Syncing || self.phase
            == MaterializePhase::RestoringModes) ==> self.next == self.count
    }

    /// The number of top-level names.
    pub closed spec fn count(&self) -> nat {
        self.count as nat
    }

    pub closed spec fn phase(&self) -> MaterializePhase {
        self.phase
    }

    /// In `Checking`, how many names were found absent; in `Moving`, how many
    /// were moved; afterwards, all of them.
    pub closed spec fn next(&self) -> nat {
        self.next as nat
    }

    /// How many names stand moved into the workspace.
    pub open spec fn moved(&self) -> nat {
        if self.phase() == MaterializePhase::Moving || self.phase() == MaterializePhase::Syncing
            || self.phase() == MaterializePhase::RestoringModes {
            self.next()
        } else {
            0
        }
    }

    /// A materialization of `count` names that has done nothing yet.
    pub fn new(count: usize) -> (r: MaterializeState)
        ensures
            r.count() == count,
            r.phase() == MaterializePhase::Checking,
            r.next() == 0,
    {
        MaterializeState { count, phase: MaterializePhase::Checking, next: 0 }
    }

    /// The step after `checked` names were found absent: check the next one,
    /// or start moving once all are checked.
    fn after_checks(count: usize, checked: usize) -> (r: (MaterializeState, MaterializeAction))
        requires
            checked <= count,
        ensures
            r.0.count() == count,
            is_after_checks(count as nat, checked as nat, r.0, r.1),
    {
        if checked < count {
            (
                MaterializeState { count, phase: MaterializePhase::Checking, next: checked },
                MaterializeAction::CheckDestination(checked),
            )
        } else if count > 0 {
            (
                MaterializeState { count, phase: MaterializePhase::Moving, next: 0 },
                MaterializeAction::Move(0),
            )
        } else {
            (
                MaterializeState { count, phase: MaterializePhase::Syncing, next: count },
                MaterializeAction::SyncWorkspace,
            )
        }
    }
}

/// After `checked` of `count` names were found absent: check name `checked`
/// if one is left, else move name 0, else (no names) sync the workspace.
pub open spec fn is_after_checks(
    count: nat,
    checked: nat,
    s: MaterializeState,
    a: MaterializeAction,
) -> bool {
    if checked < count {
        s.phase() == MaterializePhase::Checking && s.next() == checked && a
            == MaterializeAction::CheckDestination(checked as usize)
    } else if count > 0 {
        s.phase() == MaterializePhase::Moving && s.next() == 0 && a == MaterializeAction::Move(0)
    } else {
        s.phase() == MaterializePhase::Syncing && a == MaterializeAction::SyncWorkspace
    }
}

/// The next state and action of a materialization, given what the last
/// action reported.
///
/// - While checking, an existing destination fails the restore with
///   `destination-exists` before any name is moved; an event out of order
///   fails it with `materialize`, also before any move.
/// - While moving, a successful move goes on to the next name, or to the
///   sync after the last; a failed move (or any other event) rolls back
///   exactly the names moved so far, last first.
/// - A failed sync or mode restore rolls back every name, last first.
/// - `Done` comes only after every name was moved, the workspace synced and
///   the modes restored.
pub fn materialize_step(state: &MaterializeState, event: MaterializeEvent) -> (r: (
    MaterializeState,
    MaterializeAction,
))
    ensures
        r.0.count() == state.count(),
        phase_rank(r.0.phase()) >= phase_rank(state.phase()),
        state.phase() == MaterializePhase::Checking ==> match event {
            MaterializeEvent::Begin => is_after_checks(state.count(), state.next(), r.0, r.1),
            MaterializeEvent::DestinationChecked(true) => r.0.phase() == MaterializePhase::Finished
                && fails_with_class(r.1, "destination-exists"@),
            MaterializeEvent::DestinationChecked(false) => is_after_checks(
                state.count(),
                if state.next() < state.count() {
                    state.next() + 1
                } else {
                    state.next()
                },
                r.0,
                r.1,
            ),
            _ => r.0.phase() == MaterializePhase::Finished && fails_with_class(r.1, "materialize"@),
        },
        state.phase() == MaterializePhase::Moving ==> if event == MaterializeEvent::Moved(true) {
            if state.next() + 1 < state.count() {
                r.0.phase() == MaterializePhase::Moving && r.0.next() == state.next() + 1 && r.1
                    == MaterializeAction::Move((state.next() + 1) as usize)
            } else {
                r.0.phase() == MaterializePhase::Syncing && r.1 == MaterializeAction::SyncWorkspace
            }
        } else {
            r.0.phase() == MaterializePhase::Finished && rolls_back(r.1, state.next())
        },
        state.phase() == MaterializePhase::Syncing ==> if event == MaterializeEvent::Synced(true) {
            r.0.phase() == MaterializePhase::RestoringModes && r.1 == MaterializeAction::RestoreModes
        } else {
            r.0.phase() == MaterializePhase::Finished && rolls_back(r.1, state.count())
        },
        state.phase() == MaterializePhase::RestoringModes ==> if event
            == MaterializeEvent::ModesRestored(true) {
            r.0.phase() == MaterializePhase::Finished && r.1 == MaterializeAction::Done
        } else {
            r.0.phase() == MaterializePhase::Finished && rolls_back(r.1, state.count())
        },
        state.phase() == MaterializePhase::Finished ==> r.0.phase() == MaterializePhase::Finished
            && fails_with_class(r.1, "materialize"@),
        r.1 is Move ==> r.1->Move_0 == r.0.moved() && r.0.phase() == MaterializePhase::Moving,
        r.1 is RollBack ==> rolls_back(r.1, state.moved()) || rolls_back(r.1, state.count()),
        r.1 is Done ==> state.phase() == MaterializePhase::RestoringModes && state.next()
            == state.count(),
        fails_with_class(r.1, "destination-exists"@) ==> state.phase() == MaterializePhase::Checking
            && state.moved() == 0,
{
    proof {
        use_type_invariant(state);
        reveal_strlit("destination-exists");
        reveal_strlit("materialize");
        assert("destination-exists"@[0] != "materialize"@[0]);
    }
    let count = state.count;
    let k = state.next;
    match state.phase {
        MaterializePhase::Checking => match event {
            MaterializeEvent::Begin => MaterializeState::after_checks(count, k),
            MaterializeEvent::DestinationChecked(true) => (
                MaterializeState { count, phase: MaterializePhase::Finished, next: 0 },
                MaterializeAction::Fail("destination-exists"),
            ),
            MaterializeEvent::DestinationChecked(false) => {
                let checked = if k < count {
                    k + 1
                } else {
                    k
                };
                MaterializeState::after_checks(count, checked)
            },
            _ => (
                MaterializeState { count, phase: MaterializePhase::Finished, next: 0 },
                MaterializeAction::Fail("materialize"),
            ),
        },
        MaterializePhase::Moving => {
            if event == MaterializeEvent::Moved(true) {
                if k + 1 < count {
                    (
                        MaterializeState { count, phase: MaterializePhase::Moving, next: k + 1 },
                        MaterializeAction::Move(k + 1),
                    )
                } else {
                    (
                        MaterializeState { count, phase: MaterializePhase::Syncing, next: count },
                        MaterializeAction::SyncWorkspace,
                    )
                }
            } else {
                (
                    MaterializeState { count, phase: MaterializePhase::Finished, next: 0 },
                    MaterializeAction::RollBack(rollback_list(k)),
                )
            }
        },
        MaterializePhase::Syncing => {
            if event == MaterializeEvent::Synced(true) {
                (
                    MaterializeState { count, phase: MaterializePhase::RestoringModes, next: count },
                    MaterializeAction::RestoreModes,
                )
            } else {
                (
                    MaterializeState { count, phase: MaterializePhase::Finished, next: 0 },
                    MaterializeAction::RollBack(rollback_list(count)),
                )
            }
        },
        MaterializePhase::RestoringModes => {
            if event == MaterializeEvent::ModesRestored(true) {
                (
                    MaterializeState { count, phase: MaterializePhase::Finished, next: 0 },
                    MaterializeAction::Done,
                )
            } else {
                (
                    MaterializeState { count, phase: MaterializePhase::Finished, next: 0 },
                    MaterializeAction::RollBack(rollback_list(count)),
                )
            }
        },
        MaterializePhase::Finished => (
            MaterializeState { count, phase: MaterializePhase::Finished, next: 0 },
            MaterializeAction::Fail("materialize"),
        ),
    }
}

/// Names `k - 1` down to `0`.
fn rollback_list(k: usize) -> (r: Vec<usize>)
    ensures
        r@ == rollback_order(k as nat),
{
    let mut r: Vec<usize> = Vec::new();
    let mut i: usize = k;
    while i > 0
        invariant
            i <= k,
            r@ == rollback_order(k as nat).take((k - i) as int),
        decreases i,
    {
        i = i - 1;
        r.push(i);
        assert(r@ =~= rollback_order(k as nat).take((k - i) as int));
    }
    assert(rollback_order(k as nat).take(k as int) =~= rollback_order(k as nat));
    r
}

} // verus!
