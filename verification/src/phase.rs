//! The lifecycle of one pipeline call: the caller performs the engine
//! action of the current phase and feeds the observed event back to the
//! step function until a terminal phase is reached. No retries happen at
//! this layer.

use vstd::prelude::*;

verus! {

/// The phase a pipeline call is in.
#[derive(Clone, Copy, PartialEq, Eq, Structural, Debug)]
pub enum Phase {
    Idle,
    TransactionOpening,
    Working,
    Committing,
    Aborting,
    Committed,
    Aborted,
    TransactionOpenFailed,
}

/// What the engine reported back for the pending action.
#[derive(Clone, Copy, PartialEq, Eq, Structural, Debug)]
pub enum PhaseEvent {
    Invoked,
    Opened,
    OpenRejected,
    WorkSucceeded,
    WorkFailed,
    CommitSucceeded,
    AbortCompleted,
}

/// Whether a call in phase `p` is finished: no event moves it further.
pub open spec fn is_terminal(p: Phase) -> bool {
    p == Phase::Committed || p == Phase::Aborted || p == Phase::TransactionOpenFailed
}

/// The lifecycle's transition relation. An event that does not belong to
/// the current phase leaves the phase unchanged.
pub open spec fn spec_phase_step(p: Phase, e: PhaseEvent) -> Phase {
    match (p, e) {
        (Phase::Idle, PhaseEvent::Invoked) => Phase::TransactionOpening,
        (Phase::TransactionOpening, PhaseEvent::Opened) => Phase::Working,
        (Phase::TransactionOpening, PhaseEvent::OpenRejected) => Phase::TransactionOpenFailed,
        (Phase::Working, PhaseEvent::WorkSucceeded) => Phase::Committing,
        (Phase::Working, PhaseEvent::WorkFailed) => Phase::Aborting,
        (Phase::Committing, PhaseEvent::CommitSucceeded) => Phase::Committed,
        (Phase::Aborting, PhaseEvent::AbortCompleted) => Phase::Aborted,
        _ => p,
    }
}

/// Advance one pipeline call by one observed event.
pub fn phase_step(p: Phase, e: PhaseEvent) -> (r: Phase)
    ensures
        r == spec_phase_step(p, e),
{
    match (p, e) {
        (Phase::Idle, PhaseEvent::Invoked) => Phase::TransactionOpening,
        (Phase::TransactionOpening, PhaseEvent::Opened) => Phase::Working,
        (Phase::TransactionOpening, PhaseEvent::OpenRejected) => Phase::TransactionOpenFailed,
        (Phase::Working, PhaseEvent::WorkSucceeded) => Phase::Committing,
        (Phase::Working, PhaseEvent::WorkFailed) => Phase::Aborting,
        (Phase::Committing, PhaseEvent::CommitSucceeded) => Phase::Committed,
        (Phase::Aborting, PhaseEvent::AbortCompleted) => Phase::Aborted,
        (other, _) => other,
    }
}

/// Terminal phases absorb every event: once a call has committed,
/// aborted, or failed to open its transaction, nothing moves it again.
pub proof fn lemma_terminal_phases_stable(p: Phase, e: PhaseEvent)
    requires
        is_terminal(p),
    ensures
        spec_phase_step(p, e) == p,
{
}

} // verus!
