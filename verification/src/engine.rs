//! The reconciliation engine: fetch, edit, diff, push, back up.
//!
//! The engine itself is a pure state machine: from a state and an event
//! it decides the next state and the one action the gateway (the caller,
//! which owns all I/O) must perform next. The caller reports each
//! action's outcome as the next event. Whatever pushing returns — ack,
//! conflict, or a transport failure — the engine always proceeds to the
//! backup: local edits are never discarded.

use vstd::prelude::*;

verus! {

/// The sub-step a failure is attributed to.
#[derive(Clone, Copy, PartialEq, Eq, Structural, Debug)]
pub enum SubStep {
    Fetching,
    Pushing,
    BackingUp,
}

/// Why a sub-step failed.
#[derive(Clone, Copy, PartialEq, Eq, Structural, Debug)]
pub enum FailReason {
    /// Network unreachable or bad status.
    Transport,
    /// Malformed remote snapshot.
    Decode,
    /// The session cookie is stale: the server holds a newer generation.
    Conflict,
    /// The local backup write failed: the last line of durability.
    Io,
}

/// The engine's state. `BackingUp` remembers whether pushing failed, so
/// the failure can be reported once the backup was attempted.
#[derive(Clone, Copy, PartialEq, Eq, Structural, Debug)]
pub enum EngineState {
    Idle,
    Fetching,
    Editing,
    Diffing,
    Pushing,
    BackingUp { push_failure: Option<FailReason> },
    Done,
    Failed { step: SubStep, reason: FailReason },
}

/// What the gateway reports back to the engine.
#[derive(Clone, Copy, PartialEq, Eq, Structural, Debug)]
pub enum Event {
    Start,
    FetchOk,
    FetchTransportErr,
    FetchDecodeErr,
    EditDone,
    DiffReady,
    PushAck,
    PushConflict,
    PushTransportErr,
    BackupOk,
    BackupIoErr,
}

/// What the engine asks the gateway to do next.
#[derive(Clone, Copy, PartialEq, Eq, Structural, Debug)]
pub enum Action {
    /// Read the full snapshot from the remote endpoint.
    Fetch,
    /// Open the edit window; mutate the aggregate freely.
    Edit,
    /// Diff the pre-edit snapshot against the current aggregate.
    ComputeDiff,
    /// Send the patch and the session cookie to the remote endpoint.
    Push,
    /// Persist a full copy of the current aggregate locally.
    Backup,
    /// The session is over.
    Stop,
    /// The event did not belong to the state; do nothing.
    Hold,
}

/// The transition table. Every push outcome leads to `BackingUp`; `Done`
/// is reached only when push and backup both succeeded; a terminal state
/// absorbs every event.
pub open spec fn next_state(s: EngineState, e: Event) -> (EngineState, Action) {
    match (s, e) {
        (EngineState::Idle, Event::Start) => (EngineState::Fetching, Action::Fetch),
        (EngineState::Fetching, Event::FetchOk) => (EngineState::Editing, Action::Edit),
        (EngineState::Fetching, Event::FetchTransportErr) => (
            EngineState::Failed { step: SubStep::Fetching, reason: FailReason::Transport },
            Action::Stop,
        ),
        (EngineState::Fetching, Event::FetchDecodeErr) => (
            EngineState::Failed { step: SubStep::Fetching, reason: FailReason::Decode },
            Action::Stop,
        ),
        (EngineState::Editing, Event::EditDone) => (EngineState::Diffing, Action::ComputeDiff),
        (EngineState::Diffing, Event::DiffReady) => (EngineState::Pushing, Action::Push),
        (EngineState::Pushing, Event::PushAck) => (
            EngineState::BackingUp { push_failure: None },
            Action::Backup,
        ),
        (EngineState::Pushing, Event::PushConflict) => (
            EngineState::BackingUp { push_failure: Some(FailReason::Conflict) },
            Action::Backup,
        ),
        (EngineState::Pushing, Event::PushTransportErr) => (
            EngineState::BackingUp { push_failure: Some(FailReason::Transport) },
            Action::Backup,
        ),
        (EngineState::BackingUp { push_failure: None }, Event::BackupOk) => (
            EngineState::Done,
            Action::Stop,
        ),
        (EngineState::BackingUp { push_failure: Some(r) }, Event::BackupOk) => (
            EngineState::Failed { step: SubStep::Pushing, reason: r },
            Action::Stop,
        ),
        (EngineState::BackingUp { push_failure: _ }, Event::BackupIoErr) => (
            EngineState::Failed { step: SubStep::BackingUp, reason: FailReason::Io },
            Action::Stop,
        ),
        _ => (s, Action::Hold),
    }
}

/// One step of the engine: exactly the transition table.
pub fn step(s: EngineState, e: Event) -> (r: (EngineState, Action))
    ensures
        r == next_state(s, e),
{
    match (s, e) {
        (EngineState::Idle, Event::Start) => (EngineState::Fetching, Action::Fetch),
        (EngineState::Fetching, Event::FetchOk) => (EngineState::Editing, Action::Edit),
        (EngineState::Fetching, Event::FetchTransportErr) => (
            EngineState::Failed { step: SubStep::Fetching, reason: FailReason::Transport },
            Action::Stop,
        ),
        (EngineState::Fetching, Event::FetchDecodeErr) => (
            EngineState::Failed { step: SubStep::Fetching, reason: FailReason::Decode },
            Action::Stop,
        ),
        (EngineState::Editing, Event::EditDone) => (EngineState::Diffing, Action::ComputeDiff),
        (EngineState::Diffing, Event::DiffReady) => (EngineState::Pushing, Action::Push),
        (EngineState::Pushing, Event::PushAck) => (
            EngineState::BackingUp { push_failure: None },
            Action::Backup,
        ),
        (EngineState::Pushing, Event::PushConflict) => (
            EngineState::BackingUp { push_failure: Some(FailReason::Conflict) },
            Action::Backup,
        ),
        (EngineState::Pushing, Event::PushTransportErr) => (
            EngineState::BackingUp { push_failure: Some(FailReason::Transport) },
            Action::Backup,
        ),
        (EngineState::BackingUp { push_failure: None }, Event::BackupOk) => (
            EngineState::Done,
            Action::Stop,
        ),
        (EngineState::BackingUp { push_failure: Some(r) }, Event::BackupOk) => (
            EngineState::Failed { step: SubStep::Pushing, reason: r },
            Action::Stop,
        ),
        (EngineState::BackingUp { push_failure: _ }, Event::BackupIoErr) => (
            EngineState::Failed { step: SubStep::BackingUp, reason: FailReason::Io },
            Action::Stop,
        ),
        _ => (s, Action::Hold),
    }
}

/// Every outcome of pushing — success, conflict, or transport failure —
/// leads to `BackingUp` with the backup requested: local edits are never
/// discarded, whatever the push returned. A conflict is then reported,
/// after the backup, as a pushing failure.
pub proof fn lemma_push_outcome_always_backs_up(e: Event)
    requires
        e == Event::PushAck || e == Event::PushConflict || e == Event::PushTransportErr,
    ensures
        next_state(EngineState::Pushing, e).0 is BackingUp,
        next_state(EngineState::Pushing, e).1 == Action::Backup,
        next_state(EngineState::Pushing, Event::PushConflict) == (
            EngineState::BackingUp { push_failure: Some(FailReason::Conflict) },
            Action::Backup,
        ),
        next_state(
            EngineState::BackingUp { push_failure: Some(FailReason::Conflict) },
            Event::BackupOk,
        ).0 == (EngineState::Failed { step: SubStep::Pushing, reason: FailReason::Conflict }),
{
}

/// A fetch failure is fatal: the session reaches `Failed` and never
/// enters `Editing` — terminal states absorb every further event.
pub proof fn lemma_fetch_failure_never_edits(e: Event, later: Event)
    requires
        e == Event::FetchTransportErr || e == Event::FetchDecodeErr,
    ensures
        next_state(EngineState::Fetching, e).0 is Failed,
        next_state(next_state(EngineState::Fetching, e).0, later).0 is Failed,
{
}

/// `Done` is reached only from a backup that succeeded after a push that
/// succeeded: if a step newly ends in `Done`, the state was `BackingUp`
/// with no recorded push failure and the event was the backup's success.
pub proof fn lemma_done_needs_push_and_backup(s: EngineState, e: Event)
    requires
        !(s is Done),
        next_state(s, e).0 is Done,
    ensures
        s == (EngineState::BackingUp { push_failure: None::<FailReason> }),
        e == Event::BackupOk,
{
}

} // verus!
