//! The server-side operational state machine.
//!
//! The machine holds the single authoritative operational mode of the server.
//! Control events are commands, not conditional requests: every event maps to
//! one resulting state and is applied unconditionally, regardless of the
//! current state (last write wins, no queuing of intermediate states).

use vstd::prelude::*;

verus! {

/// The authoritative operational mode of the server.  Exactly one value is
/// held per server; `Idle` is initial and no state is terminal.
#[derive(Clone, Copy, PartialEq, Eq, Structural, Debug)]
pub enum MachineState {
    Idle,
    Running,
    Paused,
    Stopped,
    EmergencyStop,
}

/// The state machine's own event vocabulary.  The wire vocabulary is
/// `protocol::ControlEventKind`; `translate::translate` maps between the two,
/// so that the two can evolve independently.
#[derive(Clone, Copy, PartialEq, Eq, Structural, Debug)]
pub enum StateMachineEvent {
    Start,
    Stop,
    Pause,
    Emergency,
    Power,
}

/// The transition table: each event names its resulting state.  The table is
/// total and ignores the current state by design.
pub open spec fn target_state(e: StateMachineEvent) -> MachineState {
    match e {
        StateMachineEvent::Start => MachineState::Running,
        StateMachineEvent::Stop => MachineState::Stopped,
        StateMachineEvent::Pause => MachineState::Paused,
        StateMachineEvent::Emergency => MachineState::EmergencyStop,
        StateMachineEvent::Power => MachineState::Idle,
    }
}

/// Folds a sequence of events through the transition table, starting at `s0`.
pub open spec fn apply_all(s0: MachineState, events: Seq<StateMachineEvent>) -> MachineState
    decreases events.len(),
{
    if events.len() == 0 {
        s0
    } else {
        apply_all(target_state(events[0]), events.drop_first())
    }
}

/// The single canonical state machine, owned by the server core.
pub struct StateMachine {
    pub state: MachineState,
}

impl StateMachine {
    /// A fresh machine starts in `Idle`.
    pub fn new() -> (m: StateMachine)
        ensures
            m.state == MachineState::Idle,
    {
        StateMachine { state: MachineState::Idle }
    }

    /// Applies one event and returns the new state.  This never fails:
    /// unknown events are rejected earlier, at decode time, never here.
    pub fn apply(&mut self, e: StateMachineEvent) -> (s: MachineState)
        ensures
            final(self).state == target_state(e),
            s == target_state(e),
    {
        let next = match e {
            StateMachineEvent::Start => MachineState::Running,
            StateMachineEvent::Stop => MachineState::Stopped,
            StateMachineEvent::Pause => MachineState::Paused,
            StateMachineEvent::Emergency => MachineState::EmergencyStop,
            StateMachineEvent::Power => MachineState::Idle,
        };
        self.state = next;
        next
    }

    /// The current state, read without mutation.
    pub fn current(&self) -> (s: MachineState)
        ensures
            s == self.state,
    {
        self.state
    }
}

/// Transition determinism: applying any non-empty sequence of events, from
/// any starting state, ends in the target state of the last event alone.
/// Each transition ignores the state it starts from.
pub proof fn lemma_transition_determinism(s0: MachineState, events: Seq<StateMachineEvent>)
    requires
        events.len() > 0,
    ensures
        apply_all(s0, events) == target_state(events.last()),
    decreases events.len(),
{
    if events.len() == 1 {
        assert(events.drop_first().len() == 0);
        assert(apply_all(s0, events) == apply_all(target_state(events[0]), events.drop_first()));
    } else {
        lemma_transition_determinism(target_state(events[0]), events.drop_first());
        assert(events.drop_first().last() == events.last());
    }
}

} // verus!
