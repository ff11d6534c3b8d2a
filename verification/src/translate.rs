//! The event translator: maps the wire-level control-event vocabulary to the
//! state machine's own event vocabulary.
//!
//! The mapping is a pure, total, one-to-one relabeling.  It is kept as a
//! component of its own so that the wire vocabulary and the state-machine
//! vocabulary can evolve independently; exhaustiveness is enforced by the
//! `match`, so adding a wire variant without a translation fails to compile.

use vstd::prelude::*;

use crate::machine::StateMachineEvent;
use crate::protocol::ControlEventKind;

verus! {

/// The translation table, stated once so contracts elsewhere can name it.
pub open spec fn translate_spec(kind: ControlEventKind) -> StateMachineEvent {
    match kind {
        ControlEventKind::Start => StateMachineEvent::Start,
        ControlEventKind::Stop => StateMachineEvent::Stop,
        ControlEventKind::Pause => StateMachineEvent::Pause,
        ControlEventKind::Emergency => StateMachineEvent::Emergency,
        ControlEventKind::Power => StateMachineEvent::Power,
    }
}

/// Translates one wire-level control event.  Total: every kind has exactly
/// one corresponding state-machine event and there is no error path.
pub fn translate(kind: ControlEventKind) -> (e: StateMachineEvent)
    ensures
        e == translate_spec(kind),
{
    match kind {
        ControlEventKind::Start => StateMachineEvent::Start,
        ControlEventKind::Stop => StateMachineEvent::Stop,
        ControlEventKind::Pause => StateMachineEvent::Pause,
        ControlEventKind::Emergency => StateMachineEvent::Emergency,
        ControlEventKind::Power => StateMachineEvent::Power,
    }
}

} // verus!
