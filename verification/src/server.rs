//! The server core: one state machine, one connection registry, and the
//! change-detection pass that turns a state mutation into an outbound notice.
//!
//! The core is single-writer: the transport hands in connects, disconnects
//! and received frames; the tick loop calls `tick` once per scheduler tick.
//! State mutation and change detection never run concurrently, so no locking
//! is needed around the machine or the last observed state.

use vstd::prelude::*;

use crate::dispatch::{after_broadcast, broadcast};
use crate::machine::{apply_all, target_state, MachineState, StateMachine};
use crate::machine::lemma_transition_determinism;
use crate::protocol::{
    decode, decode_spec, encode_spec, ControlEventKind, Envelope, EnvelopeView, ProtocolError,
};
use crate::registry::{
    broken_at, contains_id, drained_at, frames_of, remove_id, ConnectionId, EntryView, HandleView,
    Registry, RegistryError, SendHandle,
};
use crate::translate::{translate, translate_spec};

verus! {

/// The notice one change-detection pass emits: `Some` of the current state
/// exactly when it differs from the last observed state.
pub open spec fn detect(previous: Option<MachineState>, current: MachineState) -> Option<
    MachineState,
> {
    if previous == Some(current) {
        None
    } else {
        Some(current)
    }
}

/// How many notices a run of change-detection passes emits when no control
/// event arrives in between: each pass emits for a detected change and then
/// records the state it observed.
pub open spec fn notices_without_events(
    previous: Option<MachineState>,
    current: MachineState,
    ticks: nat,
) -> nat
    decreases ticks,
{
    if ticks == 0 {
        0
    } else {
        (if detect(previous, current) is Some {
            1nat
        } else {
            0nat
        }) + notices_without_events(Some(current), current, (ticks - 1) as nat)
    }
}

/// The authoritative server state: the canonical state machine, the state the
/// change-detection pass last observed, and the live connections.
pub struct ServerCore {
    /// The single canonical state machine.
    pub machine: StateMachine,
    /// Last state the change-detection pass observed; written only by `tick`.
    pub observed: Option<MachineState>,
    /// The live connections and their send queues.
    pub registry: Registry,
}

impl ServerCore {
    /// True when the registry holds no duplicate ids; every method preserves
    /// it.
    pub open spec fn wf(&self) -> bool {
        self.registry.wf()
    }

    /// A fresh core: machine in `Idle`, no connections.  Construction counts
    /// as having observed the initial state, so a core that receives no
    /// control event never emits a notice.
    pub fn new() -> (core: ServerCore)
        ensures
            core.machine.state == MachineState::Idle,
            core.observed == Some(MachineState::Idle),
            core.registry@ == Seq::<EntryView>::empty(),
            core.wf(),
    {
        ServerCore {
            machine: StateMachine::new(),
            observed: Some(MachineState::Idle),
            registry: Registry::new(),
        }
    }

    /// Registers a new connection with a send queue bounded at `capacity`.
    /// Fails with `DuplicateId`, changing nothing, if and only if the id is
    /// already live — that indicates a transport bug and is surfaced, not
    /// silently ignored.
    pub fn connect(&mut self, id: ConnectionId, capacity: usize) -> (r: Result<(), RegistryError>)
        requires
            old(self).wf(),
        ensures
            r is Ok <==> !contains_id(old(self).registry@, id),
            r is Ok ==> final(self).registry@ == old(self).registry@.push(
                EntryView {
                    id,
                    handle: HandleView {
                        frames: Seq::<Seq<u8>>::empty(),
                        capacity: capacity as nat,
                        broken: false,
                    },
                },
            ),
            r is Err ==> final(self).registry@ == old(self).registry@ && r == Err::<
                (),
                RegistryError,
            >(RegistryError::DuplicateId),
            final(self).machine == old(self).machine,
            final(self).observed == old(self).observed,
            final(self).wf(),
    {
        self.registry.register(id, SendHandle::new(capacity))
    }

    /// Removes a connection.  Idempotent: a disconnect may race a send
    /// failure on the same id, so an absent id is a no-op.
    pub fn disconnect(&mut self, id: ConnectionId)
        requires
            old(self).wf(),
        ensures
            final(self).registry@ == remove_id(old(self).registry@, id),
            !contains_id(final(self).registry@, id),
            final(self).machine == old(self).machine,
            final(self).observed == old(self).observed,
            final(self).wf(),
    {
        self.registry.unregister(id);
    }

    /// Records a transport-reported write failure on `id`'s handle; the next
    /// broadcast treats it as an implicit disconnect.
    pub fn mark_broken(&mut self, id: ConnectionId)
        requires
            old(self).wf(),
        ensures
            final(self).registry@ == broken_at(old(self).registry@, id),
            final(self).machine == old(self).machine,
            final(self).observed == old(self).observed,
            final(self).wf(),
    {
        self.registry.mark_broken(id);
    }

    /// Hands the frames queued for `id` to the transport, emptying the queue.
    pub fn drain(&mut self, id: ConnectionId) -> (frames: Vec<Vec<u8>>)
        requires
            old(self).wf(),
        ensures
            !contains_id(old(self).registry@, id) ==> final(self).registry@ == old(self).registry@
                && frames.deep_view() == Seq::<Seq<u8>>::empty(),
            contains_id(old(self).registry@, id) ==> final(self).registry@ == drained_at(
                old(self).registry@,
                id,
            ) && frames.deep_view() == frames_of(old(self).registry@, id),
            final(self).machine == old(self).machine,
            final(self).observed == old(self).observed,
            final(self).wf(),
    {
        self.registry.drain(id)
    }

    /// Applies one wire-level control event to the state machine and returns
    /// the new state.  No broadcast happens here: the next change-detection
    /// pass notices the mutation, so several events within one tick coalesce
    /// into a single notice carrying only the final state.
    pub fn apply_control(&mut self, kind: ControlEventKind) -> (s: MachineState)
        ensures
            final(self).machine.state == target_state(translate_spec(kind)),
            s == target_state(translate_spec(kind)),
            final(self).observed == old(self).observed,
            final(self).registry == old(self).registry,
    {
        let event = translate(kind);
        self.machine.apply(event)
    }

    /// One change-detection pass.  Compares the current state to the last
    /// observed one; on a difference it broadcasts a `StateNotice` carrying
    /// the current state — encoded once, queued on every connection — and
    /// records the state as observed.  On equality it has no effect.  Returns
    /// whether a notice was emitted.
    pub fn tick(&mut self) -> (emitted: bool)
        requires
            old(self).wf(),
        ensures
            emitted == (detect(old(self).observed, old(self).machine.state) is Some),
            final(self).machine == old(self).machine,
            final(self).observed == Some(old(self).machine.state),
            !emitted ==> final(self).registry == old(self).registry,
            emitted ==> final(self).registry@ == after_broadcast(
                old(self).registry@,
                encode_spec(EnvelopeView::StateNotice { state: old(self).machine.state }),
            ),
            final(self).wf(),
    {
        let current = self.machine.current();
        let unchanged = match self.observed {
            Some(p) => p == current,
            None => false,
        };
        if unchanged {
            return false;
        }
        let notice = Envelope::StateNotice { state: current };
        broadcast(&mut self.registry, &notice);
        self.observed = Some(current);
        true
    }

    /// Handles one frame received from a connection.  A chat message is
    /// echoed to every connection, the sender included; a control event is
    /// applied to the state machine (its notice follows at the next tick); an
    /// inbound state notice is ignored, since notices are server-origin.  A
    /// frame that fails to decode is reported and dropped, leaving the core
    /// untouched and the connection open.
    pub fn handle_frame(&mut self, frame: &Vec<u8>) -> (r: Result<(), ProtocolError>)
        requires
            old(self).wf(),
        ensures
            r is Ok <==> decode_spec(frame@) is Ok,
            r matches Err(e) ==> decode_spec(frame@) == Err::<EnvelopeView, ProtocolError>(e)
                && *final(self) == *old(self),
            decode_spec(frame@) matches Ok(v) ==> match v {
                EnvelopeView::ChatMessage { author, body } => {
                    &&& final(self).registry@ == after_broadcast(
                        old(self).registry@,
                        encode_spec(v),
                    )
                    &&& final(self).machine == old(self).machine
                    &&& final(self).observed == old(self).observed
                },
                EnvelopeView::ControlEvent { kind } => {
                    &&& final(self).machine.state == target_state(translate_spec(kind))
                    &&& final(self).observed == old(self).observed
                    &&& final(self).registry == old(self).registry
                },
                EnvelopeView::StateNotice { state } => *final(self) == *old(self),
            },
            final(self).wf(),
    {
        match decode(frame.as_slice()) {
            Err(e) => Err(e),
            Ok(env) => {
                match &env {
                    Envelope::ChatMessage { author: _, body: _ } => {
                        broadcast(&mut self.registry, &env);
                    },
                    Envelope::ControlEvent { kind } => {
                        let event = translate(*kind);
                        self.machine.apply(event);
                    },
                    Envelope::StateNotice { state: _ } => {},
                }
                Ok(())
            },
        }
    }
}

/// Change-detection coalescing: two control events applied within one tick
/// leave the machine in the target state of the second alone, and the next
/// change-detection pass emits a single notice carrying only that final state
/// — the intermediate state is never broadcast.
pub proof fn lemma_coalesced_notice(
    previous: Option<MachineState>,
    s0: MachineState,
    k1: ControlEventKind,
    k2: ControlEventKind,
)
    ensures
        apply_all(s0, seq![translate_spec(k1), translate_spec(k2)]) == target_state(
            translate_spec(k2),
        ),
        detect(previous, apply_all(s0, seq![translate_spec(k1), translate_spec(k2)])) == (if (
        previous == Some(target_state(translate_spec(k2)))) {
            None::<MachineState>
        } else {
            Some(target_state(translate_spec(k2)))
        }),
{
    let events = seq![translate_spec(k1), translate_spec(k2)];
    lemma_transition_determinism(s0, events);
    assert(events.last() == translate_spec(k2));
}

/// No spurious notice: once the change-detection pass has observed the
/// current state, any number of further passes without an intervening
/// control event emits zero notices.
pub proof fn lemma_no_spurious_notice(current: MachineState, ticks: nat)
    ensures
        notices_without_events(Some(current), current, ticks) == 0,
    decreases ticks,
{
    if ticks == 0 {
    } else {
        lemma_no_spurious_notice(current, (ticks - 1) as nat);
    }
}

/// Whatever was observed before, a run of passes without control events
/// emits at most one notice: only the first pass can detect a change.
pub proof fn lemma_notices_at_most_one(
    previous: Option<MachineState>,
    current: MachineState,
    ticks: nat,
)
    ensures
        notices_without_events(previous, current, ticks) <= 1,
{
    if ticks == 0 {
    } else {
        lemma_no_spurious_notice(current, (ticks - 1) as nat);
    }
}

} // verus!
