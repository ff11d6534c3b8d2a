use relay_core::machine::{MachineState, StateMachine, StateMachineEvent};
use relay_core::protocol::ControlEventKind;
use relay_core::translate::translate;

#[test]
fn every_event_reaches_its_target_state() {
    let mut m = StateMachine::new();
    assert_eq!(m.current(), MachineState::Idle);
    assert_eq!(m.apply(StateMachineEvent::Start), MachineState::Running);
    assert_eq!(m.apply(StateMachineEvent::Pause), MachineState::Paused);
    assert_eq!(m.apply(StateMachineEvent::Stop), MachineState::Stopped);
    assert_eq!(m.apply(StateMachineEvent::Emergency), MachineState::EmergencyStop);
    assert_eq!(m.apply(StateMachineEvent::Power), MachineState::Idle);
}

#[test]
fn transitions_ignore_prior_state() {
    // [Start, Pause, Stop] from Idle ends where Stop alone ends, from any state.
    let mut m = StateMachine::new();
    m.apply(StateMachineEvent::Start);
    m.apply(StateMachineEvent::Pause);
    m.apply(StateMachineEvent::Stop);
    assert_eq!(m.current(), MachineState::Stopped);

    let starts = [
        StateMachineEvent::Start,
        StateMachineEvent::Pause,
        StateMachineEvent::Emergency,
        StateMachineEvent::Power,
    ];
    for first in starts {
        let mut m2 = StateMachine::new();
        m2.apply(first);
        assert_eq!(m2.apply(StateMachineEvent::Stop), MachineState::Stopped);
    }
}

#[test]
fn translation_is_the_identity_relabeling() {
    assert_eq!(translate(ControlEventKind::Start), StateMachineEvent::Start);
    assert_eq!(translate(ControlEventKind::Stop), StateMachineEvent::Stop);
    assert_eq!(translate(ControlEventKind::Pause), StateMachineEvent::Pause);
    assert_eq!(translate(ControlEventKind::Emergency), StateMachineEvent::Emergency);
    assert_eq!(translate(ControlEventKind::Power), StateMachineEvent::Power);
}
