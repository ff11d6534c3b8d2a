use relay_core::dispatch::broadcast;
use relay_core::machine::MachineState;
use relay_core::protocol::{encode, ControlEventKind, Envelope, ProtocolError};
use relay_core::registry::{Registry, RegistryError, SendHandle};
use relay_core::server::ServerCore;

const CAP: usize = 16;

fn chat(author: &str, body: &str) -> Envelope {
    Envelope::ChatMessage { author: String::from(author), body: String::from(body) }
}

#[test]
fn register_duplicate_id_is_surfaced() {
    let mut reg = Registry::new();
    assert_eq!(reg.register(7, SendHandle::new(CAP)), Ok(()));
    assert_eq!(reg.register(7, SendHandle::new(CAP)), Err(RegistryError::DuplicateId));
    assert_eq!(reg.len(), 1);
}

#[test]
fn unregister_absent_id_is_a_no_op() {
    let mut reg = Registry::new();
    reg.register(1, SendHandle::new(CAP)).unwrap();
    reg.unregister(2);
    assert_eq!(reg.len(), 1);
    reg.unregister(1);
    reg.unregister(1);
    assert_eq!(reg.len(), 0);
}

#[test]
fn snapshot_keeps_registration_order() {
    let mut reg = Registry::new();
    reg.register(3, SendHandle::new(CAP)).unwrap();
    reg.register(1, SendHandle::new(CAP)).unwrap();
    reg.register(2, SendHandle::new(CAP)).unwrap();
    assert_eq!(reg.snapshot_ids(), vec![3, 1, 2]);
}

#[test]
fn broadcast_fans_out_one_copy_each() {
    let mut core = ServerCore::new();
    core.connect(1, CAP).unwrap();
    core.connect(2, CAP).unwrap();
    core.connect(3, CAP).unwrap();
    let env = chat("alice", "hello everyone");
    let bytes = encode(&env);
    broadcast(&mut core.registry, &env);
    for id in [1, 2, 3] {
        let frames = core.drain(id);
        assert_eq!(frames, vec![bytes.clone()]);
    }
}

#[test]
fn broken_connection_is_isolated_and_dropped() {
    let mut core = ServerCore::new();
    core.connect(1, CAP).unwrap();
    core.connect(2, CAP).unwrap();
    core.connect(3, CAP).unwrap();
    core.mark_broken(2);
    let env = chat("alice", "still going");
    let bytes = encode(&env);
    broadcast(&mut core.registry, &env);
    assert_eq!(core.drain(1), vec![bytes.clone()]);
    assert_eq!(core.drain(3), vec![bytes.clone()]);
    let ids = core.registry.snapshot_ids();
    assert_eq!(ids, vec![1, 3]);
    assert_eq!(core.drain(2), Vec::<Vec<u8>>::new());
}

#[test]
fn saturated_queue_counts_as_send_failure() {
    let mut core = ServerCore::new();
    core.connect(1, 1).unwrap();
    core.connect(2, CAP).unwrap();
    let first = chat("a", "one");
    let second = chat("a", "two");
    broadcast(&mut core.registry, &first);
    broadcast(&mut core.registry, &second);
    // Connection 1 had room for one frame only; the second broadcast dropped it.
    assert_eq!(core.registry.snapshot_ids(), vec![2]);
    assert_eq!(core.drain(2), vec![encode(&first), encode(&second)]);
}

#[test]
fn broadcasts_arrive_in_issue_order() {
    let mut core = ServerCore::new();
    core.connect(1, CAP).unwrap();
    core.connect(2, CAP).unwrap();
    let b1 = chat("alice", "first");
    let b2 = chat("bob", "second");
    broadcast(&mut core.registry, &b1);
    broadcast(&mut core.registry, &b2);
    for id in [1, 2] {
        let frames = core.drain(id);
        assert_eq!(frames, vec![encode(&b1), encode(&b2)]);
    }
}

#[test]
fn tick_emits_nothing_without_events() {
    let mut core = ServerCore::new();
    core.connect(1, CAP).unwrap();
    for _ in 0..10 {
        assert!(!core.tick());
    }
    assert_eq!(core.drain(1), Vec::<Vec<u8>>::new());
}

#[test]
fn two_events_in_one_tick_coalesce_to_one_notice() {
    let mut core = ServerCore::new();
    core.connect(1, CAP).unwrap();
    core.apply_control(ControlEventKind::Start);
    core.apply_control(ControlEventKind::Stop);
    assert!(core.tick());
    let frames = core.drain(1);
    let expected = encode(&Envelope::StateNotice { state: MachineState::Stopped });
    assert_eq!(frames, vec![expected]);
    // The intermediate Running state was never broadcast, and the next tick
    // is quiet again.
    assert!(!core.tick());
    assert_eq!(core.drain(1), Vec::<Vec<u8>>::new());
}

#[test]
fn every_connection_sees_the_state_notice() {
    let mut core = ServerCore::new();
    core.connect(1, CAP).unwrap();
    core.connect(2, CAP).unwrap();
    core.apply_control(ControlEventKind::Emergency);
    assert!(core.tick());
    let expected = encode(&Envelope::StateNotice { state: MachineState::EmergencyStop });
    assert_eq!(core.drain(1), vec![expected.clone()]);
    assert_eq!(core.drain(2), vec![expected]);
}

#[test]
fn chat_frame_is_echoed_to_all_including_sender() {
    let mut core = ServerCore::new();
    core.connect(1, CAP).unwrap();
    core.connect(2, CAP).unwrap();
    let env = chat("player one", "gg");
    let frame = encode(&env);
    assert_eq!(core.handle_frame(&frame), Ok(()));
    assert_eq!(core.drain(1), vec![frame.clone()]);
    assert_eq!(core.drain(2), vec![frame]);
}

#[test]
fn control_frame_mutates_state_and_notice_follows_at_tick() {
    let mut core = ServerCore::new();
    core.connect(1, CAP).unwrap();
    let frame = encode(&Envelope::ControlEvent { kind: ControlEventKind::Pause });
    assert_eq!(core.handle_frame(&frame), Ok(()));
    assert_eq!(core.machine.current(), MachineState::Paused);
    // No broadcast yet: the change-detection pass emits it.
    assert_eq!(core.drain(1), Vec::<Vec<u8>>::new());
    assert!(core.tick());
    let expected = encode(&Envelope::StateNotice { state: MachineState::Paused });
    assert_eq!(core.drain(1), vec![expected]);
}

#[test]
fn inbound_state_notice_is_ignored() {
    let mut core = ServerCore::new();
    core.connect(1, CAP).unwrap();
    let frame = encode(&Envelope::StateNotice { state: MachineState::Running });
    assert_eq!(core.handle_frame(&frame), Ok(()));
    assert_eq!(core.machine.current(), MachineState::Idle);
    assert_eq!(core.drain(1), Vec::<Vec<u8>>::new());
}

#[test]
fn malformed_frame_is_dropped_and_connection_stays() {
    let mut core = ServerCore::new();
    core.connect(1, CAP).unwrap();
    assert_eq!(core.handle_frame(&vec![9, 9, 9]), Err(ProtocolError::UnknownVariant));
    assert_eq!(core.handle_frame(&vec![0, 1]), Err(ProtocolError::MalformedPayload));
    assert_eq!(core.registry.snapshot_ids(), vec![1]);
    assert_eq!(core.machine.current(), MachineState::Idle);
}

#[test]
fn duplicate_connect_is_fatal_diagnostic_for_that_connection() {
    let mut core = ServerCore::new();
    assert_eq!(core.connect(5, CAP), Ok(()));
    assert_eq!(core.connect(5, CAP), Err(RegistryError::DuplicateId));
    assert_eq!(core.registry.len(), 1);
}

#[test]
fn disconnect_then_broadcast_skips_the_gone_connection() {
    let mut core = ServerCore::new();
    core.connect(1, CAP).unwrap();
    core.connect(2, CAP).unwrap();
    core.disconnect(1);
    let env = chat("alice", "anyone here?");
    broadcast(&mut core.registry, &env);
    assert_eq!(core.registry.snapshot_ids(), vec![2]);
    assert_eq!(core.drain(2), vec![encode(&env)]);
    assert_eq!(core.drain(1), Vec::<Vec<u8>>::new());
}

#[test]
fn drain_empties_the_queue() {
    let mut core = ServerCore::new();
    core.connect(1, CAP).unwrap();
    let env = chat("a", "b");
    broadcast(&mut core.registry, &env);
    assert_eq!(core.drain(1).len(), 1);
    assert_eq!(core.drain(1), Vec::<Vec<u8>>::new());
}
