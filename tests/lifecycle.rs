use app_shell::lifecycle::{replay, step, Action, Event, Phase, EXIT_SUCCESS};

#[test]
fn start_hands_control_to_runtime() {
    assert_eq!(step(Phase::Booting, Event::Start), (Phase::Running, Action::HandOff));
}

#[test]
fn exit_command_while_running_exits_with_zero() {
    assert_eq!(
        step(Phase::Running, Event::ExitCommand),
        (Phase::Terminated, Action::Exit { code: 0 })
    );
    assert_eq!(EXIT_SUCCESS, 0);
}

#[test]
fn exit_command_before_handoff_exits_with_zero() {
    assert_eq!(
        step(Phase::Booting, Event::ExitCommand),
        (Phase::Terminated, Action::Exit { code: 0 })
    );
}

#[test]
fn runtime_shutdown_returns_from_entry_point() {
    assert_eq!(
        step(Phase::Running, Event::RuntimeShutdown),
        (Phase::Terminated, Action::Return)
    );
}

#[test]
fn runtime_failure_aborts() {
    assert_eq!(
        step(Phase::Running, Event::HandoffFailed),
        (Phase::Terminated, Action::Abort)
    );
}

#[test]
fn terminated_ignores_every_event() {
    for e in [
        Event::Start,
        Event::ExitCommand,
        Event::RuntimeShutdown,
        Event::HandoffFailed,
    ] {
        assert_eq!(step(Phase::Terminated, e), (Phase::Terminated, Action::Ignore));
    }
}

#[test]
fn events_out_of_place_are_ignored() {
    assert_eq!(step(Phase::Running, Event::Start), (Phase::Running, Action::Ignore));
    assert_eq!(
        step(Phase::Booting, Event::RuntimeShutdown),
        (Phase::Booting, Action::Ignore)
    );
    assert_eq!(
        step(Phase::Booting, Event::HandoffFailed),
        (Phase::Booting, Action::Ignore)
    );
}

#[test]
fn replay_of_nothing_keeps_phase() {
    assert_eq!(replay(Phase::Booting, &vec![]), (Phase::Booting, vec![]));
}

#[test]
fn exit_command_end_to_end() {
    let events = vec![Event::Start, Event::ExitCommand];
    assert_eq!(
        replay(Phase::Booting, &events),
        (Phase::Terminated, vec![Action::HandOff, Action::Exit { code: 0 }])
    );
}

#[test]
fn runtime_failure_end_to_end() {
    let events = vec![Event::Start, Event::HandoffFailed];
    let (phase, actions) = replay(Phase::Booting, &events);
    assert_eq!(phase, Phase::Terminated);
    assert_eq!(actions, vec![Action::HandOff, Action::Abort]);
    assert!(!actions.iter().any(|a| matches!(a, Action::Exit { .. })));
}

#[test]
fn handoff_happens_once() {
    let events = vec![Event::Start, Event::Start, Event::Start];
    let (phase, actions) = replay(Phase::Booting, &events);
    assert_eq!(phase, Phase::Running);
    assert_eq!(actions, vec![Action::HandOff, Action::Ignore, Action::Ignore]);
}

#[test]
fn nothing_happens_after_exit() {
    let events = vec![
        Event::Start,
        Event::ExitCommand,
        Event::ExitCommand,
        Event::RuntimeShutdown,
        Event::HandoffFailed,
        Event::Start,
    ];
    let (phase, actions) = replay(Phase::Booting, &events);
    assert_eq!(phase, Phase::Terminated);
    assert_eq!(
        actions,
        vec![
            Action::HandOff,
            Action::Exit { code: 0 },
            Action::Ignore,
            Action::Ignore,
            Action::Ignore,
            Action::Ignore,
        ]
    );
}

#[test]
fn exit_after_long_running_history_still_succeeds() {
    let events = vec![Event::Start, Event::Start, Event::RuntimeShutdown];
    let (phase, actions) = replay(Phase::Booting, &events);
    assert_eq!(phase, Phase::Terminated);
    assert_eq!(actions, vec![Action::HandOff, Action::Ignore, Action::Return]);
    let events = vec![Event::Start, Event::Start, Event::ExitCommand];
    let (_, actions) = replay(Phase::Booting, &events);
    assert_eq!(actions[2], Action::Exit { code: 0 });
}
