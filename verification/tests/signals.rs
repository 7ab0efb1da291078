use rusty_gpt::runtime_signals::{
    handle_signal, interrupt_requested, request_interrupt, reset_interrupt, InterruptState,
    SignalAction,
};

#[test]
fn request_and_reset_toggle_the_interrupt_flag() {
    let mut state = InterruptState::default();
    reset_interrupt(&mut state);
    assert!(!interrupt_requested(&state));
    request_interrupt(&mut state);
    assert!(interrupt_requested(&state));
    reset_interrupt(&mut state);
    assert!(!interrupt_requested(&state));
}

#[test]
fn the_first_signal_asks_for_a_stop() {
    let mut state = InterruptState::default();

    let action = handle_signal(&mut state, 2, 0);

    assert!(interrupt_requested(&state));
    assert_eq!(
        SignalAction::Announce {
            message: "\nInterrupt received (signal 2); saving checkpoint at the next step boundary. Send the signal again within 2s to abort immediately.".to_string()
        },
        action
    );
}

#[test]
fn a_second_signal_within_two_seconds_ends_the_process() {
    let mut state = InterruptState::default();
    handle_signal(&mut state, 2, 100);

    let action = handle_signal(&mut state, 15, 2_100);

    assert_eq!(
        SignalAction::Exit {
            message: "Second interrupt within 2s — exiting immediately without saving.".to_string(),
            code: 130,
        },
        action
    );
}

#[test]
fn a_late_second_signal_only_asks_again() {
    let mut state = InterruptState::default();
    handle_signal(&mut state, 2, 100);

    assert_eq!(SignalAction::Continue, handle_signal(&mut state, 2, 2_101));
    assert!(interrupt_requested(&state));
    // The window is counted from the last signal, not from the first.
    assert!(matches!(
        handle_signal(&mut state, 2, 4_000),
        SignalAction::Exit { .. }
    ));
}

#[test]
fn after_a_reset_the_next_signal_is_a_first_one() {
    let mut state = InterruptState::default();
    handle_signal(&mut state, 2, 100);
    reset_interrupt(&mut state);

    assert!(matches!(
        handle_signal(&mut state, 2, 200),
        SignalAction::Announce { .. }
    ));
}

#[test]
fn a_stop_over_http_is_no_signal() {
    let mut state = InterruptState::default();
    request_interrupt(&mut state);

    assert!(matches!(
        handle_signal(&mut state, -1, 5),
        SignalAction::Announce { message } if message.contains("(signal -1)")
    ));
}
