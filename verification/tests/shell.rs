use dsh_desktop::shell::{
    exit_message, step, unexpected_exit_message, ShellAction, ShellEvent, ShellState,
};

#[test]
fn first_url_opens_the_window() {
    let mut state = ShellState::new();
    let action = step(
        &mut state,
        ShellEvent::Url { url: "http://127.0.0.1:3080".to_string(), window_open: false },
    );
    assert_eq!(action, ShellAction::OpenWindow("http://127.0.0.1:3080".to_string()));
    let again = step(
        &mut state,
        ShellEvent::Url { url: "http://127.0.0.1:3081".to_string(), window_open: true },
    );
    assert_eq!(again, ShellAction::Nothing);
    assert!(!state.user_quit);
}

#[test]
fn closing_the_main_window_kills_the_backend_then_quits() {
    let mut state = ShellState::new();
    let action = step(&mut state, ShellEvent::CloseRequested { label: "main".to_string() });
    assert_eq!(action, ShellAction::KillBackend);
    assert!(state.user_quit);
    let exit = step(
        &mut state,
        ShellEvent::Exited { code: Some(1), stderr_tail: b"killed".to_vec() },
    );
    assert_eq!(exit, ShellAction::Quit);
}

#[test]
fn closing_another_window_does_nothing() {
    let mut state = ShellState::new();
    let action = step(&mut state, ShellEvent::CloseRequested { label: "other".to_string() });
    assert_eq!(action, ShellAction::Nothing);
    assert!(!state.user_quit);
}

#[test]
fn unexpected_exit_shows_code_and_output() {
    let mut state = ShellState::new();
    let action = step(
        &mut state,
        ShellEvent::Exited { code: Some(-3), stderr_tail: b"boom\n".to_vec() },
    );
    assert_eq!(
        action,
        ShellAction::Fatal(
            "The harness backend exited unexpectedly (exit code -3).\n\nThe backend's last output was:\nboom\n"
                .to_string()
        )
    );
}

#[test]
fn blank_output_is_left_out_of_the_message() {
    assert_eq!(
        unexpected_exit_message(None, "  \r\n\t"),
        "The harness backend exited unexpectedly."
    );
    assert_eq!(
        unexpected_exit_message(Some(i32::MIN), ""),
        "The harness backend exited unexpectedly (exit code -2147483648)."
    );
    assert_eq!(
        unexpected_exit_message(Some(0), "x"),
        "The harness backend exited unexpectedly (exit code 0).\n\nThe backend's last output was:\nx"
    );
}

#[test]
fn invalid_utf8_in_the_tail_is_replaced() {
    assert_eq!(
        exit_message(Some(2), &[b'o', b'k', 0xff]),
        "The harness backend exited unexpectedly (exit code 2).\n\nThe backend's last output was:\nok\u{fffd}"
    );
}
