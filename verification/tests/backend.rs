use dsh_desktop::backend::{classify, kill_command, push_stderr_tail, BackendEnd, STDERR_TAIL_CAP};

#[test]
fn user_quit_wins_over_any_code() {
    assert_eq!(classify(true, Some(0)), BackendEnd::UserQuit);
    assert_eq!(classify(true, Some(1)), BackendEnd::UserQuit);
    assert_eq!(classify(true, None), BackendEnd::UserQuit);
}

#[test]
fn unexpected_exit_reports_the_code() {
    assert_eq!(classify(false, Some(0)), BackendEnd::Unexpected { code: Some(0) });
    assert_eq!(classify(false, Some(1)), BackendEnd::Unexpected { code: Some(1) });
    assert_eq!(classify(false, None), BackendEnd::Unexpected { code: None });
}

#[test]
fn stderr_tail_below_the_cap_keeps_everything() {
    let mut tail = Vec::new();
    push_stderr_tail(&mut tail, b"hello ");
    push_stderr_tail(&mut tail, b"world");
    assert_eq!(tail, b"hello world".to_vec());
}

#[test]
fn stderr_tail_is_capped_to_the_last_bytes() {
    let mut tail = Vec::new();
    let first: Vec<u8> = (0..STDERR_TAIL_CAP).map(|i| (i % 251) as u8).collect();
    push_stderr_tail(&mut tail, &first);
    assert_eq!(tail.len(), STDERR_TAIL_CAP);
    push_stderr_tail(&mut tail, &[1, 2, 3]);
    assert_eq!(tail.len(), STDERR_TAIL_CAP);
    assert_eq!(&tail[..STDERR_TAIL_CAP - 3], &first[3..]);
    assert_eq!(&tail[STDERR_TAIL_CAP - 3..], &[1, 2, 3]);
}

#[test]
fn stderr_tail_chunking_does_not_matter() {
    let all: Vec<u8> = (0..(STDERR_TAIL_CAP + 5000)).map(|i| (i % 253) as u8).collect();
    let mut at_once = Vec::new();
    push_stderr_tail(&mut at_once, &all);
    let mut chunked = Vec::new();
    for chunk in all.chunks(4096) {
        push_stderr_tail(&mut chunked, chunk);
    }
    assert_eq!(at_once, chunked);
    assert_eq!(at_once, all[5000..].to_vec());
}

#[test]
fn kill_command_on_windows_kills_the_tree() {
    let command = kill_command(4242, true);
    assert_eq!(command.program, "taskkill");
    assert_eq!(command.args, vec!["/PID", "4242", "/T", "/F"]);
}

#[test]
fn kill_command_elsewhere_kills_the_child() {
    let command = kill_command(0, false);
    assert_eq!(command.program, "kill");
    assert_eq!(command.args, vec!["-9", "0"]);
    assert_eq!(kill_command(u32::MAX, false).args[1], "4294967295");
}
