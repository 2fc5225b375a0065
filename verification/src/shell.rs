//! The shell's decisions: what it does when the backend announces its URL,
//! when the backend exits, and when a window asks to close. The application
//! performs the actions and hands back the events.

use vstd::prelude::*;
use vstd::utf8::{decode_utf8, valid_utf8};

use crate::backend::{classify, BackendEnd};
use crate::text::{
    all_white_space, chars_of, i32_text, int_text, is_signed_numeral_of, is_white_space,
    lemma_int_text_is_numeral, white_space,
};

verus! {

/// The label of the shell's only window.
pub const WINDOW_LABEL: &'static str = "main";

/// A name for what `String::from_utf8_lossy` makes of `bytes`.
pub uninterp spec fn utf8_lossy(bytes: Seq<u8>) -> Seq<char>;

/// Calls `String::from_utf8_lossy` and takes the text it returns. The contract
/// claims that the text depends on the bytes alone, and, as the function's
/// documentation says, that valid UTF-8 comes back decoded unchanged; what it
/// makes of invalid sequences (U+FFFD replacements) is left to the name.
#[verifier::external_body]
fn lossy_text(bytes: &[u8]) -> (text: String)
    ensures
        text@ == utf8_lossy(bytes@),
        valid_utf8(bytes@) ==> text@ == decode_utf8(bytes@),
{
    String::from_utf8_lossy(bytes).into_owned()
}

/// The ` (exit code N)` part of the message, empty when there is no code.
pub open spec fn exit_code_text(code: Option<i32>) -> Seq<char> {
    match code {
        Some(c) => " (exit code "@ + int_text(c as int) + ")"@,
        None => Seq::empty(),
    }
}

/// The part of the message that shows the backend's last output, empty when
/// that output is only white space.
pub open spec fn output_text(tail: Seq<char>) -> Seq<char> {
    if all_white_space(tail) {
        Seq::empty()
    } else {
        "\n\nThe backend's last output was:\n"@ + tail
    }
}

/// The message shown when the backend ends without a user close.
pub open spec fn exit_message_text(code: Option<i32>, tail: Seq<char>) -> Seq<char> {
    "The harness backend exited unexpectedly"@ + exit_code_text(code) + "."@ + output_text(tail)
}

/// What the exit message says: the fixed sentence, the exit code as its
/// signed base-10 numeral when there is one, a full stop, and then, when the
/// output is not blank, the heading and the whole output, every character of
/// it, at the end of the message.
pub open spec fn reports_exit(message: Seq<char>, code: Option<i32>, tail: Seq<char>) -> bool {
    let rest = if all_white_space(tail) {
        Seq::<char>::empty()
    } else {
        "\n\nThe backend's last output was:\n"@ + tail
    };
    match code {
        Some(c) => exists|t: Seq<char>|
            #![trigger is_signed_numeral_of(t, c as int)]
            is_signed_numeral_of(t, c as int) && message == "The harness backend exited unexpectedly"@
                + " (exit code "@ + t + ")"@ + "."@ + rest,
        None => message == "The harness backend exited unexpectedly"@ + "."@ + rest,
    }
}

/// The exit message reports the exit code, read back exactly, and ends with
/// the backend's whole last output unless that output is blank.
pub proof fn lemma_exit_message_reports_exit(code: Option<i32>, tail: Seq<char>)
    ensures
        reports_exit(exit_message_text(code, tail), code, tail),
        !all_white_space(tail) ==> exit_message_text(code, tail).len() >= tail.len()
            && exit_message_text(code, tail).skip(
            exit_message_text(code, tail).len() - tail.len(),
        ) == tail,
{
    let m = exit_message_text(code, tail);
    let rest = if all_white_space(tail) {
        Seq::<char>::empty()
    } else {
        "\n\nThe backend's last output was:\n"@ + tail
    };
    match code {
        Some(c) => {
            lemma_int_text_is_numeral(c as int);
            let t = int_text(c as int);
            assert(m =~= "The harness backend exited unexpectedly"@ + " (exit code "@ + t + ")"@
                + "."@ + rest);
            assert(is_signed_numeral_of(t, c as int));
        },
        None => {
            assert(m =~= "The harness backend exited unexpectedly"@ + "."@ + rest);
        },
    }
    if !all_white_space(tail) {
        assert(m.skip(m.len() - tail.len()) =~= tail);
    }
}

/// Whether `s` is all white space, as `s.trim().is_empty()` tells.
fn blank(s: &str) -> (b: bool)
    ensures
        b == all_white_space(s@),
{
    let v: Vec<char> = chars_of(s);
    let mut i: usize = 0;
    while i < v.len()
        invariant
            i <= v.len(),
            v@ == s@,
            forall|j: int| 0 <= j < i ==> is_white_space(#[trigger] v@[j]),
        decreases v.len() - i,
    {
        if !white_space(v[i]) {
            return false;
        }
        i = i + 1;
    }
    true
}

/// The message for an unexpected backend exit with exit code `code`, given
/// the text of the backend's stderr tail.
pub fn unexpected_exit_message(code: Option<i32>, tail_text: &str) -> (message: String)
    ensures
        message@ == exit_message_text(code, tail_text@),
        reports_exit(message@, code, tail_text@),
        !all_white_space(tail_text@) ==> message@.len() >= tail_text@.len() && message@.skip(
            message@.len() - tail_text@.len(),
        ) == tail_text@,
{
    proof {
        lemma_exit_message_reports_exit(code, tail_text@);
    }
    let mut message: String = String::from_str("The harness backend exited unexpectedly");
    match code {
        Some(c) => {
            message.append(" (exit code ");
            let digits: String = i32_text(c);
            message.append(digits.as_str());
            message.append(")");
        },
        None => {},
    }
    message.append(".");
    if !blank(tail_text) {
        message.append("\n\nThe backend's last output was:\n");
        message.append(tail_text);
    }
    assert(message@ =~= exit_message_text(code, tail_text@));
    message
}

/// The message for an unexpected backend exit with exit code `code`, given
/// the raw bytes of the backend's stderr tail, decoded as lossy UTF-8.
pub fn exit_message(code: Option<i32>, stderr_tail: &[u8]) -> (message: String)
    ensures
        message@ == exit_message_text(code, utf8_lossy(stderr_tail@)),
        reports_exit(message@, code, utf8_lossy(stderr_tail@)),
{
    let text: String = lossy_text(stderr_tail);
    unexpected_exit_message(code, text.as_str())
}

/// What the shell remembers between events.
#[derive(Debug, Clone, PartialEq, Eq)]
pub struct ShellState {
    /// The main window asked to close, so the shell itself killed the backend.
    pub user_quit: bool,
}

impl ShellState {
    /// The state when the shell starts: no close was requested.
    pub fn new() -> (state: Self)
        ensures
            !state.user_quit,
    {
        ShellState { user_quit: false }
    }
}

/// What the application reports to the shell.
#[derive(Debug, Clone, PartialEq, Eq)]
pub enum ShellEvent {
    /// The backend printed its readiness line with `url`; `window_open` tells
    /// whether the main window exists already.
    Url { url: String, window_open: bool },
    /// The backend process ended with exit code `code`, leaving these last
    /// bytes on its stderr.
    Exited { code: Option<i32>, stderr_tail: Vec<u8> },
    /// The window labelled `label` asked to close.
    CloseRequested { label: String },
}

/// What the shell asks the application to do.
#[derive(Debug, Clone, PartialEq, Eq)]
pub enum ShellAction {
    /// Nothing to do.
    Nothing,
    /// Open the main window on this URL.
    OpenWindow(String),
    /// Keep the window open, and kill the backend's process tree.
    KillBackend,
    /// Exit the shell with status 0.
    Quit,
    /// Show this message in an error dialog, then exit with status 1.
    Fatal(String),
}

/// Whether `label` names the shell's main window.
pub open spec fn is_main_label(label: Seq<char>) -> bool {
    label == WINDOW_LABEL@
}

/// The state after `event`: a close request of the main window sets
/// `user_quit`, and nothing clears it.
pub open spec fn next_user_quit(user_quit: bool, event: ShellEvent) -> bool {
    match event {
        ShellEvent::CloseRequested { label } => user_quit || is_main_label(label@),
        _ => user_quit,
    }
}

/// Whether `action` is the shell's answer to `event` when a user quit was
/// (or was not) recorded before it.
pub open spec fn is_answer(user_quit: bool, event: ShellEvent, action: ShellAction) -> bool {
    match event {
        ShellEvent::Url { url, window_open } => if window_open {
            action == ShellAction::Nothing
        } else {
            action == ShellAction::OpenWindow(url)
        },
        ShellEvent::Exited { code, stderr_tail } => if user_quit {
            action == ShellAction::Quit
        } else {
            action matches ShellAction::Fatal(message) && message@ == exit_message_text(
                code,
                utf8_lossy(stderr_tail@),
            )
        },
        ShellEvent::CloseRequested { label } => if is_main_label(label@) {
            action == ShellAction::KillBackend
        } else {
            action == ShellAction::Nothing
        },
    }
}

/// Decide what to do with `event`: open the window on the first readiness
/// URL, quit quietly when the backend ends after the user closed the window,
/// report any other exit with its code and stderr tail, and answer a close of
/// the main window by killing the backend (the window closes once it exits).
pub fn step(state: &mut ShellState, event: ShellEvent) -> (action: ShellAction)
    ensures
        final(state).user_quit == next_user_quit(old(state).user_quit, event),
        is_answer(old(state).user_quit, event, action),
        event matches ShellEvent::Url { url, window_open } ==> !window_open ==> action
            == ShellAction::OpenWindow(url),
        event matches ShellEvent::Url { window_open, .. } ==> window_open ==> action
            == ShellAction::Nothing,
        event is Url ==> final(state).user_quit == old(state).user_quit,
        event is Exited ==> final(state).user_quit == old(state).user_quit,
        event matches ShellEvent::Exited { .. } ==> old(state).user_quit ==> action
            == ShellAction::Quit,
        event matches ShellEvent::Exited { code, stderr_tail } ==> !old(state).user_quit ==> (
        action matches ShellAction::Fatal(message) && reports_exit(
            message@,
            code,
            utf8_lossy(stderr_tail@),
        )),
        event matches ShellEvent::CloseRequested { label } ==> label@ == WINDOW_LABEL@ ==> (action
            == ShellAction::KillBackend && final(state).user_quit),
        event matches ShellEvent::CloseRequested { label } ==> label@ != WINDOW_LABEL@ ==> (action
            == ShellAction::Nothing && final(state).user_quit == old(state).user_quit),
{
    match event {
        ShellEvent::Url { url, window_open } => {
            if window_open {
                ShellAction::Nothing
            } else {
                ShellAction::OpenWindow(url)
            }
        },
        ShellEvent::Exited { code, stderr_tail } => {
            match classify(state.user_quit, code) {
                BackendEnd::UserQuit => ShellAction::Quit,
                BackendEnd::Unexpected { code } => ShellAction::Fatal(
                    exit_message(code, stderr_tail.as_slice()),
                ),
            }
        },
        ShellEvent::CloseRequested { label } => {
            let main: String = String::from_str(WINDOW_LABEL);
            if label == main {
                state.user_quit = true;
                ShellAction::KillBackend
            } else {
                ShellAction::Nothing
            }
        },
    }
}

/// `user_quit` after the events, one after another, from `start`.
pub open spec fn user_quit_after(start: bool, events: Seq<ShellEvent>) -> bool
    decreases events.len(),
{
    if events.len() == 0 {
        start
    } else {
        next_user_quit(user_quit_after(start, events.drop_last()), events.last())
    }
}

/// Whether `event` is a close request of the main window.
pub open spec fn is_main_close(event: ShellEvent) -> bool {
    event matches ShellEvent::CloseRequested { label } && is_main_label(label@)
}

/// Once the main window asked to close, the shell keeps knowing it: after any
/// events that include such a request, `user_quit` is set, and so is it after
/// any events from a state where it was set.
pub proof fn lemma_user_quit_is_kept(start: bool, events: Seq<ShellEvent>)
    ensures
        start ==> user_quit_after(start, events),
        (exists|i: int| 0 <= i < events.len() && is_main_close(#[trigger] events[i]))
            ==> user_quit_after(start, events),
    decreases events.len(),
{
    if events.len() > 0 {
        let init = events.drop_last();
        lemma_user_quit_is_kept(start, init);
        if exists|i: int| 0 <= i < events.len() && is_main_close(#[trigger] events[i]) {
            let i = choose|i: int| 0 <= i < events.len() && is_main_close(#[trigger] events[i]);
            if i < events.len() - 1 {
                assert(is_main_close(init[i]));
            }
        }
    }
}

/// A user quit wins: when the backend exits after the main window asked to
/// close, the shell quits quietly, whatever the exit code.
pub proof fn lemma_exit_after_close_quits(
    start: bool,
    events: Seq<ShellEvent>,
    code: Option<i32>,
    stderr_tail: Vec<u8>,
    action: ShellAction,
)
    requires
        exists|i: int| 0 <= i < events.len() && is_main_close(#[trigger] events[i]),
        is_answer(
            user_quit_after(start, events),
            ShellEvent::Exited { code, stderr_tail },
            action,
        ),
    ensures
        action == ShellAction::Quit,
{
    lemma_user_quit_is_kept(start, events);
}

/// Without a close of the main window, a backend exit is reported: the shell
/// shows the exit code and the backend's last output.
pub proof fn lemma_exit_without_close_is_reported(
    events: Seq<ShellEvent>,
    code: Option<i32>,
    stderr_tail: Vec<u8>,
    action: ShellAction,
)
    requires
        forall|i: int| 0 <= i < events.len() ==> !is_main_close(#[trigger] events[i]),
        is_answer(
            user_quit_after(false, events),
            ShellEvent::Exited { code, stderr_tail },
            action,
        ),
    ensures
        action matches ShellAction::Fatal(message) && message@ == exit_message_text(
            code,
            utf8_lossy(stderr_tail@),
        ) && reports_exit(message@, code, utf8_lossy(stderr_tail@)),
{
    lemma_no_close_no_quit(events);
    lemma_exit_message_reports_exit(code, utf8_lossy(stderr_tail@));
}

proof fn lemma_no_close_no_quit(events: Seq<ShellEvent>)
    requires
        forall|i: int| 0 <= i < events.len() ==> !is_main_close(#[trigger] events[i]),
    ensures
        !user_quit_after(false, events),
    decreases events.len(),
{
    if events.len() > 0 {
        let init = events.drop_last();
        assert forall|i: int| 0 <= i < init.len() implies !is_main_close(#[trigger] init[i]) by {
            assert(init[i] == events[i]);
        }
        lemma_no_close_no_quit(init);
        assert(!is_main_close(events[events.len() - 1]));
    }
}

} // verus!
