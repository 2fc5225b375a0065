//! How the backend process ended, what the shell keeps of its stderr, and how
//! the shell tears the backend's process tree down.

use vstd::prelude::*;

use crate::text::{decimal, is_numeral_of, lemma_decimal_is_numeral, u32_text};

verus! {

/// How the backend process ended, from the shell's point of view.
#[derive(Debug, Clone, PartialEq, Eq)]
pub enum BackendEnd {
    /// The window closed first; the shell killed the backend itself.
    UserQuit,
    /// The backend ended without a user-initiated kill.
    Unexpected { code: Option<i32> },
}

/// Classify an exit: a user quit wins regardless of the reported code,
/// because the shell killed the tree itself.
pub fn classify(user_quit: bool, code: Option<i32>) -> (end: BackendEnd)
    ensures
        user_quit ==> end == BackendEnd::UserQuit,
        !user_quit ==> end == (BackendEnd::Unexpected { code }),
{
    if user_quit {
        BackendEnd::UserQuit
    } else {
        BackendEnd::Unexpected { code }
    }
}

/// Upper bound on the stderr bytes kept for the error dialog.
pub const STDERR_TAIL_CAP: usize = 65536;

/// The last `cap` bytes of `s`, or all of `s` when it is no longer.
pub open spec fn last_bytes(s: Seq<u8>, cap: nat) -> Seq<u8> {
    if s.len() <= cap {
        s
    } else {
        s.skip(s.len() - cap)
    }
}

/// Append a chunk read from the backend's stderr to the kept tail, dropping
/// the oldest bytes so that no more than `STDERR_TAIL_CAP` remain.
pub fn push_stderr_tail(tail: &mut Vec<u8>, chunk: &[u8])
    ensures
        final(tail)@ == last_bytes(old(tail)@ + chunk@, STDERR_TAIL_CAP as nat),
        final(tail)@.len() as int == if old(tail)@.len() + chunk@.len() <= STDERR_TAIL_CAP {
            (old(tail)@.len() + chunk@.len()) as int
        } else {
            STDERR_TAIL_CAP as int
        },
        final(tail)@ == (old(tail)@ + chunk@).skip(
            old(tail)@.len() + chunk@.len() - final(tail)@.len(),
        ),
{
    let ghost all: Seq<u8> = old(tail)@ + chunk@;
    let cap: usize = STDERR_TAIL_CAP;
    let old_len: usize = tail.len();
    if chunk.len() <= cap && old_len <= cap - chunk.len() {
        let mut i: usize = 0;
        while i < chunk.len()
            invariant
                i <= chunk.len(),
                tail@ == old(tail)@ + chunk@.take(i as int),
            decreases chunk.len() - i,
        {
            tail.push(chunk[i]);
            i = i + 1;
            assert(tail@ =~= old(tail)@ + chunk@.take(i as int));
        }
        assert(chunk@.take(chunk.len() as int) =~= chunk@);
        assert(all.skip(0) =~= all);
    } else {
        // More than `cap` bytes in all: keep the last `cap` of them.
        let mut kept: Vec<u8> = Vec::new();
        let from_chunk: usize = if chunk.len() < cap { chunk.len() } else { cap };
        let from_tail: usize = cap - from_chunk;
        assert(all.len() > cap);
        let start: usize = old_len - from_tail;
        let mut i: usize = start;
        while i < old_len
            invariant
                start <= i <= old_len == tail.len(),
                tail@ == old(tail)@,
                kept@ == tail@.subrange(start as int, i as int),
            decreases old_len - i,
        {
            kept.push(tail[i]);
            i = i + 1;
            assert(kept@ =~= tail@.subrange(start as int, i as int));
        }
        let cstart: usize = chunk.len() - from_chunk;
        let mut j: usize = cstart;
        while j < chunk.len()
            invariant
                cstart <= j <= chunk.len(),
                tail@ == old(tail)@,
                kept@ == tail@.subrange(start as int, old_len as int) + chunk@.subrange(
                    cstart as int,
                    j as int,
                ),
            decreases chunk.len() - j,
        {
            kept.push(chunk[j]);
            j = j + 1;
            assert(kept@ =~= tail@.subrange(start as int, old_len as int) + chunk@.subrange(
                cstart as int,
                j as int,
            ));
        }
        assert(kept@ =~= all.skip(all.len() - cap));
        *tail = kept;
    }
}

/// Capping the tail chunk by chunk keeps the same bytes as capping all that
/// was read at once.
pub proof fn lemma_last_bytes_of_last_bytes(s: Seq<u8>, chunk: Seq<u8>, cap: nat)
    ensures
        last_bytes(last_bytes(s, cap) + chunk, cap) == last_bytes(s + chunk, cap),
{
    let t = last_bytes(s, cap);
    if s.len() > cap {
        let k = s.len() - cap;
        assert(s + chunk =~= s.take(k) + (t + chunk));
        assert((s + chunk).skip((s + chunk).len() - cap) =~= (t + chunk).skip(
            (t + chunk).len() - cap,
        ));
    }
}

/// All the chunks, one after another.
pub open spec fn concat_chunks(chunks: Seq<Seq<u8>>) -> Seq<u8>
    decreases chunks.len(),
{
    if chunks.len() == 0 {
        Seq::empty()
    } else {
        concat_chunks(chunks.drop_last()) + chunks.last()
    }
}

/// The tail kept after the chunks were pushed one by one onto an empty tail.
pub open spec fn tail_after(chunks: Seq<Seq<u8>>) -> Seq<u8>
    decreases chunks.len(),
{
    if chunks.len() == 0 {
        Seq::empty()
    } else {
        last_bytes(tail_after(chunks.drop_last()) + chunks.last(), STDERR_TAIL_CAP as nat)
    }
}

/// However the stderr stream was cut into chunks, the kept tail is the last
/// `STDERR_TAIL_CAP` bytes of everything the backend wrote.
pub proof fn lemma_tail_after_chunks(chunks: Seq<Seq<u8>>)
    ensures
        tail_after(chunks) == last_bytes(concat_chunks(chunks), STDERR_TAIL_CAP as nat),
    decreases chunks.len(),
{
    if chunks.len() > 0 {
        lemma_tail_after_chunks(chunks.drop_last());
        lemma_last_bytes_of_last_bytes(
            concat_chunks(chunks.drop_last()),
            chunks.last(),
            STDERR_TAIL_CAP as nat,
        );
    }
}

/// A program and its arguments.
#[derive(Debug, Clone, PartialEq, Eq)]
pub struct KillCommand {
    pub program: String,
    pub args: Vec<String>,
}

/// The command that kills the backend and its descendants: on Windows
/// `taskkill /PID <pid> /T /F` terminates the whole tree; elsewhere
/// `kill -9 <pid>` kills the direct child.
pub open spec fn kill_command_words(pid: u32, windows: bool) -> (Seq<char>, Seq<Seq<char>>) {
    if windows {
        ("taskkill"@, seq!["/PID"@, decimal(pid as nat), "/T"@, "/F"@])
    } else {
        ("kill"@, seq!["-9"@, decimal(pid as nat)])
    }
}

/// The process id in the kill command names the backend: on either platform
/// the id argument is the base-10 numeral of `pid`, with every digit kept, and
/// the Windows command asks for the whole tree (`/T`) by force (`/F`).
pub proof fn lemma_kill_command_names_the_pid(pid: u32, windows: bool)
    ensures
        windows ==> kill_command_words(pid, windows).0 == "taskkill"@
            && kill_command_words(pid, windows).1.len() == 4
            && kill_command_words(pid, windows).1[0] == "/PID"@
            && is_numeral_of(kill_command_words(pid, windows).1[1], pid as int)
            && kill_command_words(pid, windows).1[2] == "/T"@
            && kill_command_words(pid, windows).1[3] == "/F"@,
        !windows ==> kill_command_words(pid, windows).0 == "kill"@
            && kill_command_words(pid, windows).1.len() == 2
            && kill_command_words(pid, windows).1[0] == "-9"@
            && is_numeral_of(kill_command_words(pid, windows).1[1], pid as int),
{
    lemma_decimal_is_numeral(pid as nat);
}

/// The command that `kill_tree` runs for the backend with process id `pid`,
/// `windows` telling which platform the shell runs on. Session data is
/// append-only per event, so a hard kill loses no committed data.
pub fn kill_command(pid: u32, windows: bool) -> (command: KillCommand)
    ensures
        (command.program@, command.args@.map_values(|arg: String| arg@)) == kill_command_words(
            pid,
            windows,
        ),
        windows ==> {
            &&& command.program@ == "taskkill"@
            &&& command.args@.len() == 4
            &&& command.args@[0]@ == "/PID"@
            &&& is_numeral_of(command.args@[1]@, pid as int)
            &&& command.args@[2]@ == "/T"@
            &&& command.args@[3]@ == "/F"@
        },
        !windows ==> {
            &&& command.program@ == "kill"@
            &&& command.args@.len() == 2
            &&& command.args@[0]@ == "-9"@
            &&& is_numeral_of(command.args@[1]@, pid as int)
        },
{
    let mut args: Vec<String> = Vec::new();
    if windows {
        args.push(String::from_str("/PID"));
        args.push(u32_text(pid));
        args.push(String::from_str("/T"));
        args.push(String::from_str("/F"));
        let command = KillCommand { program: String::from_str("taskkill"), args };
        assert(command.args@.map_values(|arg: String| arg@) =~= kill_command_words(pid, windows).1);
        command
    } else {
        args.push(String::from_str("-9"));
        args.push(u32_text(pid));
        let command = KillCommand { program: String::from_str("kill"), args };
        assert(command.args@.map_values(|arg: String| arg@) =~= kill_command_words(pid, windows).1);
        command
    }
}

} // verus!
