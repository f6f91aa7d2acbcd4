//! The file that names the process of the proxy, and how that process is stopped. Signals
//! and waiting are left to the caller: a step takes what came of the last action and says
//! which action comes next.
use vstd::prelude::*;
use vstd::string::*;

use crate::text::{
    char_is_alnum, read_unsigned, same_chars, slice_of, split_words, to_chars, to_text, trimmed,
};

verus! {

broadcast use vstd::string::group_string_axioms;

// ---------------------------------------------------------------------------
// Meaning
// ---------------------------------------------------------------------------
/// The place behind the last slash.
pub open spec fn after_slash(s: Seq<char>) -> int
    decreases s.len(),
{
    if s.len() == 0 || s.last() == '/' {
        s.len() as int
    } else {
        after_slash(s.drop_last())
    }
}

/// The name of the file at the end of a path. Slashes and `.` at the end do not count; a
/// path that ends in `..`, or in nothing, has none.
pub open spec fn file_name(s: Seq<char>) -> Option<Seq<char>>
    decreases s.len(),
{
    if s.len() == 0 {
        None
    } else if s.last() == '/' {
        file_name(s.drop_last())
    } else {
        let n = after_slash(s);
        let name = s.skip(n);
        if name == seq!['.', '.'] {
            None
        } else if name == seq!['.'] {
            if 0 <= n < s.len() {
                file_name(s.take(n))
            } else {
                None
            }
        } else {
            Some(name)
        }
    }
}

/// The name of the file at the end of a path, or the whole path where it has none.
pub open spec fn name_or_path(s: Seq<char>) -> Seq<char> {
    match file_name(s) {
        Some(n) => n,
        None => s,
    }
}

/// The process that the file names: its first word, if that is a number.
pub open spec fn named_process(content: Seq<char>) -> Option<u32> {
    let w = crate::text::words(content);
    if w.len() == 0 {
        None
    } else {
        match crate::text::unsigned(w[0], 0xffff_ffff) {
            Some(n) => Some(n as u32),
            None => None,
        }
    }
}

/// The characters that the name of a program may hold.
pub open spec fn is_program_char(c: char) -> bool {
    crate::text::is_alnum(c) || c == '.' || c == '_' || c == '-'
}

/// Whether a text holds only such characters.
pub open spec fn program_chars(s: Seq<char>) -> bool {
    forall|i: int| 0 <= i < s.len() ==> is_program_char(#[trigger] s[i])
}

/// The path that the file names: all words but the first.
pub open spec fn recorded_path(content: Seq<char>) -> Seq<char> {
    crate::text::join(crate::text::words(content).skip(1), seq![' '])
}

/// The name of the program at the path that the file names, if it is a plain one.
pub open spec fn named_program(content: Seq<char>) -> Option<Seq<char>> {
    if crate::text::words(content).len() < 2 {
        None
    } else {
        match file_name(recorded_path(content)) {
            Some(n) => if program_chars(n) {
                Some(n)
            } else {
                None
            },
            None => None,
        }
    }
}

/// Whether a process that runs as `command` runs the program at a path.
pub open spec fn runs_program(path: Seq<char>, command: Seq<char>) -> bool {
    name_or_path(crate::text::trim(command)) == name_or_path(path)
}

// ---------------------------------------------------------------------------
// Reading the file
// ---------------------------------------------------------------------------
/// `after_slash` is a place in the text, with no slash behind it.
proof fn lemma_after_slash(s: Seq<char>)
    ensures
        0 <= after_slash(s) <= s.len(),
        after_slash(s) > 0 ==> s[after_slash(s) - 1] == '/',
    decreases s.len(),
{
    if s.len() > 0 && s.last() != '/' {
        lemma_after_slash(s.drop_last());
    }
}

/// Finds the place behind the last slash.
fn find_after_slash(s: &[char]) -> (r: usize)
    ensures
        r == after_slash(s@),
        r <= s@.len(),
{
    let mut n: usize = s.len();
    assert(s@.take(n as int) =~= s@);
    while n > 0 && s[n - 1] != '/'
        invariant
            n <= s@.len(),
            after_slash(s@) == after_slash(s@.take(n as int)),
        decreases n,
    {
        assert(s@.take(n as int).drop_last() =~= s@.take(n - 1));
        n = n - 1;
    }
    n
}

/// The name of the file at the end of a path.
pub fn file_name_of(path: &[char]) -> (r: Option<Vec<char>>)
    ensures
        match r {
            Some(n) => file_name(path@) == Some(n@),
            None => file_name(path@) is None,
        },
    decreases path.len(),
{
    if path.len() == 0 {
        return None;
    }
    if path[path.len() - 1] == '/' {
        let shorter = slice_of(path, 0, path.len() - 1);
        assert(shorter@ =~= path@.drop_last());
        return file_name_of(&shorter);
    }
    let n = find_after_slash(path);
    proof {
        lemma_after_slash(path@);
    }
    let name = slice_of(path, n, path.len());
    assert(name@ =~= path@.skip(n as int));
    if name.len() == 2 && name[0] == '.' && name[1] == '.' {
        assert(name@ =~= seq!['.', '.']);
        return None;
    }
    if name.len() == 1 && name[0] == '.' {
        assert(name@ =~= seq!['.']);
        let shorter = slice_of(path, 0, n);
        assert(shorter@ =~= path@.take(n as int));
        return file_name_of(&shorter);
    }
    assert(name@ != seq!['.', '.']) by {
        if name@ == seq!['.', '.'] {
            assert(name@[0] == '.' && name@[1] == '.');
        }
    }
    assert(name@ != seq!['.']) by {
        if name@ == seq!['.'] {
            assert(name@[0] == '.');
        }
    }
    Some(name)
}

/// The name of the file at the end of a path, or the whole path.
fn short_name(path: &[char]) -> (r: Vec<char>)
    ensures
        r@ == name_or_path(path@),
{
    match file_name_of(path) {
        Some(n) => n,
        None => {
            let all = slice_of(path, 0, path.len());
            assert(all@ =~= path@);
            all
        },
    }
}

/// The process that the file names. Without a file there is none.
pub fn read_proxy_pid(content: Option<&str>) -> (r: Option<u32>)
    ensures
        match content {
            Some(t) => r == named_process(t@),
            None => r is None,
        },
{
    match content {
        Some(t) => {
            let w = split_words(&to_chars(t));
            assert(crate::text::vec_texts(w@).len() == w@.len());
            if w.len() == 0 {
                return None;
            }
            assert(crate::text::words(t@)[0] == w@[0]@);
            match read_unsigned(&w[0], 0xffff_ffff) {
                Some(n) => Some(n as u32),
                None => None,
            }
        },
        None => None,
    }
}

/// The name of the program that the file names. Without a file there is none.
pub fn read_proxy_expected_basename(content: Option<&str>) -> (r: Option<String>)
    ensures
        match content {
            Some(t) => crate::models::text_of(r) == named_program(t@),
            None => r is None,
        },
{
    match content {
        Some(t) => {
            let w = split_words(&to_chars(t));
            assert(crate::text::vec_texts(w@).len() == w@.len());
            if w.len() < 2 {
                return None;
            }
            match file_name_of(&read_recorded_path(&w)) {
                Some(n) => {
                    let mut i: usize = 0;
                    while i < n.len()
                        invariant
                            i <= n@.len(),
                            crate::text::words(t@).len() >= 2,
                            file_name(recorded_path(t@)) == Some(n@),
                            content == Some(t),
                            forall|j: int| 0 <= j < i ==> is_program_char(#[trigger] n@[j]),
                        decreases n.len() - i,
                    {
                        let c = n[i];
                        if !(char_is_alnum(c) || c == '.' || c == '_' || c == '-') {
                            assert(!is_program_char(n@[i as int]));
                            return None;
                        }
                        i = i + 1;
                    }
                    Some(to_text(&n))
                },
                None => None,
            }
        },
        None => None,
    }
}

/// Tests whether a process that runs as `command` runs the program at a path: the names
/// of the two must be the same.
pub fn is_same_program(path: &[char], command: &[char]) -> (r: bool)
    ensures
        r == runs_program(path@, command@),
{
    same_chars(&short_name(&trimmed(command)), &short_name(path))
}

/// The path that the file names.
fn read_recorded_path(words: &Vec<Vec<char>>) -> (r: Vec<char>)
    requires
        words@.len() > 0,
    ensures
        r@ == crate::text::join(crate::text::vec_texts(words@).skip(1), seq![' ']),
{
    let ghost all = crate::text::vec_texts(words@).skip(1);
    let mut out: Vec<char> = Vec::new();
    let mut i: usize = 1;
    assert(all.take(0) =~= seq![]);
    assert(out@ =~= crate::text::join(all.take(0), seq![' ']));
    while i < words.len()
        invariant
            1 <= i <= words@.len(),
            all == crate::text::vec_texts(words@).skip(1),
            out@ == crate::text::join(all.take(i - 1), seq![' ']),
        decreases words.len() - i,
    {
        let ghost done = all.take(i - 1);
        let ghost next = words@[i as int]@;
        proof {
            assert(all[i - 1] == next);
            assert(all.take(i as int) =~= done.push(next));
            if done.len() > 0 {
                crate::text::lemma_join_push(done, seq![' '], next);
            } else {
                assert(done.push(next) =~= seq![next]);
                assert(crate::text::join(seq![next], seq![' ']) == next);
            }
        }
        let ghost before = out@;
        if i > 1 {
            out.push(' ');
        }
        crate::text::push_chars(&mut out, &words[i]);
        assert(i == 1 ==> before.len() == 0);
        assert(out@ =~= if i == 1 {
            next
        } else {
            before + seq![' '] + next
        });
        i = i + 1;
    }
    assert(all.take(i - 1) =~= all);
    out
}

// ---------------------------------------------------------------------------
// Stopping the process
// ---------------------------------------------------------------------------
/// How long a process that was asked to stop has to do so, in milliseconds.
pub const TERMINATION_GRACE_MS: u64 = 150;

/// What came of the attempt to stop the proxy.
#[derive(Debug, Clone, Copy, PartialEq, Eq, Structural)]
pub enum KillOutcome {
    /// The process was told to stop.
    Killed,
    /// The process runs another program, and was left alone.
    PidReusedOrMismatch,
    /// There is no such process.
    PidDeadAlready,
    /// No file names a process.
    FileMissing,
}

/// What the caller has to do.
#[derive(Debug, PartialEq, Eq)]
pub enum KillAction {
    /// See whether the process is there.
    Probe(u32),
    /// Ask the system what the process runs as.
    AskCommand(u32),
    /// Ask the process to stop, and give it so many milliseconds to do so.
    Terminate { pid: u32, grace_ms: u64 },
    /// Stop the process.
    Kill(u32),
    /// Collect what is left of the process.
    Reap(u32),
    /// Nothing: this is the outcome.
    Finish(KillOutcome),
}

/// What came of an action.
#[derive(Debug, PartialEq, Eq)]
pub enum KillEvent {
    Alive(bool),
    /// What the process runs as, if the system could tell.
    Command(Option<String>),
    Sent,
}

/// How far the attempt has come.
#[derive(Debug, PartialEq, Eq)]
pub enum KillState {
    Probing { pid: u32, path: Vec<char> },
    Asking { pid: u32, path: Vec<char> },
    Terminating { pid: u32 },
    ProbingAgain { pid: u32 },
    Killing { pid: u32 },
    Reaping,
    Finished,
}

/// Whether an event is what the state waits for.
pub open spec fn kill_answers(s: KillState, e: KillEvent) -> bool {
    match s {
        KillState::Probing { .. } | KillState::ProbingAgain { .. } => e is Alive,
        KillState::Asking { .. } => e is Command,
        KillState::Terminating { .. } | KillState::Killing { .. } | KillState::Reaping => e is Sent,
        KillState::Finished => false,
    }
}

/// The attempt is over.
pub open spec fn kill_finished(next: KillState, action: KillAction, r: KillOutcome) -> bool {
    next is Finished && action == KillAction::Finish(r)
}

/// One step: what follows in a state when an action came to an event.
pub open spec fn kill_follows(
    s: KillState,
    e: KillEvent,
    next: KillState,
    action: KillAction,
) -> bool {
    match (s, e) {
        (KillState::Probing { pid, path }, KillEvent::Alive(alive)) => if !alive {
            kill_finished(next, action, KillOutcome::PidDeadAlready)
        } else if name_or_path(path@).len() == 0 {
            kill_finished(next, action, KillOutcome::PidReusedOrMismatch)
        } else {
            next == KillState::Asking { pid, path } && action == KillAction::AskCommand(pid)
        },
        (KillState::Asking { pid, path }, KillEvent::Command(c)) => match c {
            Some(command) => if runs_program(path@, command@) {
                next == KillState::Terminating { pid } && action == (KillAction::Terminate {
                    pid,
                    grace_ms: TERMINATION_GRACE_MS,
                })
            } else {
                kill_finished(next, action, KillOutcome::PidReusedOrMismatch)
            },
            None => kill_finished(next, action, KillOutcome::PidReusedOrMismatch),
        },
        (KillState::Terminating { pid }, KillEvent::Sent) => next == KillState::ProbingAgain {
            pid,
        } && action == KillAction::Probe(pid),
        (KillState::ProbingAgain { pid }, KillEvent::Alive(alive)) => if alive {
            next == KillState::Killing { pid } && action == KillAction::Kill(pid)
        } else {
            next is Reaping && action == KillAction::Reap(pid)
        },
        (KillState::Killing { pid }, KillEvent::Sent) => next is Reaping && action
            == KillAction::Reap(pid),
        (KillState::Reaping, KillEvent::Sent) => kill_finished(next, action, KillOutcome::Killed),
        _ => true,
    }
}

/// The first state and the first action, from what the file holds.
pub fn kill_proxy_via_pid_file(content: Option<&str>) -> (o: (KillState, KillAction))
    ensures
        match content {
            Some(t) => match named_process(t@) {
                Some(pid) => {
                    &&& o.0 matches KillState::Probing { pid: p, path } && p == pid && path@
                        == recorded_path(t@)
                    &&& o.1 == KillAction::Probe(pid)
                },
                None => kill_finished(o.0, o.1, KillOutcome::FileMissing),
            },
            None => kill_finished(o.0, o.1, KillOutcome::FileMissing),
        },
{
    match content {
        Some(t) => {
            let w = split_words(&to_chars(t));
            assert(crate::text::vec_texts(w@).len() == w@.len());
            match read_proxy_pid(content) {
                Some(pid) => {
                    let path = read_recorded_path(&w);
                    (KillState::Probing { pid, path }, KillAction::Probe(pid))
                },
                None => (KillState::Finished, KillAction::Finish(KillOutcome::FileMissing)),
            }
        },
        None => (KillState::Finished, KillAction::Finish(KillOutcome::FileMissing)),
    }
}

/// The next state and the next action. Only a process that is there and runs the program
/// that the file names is asked to stop; if it is still there then, it is stopped.
pub fn kill_step(state: KillState, event: KillEvent) -> (o: (KillState, KillAction))
    requires
        kill_answers(state, event),
    ensures
        kill_follows(state, event, o.0, o.1),
{
    match (state, event) {
        (KillState::Probing { pid, path }, KillEvent::Alive(alive)) => {
            if !alive {
                return (KillState::Finished, KillAction::Finish(KillOutcome::PidDeadAlready));
            }
            if short_name(&path).len() == 0 {
                return (KillState::Finished, KillAction::Finish(KillOutcome::PidReusedOrMismatch));
            }
            (KillState::Asking { pid, path }, KillAction::AskCommand(pid))
        },
        (KillState::Asking { pid, path }, KillEvent::Command(Some(command))) => {
            if is_same_program(&path, &to_chars(command.as_str())) {
                (
                    KillState::Terminating { pid },
                    KillAction::Terminate { pid, grace_ms: TERMINATION_GRACE_MS },
                )
            } else {
                (KillState::Finished, KillAction::Finish(KillOutcome::PidReusedOrMismatch))
            }
        },
        (KillState::Terminating { pid }, KillEvent::Sent) => (
            KillState::ProbingAgain { pid },
            KillAction::Probe(pid),
        ),
        (KillState::ProbingAgain { pid }, KillEvent::Alive(alive)) => {
            if alive {
                (KillState::Killing { pid }, KillAction::Kill(pid))
            } else {
                (KillState::Reaping, KillAction::Reap(pid))
            }
        },
        (KillState::Killing { pid }, KillEvent::Sent) => (
            KillState::Reaping,
            KillAction::Reap(pid),
        ),
        (KillState::Reaping, KillEvent::Sent) => (
            KillState::Finished,
            KillAction::Finish(KillOutcome::Killed),
        ),
        _ => (KillState::Finished, KillAction::Finish(KillOutcome::PidReusedOrMismatch)),
    }
}

// ---------------------------------------------------------------------------
// Laws
// ---------------------------------------------------------------------------
/// A process is asked to stop only after the system has said that it runs the program
/// that the file names, and then has 150 milliseconds.
pub proof fn only_the_proxy_is_stopped(s: KillState, e: KillEvent, next: KillState, action: KillAction)
    requires
        kill_answers(s, e),
        kill_follows(s, e, next, action),
        action is Terminate || next is Terminating,
    ensures
        s matches KillState::Asking { pid, path } && (e matches KillEvent::Command(Some(c))
            && runs_program(path@, c@)) && action == (KillAction::Terminate { pid, grace_ms: 150 }),
{
}

/// A process is stopped by force only after it was asked to stop, and still runs.
pub proof fn force_comes_second(s: KillState, e: KillEvent, next: KillState, action: KillAction)
    requires
        kill_answers(s, e),
        kill_follows(s, e, next, action),
        action is Kill || next is Killing,
    ensures
        s matches KillState::ProbingAgain { pid } && e == KillEvent::Alive(true) && action
            == KillAction::Kill(pid),
{
}

/// The name that the restoring script expects is the one that a process is compared with
/// before it is stopped.
pub proof fn one_program_is_expected(content: Seq<char>)
    ensures
        named_program(content) matches Some(n) ==> n == name_or_path(recorded_path(content)),
{
}

/// A file with a process and no program names no path, so that nothing is stopped.
pub proof fn no_path_no_signal(content: Seq<char>)
    requires
        crate::text::words(content).len() == 1,
    ensures
        name_or_path(recorded_path(content)).len() == 0,
{
    assert(crate::text::words(content).skip(1) =~= seq![]);
}

} // verus!
