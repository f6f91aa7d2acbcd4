//! Running a script as administrator, with a limit to the time that it may take. Files,
//! processes and waiting are left to the caller: a step takes what came of the last action
//! and says which action comes next.
use vstd::prelude::*;
use vstd::string::*;

use crate::dns::platform::{PlatformError, ToolOutcome};
use crate::error::prefixed;
use crate::text::decimal_text;

verus! {

broadcast use vstd::string::group_string_axioms;

/// How often the tool is looked at, in milliseconds.
pub const RUN_POLL_MS: u64 = 100;

/// What the caller has to do.
#[derive(Debug, PartialEq, Eq)]
pub enum RunAction {
    /// Write the script to a file of its own.
    WriteScript,
    /// Start the tool that asks for the password and runs the script.
    Spawn,
    /// See whether the tool has ended, and how much time has gone by since its start.
    Poll,
    /// Wait so many milliseconds.
    Pause { ms: u64 },
    /// Take the output of the tool, which has ended.
    Collect,
    /// Stop the tool at once, and wait until it has ended.
    KillAndReap(u32),
    /// Remove the file of the script.
    RemoveScript,
    /// Nothing: this is the result.
    Finish(ToolOutcome),
}

/// What came of an action.
#[derive(Debug, PartialEq, Eq)]
pub enum RunEvent {
    Written(Result<(), PlatformError>),
    Spawned(Result<u32, String>),
    /// Whether the tool has ended, and the nanoseconds since its start.
    Polled { ended: Result<bool, String>, elapsed: u64 },
    Paused,
    Collected(Result<ToolOutcome, String>),
    Reaped,
    Removed,
}

/// How far the work has come.
#[derive(Debug, PartialEq, Eq)]
pub enum RunState {
    Writing,
    Starting,
    Watching(u32),
    Pausing(u32),
    Collecting,
    Killing(u32),
    Cleaning(ToolOutcome),
    Finished,
}

// ---------------------------------------------------------------------------
// Meaning
// ---------------------------------------------------------------------------
/// What std's `Debug` writes for a duration of so many nanoseconds.
pub uninterp spec fn duration_form(nanos: u64) -> Seq<char>;

/// The formatting of `std::time::Duration::from_nanos` with `{:?}` in std. The text
/// depends on the number alone.
#[verifier::external_body]
fn duration_text(nanos: u64) -> (r: String)
    ensures
        r@ == duration_form(nanos),
{
    format!("{:?}", std::time::Duration::from_nanos(nanos))
}

/// The message when the tool took too long.
pub open spec fn timeout_message(timeout: u64, pid: u32) -> Seq<char> {
    "osascript timed out after "@ + duration_form(timeout) + " (killed pid="@
        + crate::text::decimal(pid as nat)
        + "); the TCC prompt may be stuck \u{2014} try again or force-quit System Events"@
}

/// Whether an event is what the state waits for.
pub open spec fn run_answers(s: RunState, e: RunEvent) -> bool {
    match s {
        RunState::Writing => e is Written,
        RunState::Starting => e is Spawned,
        RunState::Watching(_) => e is Polled,
        RunState::Pausing(_) => e is Paused,
        RunState::Collecting => e is Collected,
        RunState::Killing(_) => e is Reaped,
        RunState::Cleaning(_) => e is Removed,
        RunState::Finished => false,
    }
}

/// Whether the file is removed next, and the result is then this failure.
pub open spec fn gives_up(s: RunState, a: RunAction, message: Seq<char>) -> bool {
    &&& s matches RunState::Cleaning(ToolOutcome::NotRun(m)) && m@ == message
    &&& a is RemoveScript
}

/// What follows from a state and an event.
pub open spec fn run_follows(
    s: RunState,
    e: RunEvent,
    timeout: u64,
    next: RunState,
    a: RunAction,
) -> bool {
    match (s, e) {
        (RunState::Writing, RunEvent::Written(Ok(_))) => next is Starting && a is Spawn,
        (RunState::Writing, RunEvent::Written(Err(x))) => next is Finished && (a matches
            RunAction::Finish(ToolOutcome::NotRun(m)) && m@ == "temp script failed: "@
            + x.message()),
        (RunState::Starting, RunEvent::Spawned(Ok(pid))) => next == RunState::Watching(pid)
            && a is Poll,
        (RunState::Starting, RunEvent::Spawned(Err(x))) => gives_up(
            next,
            a,
            "osascript spawn failed: "@ + x@,
        ),
        (RunState::Watching(pid), RunEvent::Polled { ended, elapsed }) => match ended {
            Ok(true) => next is Collecting && a is Collect,
            Ok(false) => if elapsed >= timeout {
                next == RunState::Killing(pid) && a == RunAction::KillAndReap(pid)
            } else {
                next == RunState::Pausing(pid) && a == (RunAction::Pause { ms: RUN_POLL_MS })
            },
            Err(x) => gives_up(next, a, "osascript try_wait failed: "@ + x@),
        },
        (RunState::Pausing(pid), RunEvent::Paused) => next == RunState::Watching(pid) && a is Poll,
        (RunState::Collecting, RunEvent::Collected(Ok(out))) => next == RunState::Cleaning(out)
            && a is RemoveScript,
        (RunState::Collecting, RunEvent::Collected(Err(x))) => gives_up(
            next,
            a,
            "osascript wait_with_output failed: "@ + x@,
        ),
        (RunState::Killing(pid), RunEvent::Reaped) => gives_up(
            next,
            a,
            timeout_message(timeout, pid),
        ),
        (RunState::Cleaning(out), RunEvent::Removed) => next is Finished && a
            == RunAction::Finish(out),
        _ => true,
    }
}

// ---------------------------------------------------------------------------
// Steps
// ---------------------------------------------------------------------------
/// Where running a script with a limit to its time starts.
pub fn run_with_privileges_timeout() -> (r: (RunState, RunAction))
    ensures
        r.0 is Writing,
        r.1 is WriteScript,
{
    (RunState::Writing, RunAction::WriteScript)
}

/// Removes the file next, with a failure as the result.
fn give_up(message: String) -> (r: (RunState, RunAction))
    ensures
        gives_up(r.0, r.1, message@),
{
    (RunState::Cleaning(ToolOutcome::NotRun(message)), RunAction::RemoveScript)
}

/// The message when the tool took too long.
fn timeout_text(timeout: u64, pid: u32) -> (r: String)
    ensures
        r@ == timeout_message(timeout, pid),
{
    let mut s = prefixed("osascript timed out after ", duration_text(timeout).as_str());
    s.append(" (killed pid=");
    s.append(decimal_text(pid as u64).as_str());
    s.append("); the TCC prompt may be stuck \u{2014} try again or force-quit System Events");
    s
}

/// The next step: the script is written, the tool is started and watched until it has
/// ended or its time is over, and only then is the file removed. `timeout` is in
/// nanoseconds.
pub fn run_step(state: RunState, event: RunEvent, timeout: u64) -> (r: (RunState, RunAction))
    requires
        run_answers(state, event),
    ensures
        run_follows(state, event, timeout, r.0, r.1),
{
    match (state, event) {
        (RunState::Writing, RunEvent::Written(Ok(_))) => (RunState::Starting, RunAction::Spawn),
        (RunState::Writing, RunEvent::Written(Err(x))) => {
            let m = prefixed("temp script failed: ", x.to_text().as_str());
            (RunState::Finished, RunAction::Finish(ToolOutcome::NotRun(m)))
        },
        (RunState::Starting, RunEvent::Spawned(Ok(pid))) => (
            RunState::Watching(pid),
            RunAction::Poll,
        ),
        (RunState::Starting, RunEvent::Spawned(Err(x))) => give_up(
            prefixed("osascript spawn failed: ", x.as_str()),
        ),
        (RunState::Watching(pid), RunEvent::Polled { ended, elapsed }) => match ended {
            Ok(true) => (RunState::Collecting, RunAction::Collect),
            Ok(false) => {
                if elapsed >= timeout {
                    (RunState::Killing(pid), RunAction::KillAndReap(pid))
                } else {
                    (RunState::Pausing(pid), RunAction::Pause { ms: RUN_POLL_MS })
                }
            },
            Err(x) => give_up(prefixed("osascript try_wait failed: ", x.as_str())),
        },
        (RunState::Pausing(pid), RunEvent::Paused) => (RunState::Watching(pid), RunAction::Poll),
        (RunState::Collecting, RunEvent::Collected(Ok(out))) => (
            RunState::Cleaning(out),
            RunAction::RemoveScript,
        ),
        (RunState::Collecting, RunEvent::Collected(Err(x))) => give_up(
            prefixed("osascript wait_with_output failed: ", x.as_str()),
        ),
        (RunState::Killing(pid), RunEvent::Reaped) => give_up(timeout_text(timeout, pid)),
        (RunState::Cleaning(out), RunEvent::Removed) => (
            RunState::Finished,
            RunAction::Finish(out),
        ),
        _ => (
            RunState::Finished,
            RunAction::Finish(ToolOutcome::NotRun(String::new())),
        ),
    }
}

// ---------------------------------------------------------------------------
// Laws
// ---------------------------------------------------------------------------
/// The file of the script is removed only once the tool has not started, has ended, or
/// can no longer be watched: never while it is known to run.
pub proof fn the_script_stays_while_it_runs(
    s: RunState,
    e: RunEvent,
    timeout: u64,
    next: RunState,
    a: RunAction,
)
    requires
        run_answers(s, e),
        run_follows(s, e, timeout, next, a),
        a is RemoveScript,
    ensures
        s is Starting || s is Collecting || s is Killing || s is Watching,
        s is Starting ==> e matches RunEvent::Spawned(Err(_)),
        s is Watching ==> (e matches RunEvent::Polled { ended, .. } && ended is Err),
{
}

/// The tool is stopped only once its time is over.
pub proof fn no_kill_before_the_timeout(
    s: RunState,
    e: RunEvent,
    timeout: u64,
    next: RunState,
    a: RunAction,
)
    requires
        run_answers(s, e),
        run_follows(s, e, timeout, next, a),
        a is KillAndReap,
    ensures
        e matches RunEvent::Polled { ended, elapsed } && ended == Ok::<bool, String>(false)
            && elapsed >= timeout,
{
}

} // verus!
