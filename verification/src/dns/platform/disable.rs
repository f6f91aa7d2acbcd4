//! Leaving the DNS mode, one step at a time. Files, signals, tools and waiting are left to
//! the caller: a step takes what came of the last action and says which files to remove
//! and which action comes next.
use vstd::prelude::*;
use vstd::string::*;

use crate::dns::platform::pid_file::{read_proxy_expected_basename, read_proxy_pid, KillOutcome};
use crate::dns::platform::{PlatformError, ToolOutcome};
use crate::dns::proxy::SHUTDOWN_SIGNAL;
use crate::error::prefixed;

verus! {

broadcast use vstd::string::group_string_axioms;

/// What the mark holds that the settings still have to be restored.
pub const PENDING_MARK: &'static str = "pending";

/// How long the proxy may take to stop, in milliseconds.
pub const PROXY_SHUTDOWN_TIMEOUT_MS: u64 = 5000;

/// How often the process of the proxy is looked at, in milliseconds.
pub const PROXY_POLL_MS: u64 = 100;

/// A file of the DNS mode.
#[derive(Debug, Clone, Copy, PartialEq, Eq, Structural)]
pub enum StateFile {
    /// The process of the proxy.
    Pid,
    /// The servers that the user had.
    Original,
    /// What the proxy is told.
    Signal,
    /// The mark that the settings still have to be restored.
    Marker,
}

/// What the caller has to do.
#[derive(Debug, PartialEq, Eq)]
pub enum DisableAction {
    /// Make sure that the directory for the files is there.
    PrepareDir,
    /// Write this as the mark that the settings still have to be restored.
    WriteMarker(String),
    /// Read the file that names the process of the proxy.
    ReadPidFile,
    /// See whether the process is there.
    Probe(u32),
    /// Write this to the signal file: the proxy is to restore the settings and to stop.
    WriteShutdown(String),
    /// See how much time has gone by since then.
    CheckTime,
    /// Wait so many milliseconds, and see whether the process is still there.
    WaitAndProbe { pid: u32, ms: u64 },
    /// See whether the system still uses this machine as its server.
    VerifyRestored,
    /// Stop the process that the file names.
    KillProxy,
    /// Stop the process and restore the settings as administrator.
    Restore { pid: Option<u32>, program: Option<String> },
    /// Nothing: this is the result.
    Finish(Result<(), PlatformError>),
}

/// What came of an action.
#[derive(Debug, PartialEq, Eq)]
pub enum DisableEvent {
    Done(Result<(), String>),
    PidFile(Option<String>),
    Alive(bool),
    /// The milliseconds since the proxy was told to stop.
    Elapsed(u64),
    Verified(Result<bool, PlatformError>),
    Killed(KillOutcome),
    Restored(Result<(), PlatformError>),
}

/// Why the settings have to be restored as administrator.
#[derive(Debug, PartialEq, Eq)]
pub enum Reason {
    /// The proxy stopped, and the system still uses this machine.
    StillLocal,
    /// The proxy stopped, and it is not known what the system uses.
    Unverified(PlatformError),
    /// The proxy did not stop in time.
    TimedOut,
    /// There was no proxy.
    NotRunning,
}

/// How far the work has come.
#[derive(Debug, PartialEq, Eq)]
pub enum DisableState {
    Preparing,
    Marking,
    ReadingPid,
    Probing { pid: u32, program: Option<String> },
    Signalling { pid: u32, program: Option<String> },
    Timing { pid: u32, program: Option<String> },
    Waiting { pid: u32, program: Option<String> },
    Verifying { pid: u32, program: Option<String> },
    Killing { pid: u32, program: Option<String> },
    Restoring(Reason),
    Finished,
}

/// A step: the next state, the files to remove, and the action after that.
#[derive(Debug, PartialEq, Eq)]
pub struct DisableStep {
    pub state: DisableState,
    pub remove: Vec<StateFile>,
    pub action: DisableAction,
}

// ---------------------------------------------------------------------------
// Meaning
// ---------------------------------------------------------------------------
/// Whether an event is what the state waits for.
pub open spec fn disable_answers(s: DisableState, e: DisableEvent) -> bool {
    match s {
        DisableState::Preparing | DisableState::Marking | DisableState::Signalling { .. } => e is Done,
        DisableState::ReadingPid => e is PidFile,
        DisableState::Probing { .. } | DisableState::Waiting { .. } => e is Alive,
        DisableState::Timing { .. } => e is Elapsed,
        DisableState::Verifying { .. } => e is Verified,
        DisableState::Killing { .. } => e is Killed,
        DisableState::Restoring(_) => e is Restored,
        DisableState::Finished => false,
    }
}

/// The files that are removed once the proxy has stopped but the settings are not
/// restored.
pub open spec fn leftovers() -> Seq<StateFile> {
    seq![StateFile::Pid, StateFile::Original, StateFile::Signal]
}

/// The message when the settings could not be restored, and why.
pub open spec fn failure_message(reason: Reason, interactive: bool, marker: Seq<char>) -> Seq<
    char,
> {
    match reason {
        Reason::StillLocal => "proxy exited but system DNS still points at loopback; recovery marker left at "@
            + marker,
        Reason::Unverified(e) => "post-restore verify failed: "@ + e.message()
            + "; recovery marker left at "@ + marker,
        Reason::TimedOut => "dns proxy did not exit within 5s; recovery marker left at "@ + marker,
        Reason::NotRunning => if interactive {
            "proxy not running and osascript restore failed; recovery marker left at "@ + marker
        } else {
            "proxy not running; recovery marker left at "@ + marker
                + " for next-launch force restore"@
        },
    }
}

/// The work is over without success, with a message.
pub open spec fn fails(step: DisableStep, message: Seq<char>) -> bool {
    &&& step.state is Finished
    &&& step.action matches DisableAction::Finish(Err(PlatformError::RestoreDns(m))) && m@
        == message
}

/// The work is over with success.
pub open spec fn succeeds(step: DisableStep) -> bool {
    step.state is Finished && step.action == DisableAction::Finish(Ok(()))
}

/// The settings are restored as administrator if the user is there to allow that;
/// otherwise the work is over.
pub open spec fn escalates(
    step: DisableStep,
    reason: Reason,
    pid: Option<u32>,
    program: Option<Seq<char>>,
    interactive: bool,
    marker: Seq<char>,
) -> bool {
    if interactive {
        &&& step.state == DisableState::Restoring(reason)
        &&& step.action matches DisableAction::Restore { pid: p, program: q } && p == pid
            && crate::models::text_of(q) == program
    } else {
        fails(step, failure_message(reason, false, marker))
    }
}

/// No proxy runs: with the user the settings are restored as administrator, and without
/// the user they are left for later.
pub open spec fn none_runs(
    step: DisableStep,
    removed: Seq<StateFile>,
    pid: Option<u32>,
    program: Option<Seq<char>>,
    interactive: bool,
    marker: Seq<char>,
) -> bool {
    &&& step.remove@ == if interactive {
        removed
    } else {
        removed + seq![StateFile::Original, StateFile::Signal]
    }
    &&& escalates(step, Reason::NotRunning, pid, program, interactive, marker)
}

/// One step: what follows in a state when an action came to an event.
pub open spec fn disable_follows(
    s: DisableState,
    interactive: bool,
    marker: Seq<char>,
    e: DisableEvent,
    step: DisableStep,
) -> bool {
    match (s, e) {
        (DisableState::Preparing, DisableEvent::Done(r)) => step.remove@.len() == 0 && match r {
            Ok(()) => step.state is Marking && (step.action matches DisableAction::WriteMarker(t) && t@
                == PENDING_MARK@),
            Err(t) => fails(step, "create runtime dir for recovery marker: "@ + t@),
        },
        (DisableState::Marking, DisableEvent::Done(r)) => step.remove@.len() == 0 && match r {
            Ok(()) => step.state is ReadingPid && step.action is ReadPidFile,
            Err(t) => fails(step, "write recovery marker: "@ + t@),
        },
        (DisableState::ReadingPid, DisableEvent::PidFile(content)) => {
            let pid = match content {
                Some(t) => crate::dns::platform::pid_file::named_process(t@),
                None => None,
            };
            let program = match content {
                Some(t) => crate::dns::platform::pid_file::named_program(t@),
                None => None,
            };
            match pid {
                Some(p) => {
                    &&& step.remove@.len() == 0
                    &&& step.state matches DisableState::Probing { pid: q, program: n } && q == p
                        && crate::models::text_of(n) == program
                    &&& step.action == DisableAction::Probe(p)
                },
                None => none_runs(step, seq![], None, program, interactive, marker),
            }
        },
        (DisableState::Probing { pid, program }, DisableEvent::Alive(alive)) => if alive {
            &&& step.remove@.len() == 0
            &&& step.state == DisableState::Signalling { pid, program }
            &&& step.action matches DisableAction::WriteShutdown(t) && t@ == SHUTDOWN_SIGNAL@
        } else {
            none_runs(
                step,
                seq![StateFile::Pid],
                Some(pid),
                crate::models::text_of(program),
                interactive,
                marker,
            )
        },
        (DisableState::Signalling { pid, program }, DisableEvent::Done(r)) => step.remove@.len()
            == 0 && match r {
            Ok(()) => step.state == DisableState::Timing { pid, program }
                && step.action is CheckTime,
            Err(t) => fails(step, "write shutdown signal: "@ + t@),
        },
        (DisableState::Timing { pid, program }, DisableEvent::Elapsed(elapsed)) => {
            &&& step.remove@.len() == 0
            &&& if elapsed < PROXY_SHUTDOWN_TIMEOUT_MS {
                step.state == DisableState::Waiting { pid, program } && step.action == (
                DisableAction::WaitAndProbe { pid, ms: PROXY_POLL_MS })
            } else if interactive {
                step.state == DisableState::Killing { pid, program } && step.action is KillProxy
            } else {
                fails(step, failure_message(Reason::TimedOut, interactive, marker))
            }
        },
        (DisableState::Waiting { pid, program }, DisableEvent::Alive(alive)) => {
            &&& step.remove@.len() == 0
            &&& if alive {
                step.state == DisableState::Timing { pid, program } && step.action is CheckTime
            } else {
                step.state == DisableState::Verifying { pid, program }
                    && step.action is VerifyRestored
            }
        },
        (DisableState::Verifying { pid, program }, DisableEvent::Verified(r)) => match r {
            Ok(true) => succeeds(step) && step.remove@ == seq![
                StateFile::Pid,
                StateFile::Original,
                StateFile::Marker,
            ],
            Ok(false) => step.remove@ == leftovers() && escalates(
                step,
                Reason::StillLocal,
                Some(pid),
                crate::models::text_of(program),
                interactive,
                marker,
            ),
            Err(x) => step.remove@ == leftovers() && escalates(
                step,
                Reason::Unverified(x),
                Some(pid),
                crate::models::text_of(program),
                interactive,
                marker,
            ),
        },
        (DisableState::Killing { pid, program }, DisableEvent::Killed(_)) => {
            &&& step.remove@.len() == 0
            &&& step.state == DisableState::Restoring(Reason::TimedOut)
            &&& step.action == DisableAction::Restore { pid: Some(pid), program }
        },
        (DisableState::Restoring(reason), DisableEvent::Restored(r)) => match r {
            Ok(()) => succeeds(step) && step.remove@ == match reason {
                Reason::StillLocal | Reason::Unverified(_) => seq![StateFile::Marker],
                Reason::TimedOut => leftovers().push(StateFile::Marker),
                Reason::NotRunning => seq![
                    StateFile::Original,
                    StateFile::Signal,
                    StateFile::Marker,
                ],
            },
            Err(_) => step.remove@.len() == 0 && fails(
                step,
                failure_message(reason, interactive, marker),
            ),
        },
        _ => true,
    }
}

// ---------------------------------------------------------------------------
// Steps
// ---------------------------------------------------------------------------
/// No files.
fn nothing() -> (r: Vec<StateFile>)
    ensures
        r@.len() == 0,
{
    Vec::new()
}

/// The files that are removed once the proxy has stopped but the settings are not
/// restored.
fn leftover_files() -> (r: Vec<StateFile>)
    ensures
        r@ == leftovers(),
{
    let mut v: Vec<StateFile> = Vec::new();
    v.push(StateFile::Pid);
    v.push(StateFile::Original);
    v.push(StateFile::Signal);
    assert(v@ =~= leftovers());
    v
}

/// The end without success.
fn fail(remove: Vec<StateFile>, message: String) -> (r: DisableStep)
    ensures
        r.remove == remove,
        fails(r, message@),
{
    DisableStep {
        state: DisableState::Finished,
        remove,
        action: DisableAction::Finish(Err(PlatformError::RestoreDns(message))),
    }
}

/// The end with success.
fn succeed(remove: Vec<StateFile>) -> (r: DisableStep)
    ensures
        r.remove == remove,
        succeeds(r),
{
    DisableStep {
        state: DisableState::Finished,
        remove,
        action: DisableAction::Finish(Ok(())),
    }
}

/// The message when the settings could not be restored.
fn failure_text(reason: &Reason, interactive: bool, marker: &str) -> (r: String)
    ensures
        r@ == failure_message(*reason, interactive, marker@),
{
    match reason {
        Reason::StillLocal => prefixed(
            "proxy exited but system DNS still points at loopback; recovery marker left at ",
            marker,
        ),
        Reason::Unverified(e) => {
            let mut m: String = prefixed("post-restore verify failed: ", e.to_text().as_str());
            m.append("; recovery marker left at ");
            m.append(marker);
            m
        },
        Reason::TimedOut => prefixed(
            "dns proxy did not exit within 5s; recovery marker left at ",
            marker,
        ),
        Reason::NotRunning => {
            if interactive {
                prefixed(
                    "proxy not running and osascript restore failed; recovery marker left at ",
                    marker,
                )
            } else {
                let mut m: String = prefixed(
                    "proxy not running; recovery marker left at ",
                    marker,
                );
                m.append(" for next-launch force restore");
                m
            }
        },
    }
}

/// Restoring as administrator, if the user is there; otherwise the end.
fn escalate(
    remove: Vec<StateFile>,
    reason: Reason,
    pid: Option<u32>,
    program: Option<String>,
    interactive: bool,
    marker: &str,
) -> (r: DisableStep)
    ensures
        r.remove == remove,
        escalates(r, reason, pid, crate::models::text_of(program), interactive, marker@),
{
    if interactive {
        DisableStep {
            state: DisableState::Restoring(reason),
            remove,
            action: DisableAction::Restore { pid, program },
        }
    } else {
        fail(remove, failure_text(&reason, false, marker))
    }
}

/// What follows when no proxy runs.
fn without_proxy(
    removed: Vec<StateFile>,
    pid: Option<u32>,
    program: Option<String>,
    interactive: bool,
    marker: &str,
) -> (r: DisableStep)
    ensures
        none_runs(
            r,
            removed@,
            pid,
            crate::models::text_of(program),
            interactive,
            marker@,
        ),
{
    let mut remove = removed;
    if !interactive {
        remove.push(StateFile::Original);
        remove.push(StateFile::Signal);
        assert(remove@ =~= removed@ + seq![StateFile::Original, StateFile::Signal]);
    }
    escalate(remove, Reason::NotRunning, pid, program, interactive, marker)
}

/// The first step.
pub fn disable_dns_mode() -> (r: DisableStep)
    ensures
        r.state is Preparing,
        r.remove@.len() == 0,
        r.action is PrepareDir,
{
    DisableStep {
        state: DisableState::Preparing,
        remove: nothing(),
        action: DisableAction::PrepareDir,
    }
}

/// The next step. First of all the mark is written that the settings still have to be
/// restored. A proxy that runs is told to restore them and given five seconds; then what
/// the system uses is looked at. Where the settings are not restored that way, and the
/// user is there, they are restored as administrator.
pub fn disable_step(
    state: DisableState,
    interactive: bool,
    marker: &str,
    event: DisableEvent,
) -> (r: DisableStep)
    requires
        disable_answers(state, event),
    ensures
        disable_follows(state, interactive, marker@, event, r),
{
    match (state, event) {
        (DisableState::Preparing, DisableEvent::Done(Ok(()))) => DisableStep {
            state: DisableState::Marking,
            remove: nothing(),
            action: DisableAction::WriteMarker(PENDING_MARK.to_owned()),
        },
        (DisableState::Preparing, DisableEvent::Done(Err(t))) => fail(
            nothing(),
            prefixed("create runtime dir for recovery marker: ", t.as_str()),
        ),
        (DisableState::Marking, DisableEvent::Done(Ok(()))) => DisableStep {
            state: DisableState::ReadingPid,
            remove: nothing(),
            action: DisableAction::ReadPidFile,
        },
        (DisableState::Marking, DisableEvent::Done(Err(t))) => fail(
            nothing(),
            prefixed("write recovery marker: ", t.as_str()),
        ),
        (DisableState::ReadingPid, DisableEvent::PidFile(Some(t))) => {
            let program = read_proxy_expected_basename(Some(t.as_str()));
            match read_proxy_pid(Some(t.as_str())) {
                Some(pid) => DisableStep {
                    state: DisableState::Probing { pid, program },
                    remove: nothing(),
                    action: DisableAction::Probe(pid),
                },
                None => {
                    let none = nothing();
                    assert(none@ =~= seq![]);
                    without_proxy(none, None, program, interactive, marker)
                },
            }
        },
        (DisableState::ReadingPid, DisableEvent::PidFile(None)) => {
            let none = nothing();
            assert(none@ =~= seq![]);
            without_proxy(none, None, None, interactive, marker)
        },
        (DisableState::Probing { pid, program }, DisableEvent::Alive(alive)) => {
            if alive {
                DisableStep {
                    state: DisableState::Signalling { pid, program },
                    remove: nothing(),
                    action: DisableAction::WriteShutdown(SHUTDOWN_SIGNAL.to_owned()),
                }
            } else {
                let mut removed = nothing();
                removed.push(StateFile::Pid);
                assert(removed@ =~= seq![StateFile::Pid]);
                without_proxy(removed, Some(pid), program, interactive, marker)
            }
        },
        (DisableState::Signalling { pid, program }, DisableEvent::Done(Ok(()))) => DisableStep {
            state: DisableState::Timing { pid, program },
            remove: nothing(),
            action: DisableAction::CheckTime,
        },
        (DisableState::Signalling { .. }, DisableEvent::Done(Err(t))) => fail(
            nothing(),
            prefixed("write shutdown signal: ", t.as_str()),
        ),
        (DisableState::Timing { pid, program }, DisableEvent::Elapsed(elapsed)) => {
            if elapsed < PROXY_SHUTDOWN_TIMEOUT_MS {
                DisableStep {
                    state: DisableState::Waiting { pid, program },
                    remove: nothing(),
                    action: DisableAction::WaitAndProbe { pid, ms: PROXY_POLL_MS },
                }
            } else if interactive {
                DisableStep {
                    state: DisableState::Killing { pid, program },
                    remove: nothing(),
                    action: DisableAction::KillProxy,
                }
            } else {
                fail(nothing(), failure_text(&Reason::TimedOut, interactive, marker))
            }
        },
        (DisableState::Waiting { pid, program }, DisableEvent::Alive(alive)) => {
            if alive {
                DisableStep {
                    state: DisableState::Timing { pid, program },
                    remove: nothing(),
                    action: DisableAction::CheckTime,
                }
            } else {
                DisableStep {
                    state: DisableState::Verifying { pid, program },
                    remove: nothing(),
                    action: DisableAction::VerifyRestored,
                }
            }
        },
        (DisableState::Verifying { pid, program }, DisableEvent::Verified(r)) => {
            match r {
                Ok(restored) => {
                    if restored {
                        let mut v = nothing();
                        v.push(StateFile::Pid);
                        v.push(StateFile::Original);
                        v.push(StateFile::Marker);
                        assert(v@ =~= seq![
                            StateFile::Pid,
                            StateFile::Original,
                            StateFile::Marker,
                        ]);
                        succeed(v)
                    } else {
                        escalate(
                            leftover_files(),
                            Reason::StillLocal,
                            Some(pid),
                            program,
                            interactive,
                            marker,
                        )
                    }
                },
                Err(x) => escalate(
                    leftover_files(),
                    Reason::Unverified(x),
                    Some(pid),
                    program,
                    interactive,
                    marker,
                ),
            }
        },
        (DisableState::Killing { pid, program }, DisableEvent::Killed(_)) => DisableStep {
            state: DisableState::Restoring(Reason::TimedOut),
            remove: nothing(),
            action: DisableAction::Restore { pid: Some(pid), program },
        },
        (DisableState::Restoring(reason), DisableEvent::Restored(Ok(()))) => {
            let mut v = nothing();
            match reason {
                Reason::StillLocal | Reason::Unverified(_) => {
                    v.push(StateFile::Marker);
                    assert(v@ =~= seq![StateFile::Marker]);
                },
                Reason::TimedOut => {
                    v = leftover_files();
                    v.push(StateFile::Marker);
                },
                Reason::NotRunning => {
                    v.push(StateFile::Original);
                    v.push(StateFile::Signal);
                    v.push(StateFile::Marker);
                    assert(v@ =~= seq![
                        StateFile::Original,
                        StateFile::Signal,
                        StateFile::Marker,
                    ]);
                },
            }
            succeed(v)
        },
        (DisableState::Restoring(reason), DisableEvent::Restored(Err(_))) => fail(
            nothing(),
            failure_text(&reason, interactive, marker),
        ),
        _ => fail(nothing(), String::new()),
    }
}

/// What came of restoring the settings as administrator.
pub fn restore_outcome(tool: &ToolOutcome) -> (r: Result<(), PlatformError>)
    ensures
        match tool {
            ToolOutcome::Finished(_) => r is Ok,
            ToolOutcome::NotRun(e) => r matches Err(PlatformError::RestoreDns(m)) && m@
                == "invoke osascript for disable-time restore: "@ + e@,
            ToolOutcome::Failed(e) => r matches Err(PlatformError::RestoreDns(m)) && m@
                == "disable-time restore failed: "@ + e@,
        },
{
    match tool {
        ToolOutcome::Finished(_) => Ok(()),
        ToolOutcome::NotRun(e) => Err(
            PlatformError::RestoreDns(
                prefixed("invoke osascript for disable-time restore: ", e.as_str()),
            ),
        ),
        ToolOutcome::Failed(e) => Err(
            PlatformError::RestoreDns(prefixed("disable-time restore failed: ", e.as_str())),
        ),
    }
}

/// What came of making the system use the servers of its lease again. The mark that this
/// has to be done goes with success.
pub fn force_dns_restore_if_needed(tool: &ToolOutcome) -> (r: (
    Vec<StateFile>,
    Result<(), PlatformError>,
))
    ensures
        match tool {
            ToolOutcome::Finished(_) => r.0@ == seq![StateFile::Marker] && r.1 is Ok,
            ToolOutcome::NotRun(e) => r.0@.len() == 0 && (r.1 matches Err(
                PlatformError::RestoreDns(m),
            ) && m@ == "invoke osascript for force restore: "@ + e@),
            ToolOutcome::Failed(e) => r.0@.len() == 0 && (r.1 matches Err(
                PlatformError::RestoreDns(m),
            ) && m@ == "force restore failed: "@ + e@),
        },
{
    let mut v = nothing();
    match tool {
        ToolOutcome::Finished(_) => {
            v.push(StateFile::Marker);
            assert(v@ =~= seq![StateFile::Marker]);
            (v, Ok(()))
        },
        ToolOutcome::NotRun(e) => (
            v,
            Err(
                PlatformError::RestoreDns(
                    prefixed("invoke osascript for force restore: ", e.as_str()),
                ),
            ),
        ),
        ToolOutcome::Failed(e) => (
            v,
            Err(PlatformError::RestoreDns(prefixed("force restore failed: ", e.as_str()))),
        ),
    }
}

/// The files of the DNS mode that old versions left in `/tmp`.
pub fn legacy_tmp_files() -> (r: Vec<String>)
    ensures
        crate::text::texts(r@) == seq![
            "/tmp/mhost-dns-proxy.pid"@,
            "/tmp/mhost-dns-original.txt"@,
            "/tmp/mhost-dns-shutdown.signal"@,
            "/tmp/mhost-dns-disable-recovery.marker"@,
        ],
{
    let mut v: Vec<String> = Vec::new();
    v.push("/tmp/mhost-dns-proxy.pid".to_owned());
    v.push("/tmp/mhost-dns-original.txt".to_owned());
    v.push("/tmp/mhost-dns-shutdown.signal".to_owned());
    v.push("/tmp/mhost-dns-disable-recovery.marker".to_owned());
    assert(crate::text::texts(v@) =~= seq![
        "/tmp/mhost-dns-proxy.pid"@,
        "/tmp/mhost-dns-original.txt"@,
        "/tmp/mhost-dns-shutdown.signal"@,
        "/tmp/mhost-dns-disable-recovery.marker"@,
    ]);
    v
}

// ---------------------------------------------------------------------------
// Laws
// ---------------------------------------------------------------------------
/// The mark that the settings still have to be restored is removed exactly when the work
/// ends with success.
pub proof fn marker_goes_with_success(
    s: DisableState,
    interactive: bool,
    marker: Seq<char>,
    e: DisableEvent,
    step: DisableStep,
)
    requires
        disable_answers(s, e),
        disable_follows(s, interactive, marker, e, step),
    ensures
        step.remove@.contains(StateFile::Marker) <==> step.action == DisableAction::Finish(Ok(())),
{
    let r = step.remove@;
    if step.action == DisableAction::Finish(Ok(())) {
        assert(r.len() > 0 && r[r.len() - 1] == StateFile::Marker);
    } else if r.contains(StateFile::Marker) {
        let i = choose|i: int| 0 <= i < r.len() && r[i] == StateFile::Marker;
        assert(r[i] == StateFile::Marker);
    }
}

/// Whether a state is one that the work can come to without the user.
pub open spec fn suits(s: DisableState, interactive: bool) -> bool {
    interactive || !(s is Killing || s is Restoring)
}

/// Without the user, nothing is done as administrator and no process is stopped.
pub proof fn no_dialog_without_user(
    s: DisableState,
    interactive: bool,
    marker: Seq<char>,
    e: DisableEvent,
    step: DisableStep,
)
    requires
        disable_answers(s, e),
        disable_follows(s, interactive, marker, e, step),
        suits(s, interactive),
    ensures
        suits(step.state, interactive),
        !interactive ==> !(step.action is Restore) && !(step.action is KillProxy),
{
}

/// Before anything else is done, the mark is written.
pub proof fn marker_comes_first(
    s: DisableState,
    interactive: bool,
    marker: Seq<char>,
    e: DisableEvent,
    step: DisableStep,
)
    requires
        disable_answers(s, e),
        disable_follows(s, interactive, marker, e, step),
        s is Preparing || s is Marking,
    ensures
        step.remove@.len() == 0,
        step.action is Finish || step.action is WriteMarker || (s is Marking && (
        e matches DisableEvent::Done(Ok(_))) && step.action is ReadPidFile),
        step.action is Finish ==> step.action != DisableAction::Finish(Ok(())),
{
}

/// What is written to the signal file when the mode is left makes the proxy stop.
pub proof fn the_proxy_is_told_to_stop(
    s: DisableState,
    interactive: bool,
    marker: Seq<char>,
    e: DisableEvent,
    step: DisableStep,
    text: String,
)
    requires
        disable_answers(s, e),
        disable_follows(s, interactive, marker, e, step),
        step.action == DisableAction::WriteShutdown(text),
    ensures
        crate::dns::proxy::says_shutdown(Some(text@)),
{
    crate::dns::proxy::lemma_signals();
}

/// What the mark holds after an action that came to an event; an action that does not
/// write it leaves it as it is.
pub open spec fn mark_after(
    action: DisableAction,
    e: DisableEvent,
    held: Option<Seq<char>>,
) -> Option<Seq<char>> {
    match (action, e) {
        (DisableAction::WriteMarker(t), DisableEvent::Done(Ok(_))) => Some(t@),
        _ => held,
    }
}

/// What the mark holds once the files of a step are removed.
pub open spec fn mark_left(step: DisableStep, held: Option<Seq<char>>) -> Option<Seq<char>> {
    if step.remove@.contains(StateFile::Marker) {
        None
    } else {
        held
    }
}

/// How the mark stands after a step. Once it is written it says that the settings still
/// have to be restored, until the work ends with success, and then it is gone.
pub open spec fn mark_stands(step: DisableStep, held: Option<Seq<char>>) -> bool {
    match step.state {
        DisableState::Preparing => step.action is PrepareDir,
        DisableState::Marking => step.action matches DisableAction::WriteMarker(t) && t@
            == "pending"@,
        DisableState::Finished => step.action == DisableAction::Finish(Ok(())) ==> held is None,
        _ => held == Some("pending"@) && !(step.action is WriteMarker),
    }
}

/// Every step keeps the mark as it should stand. Where the work ends without success after
/// the mark was written, it is there and says `pending`; where it ends with success, it is
/// gone.
pub proof fn the_mark_tells_what_is_pending(
    last: DisableStep,
    interactive: bool,
    marker: Seq<char>,
    e: DisableEvent,
    step: DisableStep,
    held: Option<Seq<char>>,
)
    requires
        mark_stands(last, held),
        disable_answers(last.state, e),
        disable_follows(last.state, interactive, marker, e, step),
    ensures
        mark_stands(step, mark_left(step, mark_after(last.action, e, held))),
        step.action is Finish && !(last.state is Preparing || last.state is Marking) ==> mark_left(
            step,
            mark_after(last.action, e, held),
        ) == if step.action == DisableAction::Finish(Ok(())) {
            None
        } else {
            Some("pending"@)
        },
{
    marker_goes_with_success(last.state, interactive, marker, e, step);
}

/// Without the user, and without a process that is there, the work ends without success.
pub proof fn nobody_to_restore(
    s: DisableState,
    marker: Seq<char>,
    e: DisableEvent,
    step: DisableStep,
)
    requires
        disable_answers(s, e),
        disable_follows(s, false, marker, e, step),
        s is Probing && e == DisableEvent::Alive(false) || s is ReadingPid && (
        e matches DisableEvent::PidFile(c) && (c matches Some(t)
            ==> crate::dns::platform::pid_file::named_process(t@) is None)),
    ensures
        step.state is Finished,
        step.action matches DisableAction::Finish(r) && r is Err,
{
}

/// Success is reported only after the system was seen not to use this machine, or after
/// the settings were restored as administrator.
pub proof fn success_means_restored(
    s: DisableState,
    interactive: bool,
    marker: Seq<char>,
    e: DisableEvent,
    step: DisableStep,
)
    requires
        disable_answers(s, e),
        disable_follows(s, interactive, marker, e, step),
        step.action == DisableAction::Finish(Ok(())),
    ensures
        (s is Verifying && e == DisableEvent::Verified(Ok(true))) || (s is Restoring && (
        e matches DisableEvent::Restored(Ok(_)))),
{
}

} // verus!
