//! How the mode is entered and left, and a process stopped, from the first step to the last.
use vstd::prelude::*;
use vstd::string::*;

use crate::dns::platform::disable::{
    disable_step, DisableAction, DisableEvent, DisableState, DisableStep, Reason, StateFile,
};
use crate::dns::platform::enable::{
    enable_step, EnableAction, EnableEvent, EnablePlan, EnableState, EnableStep,
};
use crate::dns::platform::pid_file::{
    kill_proxy_via_pid_file, kill_step, KillAction, KillEvent, KillOutcome, KillState,
};
use crate::dns::platform::privileged::{run_step, RunAction, RunEvent, RunState};
use crate::dns::platform::{PlatformError, ToolOutcome};
use crate::models::OriginalDns;

verus! {

broadcast use vstd::string::group_string_axioms;

// ---------------------------------------------------------------------------
// Entering the mode
// ---------------------------------------------------------------------------
/// Where every action succeeds, the mode is entered in this order, whatever the interface and
/// the program are called: the interface is found, the program looked at, the directory made,
/// the servers written down, the signal file written, the directory of the log made, and the
/// script run, made for the plan and this interface. If no server is to be written down, the
/// file for them is removed instead.
pub proof fn the_mode_is_entered_in_order(
    plan: &EnablePlan,
    i: String,
    mode: u32,
    out: String,
    o1: EnableStep,
    o2: EnableStep,
    o3: EnableStep,
    o4: EnableStep,
    o5: EnableStep,
    o6: EnableStep,
    o7: EnableStep,
)
    requires
        i@.len() > 0,
        crate::dns::platform::interface_chars(i@),
        mode & 0o111 != 0,
        call_ensures(
            enable_step,
            (EnableState::FindingInterface, plan, EnableEvent::Interface(Ok(i))),
            o1,
        ),
        call_ensures(enable_step, (o1.state, plan, EnableEvent::Stat(Ok(mode))), o2),
        call_ensures(enable_step, (o2.state, plan, EnableEvent::Done(Ok(()))), o3),
        o3.state is SavingOriginal ==> call_ensures(
            enable_step,
            (o3.state, plan, EnableEvent::Done(Ok(()))),
            o4,
        ),
        o3.state is Signalling ==> o4 == o3,
        call_ensures(enable_step, (o4.state, plan, EnableEvent::Done(Ok(()))), o5),
        call_ensures(enable_step, (o5.state, plan, EnableEvent::Done(Ok(()))), o6),
        call_ensures(
            enable_step,
            (o6.state, plan, EnableEvent::Script(ToolOutcome::Finished(out))),
            o7,
        ),
    ensures
        o1.action is StatProxy,
        o2.action is PrepareDir,
        match plan.original {
            OriginalDns::Manual(v) => if crate::models::foreign(crate::text::texts(v@)).len() > 0 {
                o3.action matches EnableAction::WriteOriginal(t) && t@ == crate::text::join(
                    crate::models::foreign(crate::text::texts(v@)),
                    "\n"@,
                ) && o3.remove@.len() == 0
            } else {
                o3.state is Signalling && o3.remove@ == seq![StateFile::Original]
            },
            OriginalDns::DhcpEmpty => o3.state is Signalling && o3.remove@ == seq![
                StateFile::Original,
            ],
        },
        o4.action matches EnableAction::WriteRunning(t) && t@ == "running"@,
        o5.action is PrepareLogDir,
        o6.action matches EnableAction::RunScript(t)
            && crate::dns::platform::enable::script_for(*plan, i@, t@),
        o7.action == EnableAction::Finish(Ok(())),
        o7.remove@.len() == 0,
{
    assert(o1.state == EnableState::CheckingProxy { interface: i });
    assert(crate::dns::platform::enable::proxy_problem(plan.proxy_path@, Ok(mode)) is None);
    assert(o2.state == EnableState::Preparing { interface: i });
    assert(o4.state == EnableState::Signalling { interface: i });
    assert(o5.state == EnableState::PreparingLog { interface: i });
    assert(o6.state is Running);
}

/// An interface that cannot be found, or whose name is empty or holds anything but letters,
/// digits, spaces, dots, underscores, hyphens and slashes, ends the work, and so does a
/// program that is not there or that nobody may run. Nothing has been written by then.
pub proof fn a_bad_interface_or_program_ends_the_work(
    plan: &EnablePlan,
    r: Result<String, PlatformError>,
    interface: String,
    stat: Result<u32, String>,
    o1: EnableStep,
    o2: EnableStep,
)
    requires
        call_ensures(
            enable_step,
            (EnableState::FindingInterface, plan, EnableEvent::Interface(r)),
            o1,
        ),
        r matches Ok(i) ==> i@.len() == 0 || !crate::dns::platform::interface_chars(i@),
        call_ensures(
            enable_step,
            (EnableState::CheckingProxy { interface }, plan, EnableEvent::Stat(stat)),
            o2,
        ),
        stat matches Ok(mode) ==> mode & 0o111 == 0,
    ensures
        o1.remove@.len() == 0,
        o1.action matches EnableAction::Finish(x) && x is Err,
        r matches Err(e) ==> o1.action == EnableAction::Finish(Err(e)),
        o2.remove@.len() == 0,
        o2.action matches EnableAction::Finish(Err(PlatformError::SetDns(_))),
{
}

/// A step that fails later on ends the work with an error; only where the script itself fails
/// are the files that were written removed again.
pub proof fn a_failed_step_ends_the_work(
    s: EnableState,
    plan: &EnablePlan,
    why: String,
    o1: EnableStep,
    o2: EnableStep,
    o3: EnableStep,
)
    requires
        s is Preparing || s is SavingOriginal || s is Signalling || s is PreparingLog,
        call_ensures(enable_step, (s, plan, EnableEvent::Done(Err(why))), o1),
        call_ensures(
            enable_step,
            (EnableState::Running, plan, EnableEvent::Script(ToolOutcome::Failed(why))),
            o2,
        ),
        call_ensures(
            enable_step,
            (EnableState::Running, plan, EnableEvent::Script(ToolOutcome::NotRun(why))),
            o3,
        ),
    ensures
        o1.remove@.len() == 0,
        o1.action matches EnableAction::Finish(Err(PlatformError::SetDns(_))),
        o2.remove@ == seq![StateFile::Original, StateFile::Signal],
        o2.action matches EnableAction::Finish(Err(PlatformError::SetDns(m))) && m@
            == "proxy failed to start: "@ + why@,
        o3.remove@.len() == 0,
        o3.action matches EnableAction::Finish(Err(PlatformError::SetDns(m))) && m@
            == "enable dns mode failed: "@ + why@,
{
}

// ---------------------------------------------------------------------------
// Leaving the mode
// ---------------------------------------------------------------------------
/// Where the proxy runs and does as it is told, the mode is left in this order, with or
/// without the user: the mark is written, the process looked for and told to stop, and once it
/// has stopped and the system was seen not to use this machine, the files are removed, the
/// mark among them, and the work ends with success.
pub proof fn the_mode_is_left_in_order(
    interactive: bool,
    marker: &str,
    content: String,
    pid: u32,
    elapsed: u64,
    o1: DisableStep,
    o2: DisableStep,
    o3: DisableStep,
    o4: DisableStep,
    o5: DisableStep,
    o6: DisableStep,
    o7: DisableStep,
    o8: DisableStep,
)
    requires
        crate::dns::platform::pid_file::named_process(content@) == Some(pid),
        elapsed < 5000,
        call_ensures(
            disable_step,
            (DisableState::Preparing, interactive, marker, DisableEvent::Done(Ok(()))),
            o1,
        ),
        call_ensures(
            disable_step,
            (o1.state, interactive, marker, DisableEvent::Done(Ok(()))),
            o2,
        ),
        call_ensures(
            disable_step,
            (o2.state, interactive, marker, DisableEvent::PidFile(Some(content))),
            o3,
        ),
        call_ensures(
            disable_step,
            (o3.state, interactive, marker, DisableEvent::Alive(true)),
            o4,
        ),
        call_ensures(
            disable_step,
            (o4.state, interactive, marker, DisableEvent::Done(Ok(()))),
            o5,
        ),
        call_ensures(
            disable_step,
            (o5.state, interactive, marker, DisableEvent::Elapsed(elapsed)),
            o6,
        ),
        call_ensures(
            disable_step,
            (o6.state, interactive, marker, DisableEvent::Alive(false)),
            o7,
        ),
        call_ensures(
            disable_step,
            (o7.state, interactive, marker, DisableEvent::Verified(Ok(true))),
            o8,
        ),
    ensures
        o1.action matches DisableAction::WriteMarker(t) && t@ == "pending"@,
        o2.action is ReadPidFile,
        o3.action == DisableAction::Probe(pid),
        o4.action matches DisableAction::WriteShutdown(t) && t@ == "shutdown"@,
        o5.action is CheckTime,
        o6.action == (DisableAction::WaitAndProbe { pid, ms: 100 }),
        o7.action is VerifyRestored,
        o8.action == DisableAction::Finish(Ok(())),
        o8.remove@ == seq![StateFile::Pid, StateFile::Original, StateFile::Marker],
        o1.remove@.len() == 0 && o2.remove@.len() == 0 && o3.remove@.len() == 0 && o4.remove@.len()
            == 0 && o5.remove@.len() == 0 && o6.remove@.len() == 0 && o7.remove@.len() == 0,
{
    assert(o1.state is Marking);
    assert(o2.state is ReadingPid);
    match DisableEvent::PidFile(Some(content)) {
        DisableEvent::PidFile(Some(t)) => {
            assert(t == content);
        },
        _ => {},
    }
    assert(o3.state is Probing);
    assert(o4.state is Signalling);
    assert(o5.state is Timing);
    assert(o6.state is Waiting);
    assert(o7.state is Verifying);
}

/// A proxy that is still there is waited for until five seconds are over. Then, with the user,
/// it is stopped, and the settings are restored as administrator, which ends the work with
/// success and removes the files; without the user the work ends without success.
pub proof fn a_proxy_that_stays_is_stopped(
    marker: &str,
    pid: u32,
    program: Option<String>,
    early: u64,
    late: u64,
    outcome: KillOutcome,
    waits: DisableStep,
    again: DisableStep,
    alone: DisableStep,
    o1: DisableStep,
    o2: DisableStep,
    o3: DisableStep,
    interactive: bool,
)
    requires
        early < 5000,
        late >= 5000,
        call_ensures(
            disable_step,
            (
                DisableState::Timing { pid, program },
                interactive,
                marker,
                DisableEvent::Elapsed(early),
            ),
            waits,
        ),
        call_ensures(
            disable_step,
            (waits.state, interactive, marker, DisableEvent::Alive(true)),
            again,
        ),
        call_ensures(
            disable_step,
            (DisableState::Timing { pid, program }, false, marker, DisableEvent::Elapsed(late)),
            alone,
        ),
        call_ensures(
            disable_step,
            (DisableState::Timing { pid, program }, true, marker, DisableEvent::Elapsed(late)),
            o1,
        ),
        call_ensures(disable_step, (o1.state, true, marker, DisableEvent::Killed(outcome)), o2),
        call_ensures(disable_step, (o2.state, true, marker, DisableEvent::Restored(Ok(()))), o3),
    ensures
        waits.action == (DisableAction::WaitAndProbe { pid, ms: 100 }),
        again.state == (DisableState::Timing { pid, program }),
        again.action is CheckTime,
        alone.action matches DisableAction::Finish(r) && r is Err,
        alone.remove@.len() == 0,
        o1.action is KillProxy,
        o2.action == (DisableAction::Restore { pid: Some(pid), program }),
        o3.action == DisableAction::Finish(Ok(())),
        o3.remove@ == seq![
            StateFile::Pid,
            StateFile::Original,
            StateFile::Signal,
            StateFile::Marker,
        ],
{
    assert(waits.state == (DisableState::Waiting { pid, program }));
    assert(o1.state == (DisableState::Killing { pid, program }));
    assert(o2.state == DisableState::Restoring(Reason::TimedOut));
    assert(o3.remove@ =~= seq![
        StateFile::Pid,
        StateFile::Original,
        StateFile::Signal,
        StateFile::Marker,
    ]);
}

/// Where no process is named, or the one that is named is gone, the settings are restored as
/// administrator with the user; without the user the work ends without success, and only the
/// mark stays.
pub proof fn without_a_proxy_the_settings_are_restored(
    marker: &str,
    pid: u32,
    program: Option<String>,
    o1: DisableStep,
    o2: DisableStep,
    o3: DisableStep,
    o4: DisableStep,
    o5: DisableStep,
)
    requires
        call_ensures(
            disable_step,
            (DisableState::ReadingPid, true, marker, DisableEvent::PidFile(None)),
            o1,
        ),
        call_ensures(
            disable_step,
            (DisableState::ReadingPid, false, marker, DisableEvent::PidFile(None)),
            o2,
        ),
        call_ensures(
            disable_step,
            (DisableState::Probing { pid, program }, true, marker, DisableEvent::Alive(false)),
            o3,
        ),
        call_ensures(
            disable_step,
            (DisableState::Probing { pid, program }, false, marker, DisableEvent::Alive(false)),
            o4,
        ),
        call_ensures(disable_step, (o3.state, true, marker, DisableEvent::Restored(Ok(()))), o5),
    ensures
        o1.action == (DisableAction::Restore { pid: None, program: None }),
        o1.remove@.len() == 0,
        o2.action matches DisableAction::Finish(r) && r is Err,
        o2.remove@ == seq![StateFile::Original, StateFile::Signal],
        o3.action matches DisableAction::Restore { pid: p, program: n } && p == Some(pid)
            && crate::models::text_of(n) == crate::models::text_of(program),
        o3.remove@ == seq![StateFile::Pid],
        o4.action matches DisableAction::Finish(r) && r is Err,
        o4.remove@ == seq![StateFile::Pid, StateFile::Original, StateFile::Signal],
        o5.action == DisableAction::Finish(Ok(())),
        o5.remove@ == seq![StateFile::Original, StateFile::Signal, StateFile::Marker],
{
    assert(o3.state == DisableState::Restoring(Reason::NotRunning));
    assert(o2.remove@ =~= seq![StateFile::Original, StateFile::Signal]);
    assert(o4.remove@ =~= seq![StateFile::Pid, StateFile::Original, StateFile::Signal]);
}

/// Where the proxy has stopped but the system still uses this machine, or that is not known,
/// the settings are restored as administrator with the user; without the user the work ends
/// without success.
pub proof fn settings_that_were_not_restored_are_restored(
    marker: &str,
    pid: u32,
    program: Option<String>,
    r: Result<bool, PlatformError>,
    o1: DisableStep,
    o2: DisableStep,
    o3: DisableStep,
)
    requires
        r != Ok::<bool, PlatformError>(true),
        call_ensures(
            disable_step,
            (DisableState::Verifying { pid, program }, true, marker, DisableEvent::Verified(r)),
            o1,
        ),
        call_ensures(
            disable_step,
            (DisableState::Verifying { pid, program }, false, marker, DisableEvent::Verified(r)),
            o2,
        ),
        call_ensures(disable_step, (o1.state, true, marker, DisableEvent::Restored(Ok(()))), o3),
    ensures
        o1.action matches DisableAction::Restore { pid: p, program: n } && p == Some(pid)
            && crate::models::text_of(n) == crate::models::text_of(program),
        o1.remove@ == seq![StateFile::Pid, StateFile::Original, StateFile::Signal],
        o2.action matches DisableAction::Finish(x) && x is Err,
        o2.remove@ == seq![StateFile::Pid, StateFile::Original, StateFile::Signal],
        o3.action == DisableAction::Finish(Ok(())),
        o3.remove@ == seq![StateFile::Marker],
{
    match r {
        Ok(b) => {
            assert(!b);
            assert(o1.state == DisableState::Restoring(Reason::StillLocal));
        },
        Err(x) => {
            assert(o1.state == DisableState::Restoring(Reason::Unverified(x)));
        },
    }
}

// ---------------------------------------------------------------------------
// Stopping a process
// ---------------------------------------------------------------------------
/// A process that is there and runs the recorded program is asked to stop and has 150
/// milliseconds. If it is still there, it is stopped by force; either way what is left of it
/// is collected, and the outcome is that it was stopped.
pub proof fn the_recorded_process_is_stopped(
    pid: u32,
    path: Vec<char>,
    command: String,
    alive: bool,
    o1: (KillState, KillAction),
    o2: (KillState, KillAction),
    o3: (KillState, KillAction),
    o4: (KillState, KillAction),
    o5: (KillState, KillAction),
    o6: (KillState, KillAction),
)
    requires
        crate::dns::platform::pid_file::name_or_path(path@).len() > 0,
        crate::dns::platform::pid_file::runs_program(path@, command@),
        call_ensures(
            kill_step,
            (KillState::Probing { pid, path }, KillEvent::Alive(true)),
            o1,
        ),
        call_ensures(kill_step, (o1.0, KillEvent::Command(Some(command))), o2),
        call_ensures(kill_step, (o2.0, KillEvent::Sent), o3),
        call_ensures(kill_step, (o3.0, KillEvent::Alive(alive)), o4),
        alive ==> call_ensures(kill_step, (o4.0, KillEvent::Sent), o5),
        !alive ==> o5 == o4,
        call_ensures(kill_step, (o5.0, KillEvent::Sent), o6),
    ensures
        o1.1 == KillAction::AskCommand(pid),
        o2.1 == (KillAction::Terminate { pid, grace_ms: 150 }),
        o3.1 == KillAction::Probe(pid),
        alive ==> o4.1 == KillAction::Kill(pid),
        o5.1 == KillAction::Reap(pid),
        o6.1 == KillAction::Finish(KillOutcome::Killed),
{
    assert(o1.0 == (KillState::Asking { pid, path }));
    assert(o2.0 == (KillState::Terminating { pid }));
    assert(o3.0 == (KillState::ProbingAgain { pid }));
    assert(o5.0 is Reaping);
}

/// A process that is gone is left alone, and so is one that runs another program, or one of
/// which nothing is known.
pub proof fn any_other_process_is_left_alone(
    pid: u32,
    path: Vec<char>,
    command: Option<String>,
    o1: (KillState, KillAction),
    o2: (KillState, KillAction),
)
    requires
        call_ensures(
            kill_step,
            (KillState::Probing { pid, path }, KillEvent::Alive(false)),
            o1,
        ),
        call_ensures(
            kill_step,
            (KillState::Asking { pid, path }, KillEvent::Command(command)),
            o2,
        ),
        command matches Some(c) ==> !crate::dns::platform::pid_file::runs_program(path@, c@),
    ensures
        o1.1 == KillAction::Finish(KillOutcome::PidDeadAlready),
        o2.1 == KillAction::Finish(KillOutcome::PidReusedOrMismatch),
{
}

/// Whatever the recorded program is called, a process that is there is asked which one it
/// runs; without a recorded program it is left alone.
pub proof fn recorded_programs_are_asked_for(
    pid: u32,
    path: Vec<char>,
    p: Seq<char>,
    name: Seq<char>,
    o: (KillState, KillAction),
)
    requires
        call_ensures(kill_step, (KillState::Probing { pid, path }, KillEvent::Alive(true)), o),
    ensures
        path@ == p + name && (p.len() == 0 || p.last() == '/') && name.len() > 0 && !name.contains(
            '/',
        ) && name != seq!['.'] && name != seq!['.', '.'] ==> o.1 == KillAction::AskCommand(pid)
            && o.0 == (KillState::Asking { pid, path }),
        path@.len() == 0 ==> o.1 == KillAction::Finish(KillOutcome::PidReusedOrMismatch),
{
    if path@ == p + name && (p.len() == 0 || p.last() == '/') && name.len() > 0 && !name.contains(
        '/',
    ) && name != seq!['.'] && name != seq!['.', '.'] {
        crate::dns::system_laws::the_name_follows_the_last_slash(p, name, Seq::empty());
        assert(p + name + Seq::<char>::empty() =~= p + name);
    }
    if path@.len() == 0 {
        match crate::dns::platform::pid_file::file_name(path@) {
            Some(n) => {
                assert(n.len() == 0);
            },
            None => {},
        }
    }
}

// ---------------------------------------------------------------------------
// Running as administrator
// ---------------------------------------------------------------------------
/// A script is written, the tool started and watched until it has ended; then its output is
/// taken, the script removed, and the output is the result. A tool that still runs is looked
/// at again every 100 milliseconds until its time is over; then it is stopped.
pub proof fn a_script_runs_to_its_end(
    timeout: u64,
    pid: u32,
    early: u64,
    late: u64,
    out: ToolOutcome,
    o1: (RunState, RunAction),
    o2: (RunState, RunAction),
    waits: (RunState, RunAction),
    again: (RunState, RunAction),
    stops: (RunState, RunAction),
    stopped: (RunState, RunAction),
    o3: (RunState, RunAction),
    o4: (RunState, RunAction),
    o5: (RunState, RunAction),
)
    requires
        early < timeout,
        late >= timeout,
        call_ensures(run_step, (RunState::Writing, RunEvent::Written(Ok(())), timeout), o1),
        call_ensures(run_step, (o1.0, RunEvent::Spawned(Ok(pid)), timeout), o2),
        call_ensures(
            run_step,
            (o2.0, RunEvent::Polled { ended: Ok(false), elapsed: early }, timeout),
            waits,
        ),
        call_ensures(run_step, (waits.0, RunEvent::Paused, timeout), again),
        call_ensures(
            run_step,
            (o2.0, RunEvent::Polled { ended: Ok(false), elapsed: late }, timeout),
            stops,
        ),
        call_ensures(run_step, (stops.0, RunEvent::Reaped, timeout), stopped),
        call_ensures(
            run_step,
            (again.0, RunEvent::Polled { ended: Ok(true), elapsed: late }, timeout),
            o3,
        ),
        call_ensures(run_step, (o3.0, RunEvent::Collected(Ok(out)), timeout), o4),
        call_ensures(run_step, (o4.0, RunEvent::Removed, timeout), o5),
    ensures
        o1.1 is Spawn,
        o2.1 is Poll,
        waits.1 == (RunAction::Pause { ms: 100 }),
        again == o2,
        stops.1 == RunAction::KillAndReap(pid),
        stopped.1 is RemoveScript,
        stopped.0 matches RunState::Cleaning(ToolOutcome::NotRun(_)),
        o3.1 is Collect,
        o4.1 is RemoveScript,
        o5.1 == RunAction::Finish(out),
{
    assert(o1.0 is Starting);
    assert(o2.0 == RunState::Watching(pid));
    assert(waits.0 == RunState::Pausing(pid));
    assert(again.0 == RunState::Watching(pid));
    assert(stops.0 == RunState::Killing(pid));
    assert(o3.0 is Collecting);
    assert(o4.0 == RunState::Cleaning(out));
}

/// The file of the proxy starts it all: the process that it names is looked for, with the path
/// that it records. Without a file, or with one that names no process, nothing is done.
pub proof fn the_file_names_the_process(
    t: &str,
    o1: (KillState, KillAction),
    o2: (KillState, KillAction),
)
    requires
        call_ensures(kill_proxy_via_pid_file, (Some(t),), o1),
        call_ensures(kill_proxy_via_pid_file, (None::<&str>,), o2),
    ensures
        match crate::dns::platform::pid_file::named_process(t@) {
            Some(pid) => o1.1 == KillAction::Probe(pid) && (o1.0 matches KillState::Probing {
                pid: p,
                path,
            } && p == pid && path@ == crate::dns::platform::pid_file::recorded_path(t@)),
            None => o1.1 == KillAction::Finish(KillOutcome::FileMissing),
        },
        o2.1 == KillAction::Finish(KillOutcome::FileMissing),
{
}

// ---------------------------------------------------------------------------
// Failures
// ---------------------------------------------------------------------------
/// Each step towards the mode that fails says which one it was, and why.
pub proof fn failed_steps_say_which(
    plan: &EnablePlan,
    interface: String,
    why: String,
    mode: u32,
    o1: EnableStep,
    o2: EnableStep,
    o3: EnableStep,
    o4: EnableStep,
    o5: EnableStep,
    o6: EnableStep,
)
    requires
        call_ensures(
            enable_step,
            (EnableState::Preparing { interface }, plan, EnableEvent::Done(Err(why))),
            o1,
        ),
        call_ensures(
            enable_step,
            (EnableState::SavingOriginal { interface }, plan, EnableEvent::Done(Err(why))),
            o2,
        ),
        call_ensures(
            enable_step,
            (EnableState::Signalling { interface }, plan, EnableEvent::Done(Err(why))),
            o3,
        ),
        call_ensures(
            enable_step,
            (EnableState::PreparingLog { interface }, plan, EnableEvent::Done(Err(why))),
            o4,
        ),
        call_ensures(
            enable_step,
            (EnableState::CheckingProxy { interface }, plan, EnableEvent::Stat(Err(why))),
            o5,
        ),
        mode & 0o111 == 0,
        call_ensures(
            enable_step,
            (EnableState::CheckingProxy { interface }, plan, EnableEvent::Stat(Ok(mode))),
            o6,
        ),
    ensures
        o1.action matches EnableAction::Finish(Err(PlatformError::SetDns(m))) && m@
            == "create runtime dir: "@ + why@,
        o2.action matches EnableAction::Finish(Err(PlatformError::SetDns(m))) && m@
            == "write original dns file: "@ + why@,
        o3.action matches EnableAction::Finish(Err(PlatformError::SetDns(m))) && m@
            == "write shutdown signal file: "@ + why@,
        o4.action matches EnableAction::Finish(Err(PlatformError::SetDns(m))) && m@
            == "create runtime dir for log: "@ + why@,
        o5.action matches EnableAction::Finish(Err(PlatformError::SetDns(m)))
            && crate::text::begins(
            m@,
            "mhost-dns-proxy binary not found at "@ + plan.proxy_path@ + " ("@ + why@,
        ),
        o6.action matches EnableAction::Finish(Err(PlatformError::SetDns(m)))
            && crate::text::begins(
            m@,
            "mhost-dns-proxy at "@ + plan.proxy_path@ + " is not executable"@,
        ),
{
    match o5.action {
        EnableAction::Finish(Err(PlatformError::SetDns(m))) => {
            let head = "mhost-dns-proxy binary not found at "@ + plan.proxy_path@ + " ("@ + why@;
            assert(m@.take(head.len() as int) =~= head);
        },
        _ => {},
    }
    match o6.action {
        EnableAction::Finish(Err(PlatformError::SetDns(m))) => {
            let front = "mhost-dns-proxy at "@ + plan.proxy_path@;
            let rest
                = " is not executable; rebuild with `cd src-tauri && cargo build -p mhost-dns --bin mhost-dns-proxy`"@;
            reveal_strlit(" is not executable");
            reveal_strlit(
                " is not executable; rebuild with `cd src-tauri && cargo build -p mhost-dns --bin mhost-dns-proxy`",
            );
            assert(rest.take(" is not executable"@.len() as int) =~= " is not executable"@);
            let head = front + " is not executable"@;
            assert(m@ =~= front + rest);
            assert(m@.take(head.len() as int) =~= head);
        },
        _ => {},
    }
}

/// Each step out of the mode that fails says which one it was, and why. Nothing is removed.
pub proof fn failed_steps_out_say_which(
    interactive: bool,
    marker: &str,
    pid: u32,
    program: Option<String>,
    why: String,
    o1: DisableStep,
    o2: DisableStep,
    o3: DisableStep,
)
    requires
        call_ensures(
            disable_step,
            (DisableState::Preparing, interactive, marker, DisableEvent::Done(Err(why))),
            o1,
        ),
        call_ensures(
            disable_step,
            (DisableState::Marking, interactive, marker, DisableEvent::Done(Err(why))),
            o2,
        ),
        call_ensures(
            disable_step,
            (
                DisableState::Signalling { pid, program },
                interactive,
                marker,
                DisableEvent::Done(Err(why)),
            ),
            o3,
        ),
    ensures
        o1.action matches DisableAction::Finish(Err(PlatformError::RestoreDns(m))) && m@
            == "create runtime dir for recovery marker: "@ + why@,
        o2.action matches DisableAction::Finish(Err(PlatformError::RestoreDns(m))) && m@
            == "write recovery marker: "@ + why@,
        o3.action matches DisableAction::Finish(Err(PlatformError::RestoreDns(m))) && m@
            == "write shutdown signal: "@ + why@,
        o1.remove@.len() == 0 && o2.remove@.len() == 0 && o3.remove@.len() == 0,
{
}

/// Settings that could not be restored are a failure that names the mark, which stays.
pub proof fn settings_that_stay_are_told(
    interactive: bool,
    marker: &str,
    reason: Reason,
    x: PlatformError,
    o: DisableStep,
)
    requires
        call_ensures(
            disable_step,
            (DisableState::Restoring(reason), interactive, marker, DisableEvent::Restored(Err(x))),
            o,
        ),
    ensures
        o.remove@.len() == 0,
        o.state is Finished,
        reason is StillLocal ==> (o.action matches DisableAction::Finish(
            Err(PlatformError::RestoreDns(m)),
        ) && m@
            == "proxy exited but system DNS still points at loopback; recovery marker left at "@
            + marker@),
        reason matches Reason::Unverified(e) ==> (o.action matches DisableAction::Finish(
            Err(PlatformError::RestoreDns(m)),
        ) && m@ == "post-restore verify failed: "@ + e.message() + "; recovery marker left at "@
            + marker@),
        reason is TimedOut ==> (o.action matches DisableAction::Finish(
            Err(PlatformError::RestoreDns(m)),
        ) && m@ == "dns proxy did not exit within 5s; recovery marker left at "@ + marker@),
        reason is NotRunning && interactive ==> (o.action matches DisableAction::Finish(
            Err(PlatformError::RestoreDns(m)),
        ) && m@ == "proxy not running and osascript restore failed; recovery marker left at "@
            + marker@),
{
}

/// A file that names no process counts as none: the settings are restored as administrator
/// with the user, and otherwise left, with the mark.
pub proof fn a_file_without_a_process_counts_as_none(
    marker: &str,
    content: String,
    o1: DisableStep,
    o2: DisableStep,
)
    requires
        crate::dns::platform::pid_file::named_process(content@) is None,
        call_ensures(
            disable_step,
            (DisableState::ReadingPid, true, marker, DisableEvent::PidFile(Some(content))),
            o1,
        ),
        call_ensures(
            disable_step,
            (DisableState::ReadingPid, false, marker, DisableEvent::PidFile(Some(content))),
            o2,
        ),
    ensures
        o1.remove@.len() == 0,
        o1.action matches DisableAction::Restore { pid, program } && pid is None,
        o2.remove@ == seq![StateFile::Original, StateFile::Signal],
        o2.action matches DisableAction::Finish(Err(PlatformError::RestoreDns(m))) && m@
            == "proxy not running; recovery marker left at "@ + marker@
            + " for next-launch force restore"@,
{
    match DisableEvent::PidFile(Some(content)) {
        DisableEvent::PidFile(Some(t)) => {
            assert(t == content);
        },
        _ => {},
    }
    assert(o2.remove@ =~= seq![StateFile::Original, StateFile::Signal]);
}

/// A script that cannot be written ends the run at once; any later failure does so once the
/// script is removed. All of them say what failed, and why.
pub proof fn failed_runs_say_why(
    timeout: u64,
    pid: u32,
    elapsed: u64,
    x: PlatformError,
    why: String,
    o1: (RunState, RunAction),
    o2: (RunState, RunAction),
    o3: (RunState, RunAction),
    o4: (RunState, RunAction),
    o5: (RunState, RunAction),
)
    requires
        call_ensures(run_step, (RunState::Writing, RunEvent::Written(Err(x)), timeout), o1),
        call_ensures(run_step, (RunState::Starting, RunEvent::Spawned(Err(why)), timeout), o2),
        call_ensures(
            run_step,
            (RunState::Watching(pid), RunEvent::Polled { ended: Err(why), elapsed }, timeout),
            o3,
        ),
        call_ensures(run_step, (RunState::Collecting, RunEvent::Collected(Err(why)), timeout), o4),
        call_ensures(run_step, (RunState::Killing(pid), RunEvent::Reaped, timeout), o5),
    ensures
        o1.1 matches RunAction::Finish(ToolOutcome::NotRun(m)) && m@ == "temp script failed: "@
            + x.message(),
        o2.1 is RemoveScript && (o2.0 matches RunState::Cleaning(ToolOutcome::NotRun(m)) && m@
            == "osascript spawn failed: "@ + why@),
        o3.1 is RemoveScript && (o3.0 matches RunState::Cleaning(ToolOutcome::NotRun(m)) && m@
            == "osascript try_wait failed: "@ + why@),
        o4.1 is RemoveScript && (o4.0 matches RunState::Cleaning(ToolOutcome::NotRun(m)) && m@
            == "osascript wait_with_output failed: "@ + why@),
        o5.1 is RemoveScript && (o5.0 matches RunState::Cleaning(ToolOutcome::NotRun(m)) && m@
            == "osascript timed out after "@ + crate::dns::platform::privileged::duration_form(
            timeout,
        ) + " (killed pid="@ + crate::text::decimal(pid as nat)
            + "); the TCC prompt may be stuck \u{2014} try again or force-quit System Events"@),
{
}

} // verus!
