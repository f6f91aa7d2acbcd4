//! Running a script as administrator with a limit to its time.
use mhost::dns::platform::privileged::{
    run_step, run_with_privileges_timeout, RunAction, RunEvent, RunState,
};
use mhost::dns::platform::{PlatformError, ToolOutcome};

const TIMEOUT: u64 = 60_000_000_000;

fn polled(ended: Result<bool, &str>, elapsed: u64) -> RunEvent {
    RunEvent::Polled { ended: ended.map_err(String::from), elapsed }
}

#[test]
fn a_script_that_ends_in_time_is_collected_and_removed() {
    let (s, a) = run_with_privileges_timeout();
    assert_eq!(a, RunAction::WriteScript);
    let (s, a) = run_step(s, RunEvent::Written(Ok(())), TIMEOUT);
    assert_eq!(a, RunAction::Spawn);
    let (s, a) = run_step(s, RunEvent::Spawned(Ok(7)), TIMEOUT);
    assert_eq!(a, RunAction::Poll);
    let (s, a) = run_step(s, polled(Ok(false), TIMEOUT - 1), TIMEOUT);
    assert_eq!(a, RunAction::Pause { ms: 100 });
    let (s, a) = run_step(s, RunEvent::Paused, TIMEOUT);
    assert_eq!(a, RunAction::Poll);
    let (s, a) = run_step(s, polled(Ok(true), TIMEOUT + 1), TIMEOUT);
    assert_eq!(a, RunAction::Collect);
    let out = ToolOutcome::Finished("ok".to_string());
    let (s, a) = run_step(s, RunEvent::Collected(Ok(out)), TIMEOUT);
    assert_eq!(a, RunAction::RemoveScript);
    let (s, a) = run_step(s, RunEvent::Removed, TIMEOUT);
    assert_eq!(s, RunState::Finished);
    assert_eq!(a, RunAction::Finish(ToolOutcome::Finished("ok".to_string())));
}

#[test]
fn a_script_that_takes_too_long_is_stopped() {
    let (s, a) = run_step(RunState::Watching(7), polled(Ok(false), TIMEOUT), TIMEOUT);
    assert_eq!(a, RunAction::KillAndReap(7));
    let (s, a) = run_step(s, RunEvent::Reaped, TIMEOUT);
    assert_eq!(a, RunAction::RemoveScript);
    let (_, a) = run_step(s, RunEvent::Removed, TIMEOUT);
    let message = "osascript timed out after 60s (killed pid=7); the TCC prompt may be stuck \
                   \u{2014} try again or force-quit System Events";
    assert_eq!(a, RunAction::Finish(ToolOutcome::NotRun(message.to_string())));
}

#[test]
fn every_failure_says_what_failed() {
    let failure = |s: RunState| match s {
        RunState::Cleaning(ToolOutcome::NotRun(m)) => m,
        other => panic!("unexpected {:?}", other),
    };
    let e = PlatformError::TempScript("create x: denied".to_string());
    let (_, a) = run_step(RunState::Writing, RunEvent::Written(Err(e)), TIMEOUT);
    let message = "temp script failed: failed to write temp script: create x: denied";
    assert_eq!(a, RunAction::Finish(ToolOutcome::NotRun(message.to_string())));
    let (s, a) = run_step(RunState::Starting, RunEvent::Spawned(Err("x".to_string())), TIMEOUT);
    assert_eq!(a, RunAction::RemoveScript);
    assert_eq!(failure(s), "osascript spawn failed: x");
    let (s, _) = run_step(RunState::Watching(1), polled(Err("y"), 0), TIMEOUT);
    assert_eq!(failure(s), "osascript try_wait failed: y");
    let e = RunEvent::Collected(Err("z".to_string()));
    let (s, _) = run_step(RunState::Collecting, e, TIMEOUT);
    assert_eq!(failure(s), "osascript wait_with_output failed: z");
}
