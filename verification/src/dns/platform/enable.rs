//! Entering the DNS mode, one step at a time. Files and tools are left to the caller: a
//! step takes what came of the last action and says which files to remove and which
//! action comes next.
use vstd::prelude::*;
use vstd::string::*;

use crate::dns::platform::disable::StateFile;
use crate::dns::platform::script::{build_enable_script, EnableScriptInputs};
use crate::dns::platform::{validate_interface_name, PlatformError, ToolOutcome};
use crate::dns::proxy::RUNNING_SIGNAL;
use crate::error::prefixed;
use crate::models::{without_local, OriginalDns};
use crate::text::join_texts;

verus! {

broadcast use vstd::string::group_string_axioms;

/// What the mode is entered with: the program of the proxy, the port of the DNS server,
/// the file that will name the process of the proxy, its log, and the settings to go back
/// to.
#[derive(Debug)]
pub struct EnablePlan {
    pub proxy_path: String,
    pub dns_port: u16,
    pub pid_file: String,
    pub log_path: String,
    pub original: OriginalDns,
}

/// What the caller has to do.
#[derive(Debug, PartialEq, Eq)]
pub enum EnableAction {
    /// Find the active interface.
    FindInterface,
    /// Look at the program of the proxy.
    StatProxy,
    /// Make sure that the directory for the files is there.
    PrepareDir,
    /// Write the servers that the user had.
    WriteOriginal(String),
    /// Write this to the signal file: the proxy is to run.
    WriteRunning(String),
    /// Make sure that the directory for the log is there.
    PrepareLogDir,
    /// Run a script as administrator.
    RunScript(String),
    /// Nothing: this is the result.
    Finish(Result<(), PlatformError>),
}

/// What came of an action.
#[derive(Debug, PartialEq, Eq)]
pub enum EnableEvent {
    Interface(Result<String, PlatformError>),
    /// The permission bits of the program.
    Stat(Result<u32, String>),
    Done(Result<(), String>),
    Script(ToolOutcome),
}

/// How far the work has come.
#[derive(Debug, PartialEq, Eq)]
pub enum EnableState {
    FindingInterface,
    CheckingProxy { interface: String },
    Preparing { interface: String },
    SavingOriginal { interface: String },
    Signalling { interface: String },
    PreparingLog { interface: String },
    Running,
    Finished,
}

/// A step: the next state, the files to remove, and the action after that.
#[derive(Debug, PartialEq, Eq)]
pub struct EnableStep {
    pub state: EnableState,
    pub remove: Vec<StateFile>,
    pub action: EnableAction,
}

// ---------------------------------------------------------------------------
// Meaning
// ---------------------------------------------------------------------------
/// Whether an event is what the state waits for.
pub open spec fn enable_answers(s: EnableState, e: EnableEvent) -> bool {
    match s {
        EnableState::FindingInterface => e is Interface,
        EnableState::CheckingProxy { .. } => e is Stat,
        EnableState::Preparing { .. } | EnableState::SavingOriginal { .. }
        | EnableState::Signalling { .. } | EnableState::PreparingLog { .. } => e is Done,
        EnableState::Running => e is Script,
        EnableState::Finished => false,
    }
}

/// What is wrong with the program of the proxy, if anything: it is not there, or it is not
/// executable.
pub open spec fn proxy_problem(path: Seq<char>, stat: Result<u32, String>) -> Option<Seq<char>> {
    match stat {
        Ok(mode) => if mode & 0o111 == 0 {
            Some(
                "mhost-dns-proxy at "@ + path
                    + " is not executable; rebuild with `cd src-tauri && cargo build -p mhost-dns --bin mhost-dns-proxy`"@,
            )
        } else {
            None
        },
        Err(e) => Some(
            "mhost-dns-proxy binary not found at "@ + path + " ("@ + e@
                + "). This usually means `pnpm tauri dev` was run without first building the proxy. Fix: `cd src-tauri && cargo build -p mhost-dns --bin mhost-dns-proxy`, or use `bash scripts/dev.sh` which builds it for you. See doc/dev-guide.md for details."@,
        ),
    }
}

/// The servers to write down: those that the user had entered, without this machine
/// itself.
pub open spec fn servers_to_keep(original: OriginalDns) -> Seq<Seq<char>> {
    match original {
        OriginalDns::Manual(s) => crate::models::foreign(crate::text::texts(s@)),
        OriginalDns::DhcpEmpty => seq![],
    }
}

/// The work is over, with an error of the settings.
pub open spec fn set_fails(step: EnableStep, message: Seq<char>) -> bool {
    &&& step.state is Finished
    &&& step.action matches EnableAction::Finish(Err(PlatformError::SetDns(m))) && m@ == message
}

/// The script for a plan and an interface.
pub open spec fn script_for(plan: EnablePlan, interface: Seq<char>, script: Seq<char>) -> bool {
    exists|i: EnableScriptInputs|
        {
            &&& i.proxy_path@ == plan.proxy_path@
            &&& i.dns_port == plan.dns_port
            &&& i.pid_file@ == plan.pid_file@
            &&& i.log_path@ == plan.log_path@
            &&& i.interface@ == interface
            &&& script == #[trigger] crate::dns::platform::script::enable_script(i)
        }
}

/// One step: what follows in a state when an action came to an event.
pub open spec fn enable_follows(
    s: EnableState,
    plan: EnablePlan,
    e: EnableEvent,
    step: EnableStep,
) -> bool {
    match (s, e) {
        (EnableState::FindingInterface, EnableEvent::Interface(r)) => step.remove@.len() == 0
            && match r {
            Err(x) => step.state is Finished && step.action == EnableAction::Finish(Err(x)),
            Ok(i) => if i@.len() == 0 {
                step.state is Finished && step.action == EnableAction::Finish(
                    Err(PlatformError::EmptyInterfaceName),
                )
            } else if crate::dns::platform::interface_chars(i@) {
                step.state == EnableState::CheckingProxy { interface: i }
                    && step.action is StatProxy
            } else {
                step.state is Finished && (step.action matches EnableAction::Finish(
                    Err(PlatformError::InvalidInterfaceName(m)),
                ) && m@ == "name contains disallowed characters: "@
                    + crate::dns::platform::debug_form(i@))
            },
        },
        (EnableState::CheckingProxy { interface }, EnableEvent::Stat(r)) => step.remove@.len()
            == 0 && match proxy_problem(plan.proxy_path@, r) {
            Some(m) => set_fails(step, m),
            None => step.state == EnableState::Preparing { interface }
                && step.action is PrepareDir,
        },
        (EnableState::Preparing { interface }, EnableEvent::Done(r)) => match r {
            Err(t) => step.remove@.len() == 0 && set_fails(step, "create runtime dir: "@ + t@),
            Ok(()) => {
                let keep = servers_to_keep(plan.original);
                if keep.len() == 0 {
                    &&& step.remove@ == seq![StateFile::Original]
                    &&& step.state == EnableState::Signalling { interface }
                    &&& step.action matches EnableAction::WriteRunning(t) && t@ == RUNNING_SIGNAL@
                } else {
                    &&& step.remove@.len() == 0
                    &&& step.state == EnableState::SavingOriginal { interface }
                    &&& step.action matches EnableAction::WriteOriginal(t) && t@
                        == crate::text::join(keep, "\n"@)
                }
            },
        },
        (EnableState::SavingOriginal { interface }, EnableEvent::Done(r)) => step.remove@.len()
            == 0 && match r {
            Err(t) => set_fails(step, "write original dns file: "@ + t@),
            Ok(()) => step.state == EnableState::Signalling { interface }
                && (step.action matches EnableAction::WriteRunning(t) && t@ == RUNNING_SIGNAL@),
        },
        (EnableState::Signalling { interface }, EnableEvent::Done(r)) => step.remove@.len() == 0
            && match r {
            Err(t) => set_fails(step, "write shutdown signal file: "@ + t@),
            Ok(()) => step.state == EnableState::PreparingLog { interface }
                && step.action is PrepareLogDir,
        },
        (EnableState::PreparingLog { interface }, EnableEvent::Done(r)) => step.remove@.len() == 0
            && match r {
            Err(t) => set_fails(step, "create runtime dir for log: "@ + t@),
            Ok(()) => step.state is Running && (step.action matches EnableAction::RunScript(t)
                && script_for(plan, interface@, t@)),
        },
        (EnableState::Running, EnableEvent::Script(t)) => match t {
            ToolOutcome::NotRun(x) => step.remove@.len() == 0 && set_fails(
                step,
                "enable dns mode failed: "@ + x@,
            ),
            ToolOutcome::Failed(x) => step.remove@ == seq![
                StateFile::Original,
                StateFile::Signal,
            ] && set_fails(step, "proxy failed to start: "@ + x@),
            ToolOutcome::Finished(_) => step.remove@.len() == 0 && step.state is Finished
                && step.action == EnableAction::Finish(Ok(())),
        },
        _ => true,
    }
}

// ---------------------------------------------------------------------------
// Steps
// ---------------------------------------------------------------------------
/// Accepts the program of the proxy if it is there and executable, from its permission
/// bits.
pub fn validate_proxy_binary(path: &str, stat: &Result<u32, String>) -> (r: Result<
    (),
    PlatformError,
>)
    ensures
        match proxy_problem(path@, *stat) {
            Some(t) => r matches Err(PlatformError::SetDns(m)) && m@ == t,
            None => r is Ok,
        },
{
    match stat {
        Ok(mode) => {
            if *mode & 0o111 == 0 {
                let mut m: String = prefixed("mhost-dns-proxy at ", path);
                m.append(
                    " is not executable; rebuild with `cd src-tauri && cargo build -p mhost-dns --bin mhost-dns-proxy`",
                );
                Err(PlatformError::SetDns(m))
            } else {
                Ok(())
            }
        },
        Err(e) => {
            let mut m: String = prefixed("mhost-dns-proxy binary not found at ", path);
            m.append(" (");
            m.append(e.as_str());
            m.append(
                "). This usually means `pnpm tauri dev` was run without first building the proxy. Fix: `cd src-tauri && cargo build -p mhost-dns --bin mhost-dns-proxy`, or use `bash scripts/dev.sh` which builds it for you. See doc/dev-guide.md for details.",
            );
            Err(PlatformError::SetDns(m))
        },
    }
}

/// A step that removes nothing.
fn go_on(state: EnableState, action: EnableAction) -> (r: EnableStep)
    ensures
        r.remove@.len() == 0,
        r.state == state,
        r.action == action,
{
    EnableStep { state, remove: Vec::new(), action }
}

/// The end with an error of the settings.
fn set_failed(before: &str, why: &str) -> (r: EnableStep)
    ensures
        r.remove@.len() == 0,
        set_fails(r, before@ + why@),
{
    go_on(
        EnableState::Finished,
        EnableAction::Finish(Err(PlatformError::SetDns(prefixed(before, why)))),
    )
}

/// The servers to write down.
fn kept_servers(original: &OriginalDns) -> (r: Vec<String>)
    ensures
        crate::text::texts(r@) == servers_to_keep(*original),
{
    match original {
        OriginalDns::Manual(s) => without_local(s),
        OriginalDns::DhcpEmpty => {
            let v: Vec<String> = Vec::new();
            assert(crate::text::texts(v@) =~= seq![]);
            v
        },
    }
}

/// The script for a plan and an interface.
fn script_text(plan: &EnablePlan, interface: &str) -> (r: String)
    ensures
        script_for(*plan, interface@, r@),
{
    let inputs = EnableScriptInputs {
        proxy_path: plan.proxy_path.clone(),
        dns_port: plan.dns_port,
        pid_file: plan.pid_file.clone(),
        log_path: plan.log_path.clone(),
        interface: interface.to_owned(),
    };
    build_enable_script(&inputs)
}

/// The first step.
pub fn enable_dns_mode() -> (r: EnableStep)
    ensures
        r.state is FindingInterface,
        r.remove@.len() == 0,
        r.action is FindInterface,
{
    go_on(EnableState::FindingInterface, EnableAction::FindInterface)
}

/// The next step. The interface and the program of the proxy are checked before anything
/// is written; then the servers that the user had are written down, and the proxy is
/// started and the settings changed by a script that is run as administrator.
pub fn enable_step(state: EnableState, plan: &EnablePlan, event: EnableEvent) -> (r: EnableStep)
    requires
        enable_answers(state, event),
    ensures
        enable_follows(state, *plan, event, r),
{
    match (state, event) {
        (EnableState::FindingInterface, EnableEvent::Interface(Ok(i))) => {
            match validate_interface_name(i.as_str()) {
                Ok(()) => go_on(
                    EnableState::CheckingProxy { interface: i },
                    EnableAction::StatProxy,
                ),
                Err(x) => go_on(EnableState::Finished, EnableAction::Finish(Err(x))),
            }
        },
        (EnableState::FindingInterface, EnableEvent::Interface(Err(x))) => go_on(
            EnableState::Finished,
            EnableAction::Finish(Err(x)),
        ),
        (EnableState::CheckingProxy { interface }, EnableEvent::Stat(stat)) => {
            match validate_proxy_binary(plan.proxy_path.as_str(), &stat) {
                Ok(()) => go_on(
                    EnableState::Preparing { interface },
                    EnableAction::PrepareDir,
                ),
                Err(x) => go_on(EnableState::Finished, EnableAction::Finish(Err(x))),
            }
        },
        (EnableState::Preparing { interface }, EnableEvent::Done(Ok(()))) => {
            let keep = kept_servers(&plan.original);
            assert(crate::text::texts(keep@).len() == keep@.len());
            if keep.len() == 0 {
                let mut remove: Vec<StateFile> = Vec::new();
                remove.push(StateFile::Original);
                assert(remove@ =~= seq![StateFile::Original]);
                EnableStep {
                    state: EnableState::Signalling { interface },
                    remove,
                    action: EnableAction::WriteRunning(RUNNING_SIGNAL.to_owned()),
                }
            } else {
                go_on(
                    EnableState::SavingOriginal { interface },
                    EnableAction::WriteOriginal(join_texts(&keep, "\n")),
                )
            }
        },
        (EnableState::Preparing { .. }, EnableEvent::Done(Err(t))) => set_failed(
            "create runtime dir: ",
            t.as_str(),
        ),
        (EnableState::SavingOriginal { interface }, EnableEvent::Done(Ok(()))) => go_on(
            EnableState::Signalling { interface },
            EnableAction::WriteRunning(RUNNING_SIGNAL.to_owned()),
        ),
        (EnableState::SavingOriginal { .. }, EnableEvent::Done(Err(t))) => set_failed(
            "write original dns file: ",
            t.as_str(),
        ),
        (EnableState::Signalling { interface }, EnableEvent::Done(Ok(()))) => go_on(
            EnableState::PreparingLog { interface },
            EnableAction::PrepareLogDir,
        ),
        (EnableState::Signalling { .. }, EnableEvent::Done(Err(t))) => set_failed(
            "write shutdown signal file: ",
            t.as_str(),
        ),
        (EnableState::PreparingLog { interface }, EnableEvent::Done(Ok(()))) => go_on(
            EnableState::Running,
            EnableAction::RunScript(script_text(plan, interface.as_str())),
        ),
        (EnableState::PreparingLog { .. }, EnableEvent::Done(Err(t))) => set_failed(
            "create runtime dir for log: ",
            t.as_str(),
        ),
        (EnableState::Running, EnableEvent::Script(ToolOutcome::NotRun(x))) => set_failed(
            "enable dns mode failed: ",
            x.as_str(),
        ),
        (EnableState::Running, EnableEvent::Script(ToolOutcome::Failed(x))) => {
            let mut remove: Vec<StateFile> = Vec::new();
            remove.push(StateFile::Original);
            remove.push(StateFile::Signal);
            assert(remove@ =~= seq![StateFile::Original, StateFile::Signal]);
            EnableStep {
                state: EnableState::Finished,
                remove,
                action: EnableAction::Finish(
                    Err(PlatformError::SetDns(prefixed("proxy failed to start: ", x.as_str()))),
                ),
            }
        },
        (EnableState::Running, EnableEvent::Script(ToolOutcome::Finished(_))) => go_on(
            EnableState::Finished,
            EnableAction::Finish(Ok(())),
        ),
        _ => go_on(
            EnableState::Finished,
            EnableAction::Finish(Err(PlatformError::EmptyInterfaceName)),
        ),
    }
}

// ---------------------------------------------------------------------------
// Laws
// ---------------------------------------------------------------------------
/// Nothing is written, removed or run before the interface and the program of the proxy
/// have been accepted.
pub proof fn checks_come_first(s: EnableState, plan: EnablePlan, e: EnableEvent, step: EnableStep)
    requires
        enable_answers(s, e),
        enable_follows(s, plan, e, step),
        s is FindingInterface || s is CheckingProxy,
    ensures
        step.remove@.len() == 0,
        step.action is StatProxy || step.action is PrepareDir || step.action is Finish,
        step.action is PrepareDir ==> (e matches EnableEvent::Stat(r) && proxy_problem(
            plan.proxy_path@,
            r,
        ) is None),
{
}

/// What is written to the signal file when the mode is entered does not make the proxy
/// stop.
pub proof fn a_new_proxy_is_not_stopped(
    s: EnableState,
    plan: EnablePlan,
    e: EnableEvent,
    step: EnableStep,
    text: String,
)
    requires
        enable_answers(s, e),
        enable_follows(s, plan, e, step),
        step.action == EnableAction::WriteRunning(text),
    ensures
        !crate::dns::proxy::says_shutdown(Some(text@)),
{
    crate::dns::proxy::lemma_signals();
}

/// The servers that are written down to go back to are never this machine itself.
pub proof fn written_servers_are_foreign(original: OriginalDns)
    ensures
        !crate::dns::platform::some_local(servers_to_keep(original)),
{
    match original {
        OriginalDns::Manual(s) => {
            let t = crate::text::texts(s@);
            let r = crate::models::foreign(t);
            crate::models::lemma_foreign(t);
            assert forall|i: int| 0 <= i < r.len() implies !crate::net::is_local(
                #[trigger] r[i],
            ) by {
                assert(r.contains(r[i]));
            }
        },
        OriginalDns::DhcpEmpty => {},
    }
}

} // verus!
