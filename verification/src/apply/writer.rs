//! Writing a plan to the hosts file, one step at a time. Reading, writing and moving
//! files is left to the caller: a step takes what came of the last action and says
//! which action comes next.
use vstd::prelude::*;
use vstd::string::*;

use crate::apply::backup::{backups_to_remove, latest_backup, BackupFile};
use crate::apply::content::build_hosts_content;
use crate::apply::verification::verify;
use crate::error::{ApplyError, MhostError};
use crate::models::ApplyPlan;
use crate::text::same_text;

verus! {

use crate::models::ResolvedRule;

broadcast use vstd::string::group_string_axioms;

/// What stands at the path of the hosts file.
#[derive(Debug, PartialEq, Eq)]
pub enum FileStat {
    Regular,
    Other,
    Failed(String),
}

/// What the caller has to do.
#[derive(Debug, PartialEq, Eq)]
pub enum ApplyAction {
    /// See what stands at the path of the hosts file.
    CheckFile,
    /// Read the hosts file.
    ReadHosts,
    /// Keep this text as a backup.
    CreateBackup(String),
    /// Replace the hosts file by this text.
    WriteHosts(String),
    /// Make the system forget the names that it knows.
    FlushCache,
    /// Read the backup that was made.
    ReadBackup,
    /// Nothing: this is the result.
    Finish(Result<(), MhostError>),
}

/// What came of an action.
#[derive(Debug, PartialEq, Eq)]
pub enum ApplyEvent {
    Checked(Result<(), MhostError>),
    Read(Result<String, MhostError>),
    Written(Result<(), MhostError>),
    Flushed,
}

/// How far the work has come.
#[derive(Debug, PartialEq, Eq)]
pub enum ApplyState {
    Checking,
    Reading,
    BackingUp { current: String },
    Writing { backed_up: bool },
    Flushing { backed_up: bool },
    Verifying { backed_up: bool },
    ReadingBackup { failure: String },
    Restoring { failure: String, backup: String },
    ReadingBack { failure: String, backup: String },
    Finished,
}

/// Whether an event is what the state waits for.
pub open spec fn answers(s: ApplyState, e: ApplyEvent) -> bool {
    match s {
        ApplyState::Checking => e is Checked,
        ApplyState::Reading | ApplyState::Verifying { .. } | ApplyState::ReadingBackup { .. }
        | ApplyState::ReadingBack { .. } => e is Read,
        ApplyState::BackingUp { .. } | ApplyState::Writing { .. } | ApplyState::Restoring {
            ..
        } => e is Written,
        ApplyState::Flushing { .. } => e is Flushed,
        ApplyState::Finished => false,
    }
}

/// A failed check, with its message.
pub open spec fn failed_check(r: Result<(), MhostError>, message: Seq<char>) -> bool {
    r matches Err(MhostError::Apply(ApplyError::VerificationFailed(m))) && m@ == message
}

/// The message of a failed check.
pub open spec fn check_message(reason: Seq<char>) -> Seq<char> {
    "apply error: "@ + ("verification failed: "@ + reason)
}

/// The message when the check failed, and the backup could not be written back either.
pub open spec fn stuck_message(failure: Seq<char>, why: Seq<char>) -> Seq<char> {
    "verify failed ("@ + failure + "), rollback also failed ("@ + why + ")"@
}

/// What was written is not what was asked for: the backup is read, so that it can be
/// restored. Without one the work is over.
pub open spec fn goes_back(
    failure: Seq<char>,
    backed_up: bool,
    next: ApplyState,
    action: ApplyAction,
) -> bool {
    if backed_up {
        &&& next matches ApplyState::ReadingBackup { failure: f } && f@ == failure
        &&& action is ReadBackup
    } else {
        &&& next is Finished
        &&& action matches ApplyAction::Finish(r) && failed_check(r, "verify failed: "@ + failure)
    }
}

/// The new text is about to be written.
pub open spec fn about_to_write(
    current: Seq<char>,
    rules: Seq<ResolvedRule>,
    backed_up: bool,
    next: ApplyState,
    action: ApplyAction,
) -> bool {
    let text = crate::apply::content::new_content(current, rules);
    &&& next == ApplyState::Writing { backed_up }
    &&& action matches ApplyAction::WriteHosts(t) && t@ == text
}

/// The work is over with this result.
pub open spec fn finished(next: ApplyState, action: ApplyAction, r: Result<(), MhostError>) -> bool {
    next is Finished && action == ApplyAction::Finish(r)
}

/// One step: what follows in a state when an action came to an event.
pub open spec fn step_follows(
    s: ApplyState,
    plan: ApplyPlan,
    e: ApplyEvent,
    next: ApplyState,
    action: ApplyAction,
) -> bool {
    match (s, e) {
        (ApplyState::Checking, ApplyEvent::Checked(Ok(()))) => next is Reading && action is ReadHosts,
        (ApplyState::Checking, ApplyEvent::Checked(Err(x))) => finished(next, action, Err(x)),
        (ApplyState::Reading, ApplyEvent::Read(Ok(t))) => if plan.backup_required {
            &&& next matches ApplyState::BackingUp { current } && current@ == t@
            &&& action matches ApplyAction::CreateBackup(b) && b@ == t@
        } else {
            about_to_write(t@, plan.rules@, false, next, action)
        },
        (ApplyState::Reading, ApplyEvent::Read(Err(x))) => finished(next, action, Err(x)),
        (ApplyState::BackingUp { current }, ApplyEvent::Written(Ok(()))) => about_to_write(
            current@,
            plan.rules@,
            true,
            next,
            action,
        ),
        (ApplyState::BackingUp { current }, ApplyEvent::Written(Err(x))) => finished(
            next,
            action,
            Err(x),
        ),
        (ApplyState::Writing { backed_up }, ApplyEvent::Written(Ok(()))) => {
            &&& next == ApplyState::Flushing { backed_up }
            &&& action is FlushCache
        },
        (ApplyState::Writing { backed_up }, ApplyEvent::Written(Err(x))) => finished(
            next,
            action,
            Err(x),
        ),
        (ApplyState::Flushing { backed_up }, ApplyEvent::Flushed) => {
            &&& next == ApplyState::Verifying { backed_up }
            &&& action is ReadHosts
        },
        (ApplyState::Verifying { backed_up }, ApplyEvent::Read(Ok(t))) => {
            match crate::apply::verification::shortcoming(t@, plan.rules@) {
                None => finished(next, action, Ok(())),
                Some(reason) => goes_back(check_message(reason), backed_up, next, action),
            }
        },
        (ApplyState::Verifying { backed_up }, ApplyEvent::Read(Err(x))) => goes_back(
            x.message(),
            backed_up,
            next,
            action,
        ),
        (ApplyState::ReadingBackup { failure }, ApplyEvent::Read(Ok(t))) => {
            &&& next matches ApplyState::Restoring { failure: f, backup } && f@ == failure@
                && backup@ == t@
            &&& action matches ApplyAction::WriteHosts(w) && w@ == t@
        },
        (ApplyState::ReadingBackup { failure }, ApplyEvent::Read(Err(x))) => finished(
            next,
            action,
            Err(x),
        ),
        (ApplyState::Restoring { failure, backup }, ApplyEvent::Written(Ok(()))) => {
            &&& next == ApplyState::ReadingBack { failure, backup }
            &&& action is ReadHosts
        },
        (ApplyState::Restoring { failure, backup }, ApplyEvent::Written(Err(x))) => {
            &&& next is Finished
            &&& action matches ApplyAction::Finish(r) && failed_check(
                r,
                stuck_message(failure@, x.message()),
            )
        },
        (ApplyState::ReadingBack { failure, backup }, ApplyEvent::Read(Ok(t))) => {
            &&& next is Finished
            &&& action matches ApplyAction::Finish(r) && failed_check(
                r,
                if t@ == backup@ {
                    "verify failed: "@ + failure@
                } else {
                    "verify failed and rollback content mismatch"@
                },
            )
        },
        (ApplyState::ReadingBack { failure, backup }, ApplyEvent::Read(Err(x))) => finished(
            next,
            action,
            Err(x),
        ),
        _ => true,
    }
}

/// Whether the hosts file may be written: it must be a regular file.
pub fn check_regular_file(path: &str, found: FileStat) -> (r: Result<(), MhostError>)
    ensures
        match found {
            FileStat::Regular => r is Ok,
            FileStat::Other => r matches Err(MhostError::InvalidInput(m)) && m@ == "'"@ + path@
                + "' is not a regular file (may be a symlink or special file). Refusing to write."@,
            FileStat::Failed(why) => r matches Err(MhostError::Io(m)) && m@ == "Cannot stat '"@
                + path@ + "': "@ + why@,
        },
{
    match found {
        FileStat::Regular => Ok(()),
        FileStat::Other => {
            let mut m: String = "'".to_owned();
            m.append(path);
            m.append(
                "' is not a regular file (may be a symlink or special file). Refusing to write.",
            );
            Err(MhostError::InvalidInput(m))
        },
        FileStat::Failed(why) => {
            let mut m: String = "Cannot stat '".to_owned();
            m.append(path);
            m.append("': ");
            m.append(why.as_str());
            Err(MhostError::Io(m))
        },
    }
}

/// A failed check.
fn check_failed(message: String) -> (r: Result<(), MhostError>)
    ensures
        failed_check(r, message@),
{
    Err(MhostError::Apply(ApplyError::VerificationFailed(message)))
}

/// The result, and nothing more to do.
fn finish(r: Result<(), MhostError>) -> (o: (ApplyState, ApplyAction))
    ensures
        finished(o.0, o.1, r),
{
    (ApplyState::Finished, ApplyAction::Finish(r))
}

/// Goes on to write the new text.
fn write_next(current: &str, plan: &ApplyPlan, backed_up: bool) -> (o: (ApplyState, ApplyAction))
    ensures
        about_to_write(current@, plan.rules@, backed_up, o.0, o.1),
{
    let content = build_hosts_content(current, plan);
    (ApplyState::Writing { backed_up }, ApplyAction::WriteHosts(content))
}

/// Goes back to the backup, where there is one.
fn go_back(failure: String, backed_up: bool) -> (o: (ApplyState, ApplyAction))
    ensures
        goes_back(failure@, backed_up, o.0, o.1),
{
    if backed_up {
        (ApplyState::ReadingBackup { failure }, ApplyAction::ReadBackup)
    } else {
        let mut m: String = "verify failed: ".to_owned();
        m.append(failure.as_str());
        let r = check_failed(m);
        finish(r)
    }
}

/// The end when the backup could not be written back.
fn stuck(failure: &str, why: &MhostError) -> (r: Result<(), MhostError>)
    ensures
        failed_check(r, stuck_message(failure@, why.message())),
{
    let mut m: String = "verify failed (".to_owned();
    m.append(failure);
    m.append("), rollback also failed (");
    m.append(why.to_text().as_str());
    m.append(")");
    check_failed(m)
}

/// The first state, and the first action.
pub fn apply_start() -> (o: (ApplyState, ApplyAction))
    ensures
        o.0 is Checking,
        o.1 is CheckFile,
{
    (ApplyState::Checking, ApplyAction::CheckFile)
}

/// The next state and the next action. The hosts file is checked and read; a backup
/// is made where the plan asks for one; the new text is written, the name cache
/// flushed, and the file read again and checked against the plan. If it cannot be read,
/// or the check fails, and there is a backup, that is written back and read again. Any
/// other action that fails ends the work.
pub fn apply_step(state: ApplyState, plan: &ApplyPlan, event: ApplyEvent) -> (o: (
    ApplyState,
    ApplyAction,
))
    requires
        answers(state, event),
    ensures
        step_follows(state, *plan, event, o.0, o.1),
{
    match (state, event) {
        (ApplyState::Checking, ApplyEvent::Checked(Ok(()))) => (
            ApplyState::Reading,
            ApplyAction::ReadHosts,
        ),
        (ApplyState::Checking, ApplyEvent::Checked(Err(x))) => finish(Err(x)),
        (ApplyState::Reading, ApplyEvent::Read(Ok(t))) => {
            if plan.backup_required {
                let copy = t.clone();
                (ApplyState::BackingUp { current: t }, ApplyAction::CreateBackup(copy))
            } else {
                write_next(t.as_str(), plan, false)
            }
        },
        (ApplyState::Reading, ApplyEvent::Read(Err(x))) => finish(Err(x)),
        (ApplyState::BackingUp { current }, ApplyEvent::Written(Ok(()))) => write_next(
            current.as_str(),
            plan,
            true,
        ),
        (ApplyState::BackingUp { .. }, ApplyEvent::Written(Err(x))) => finish(Err(x)),
        (ApplyState::Writing { backed_up }, ApplyEvent::Written(Ok(()))) => (
            ApplyState::Flushing { backed_up },
            ApplyAction::FlushCache,
        ),
        (ApplyState::Writing { .. }, ApplyEvent::Written(Err(x))) => finish(Err(x)),
        (ApplyState::Flushing { backed_up }, ApplyEvent::Flushed) => (
            ApplyState::Verifying { backed_up },
            ApplyAction::ReadHosts,
        ),
        (ApplyState::Verifying { backed_up }, ApplyEvent::Read(Ok(t))) => {
            match verify(t.as_str(), plan) {
                Ok(()) => finish(Ok(())),
                Err(x) => go_back(x.to_text(), backed_up),
            }
        },
        (ApplyState::Verifying { backed_up }, ApplyEvent::Read(Err(x))) => go_back(
            x.to_text(),
            backed_up,
        ),
        (ApplyState::ReadingBackup { failure }, ApplyEvent::Read(Ok(t))) => {
            let copy = t.clone();
            (ApplyState::Restoring { failure, backup: t }, ApplyAction::WriteHosts(copy))
        },
        (ApplyState::ReadingBackup { .. }, ApplyEvent::Read(Err(x))) => finish(Err(x)),
        (ApplyState::Restoring { failure, backup }, ApplyEvent::Written(Ok(()))) => (
            ApplyState::ReadingBack { failure, backup },
            ApplyAction::ReadHosts,
        ),
        (ApplyState::Restoring { failure, .. }, ApplyEvent::Written(Err(x))) => {
            let r = stuck(failure.as_str(), &x);
            finish(r)
        },
        (ApplyState::ReadingBack { failure, backup }, ApplyEvent::Read(Ok(t))) => {
            if same_text(t.as_str(), backup.as_str()) {
                let mut m: String = "verify failed: ".to_owned();
                m.append(failure.as_str());
                let r = check_failed(m);
                finish(r)
            } else {
                let r = check_failed("verify failed and rollback content mismatch".to_owned());
                finish(r)
            }
        },
        (ApplyState::ReadingBack { .. }, ApplyEvent::Read(Err(x))) => finish(Err(x)),
        (s, _) => (s, ApplyAction::CheckFile),
    }
}

// ---------------------------------------------------------------------------
// Going back
// ---------------------------------------------------------------------------
/// What the caller has to do to go back to the latest backup.
#[derive(Debug, PartialEq, Eq)]
pub enum RollbackAction {
    /// See what stands at the path of the hosts file.
    CheckFile,
    /// List the files of the backup directory.
    ListBackups,
    /// Read the file of this name in the backup directory.
    ReadBackup(String),
    /// Replace the hosts file by this text.
    WriteHosts(String),
    /// Read the hosts file.
    ReadHosts,
    /// Remove the files of these names from the backup directory, as far as that can be
    /// done.
    RemoveBackups(Vec<String>),
    /// Nothing: this is the result.
    Finish(Result<(), MhostError>),
}

/// What came of an action.
#[derive(Debug, PartialEq, Eq)]
pub enum RollbackEvent {
    Checked(Result<(), MhostError>),
    Listed(Result<Vec<BackupFile>, MhostError>),
    Read(Result<String, MhostError>),
    Written(Result<(), MhostError>),
    Removed,
}

/// How far the work has come.
#[derive(Debug, PartialEq, Eq)]
pub enum RollbackState {
    Checking,
    Listing,
    ReadingBackup { surplus: Vec<String> },
    Restoring { backup: String, surplus: Vec<String> },
    ReadingBack { backup: String, surplus: Vec<String> },
    Pruning,
    Finished,
}

/// Whether an event is what the state waits for.
pub open spec fn rollback_answers(s: RollbackState, e: RollbackEvent) -> bool {
    match s {
        RollbackState::Checking => e is Checked,
        RollbackState::Listing => e is Listed,
        RollbackState::ReadingBackup { .. } | RollbackState::ReadingBack { .. } => e is Read,
        RollbackState::Restoring { .. } => e is Written,
        RollbackState::Pruning => e is Removed,
        RollbackState::Finished => false,
    }
}

/// What going back comes to, by the text of the backup and that of the file.
pub open spec fn rolled_back(backup: Seq<char>, restored: Seq<char>, r: Result<(), MhostError>) -> bool {
    if backup == restored {
        r is Ok
    } else {
        r matches Err(MhostError::Apply(ApplyError::BackupFailed(m))) && m@
            == "rollback content mismatch"@
    }
}

/// Going back is over with this result.
pub open spec fn rollback_over(
    next: RollbackState,
    action: RollbackAction,
    r: Result<(), MhostError>,
) -> bool {
    next is Finished && action == RollbackAction::Finish(r)
}

/// One step: what follows in a state when an action came to an event.
pub open spec fn rollback_follows(
    s: RollbackState,
    e: RollbackEvent,
    next: RollbackState,
    action: RollbackAction,
) -> bool {
    match (s, e) {
        (RollbackState::Checking, RollbackEvent::Checked(r)) => match r {
            Ok(_) => next is Listing && action is ListBackups,
            Err(x) => rollback_over(next, action, Err(x)),
        },
        (RollbackState::Listing, RollbackEvent::Listed(r)) => match r {
            Ok(files) => if exists|i: int| crate::apply::backup::is_backup(files@, i) {
                &&& next matches RollbackState::ReadingBackup { surplus }
                    && crate::apply::backup::names_surplus(files@, surplus@)
                &&& action matches RollbackAction::ReadBackup(name) && exists|i: int| #[trigger]
                    crate::apply::backup::is_latest(files@, i) && files@[i].name@ == name@
            } else {
                &&& next is Finished
                &&& action matches RollbackAction::Finish(
                    Err(MhostError::Apply(ApplyError::BackupFailed(m))),
                ) && m@ == "no backup found"@
            },
            Err(x) => rollback_over(next, action, Err(x)),
        },
        (RollbackState::ReadingBackup { surplus }, RollbackEvent::Read(r)) => match r {
            Ok(t) => {
                &&& next matches RollbackState::Restoring { backup, surplus: n } && backup@ == t@
                    && n == surplus
                &&& action matches RollbackAction::WriteHosts(w) && w@ == t@
            },
            Err(x) => rollback_over(next, action, Err(x)),
        },
        (RollbackState::Restoring { backup, surplus }, RollbackEvent::Written(r)) => match r {
            Ok(_) => next == (RollbackState::ReadingBack { backup, surplus })
                && action is ReadHosts,
            Err(x) => rollback_over(next, action, Err(x)),
        },
        (RollbackState::ReadingBack { backup, surplus }, RollbackEvent::Read(r)) => match r {
            Ok(t) => if backup@ == t@ {
                next is Pruning && action == RollbackAction::RemoveBackups(surplus)
            } else {
                &&& next is Finished
                &&& action matches RollbackAction::Finish(o) && rolled_back(backup@, t@, o)
            },
            Err(x) => rollback_over(next, action, Err(x)),
        },
        (RollbackState::Pruning, RollbackEvent::Removed) => rollback_over(next, action, Ok(())),
        _ => true,
    }
}

/// The first state of going back to the latest backup, and the first action.
pub fn rollback_start() -> (o: (RollbackState, RollbackAction))
    ensures
        o.0 is Checking,
        o.1 is CheckFile,
{
    (RollbackState::Checking, RollbackAction::CheckFile)
}

/// The names of the backups that are no longer kept.
fn surplus_names(files: &Vec<BackupFile>) -> (r: Vec<String>)
    ensures
        crate::apply::backup::names_surplus(files@, r@),
{
    let gone = backups_to_remove(files);
    let mut out: Vec<String> = Vec::new();
    let mut i: usize = 0;
    while i < gone.len()
        invariant
            i <= gone@.len(),
            out@.len() == i,
            forall|k: int| 0 <= k < gone@.len() ==> crate::apply::backup::is_backup(
                files@,
                #[trigger] gone@[k] as int,
            ),
            forall|k: int| 0 <= k < i ==> (#[trigger] out@[k])@ == files@[gone@[k] as int].name@,
        decreases gone.len() - i,
    {
        assert(crate::apply::backup::is_backup(files@, gone@[i as int] as int));
        out.push(files[gone[i]].name.clone());
        i = i + 1;
    }
    assert(crate::apply::backup::is_surplus(files@, gone@));
    out
}

/// Going back is over.
fn rollback_end(r: Result<(), MhostError>) -> (o: (RollbackState, RollbackAction))
    ensures
        rollback_over(o.0, o.1, r),
{
    (RollbackState::Finished, RollbackAction::Finish(r))
}

/// The next state and the next action. The hosts file is checked, the latest backup is
/// found and read, written to the hosts file, and that read again. If it reads as the
/// backup does, the oldest backups are removed so that no more than `MAX_BACKUPS` stay.
/// Without a backup, or when an action fails, the work is over.
pub fn rollback_step(state: RollbackState, event: RollbackEvent) -> (o: (
    RollbackState,
    RollbackAction,
))
    requires
        rollback_answers(state, event),
    ensures
        rollback_follows(state, event, o.0, o.1),
{
    match (state, event) {
        (RollbackState::Checking, RollbackEvent::Checked(r)) => match r {
            Ok(_) => (RollbackState::Listing, RollbackAction::ListBackups),
            Err(x) => rollback_end(Err(x)),
        },
        (RollbackState::Listing, RollbackEvent::Listed(r)) => match r {
            Ok(files) => match latest_backup(&files) {
                Ok(i) => {
                    assert(crate::apply::backup::is_latest(files@, i as int));
                    assert(crate::apply::backup::is_backup(files@, i as int));
                    let name = files[i].name.clone();
                    let surplus = surplus_names(&files);
                    (RollbackState::ReadingBackup { surplus }, RollbackAction::ReadBackup(name))
                },
                Err(x) => rollback_end(Err(x)),
            },
            Err(x) => rollback_end(Err(x)),
        },
        (RollbackState::ReadingBackup { surplus }, RollbackEvent::Read(r)) => match r {
            Ok(t) => {
                let copy = t.clone();
                (RollbackState::Restoring { backup: t, surplus }, RollbackAction::WriteHosts(copy))
            },
            Err(x) => rollback_end(Err(x)),
        },
        (RollbackState::Restoring { backup, surplus }, RollbackEvent::Written(r)) => match r {
            Ok(_) => (RollbackState::ReadingBack { backup, surplus }, RollbackAction::ReadHosts),
            Err(x) => rollback_end(Err(x)),
        },
        (RollbackState::ReadingBack { backup, surplus }, RollbackEvent::Read(r)) => match r {
            Ok(t) => match rollback_outcome(backup.as_str(), t.as_str()) {
                Ok(_) => (RollbackState::Pruning, RollbackAction::RemoveBackups(surplus)),
                Err(x) => rollback_end(Err(x)),
            },
            Err(x) => rollback_end(Err(x)),
        },
        (RollbackState::Pruning, RollbackEvent::Removed) => rollback_end(Ok(())),
        (s, _) => (s, RollbackAction::CheckFile),
    }
}

/// What going back to a backup comes to: the file must read as the backup does.
pub fn rollback_outcome(backup: &str, restored: &str) -> (r: Result<(), MhostError>)
    ensures
        rolled_back(backup@, restored@, r),
{
    if same_text(backup, restored) {
        Ok(())
    } else {
        Err(MhostError::Apply(ApplyError::BackupFailed("rollback content mismatch".to_owned())))
    }
}

// ---------------------------------------------------------------------------
// Laws
// ---------------------------------------------------------------------------
/// Success is reported in one place only: after what was read back from the file passed
/// the check against the plan.
pub proof fn success_means_checked(
    s: ApplyState,
    plan: ApplyPlan,
    e: ApplyEvent,
    next: ApplyState,
    action: ApplyAction,
)
    requires
        answers(s, e),
        step_follows(s, plan, e, next, action),
        action == ApplyAction::Finish(Ok(())),
    ensures
        s is Verifying,
        e matches ApplyEvent::Read(Ok(t)) && crate::apply::verification::shortcoming(
            t@,
            plan.rules@,
        ) is None,
{
}

/// The hosts file is only ever replaced by the new text of what was read, or by the
/// text of the backup; and where the plan asks for a backup, the new text is written
/// only after the backup was.
pub proof fn writes_are_new_text_or_backup(
    s: ApplyState,
    plan: ApplyPlan,
    e: ApplyEvent,
    next: ApplyState,
    action: ApplyAction,
    text: String,
)
    requires
        answers(s, e),
        step_follows(s, plan, e, next, action),
        action == ApplyAction::WriteHosts(text),
    ensures
        ({
            ||| !plan.backup_required && s is Reading && (e matches ApplyEvent::Read(Ok(t)) && text@
                == crate::apply::content::new_content(t@, plan.rules@))
            ||| (e matches ApplyEvent::Written(r) && r is Ok && s is BackingUp
                && text@ == crate::apply::content::new_content(s->current@, plan.rules@))
            ||| s is ReadingBackup && (e matches ApplyEvent::Read(Ok(t)) && text@ == t@)
        }),
{
}

/// The files that the work is about: the text of the hosts file, and that of the backup
/// that was made, if any.
pub struct Disk {
    pub hosts: Seq<char>,
    pub backup: Option<Seq<char>>,
}

/// Whether an action came to an event, and left the files as they are then, on a disk that
/// does what it is told or says that it did not. A write that fails changes nothing.
pub open spec fn takes_place(action: ApplyAction, e: ApplyEvent, before: Disk, after: Disk) -> bool {
    match (action, e) {
        (ApplyAction::ReadHosts, ApplyEvent::Read(r)) => after == before && (r matches Ok(t)
            ==> t@ == before.hosts),
        (ApplyAction::ReadBackup, ApplyEvent::Read(r)) => after == before && (r matches Ok(t)
            ==> before.backup == Some(t@)),
        (ApplyAction::CreateBackup(b), ApplyEvent::Written(r)) => after.hosts == before.hosts && (
        r is Ok ==> after.backup == Some(b@)),
        (ApplyAction::WriteHosts(t), ApplyEvent::Written(r)) => after.backup == before.backup
            && after.hosts == if r is Ok {
            t@
        } else {
            before.hosts
        },
        _ => after == before,
    }
}

/// How the files stand in a state, where `old` is what the hosts file held at first, and
/// which action belongs to it.
pub open spec fn stands(
    s: ApplyState,
    action: ApplyAction,
    plan: ApplyPlan,
    old: Seq<char>,
    d: Disk,
) -> bool {
    let new = crate::apply::content::new_content(old, plan.rules@);
    match s {
        ApplyState::Checking => d.hosts == old && action is CheckFile,
        ApplyState::Reading => d.hosts == old && action is ReadHosts,
        ApplyState::BackingUp { current } => {
            &&& d.hosts == old && current@ == old && plan.backup_required
            &&& action matches ApplyAction::CreateBackup(b) && b@ == old
        },
        ApplyState::Writing { backed_up } => {
            &&& d.hosts == old && backed_up == plan.backup_required
            &&& backed_up ==> d.backup == Some(old)
            &&& action matches ApplyAction::WriteHosts(t) && t@ == new
        },
        ApplyState::Flushing { backed_up } => {
            &&& d.hosts == new && backed_up == plan.backup_required
            &&& backed_up ==> d.backup == Some(old)
            &&& action is FlushCache
        },
        ApplyState::Verifying { backed_up } => {
            &&& d.hosts == new && backed_up == plan.backup_required
            &&& backed_up ==> d.backup == Some(old)
            &&& action is ReadHosts
        },
        ApplyState::ReadingBackup { .. } => d.backup == Some(old) && action is ReadBackup,
        ApplyState::Restoring { backup, .. } => {
            &&& d.backup == Some(old) && backup@ == old
            &&& action matches ApplyAction::WriteHosts(t) && t@ == old
        },
        ApplyState::ReadingBack { backup, .. } => d.hosts == old && backup@ == old
            && action is ReadHosts,
        ApplyState::Finished => match action {
            ApplyAction::Finish(r) => came_to(r, plan, old, d),
            _ => false,
        },
    }
}

/// How the files stand at the end. With success the hosts file holds the new text, which
/// passes the check, and where the plan asks for a backup there is one of the former text.
/// Without success it holds the former text where the plan asks for a backup, unless the
/// error says that going back failed as well.
pub open spec fn came_to(
    r: Result<(), MhostError>,
    plan: ApplyPlan,
    old: Seq<char>,
    d: Disk,
) -> bool {
    match r {
        Ok(_) => {
            &&& d.hosts == crate::apply::content::new_content(old, plan.rules@)
            &&& crate::apply::verification::shortcoming(d.hosts, plan.rules@) is None
            &&& plan.backup_required ==> d.backup == Some(old)
        },
        Err(_) => plan.backup_required ==> d.hosts == old || exists|f: Seq<char>, w: Seq<char>|
            failed_check(r, #[trigger] stuck_message(f, w)),
    }
}

/// At first the files stand as they should, and every step keeps that, so that it holds at
/// the end. One step is left out: where the check failed and the backup cannot be read, the
/// work ends with the error of that reading, and leaves the files as they are, the backup
/// with the former text among them.
pub proof fn files_stand_at_every_step(
    s: ApplyState,
    action: ApplyAction,
    plan: ApplyPlan,
    old: Seq<char>,
    before: Disk,
    e: ApplyEvent,
    after: Disk,
    next: ApplyState,
    then_do: ApplyAction,
)
    requires
        stands(s, action, plan, old, before),
        answers(s, e),
        takes_place(action, e, before, after),
        step_follows(s, plan, e, next, then_do),
    ensures
        stands(ApplyState::Checking, ApplyAction::CheckFile, plan, old, Disk { hosts: old, backup: None }),
        match (s, e) {
            (ApplyState::ReadingBackup { .. }, ApplyEvent::Read(Err(x))) => finished(
                next,
                then_do,
                Err(x),
            ) && after == before && after.backup == Some(old),
            _ => stands(next, then_do, plan, old, after),
        },
{
    match (s, e) {
        (ApplyState::Restoring { failure, .. }, ApplyEvent::Written(Err(x))) => {
            let r = then_do->Finish_0;
            assert(failed_check(r, stuck_message(failure@, x.message())));
        },
        _ => {},
    }
}

/// Whether the file `name` was changed after every other backup.
pub open spec fn changed_last(files: Seq<BackupFile>, name: Seq<char>) -> bool {
    &&& exists|k: int| #[trigger] crate::apply::backup::is_backup(files, k) && files[k].name@ == name
    &&& forall|j: int, k: int| #[trigger]
        crate::apply::backup::is_backup(files, j) && #[trigger] crate::apply::backup::is_backup(
            files,
            k,
        ) && files[k].name@ == name && files[j].name@ != name ==> files[j].modified
            < files[k].modified
}

/// Going back after a plan was written gives the former text: the backup that was made
/// then, changed after every other one, is the one that is read; what it holds is what is
/// written; and only if the hosts file then holds the former text does the work go on to
/// its end with success.
pub proof fn going_back_gives_the_former_text(
    old: Seq<char>,
    files: Vec<BackupFile>,
    name: Seq<char>,
    listed: (RollbackState, RollbackAction),
    backup: String,
    read: (RollbackState, RollbackAction),
    written: (RollbackState, RollbackAction),
    hosts: String,
    checked: (RollbackState, RollbackAction),
)
    requires
        changed_last(files@, name),
        rollback_follows(
            RollbackState::Listing,
            RollbackEvent::Listed(Ok(files)),
            listed.0,
            listed.1,
        ),
        listed.1 matches RollbackAction::ReadBackup(n) && (n@ == name ==> backup@ == old),
        rollback_follows(listed.0, RollbackEvent::Read(Ok(backup)), read.0, read.1),
        rollback_follows(read.0, RollbackEvent::Written(Ok(())), written.0, written.1),
        rollback_follows(written.0, RollbackEvent::Read(Ok(hosts)), checked.0, checked.1),
    ensures
        listed.1 matches RollbackAction::ReadBackup(n) && n@ == name,
        read.1 matches RollbackAction::WriteHosts(t) && t@ == old,
        if hosts@ == old {
            checked.0 is Pruning
        } else {
            checked.1 matches RollbackAction::Finish(r) && r is Err
        },
{
    let k = choose|k: int| #[trigger]
        crate::apply::backup::is_backup(files@, k) && files@[k].name@ == name;
    assert(crate::apply::backup::is_backup(files@, k));
    let n = listed.1->ReadBackup_0;
    let i = choose|i: int| #[trigger]
        crate::apply::backup::is_latest(files@, i) && files@[i].name@ == n@;
    assert(crate::apply::backup::is_latest(files@, i));
    assert(crate::apply::backup::is_backup(files@, i));
}

/// Without a backup, going back fails, and the hosts file is never written.
pub proof fn no_backup_no_change(
    files: Vec<BackupFile>,
    next: RollbackState,
    action: RollbackAction,
)
    requires
        forall|i: int| !crate::apply::backup::is_backup(files@, i),
        rollback_follows(RollbackState::Listing, RollbackEvent::Listed(Ok(files)), next, action),
    ensures
        next is Finished,
        action matches RollbackAction::Finish(r) && r is Err,
{
}

/// Going back ends with success in one place only: after the hosts file was seen to hold
/// the text of the backup.
pub proof fn going_back_is_checked(
    s: RollbackState,
    e: RollbackEvent,
    next: RollbackState,
    action: RollbackAction,
)
    requires
        rollback_answers(s, e),
        rollback_follows(s, e, next, action),
    ensures
        action == RollbackAction::Finish(Ok(())) <==> s is Pruning,
        next is Pruning ==> (s matches RollbackState::ReadingBack { backup, .. } && (
        e matches RollbackEvent::Read(Ok(t)) && t@ == backup@)),
{
}

/// The backup that is gone back to is not among those that are removed, where no other was
/// modified at the same time.
pub proof fn the_latest_backup_stays(files: Seq<BackupFile>, gone: Seq<usize>, i: int)
    requires
        files.len() <= usize::MAX,
        crate::apply::backup::is_surplus(files, gone),
        crate::apply::backup::is_latest(files, i),
        forall|j: int| #[trigger]
            crate::apply::backup::is_backup(files, j) && j != i ==> files[j].modified
                != files[i].modified,
    ensures
        !gone.contains(i as usize),
{
    if gone.contains(i as usize) {
        let k = choose|k: int| 0 <= k < gone.len() && gone[k] == i as usize;
        crate::apply::backup::lemma_some_stay(files, gone);
        let j = choose|j: int| #[trigger]
            crate::apply::backup::is_backup(files, j) && !gone.contains(j as usize);
        assert(crate::apply::backup::older(files, gone[k] as int, j));
    }
}

/// The hosts file is written only with the text of the backup that was read.
pub proof fn only_the_backup_is_written(
    s: RollbackState,
    e: RollbackEvent,
    next: RollbackState,
    action: RollbackAction,
    text: String,
)
    requires
        rollback_answers(s, e),
        rollback_follows(s, e, next, action),
        action == RollbackAction::WriteHosts(text),
    ensures
        s is ReadingBackup,
        e matches RollbackEvent::Read(Ok(t)) && t@ == text@,
{
}

} // verus!
