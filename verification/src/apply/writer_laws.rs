//! How a plan is written from the first step to the last, and how it is taken back.
use vstd::prelude::*;
use vstd::string::*;

use crate::apply::backup::BackupFile;
use crate::apply::writer::{
    apply_step, rollback_step, ApplyAction, ApplyEvent, ApplyState, RollbackAction, RollbackEvent,
    RollbackState,
};
use crate::error::{ApplyError, MhostError};
use crate::models::ApplyPlan;

verus! {

broadcast use vstd::string::group_string_axioms;

/// Where every action succeeds, a plan is written in this order, whatever it holds: the file
/// is checked and read; what was read is kept as a backup, if the plan asks for one; the new
/// text of what was read is written; the cache is flushed; the file is read again; and if that
/// passes the check, the work ends with success.
pub proof fn a_plan_is_written_in_order(
    plan: &ApplyPlan,
    t: String,
    w: String,
    o1: (ApplyState, ApplyAction),
    o2: (ApplyState, ApplyAction),
    o3: (ApplyState, ApplyAction),
    o4: (ApplyState, ApplyAction),
    o5: (ApplyState, ApplyAction),
    o6: (ApplyState, ApplyAction),
)
    requires
        call_ensures(
            apply_step,
            (ApplyState::Checking, plan, ApplyEvent::Checked(Ok(()))),
            o1,
        ),
        call_ensures(apply_step, (o1.0, plan, ApplyEvent::Read(Ok(t))), o2),
        plan.backup_required ==> call_ensures(
            apply_step,
            (o2.0, plan, ApplyEvent::Written(Ok(()))),
            o3,
        ),
        !plan.backup_required ==> o3 == o2,
        call_ensures(apply_step, (o3.0, plan, ApplyEvent::Written(Ok(()))), o4),
        call_ensures(apply_step, (o4.0, plan, ApplyEvent::Flushed), o5),
        call_ensures(apply_step, (o5.0, plan, ApplyEvent::Read(Ok(w))), o6),
    ensures
        o1.1 is ReadHosts,
        plan.backup_required ==> (o2.1 matches ApplyAction::CreateBackup(b) && b@ == t@),
        o3.1 matches ApplyAction::WriteHosts(n) && n@ == crate::apply::content::new_content(
            t@,
            plan.rules@,
        ),
        o4.1 is FlushCache,
        o5.1 is ReadHosts,
        crate::apply::verification::shortcoming(w@, plan.rules@) is None ==> o6.1
            == ApplyAction::Finish(Ok(())),
        crate::apply::verification::shortcoming(w@, plan.rules@) is Some && !plan.backup_required
            ==> (o6.1 matches ApplyAction::Finish(r) && r is Err),
        crate::apply::verification::shortcoming(w@, plan.rules@) is Some && plan.backup_required
            ==> o6.1 is ReadBackup && o6.0 is ReadingBackup,
{
    assert(o1.0 is Reading);
    if plan.backup_required {
        assert(o2.0 is BackingUp);
    }
    assert(o3.0 is Writing);
    assert(o4.0 is Flushing);
    assert(o5.0 is Verifying);
}

/// Where the check fails, or the file cannot be read again, the backup is taken back: it is
/// read, what it holds is written to the file, and the file is read once more. The work ends
/// with an error in any case.
pub proof fn a_failed_check_is_taken_back(
    plan: &ApplyPlan,
    failure: String,
    b: String,
    h: String,
    o1: (ApplyState, ApplyAction),
    o2: (ApplyState, ApplyAction),
    o3: (ApplyState, ApplyAction),
)
    requires
        call_ensures(
            apply_step,
            (ApplyState::ReadingBackup { failure }, plan, ApplyEvent::Read(Ok(b))),
            o1,
        ),
        call_ensures(apply_step, (o1.0, plan, ApplyEvent::Written(Ok(()))), o2),
        call_ensures(apply_step, (o2.0, plan, ApplyEvent::Read(Ok(h))), o3),
    ensures
        o1.1 matches ApplyAction::WriteHosts(n) && n@ == b@,
        o2.1 is ReadHosts,
        o3.1 matches ApplyAction::Finish(
            Err(MhostError::Apply(ApplyError::VerificationFailed(m))),
        ) && m@ == if h@ == b@ {
            "verify failed: "@ + failure@
        } else {
            "verify failed and rollback content mismatch"@
        },
{
    assert(o1.0 is Restoring);
    assert(o2.0 is ReadingBack);
}

/// An action that fails before the check ends the work with its error; so does one that fails
/// when the backup or the restored file is read. Nothing more is done.
pub proof fn a_failed_action_ends_the_work(
    s: ApplyState,
    plan: &ApplyPlan,
    x: MhostError,
    o: (ApplyState, ApplyAction),
)
    requires
        (s is Checking && call_ensures(apply_step, (s, plan, ApplyEvent::Checked(Err(x))), o)) || ((
        s is Reading || s is ReadingBackup || s is ReadingBack) && call_ensures(
            apply_step,
            (s, plan, ApplyEvent::Read(Err(x))),
            o,
        )) || ((s is BackingUp || s is Writing) && call_ensures(
            apply_step,
            (s, plan, ApplyEvent::Written(Err(x))),
            o,
        )),
    ensures
        o.0 is Finished,
        o.1 == ApplyAction::Finish(Err(x)),
{
}

/// Going back runs in this order, whatever the backups hold: the file is checked; the backups
/// are listed; one that was modified last is read; what it holds is written to the file; the
/// file is read again; and if it reads the same, the backups that are too many are removed
/// and the work ends with success.
pub proof fn going_back_runs_in_order(
    files: Vec<BackupFile>,
    b: String,
    o1: (RollbackState, RollbackAction),
    o2: (RollbackState, RollbackAction),
    o3: (RollbackState, RollbackAction),
    o4: (RollbackState, RollbackAction),
    o5: (RollbackState, RollbackAction),
    o6: (RollbackState, RollbackAction),
    h: String,
    i: int,
)
    requires
        call_ensures(
            rollback_step,
            (RollbackState::Checking, RollbackEvent::Checked(Ok(()))),
            o1,
        ),
        call_ensures(rollback_step, (o1.0, RollbackEvent::Listed(Ok(files))), o2),
        0 <= i < files@.len(),
        crate::apply::backup::is_backup_name(files@[i].name@),
        call_ensures(rollback_step, (o2.0, RollbackEvent::Read(Ok(b))), o3),
        call_ensures(rollback_step, (o3.0, RollbackEvent::Written(Ok(()))), o4),
        call_ensures(rollback_step, (o4.0, RollbackEvent::Read(Ok(h))), o5),
        h@ == b@,
        call_ensures(rollback_step, (o5.0, RollbackEvent::Removed), o6),
    ensures
        o1.1 is ListBackups,
        o2.1 matches RollbackAction::ReadBackup(name) && exists|k: int|
            0 <= k < files@.len() && (#[trigger] files@[k]).name@ == name@
                && crate::apply::backup::is_backup_name(files@[k].name@) && files@[i].modified
                <= files@[k].modified,
        o3.1 matches RollbackAction::WriteHosts(t) && t@ == b@,
        o4.1 is ReadHosts,
        o5.1 is RemoveBackups,
        o6.1 == RollbackAction::Finish(Ok(())),
{
    assert(o1.0 is Listing);
    assert(crate::apply::backup::is_backup(files@, i));
    match RollbackEvent::Listed(Ok(files)) {
        RollbackEvent::Listed(Ok(f)) => {
            assert(f == files);
            assert(exists|k: int| crate::apply::backup::is_backup(f@, k));
        },
        _ => {},
    }
    assert(o2.0 is ReadingBackup);
    let name = o2.1->ReadBackup_0;
    let k = choose|k: int| #[trigger]
        crate::apply::backup::is_latest(files@, k) && files@[k].name@ == name@;
    assert(crate::apply::backup::is_latest(files@, k));
    assert(crate::apply::backup::is_backup(files@, k));
    assert(files@[k].name@ == name@);
    assert(o3.0 is Restoring);
    assert(o4.0 is ReadingBack);
    assert(o5.0 is Pruning);
}

/// A check that fails, or cannot be made, leads to the backup if there is one, and otherwise
/// ends the work; either way with what the check said.
pub proof fn a_failed_check_leads_to_the_backup(
    plan: &ApplyPlan,
    backed_up: bool,
    t: String,
    text: &str,
    why: MhostError,
    o: (ApplyState, ApplyAction),
    x: MhostError,
    u: (ApplyState, ApplyAction),
)
    requires
        text@ == t@,
        call_ensures(crate::apply::verification::verify, (text, plan), Err(why)),
        call_ensures(
            apply_step,
            (ApplyState::Verifying { backed_up }, plan, ApplyEvent::Read(Ok(t))),
            o,
        ),
        call_ensures(
            apply_step,
            (ApplyState::Verifying { backed_up }, plan, ApplyEvent::Read(Err(x))),
            u,
        ),
    ensures
        backed_up ==> o.1 is ReadBackup && (o.0 matches ApplyState::ReadingBackup { failure }
            && failure@ == why.message()),
        !backed_up ==> o.0 is Finished && (o.1 matches ApplyAction::Finish(
            Err(MhostError::Apply(ApplyError::VerificationFailed(m))),
        ) && m@ == "verify failed: "@ + why.message()),
        backed_up ==> u.1 is ReadBackup && (u.0 matches ApplyState::ReadingBackup { failure }
            && failure@ == x.message()),
        !backed_up ==> u.0 is Finished && (u.1 matches ApplyAction::Finish(
            Err(MhostError::Apply(ApplyError::VerificationFailed(m))),
        ) && m@ == "verify failed: "@ + x.message()),
{
}

/// A backup that cannot be written back ends the work with both failures.
pub proof fn both_failures_are_told(
    plan: &ApplyPlan,
    failure: String,
    backup: String,
    x: MhostError,
    o: (ApplyState, ApplyAction),
)
    requires
        call_ensures(
            apply_step,
            (ApplyState::Restoring { failure, backup }, plan, ApplyEvent::Written(Err(x))),
            o,
        ),
    ensures
        o.0 is Finished,
        o.1 matches ApplyAction::Finish(Err(MhostError::Apply(ApplyError::VerificationFailed(m))))
            && m@ == "verify failed ("@ + failure@ + "), rollback also failed ("@ + x.message()
            + ")"@,
{
}

/// Going back ends with the first action that fails.
pub proof fn a_failed_action_ends_going_back(
    s: RollbackState,
    x: MhostError,
    o: (RollbackState, RollbackAction),
)
    requires
        (s is Checking && call_ensures(rollback_step, (s, RollbackEvent::Checked(Err(x))), o)) || (
        s is Listing && call_ensures(rollback_step, (s, RollbackEvent::Listed(Err(x))), o)) || ((
        s is ReadingBackup || s is ReadingBack) && call_ensures(
            rollback_step,
            (s, RollbackEvent::Read(Err(x))),
            o,
        )) || (s is Restoring && call_ensures(
            rollback_step,
            (s, RollbackEvent::Written(Err(x))),
            o,
        )),
    ensures
        o.0 is Finished,
        o.1 == RollbackAction::Finish(Err(x)),
{
}

/// Where the file does not read as the backup does, going back has failed, and no backup is
/// removed. Where it does, those that are removed are the ones kept too many, and no others.
pub proof fn going_back_is_checked(
    backup: String,
    surplus: Vec<String>,
    t: String,
    o: (RollbackState, RollbackAction),
)
    requires
        call_ensures(
            rollback_step,
            (RollbackState::ReadingBack { backup, surplus }, RollbackEvent::Read(Ok(t))),
            o,
        ),
    ensures
        t@ == backup@ ==> o.1 == RollbackAction::RemoveBackups(surplus),
        t@ != backup@ ==> o.0 is Finished && (o.1 matches RollbackAction::Finish(
            Err(MhostError::Apply(ApplyError::BackupFailed(m))),
        ) && m@ == "rollback content mismatch"@),
{
}

/// Without a backup among the files there is nothing to go back to.
pub proof fn without_a_backup_there_is_no_way_back(
    files: Vec<BackupFile>,
    o: (RollbackState, RollbackAction),
)
    requires
        call_ensures(
            rollback_step,
            (RollbackState::Listing, RollbackEvent::Listed(Ok(files))),
            o,
        ),
        forall|i: int|
            0 <= i < files@.len() ==> !crate::apply::backup::is_backup_name(
                (#[trigger] files@[i]).name@,
            ),
    ensures
        o.0 is Finished,
        o.1 matches RollbackAction::Finish(Err(MhostError::Apply(ApplyError::BackupFailed(m))))
            && m@ == "no backup found"@,
{
    assert(!(exists|i: int| crate::apply::backup::is_backup(files@, i)));
}

/// The names to be removed are those of the backups that are not kept: as many as there are
/// over ten, each the name of a backup.
pub proof fn surplus_backups_go(
    files: Vec<BackupFile>,
    o: (RollbackState, RollbackAction),
    i: int,
)
    requires
        call_ensures(
            rollback_step,
            (RollbackState::Listing, RollbackEvent::Listed(Ok(files))),
            o,
        ),
        0 <= i < files@.len(),
        crate::apply::backup::is_backup_name(files@[i].name@),
    ensures
        o.0 matches RollbackState::ReadingBackup { surplus } && surplus@.len() == (
        if crate::apply::backup::backup_count(files@) > 10 {
            crate::apply::backup::backup_count(files@) - 10
        } else {
            0
        }) && forall|k: int|
            0 <= k < surplus@.len() ==> crate::apply::backup::is_backup_name(
                (#[trigger] surplus@[k])@,
            ),
{
    assert(crate::apply::backup::is_backup(files@, i));
    match RollbackEvent::Listed(Ok(files)) {
        RollbackEvent::Listed(Ok(f)) => {
            assert(f == files);
            assert(exists|k: int| crate::apply::backup::is_backup(f@, k));
        },
        _ => {},
    }
    assert(o.0 is ReadingBackup);
    let surplus = o.0->ReadingBackup_surplus;
    assert(crate::apply::backup::names_surplus(files@, surplus@));
    let gone = choose|gone: Seq<usize>| #[trigger]
        crate::apply::backup::is_surplus(files@, gone) && surplus@.len() == gone.len() && forall|
            k: int,
        |
            0 <= k < gone.len() ==> (#[trigger] surplus@[k])@ == files@[gone[k] as int].name@;
    assert forall|k: int| 0 <= k < surplus@.len() implies crate::apply::backup::is_backup_name(
        (#[trigger] surplus@[k])@,
    ) by {
        assert(crate::apply::backup::is_backup(files@, gone[k] as int));
        assert(surplus@[k]@ == files@[gone[k] as int].name@);
    }
}

} // verus!
