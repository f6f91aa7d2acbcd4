//! What the calls that plan, write and check come to.
use vstd::prelude::*;
use vstd::string::*;

use crate::apply::backup::{
    backup_file_name, latest_backup, names_a_backup, new_backup_name, prune_outcome, BackupFile,
};
use crate::apply::conflict::total_conflicted_rules;
use crate::apply::content::build_hosts_content;
use crate::apply::diff::host_line_text;
use crate::apply::merge::copy_rule;
use crate::apply::plan::format_as_hosts;
use crate::apply::platform::{
    escape_applescript_path, escape_text, move_outcome, move_script, validate_path_characters,
};
use crate::apply::verification::verify;
use crate::apply::writer::{
    apply_start, check_regular_file, rollback_outcome, rollback_start, ApplyAction, ApplyState,
    FileStat, RollbackAction, RollbackState,
};
use crate::error::{ApplyError, MhostError};
use crate::models::{ApplyPlan, ResolvedRule, RuleConflict};

verus! {

broadcast use vstd::string::group_string_axioms;

// ---------------------------------------------------------------------------
// Content
// ---------------------------------------------------------------------------
/// The block of a plan is a line for each of its rules, an address, a space and a domain,
/// between the two marks.
pub proof fn a_plan_is_written_line_by_line(
    rules: &[ResolvedRule],
    block: String,
    more: &[ResolvedRule],
    longer: String,
    r: ResolvedRule,
    line: String,
    domain: &str,
    inner: Seq<char>,
)
    requires
        call_ensures(format_as_hosts, (rules,), block),
        more@ == rules@.push(r),
        call_ensures(format_as_hosts, (more,), longer),
        domain@ == r.domain@,
        call_ensures(host_line_text, (&r.ip, domain), line),
        rules@.len() > 0 ==> block@ == "# ---- mHost start ----"@ + seq!['\n'] + inner
            + "# ---- mHost end ----"@ + seq!['\n'],
        rules@.len() == 0 ==> inner.len() == 0,
    ensures
        rules@.len() == 0 ==> block@.len() == 0,
        line@ == crate::net::ip_text(r.ip) + seq![' '] + r.domain@,
        longer@ == "# ---- mHost start ----"@ + seq!['\n'] + inner + crate::net::ip_text(r.ip) + seq![
            ' ',
        ] + r.domain@ + seq!['\n'] + "# ---- mHost end ----"@ + seq!['\n'],
{
    let start = "# ---- mHost start ----"@;
    let end = "# ---- mHost end ----"@;
    crate::apply::plan_laws::the_block_has_a_line_for_each_rule(rules@, r);
    crate::apply::plan_laws::the_block_has_a_line_for_each_rule(more@, r);
    let body = crate::hosts::formatter::rules_text(crate::apply::plan::hosts_rules(rules@));
    if rules@.len() == 0 {
        assert(rules@ =~= Seq::empty());
        assert(inner =~= body);
    } else {
        let n = (start.len() + 1) as int;
        assert(block@.subrange(n, n + body.len()) =~= body);
        assert(block@.len() == start.len() + 1 + body.len() + end.len() + 1);
        assert(block@ == start + seq!['\n'] + inner + end + seq!['\n']);
        assert((start + seq!['\n'] + inner + end + seq!['\n']).len() == start.len() + 1
            + inner.len() + end.len() + 1);
        assert(block@.subrange(n, n + inner.len()) =~= inner);
    }
    let new = body + crate::net::ip_text(r.ip) + seq![' '] + r.domain@ + seq!['\n'];
    assert(start + seq!['\n'] + new + end + seq!['\n'] =~= start + seq!['\n'] + inner
        + crate::net::ip_text(r.ip) + seq![' '] + r.domain@ + seq!['\n'] + end + seq!['\n']);
    reveal_strlit(" ");
    assert(line@ =~= crate::net::ip_text(r.ip) + seq![' '] + r.domain@);
}

/// A plan is written into a text in place of the block that is there, and everything around
/// the block stays, character by character; where there is no block, its own is put at the
/// end, on a line of its own.
pub proof fn a_plan_replaces_the_block_only(
    current: &str,
    plan: &ApplyPlan,
    r: String,
    rules: &[ResolvedRule],
    block: String,
    p: Seq<char>,
    there: Seq<char>,
    q: Seq<char>,
)
    requires
        call_ensures(build_hosts_content, (current, plan), r),
        rules@ == plan.rules@,
        call_ensures(format_as_hosts, (rules,), block),
    ensures
        (forall|k: int|
            0 <= k < crate::text::lines(current@).len() ==> crate::text::trim(
                #[trigger] crate::text::lines(current@)[k],
            ) != "# ---- mHost start ----"@) && (current@.len() == 0 || current@.last() == '\n')
            ==> r@ == current@ + block@,
        (forall|k: int|
            0 <= k < crate::text::lines(current@).len() ==> crate::text::trim(
                #[trigger] crate::text::lines(current@)[k],
            ) != "# ---- mHost start ----"@) && current@.len() > 0 && current@.last() != '\n' ==> r@
            == current@ + seq!['\n'] + block@,
        ({
            &&& current@ == p + there + q
            &&& p.len() == 0 || p.last() == '\n'
            &&& there.len() > 0 && there.last() == '\n'
            &&& crate::text::lines(there).len() >= 2
            &&& crate::text::trim(crate::text::lines(there)[0]) == "# ---- mHost start ----"@
            &&& crate::text::trim(crate::text::lines(there).last()) == "# ---- mHost end ----"@
            &&& forall|k: int|
                0 <= k < crate::text::lines(p).len() ==> crate::text::trim(
                    #[trigger] crate::text::lines(p)[k],
                ) != "# ---- mHost start ----"@ && crate::text::trim(crate::text::lines(p)[k])
                    != "# ---- mHost end ----"@
            &&& forall|k: int|
                0 <= k < crate::text::lines(q).len() ==> crate::text::trim(
                    #[trigger] crate::text::lines(q)[k],
                ) != "# ---- mHost start ----"@ && crate::text::trim(crate::text::lines(q)[k])
                    != "# ---- mHost end ----"@
            &&& forall|k: int|
                1 <= k < crate::text::lines(there).len() - 1 ==> crate::text::trim(
                    #[trigger] crate::text::lines(there)[k],
                ) != "# ---- mHost start ----"@ && crate::text::trim(crate::text::lines(there)[k])
                    != "# ---- mHost end ----"@
        }) ==> r@ == p + block@ + q,
{
    if forall|k: int|
        0 <= k < crate::text::lines(current@).len() ==> crate::text::trim(
            #[trigger] crate::text::lines(current@)[k],
        ) != "# ---- mHost start ----"@ {
        crate::hosts::block_laws::marks_in_disorder_are_no_block(crate::text::lines(current@));
        crate::apply::plan_laws::a_first_block_is_put_at_the_end(current@, plan.rules@);
        assert(current@ + Seq::<char>::empty() =~= current@);
    }
    if {
        &&& current@ == p + there + q
        &&& p.len() == 0 || p.last() == '\n'
        &&& there.len() > 0 && there.last() == '\n'
        &&& crate::text::lines(there).len() >= 2
        &&& crate::text::trim(crate::text::lines(there)[0]) == "# ---- mHost start ----"@
        &&& crate::text::trim(crate::text::lines(there).last()) == "# ---- mHost end ----"@
        &&& forall|k: int|
            0 <= k < crate::text::lines(p).len() ==> crate::text::trim(
                #[trigger] crate::text::lines(p)[k],
            ) != "# ---- mHost start ----"@ && crate::text::trim(crate::text::lines(p)[k])
                != "# ---- mHost end ----"@
        &&& forall|k: int|
            0 <= k < crate::text::lines(q).len() ==> crate::text::trim(
                #[trigger] crate::text::lines(q)[k],
            ) != "# ---- mHost start ----"@ && crate::text::trim(crate::text::lines(q)[k])
                != "# ---- mHost end ----"@
        &&& forall|k: int|
            1 <= k < crate::text::lines(there).len() - 1 ==> crate::text::trim(
                #[trigger] crate::text::lines(there)[k],
            ) != "# ---- mHost start ----"@ && crate::text::trim(crate::text::lines(there)[k])
                != "# ---- mHost end ----"@
    } {
        crate::apply::plan_laws::everything_outside_the_block_is_kept(p, there, q, plan.rules@);
    }
}

/// What was written passes the check, and writing the same plan again changes nothing.
pub proof fn what_was_written_is_checked(
    current: &str,
    plan: &ApplyPlan,
    written: String,
    text: &str,
    checked: Result<(), MhostError>,
    again: String,
)
    requires
        call_ensures(build_hosts_content, (current, plan), written),
        text@ == written@,
        call_ensures(verify, (text, plan), checked),
        call_ensures(build_hosts_content, (text, plan), again),
        crate::apply::laws::writable(plan.rules@),
        plan.rules@.len() > 0,
        crate::apply::laws::well_marked(current@),
    ensures
        checked is Ok,
        again@ == written@,
{
    crate::apply::laws::written_content_passes_the_check(current@, plan.rules@);
    crate::apply::laws::writing_twice_is_writing_once(current@, plan.rules@);
}

/// A check that fails says why: no block where there are rules, a block where there are none,
/// or the first rule, as a line, that the block does not hold.
pub proof fn a_failed_check_says_why(
    written: &str,
    plan: &ApplyPlan,
    r: Result<(), MhostError>,
    k: int,
)
    requires
        call_ensures(verify, (written, plan), r),
    ensures
        plan.rules@.len() > 0 && crate::hosts::block::managed_content(written@) is None ==> (
        r matches Err(MhostError::Apply(ApplyError::VerificationFailed(m))) && m@
            == "managed block missing"@),
        plan.rules@.len() == 0 && crate::hosts::block::managed_content(written@) is Some ==> (
        r matches Err(MhostError::Apply(ApplyError::VerificationFailed(m))) && m@
            == "expected no managed block but found one"@),
        (crate::hosts::block::managed_content(written@) matches Some(c) && 0 <= k
            < plan.rules@.len() && !crate::text::lines(c).contains(
            crate::net::ip_text(plan.rules@[k].ip) + seq![' '] + plan.rules@[k].domain@,
        ) && forall|j: int|
            0 <= j < k ==> crate::text::lines(c).contains(
                crate::net::ip_text((#[trigger] plan.rules@[j]).ip) + seq![' ']
                    + plan.rules@[j].domain@,
            )) ==> (r matches Err(MhostError::Apply(ApplyError::VerificationFailed(m))) && m@
            == "expected rule '"@ + (crate::net::ip_text(plan.rules@[k].ip) + seq![' ']
            + plan.rules@[k].domain@) + "' not found"@),
{
    match crate::hosts::block::managed_content(written@) {
        Some(c) => {
            if 0 <= k < plan.rules@.len() && !crate::text::lines(c).contains(
                crate::net::ip_text(plan.rules@[k].ip) + seq![' '] + plan.rules@[k].domain@,
            ) && forall|j: int|
                0 <= j < k ==> crate::text::lines(c).contains(
                    crate::net::ip_text((#[trigger] plan.rules@[j]).ip) + seq![' ']
                        + plan.rules@[j].domain@,
                ) {
                lemma_first_missing(plan.rules@, crate::text::lines(c), k);
            }
        },
        None => {},
    }
}

/// The first rule that is no line.
proof fn lemma_first_missing(rules: Seq<ResolvedRule>, lines: Seq<Seq<char>>, k: int)
    requires
        0 <= k < rules.len(),
        !lines.contains(crate::net::ip_text(rules[k].ip) + seq![' '] + rules[k].domain@),
        forall|j: int|
            0 <= j < k ==> lines.contains(
                crate::net::ip_text((#[trigger] rules[j]).ip) + seq![' '] + rules[j].domain@,
            ),
    ensures
        crate::apply::verification::first_missing(rules, lines) == Some(
            crate::net::ip_text(rules[k].ip) + seq![' '] + rules[k].domain@,
        ),
    decreases k,
{
    reveal_strlit(" ");
    assert(crate::hosts::formatter::host_line(rules[0].ip, rules[0].domain@)
        =~= crate::net::ip_text(rules[0].ip) + seq![' '] + rules[0].domain@);
    if k > 0 {
        let rest = rules.skip(1);
        assert(lines.contains(
            crate::net::ip_text(rules[0].ip) + seq![' '] + rules[0].domain@,
        ));
        assert(rest[k - 1] == rules[k]);
        assert forall|j: int| 0 <= j < k - 1 implies lines.contains(
            crate::net::ip_text((#[trigger] rest[j]).ip) + seq![' '] + rest[j].domain@,
        ) by {
            assert(rest[j] == rules[j + 1]);
        }
        lemma_first_missing(rest, lines, k - 1);
    }
}

/// A copy of a rule says what the rule says, and every conflict counts with its rules.
pub proof fn rules_are_copied_and_counted(
    r: &ResolvedRule,
    c: ResolvedRule,
    conflicts: &[RuleConflict],
    n: usize,
    more: &[RuleConflict],
    m: usize,
    x: RuleConflict,
)
    requires
        call_ensures(copy_rule, (r,), c),
        call_ensures(total_conflicted_rules, (conflicts,), n),
        more@ == conflicts@.push(x),
        call_ensures(total_conflicted_rules, (more,), m),
    ensures
        c.ip == r.ip,
        c.domain@ == r.domain@,
        c.source_profile_id == r.source_profile_id,
        c.source_profile_name@ == r.source_profile_name@,
        conflicts@.len() == 0 ==> n == 0,
        m == n + x.rules@.len(),
{
    crate::apply::plan_laws::every_conflict_counts(conflicts@, x);
    if conflicts@.len() == 0 {
        assert(conflicts@ =~= Seq::empty());
    }
    assert(c@ == r@);
}

// ---------------------------------------------------------------------------
// Backups
// ---------------------------------------------------------------------------
/// A backup gets the name of a backup, with the point in time between `hosts-` and `.bak`;
/// and a name is one of a backup if and only if it starts and ends like that.
pub proof fn backups_are_named(
    secs: i64,
    r: String,
    name: &str,
    is_one: bool,
    new: String,
    of_new: &str,
    new_is_one: bool,
)
    requires
        0 <= secs <= 8_210_266_876_799,
        call_ensures(backup_file_name, (secs,), r),
        call_ensures(names_a_backup, (name,), is_one),
        call_ensures(new_backup_name, (), new),
        of_new@ == new@,
        call_ensures(names_a_backup, (of_new,), new_is_one),
    ensures
        r@ == "hosts-"@ + crate::clock::compact_stamp(secs) + ".bak"@,
        is_one <==> exists|mid: Seq<char>| name@ == "hosts-"@ + mid + ".bak"@,
        name@ == r@ ==> is_one,
        new_is_one,
{
    crate::apply::plan_laws::backups_by_their_name(name@);
    crate::apply::backup::backup_names_are_recognised(secs);
    let s = choose|s: i64|
        0 <= s <= 8_210_266_876_799 && new@ == #[trigger] crate::apply::backup::backup_name(s);
    crate::apply::backup::backup_names_are_recognised(s);
}

/// The backup that is found is one, and none was modified after it.
pub proof fn the_latest_backup_is_found(files: &Vec<BackupFile>, i: usize, j: int)
    requires
        call_ensures(latest_backup, (files,), Ok(i)),
    ensures
        i < files@.len(),
        crate::apply::backup::is_backup_name(files@[i as int].name@),
        0 <= j < files@.len() && crate::apply::backup::is_backup_name(files@[j].name@)
            ==> files@[j].modified <= files@[i as int].modified,
{
    crate::apply::plan_laws::the_latest_backup_was_modified_last(files@, i as int);
}

/// Only where no file is a backup, none is found.
pub proof fn no_backup_is_found_where_there_is_none(
    files: &Vec<BackupFile>,
    e: MhostError,
    j: int,
)
    requires
        call_ensures(latest_backup, (files,), Err(e)),
        0 <= j < files@.len(),
    ensures
        !crate::apply::backup::is_backup_name(files@[j].name@),
        e matches MhostError::Apply(ApplyError::BackupFailed(m)) && m@ == "no backup found"@,
{
    assert(crate::apply::backup::no_backups(files@));
    assert(!crate::apply::backup::is_backup(files@, j));
}

/// Old backups that cannot be removed are a failure if there were any to remove and none of
/// them could be.
pub proof fn pruning_fails_as_a_whole(to_remove: usize, failed: usize, r: Result<(), MhostError>)
    requires
        call_ensures(prune_outcome, (to_remove, failed), r),
    ensures
        r is Err <==> failed > 0 && failed == to_remove,
        r matches Err(e) ==> (e matches MhostError::Apply(ApplyError::BackupFailed(m)) && m@
            == "failed to prune old backups: "@ + crate::text::decimal(failed as nat)
            + " deletions failed"@),
{
}

// ---------------------------------------------------------------------------
// Paths
// ---------------------------------------------------------------------------
/// A path goes into a command if all its characters may: then every backslash and every
/// quotation mark in it gets a backslash in front. The first other one is named.
pub proof fn paths_are_checked_and_escaped(
    path: &str,
    checked: Result<(), MhostError>,
    escaped: Result<String, MhostError>,
    text: String,
    i: int,
)
    requires
        call_ensures(validate_path_characters, (path,), checked),
        call_ensures(escape_applescript_path, (path,), escaped),
        call_ensures(escape_text, (path,), text),
        0 <= i <= path@.len(),
        forall|k: int|
            0 <= k < i ==> ('a' <= (#[trigger] path@[k]) <= 'z') || ('A' <= path@[k] <= 'Z') || ('0'
                <= path@[k] <= '9') || path@[k] == '/' || path@[k] == '.' || path@[k] == '_'
                || path@[k] == '-' || path@[k] == '\\' || path@[k] == '"',
        i < path@.len() ==> !('a' <= path@[i] <= 'z') && !('A' <= path@[i] <= 'Z') && !('0'
            <= path@[i] <= '9') && path@[i] != '/' && path@[i] != '.' && path@[i] != '_' && path@[i]
            != '-' && path@[i] != '\\' && path@[i] != '"',
    ensures
        i == path@.len() ==> checked is Ok && (escaped matches Ok(t) && t@ == text@),
        i < path@.len() ==> (checked matches Err(MhostError::InvalidInput(m)) && m@
            == crate::apply::platform::illegal_message(path@[i])) && (escaped matches Err(
            MhostError::InvalidInput(m),
        ) && m@ == crate::apply::platform::illegal_message(path@[i])),
        (forall|k: int| 0 <= k < path@.len() ==> (#[trigger] path@[k]) != '\\' && path@[k] != '"')
            ==> text@ == path@,
{
    crate::dns::system_laws::the_first_bad_character_is_named(path@, i);
    if forall|k: int| 0 <= k < path@.len() ==> (#[trigger] path@[k]) != '\\' && path@[k] != '"' {
        lemma_nothing_to_escape(path@);
    }
}

/// Without a backslash and a quotation mark there is nothing to escape.
proof fn lemma_nothing_to_escape(s: Seq<char>)
    requires
        forall|k: int| 0 <= k < s.len() ==> (#[trigger] s[k]) != '\\' && s[k] != '"',
    ensures
        crate::apply::platform::escaped(s) == s,
    decreases s.len(),
{
    if s.len() == 0 {
        crate::dns::system_laws::escaping_goes_by_characters(s, 'a');
        assert(s =~= Seq::empty());
    } else {
        let init = s.drop_last();
        assert forall|k: int| 0 <= k < init.len() implies (#[trigger] init[k]) != '\\' && init[k]
            != '"' by {
            assert(init[k] == s[k]);
        }
        lemma_nothing_to_escape(init);
        assert(s[s.len() - 1] != '\\');
        crate::dns::system_laws::escaping_goes_by_characters(init, s.last());
        assert(init.push(s.last()) =~= s);
    }
}

/// The command that moves a file names both paths, escaped, in this order; a path with a
/// character that may not go into it is refused. A move that fails says what the tool said.
pub proof fn files_are_moved_by_a_command(
    from: &str,
    to: &str,
    from_checked: Result<(), MhostError>,
    to_checked: Result<(), MhostError>,
    from_text: String,
    to_text: String,
    r: Result<String, MhostError>,
    success: bool,
    stderr: &str,
    outcome: Result<(), MhostError>,
)
    requires
        call_ensures(validate_path_characters, (from,), from_checked),
        call_ensures(validate_path_characters, (to,), to_checked),
        call_ensures(escape_text, (from,), from_text),
        call_ensures(escape_text, (to,), to_text),
        call_ensures(move_script, (from, to), r),
        call_ensures(move_outcome, (success, stderr), outcome),
    ensures
        r is Ok <==> from_checked is Ok && to_checked is Ok,
        r matches Ok(t) ==> t@ == "do shell script \"mv "@ + from_text@ + " "@ + to_text@
            + "\" with administrator privileges"@,
        outcome is Ok <==> success,
        outcome matches Err(e) ==> (e matches MhostError::Apply(ApplyError::PermissionDenied(m))
            && m@ == stderr@),
{
    crate::dns::system_laws::the_command_moves_the_file(from@, to@);
}

// ---------------------------------------------------------------------------
// Writing
// ---------------------------------------------------------------------------
/// Only a regular file is written to.
pub proof fn only_regular_files_are_written(path: &str, found: FileStat, r: Result<(), MhostError>)
    requires
        call_ensures(check_regular_file, (path, found), r),
    ensures
        r is Ok <==> found is Regular,
        found is Other ==> (r matches Err(MhostError::InvalidInput(m)) && m@ == "'"@ + path@
            + "' is not a regular file (may be a symlink or special file). Refusing to write."@),
        found matches FileStat::Failed(why) ==> (r matches Err(MhostError::Io(m)) && m@
            == "Cannot stat '"@ + path@ + "': "@ + why@),
{
}

/// Both works begin with a look at the file; and going back is done once the file holds what
/// the backup held.
pub proof fn works_begin_with_the_file(
    a: (ApplyState, ApplyAction),
    b: (RollbackState, RollbackAction),
    backup: &str,
    restored: &str,
    r: Result<(), MhostError>,
)
    requires
        call_ensures(apply_start, (), a),
        call_ensures(rollback_start, (), b),
        call_ensures(rollback_outcome, (backup, restored), r),
    ensures
        a.0 is Checking && a.1 is CheckFile,
        b.0 is Checking && b.1 is CheckFile,
        r is Ok <==> backup@ == restored@,
        r matches Err(e) ==> (e matches MhostError::Apply(ApplyError::BackupFailed(m)) && m@
            == "rollback content mismatch"@),
{
}

} // verus!
