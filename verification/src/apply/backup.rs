//! Backups of the hosts file: how they are named, which one is the latest, and
//! which ones are no longer kept.
use vstd::prelude::*;
use vstd::string::*;

use crate::clock::{format_compact, utc_now};
use crate::error::{ApplyError, MhostError};
use crate::text::{decimal_text, has_end, has_start, to_chars};

verus! {

broadcast use vstd::string::group_string_axioms;

/// How many backups are kept.
pub const MAX_BACKUPS: usize = 10;

/// A file of the backup directory: its name, and when it was last modified, in
/// nanoseconds from the start of 1970.
#[derive(Debug, Clone, PartialEq, Eq)]
pub struct BackupFile {
    pub name: String,
    pub modified: i128,
}

/// The name of the backup made in the second `secs`.
pub open spec fn backup_name(secs: i64) -> Seq<char> {
    "hosts-"@ + crate::clock::compact_stamp(secs) + ".bak"@
}

/// Whether a file name is that of a backup.
pub open spec fn is_backup_name(name: Seq<char>) -> bool {
    crate::text::begins(name, "hosts-"@) && crate::text::ends(name, ".bak"@)
}

/// Whether file `i` is a backup.
pub open spec fn is_backup(files: Seq<BackupFile>, i: int) -> bool {
    0 <= i < files.len() && is_backup_name(files[i].name@)
}

/// Whether no file is a backup.
pub open spec fn no_backups(files: Seq<BackupFile>) -> bool {
    forall|i: int| !is_backup(files, i)
}

/// Whether file `i` counts as older than file `j`: by modification, and by place in
/// the list where these agree.
pub open spec fn older(files: Seq<BackupFile>, i: int, j: int) -> bool {
    files[i].modified < files[j].modified || (files[i].modified == files[j].modified && i < j)
}

/// Whether file `i` is the backup that was modified last, the first of these in the list.
pub open spec fn is_latest(files: Seq<BackupFile>, i: int) -> bool {
    &&& is_backup(files, i)
    &&& forall|j: int| #[trigger]
        is_backup(files, j) ==> files[j].modified < files[i].modified || (files[j].modified
            == files[i].modified && i <= j)
}

/// The number of backups among the files.
pub open spec fn backup_count(files: Seq<BackupFile>) -> nat
    decreases files.len(),
{
    if files.len() == 0 {
        0
    } else if is_backup_name(files.last().name@) {
        backup_count(files.drop_last()) + 1
    } else {
        backup_count(files.drop_last())
    }
}

/// The backups that are no longer kept, from the oldest on, when no more than
/// `MAX_BACKUPS` stay: each is older than every backup that stays.
pub open spec fn is_surplus(files: Seq<BackupFile>, gone: Seq<usize>) -> bool {
    &&& gone.len() == if backup_count(files) <= MAX_BACKUPS {
        0
    } else {
        (backup_count(files) - MAX_BACKUPS) as nat
    }
    &&& forall|k: int| 0 <= k < gone.len() ==> is_backup(files, #[trigger] gone[k] as int)
    &&& forall|a: int, b: int|
        0 <= a < b < gone.len() ==> older(files, #[trigger] gone[a] as int, #[trigger] gone[b] as int)
    &&& forall|i: int, k: int|
        is_backup(files, i) && !gone.contains(i as usize) && 0 <= k < gone.len() ==> older(
            files,
            #[trigger] gone[k] as int,
            i,
        ) && #[trigger] is_backup(files, i)
}

/// Whether a list names the backups that are no longer kept.
pub open spec fn names_surplus(files: Seq<BackupFile>, names: Seq<String>) -> bool {
    exists|gone: Seq<usize>| #[trigger]
        is_surplus(files, gone) && names.len() == gone.len() && forall|k: int|
            0 <= k < gone.len() ==> (#[trigger] names[k])@ == files[gone[k] as int].name@
}

/// The name for a backup made in the second `secs`.
pub fn backup_file_name(secs: i64) -> (r: String)
    requires
        0 <= secs <= crate::clock::LAST_SECOND,
    ensures
        r@ == backup_name(secs),
{
    let mut s: String = "hosts-".to_owned();
    s.append(format_compact(secs).as_str());
    s.append(".bak");
    s
}

/// The name for a backup made now.
pub fn new_backup_name() -> (r: String)
    ensures
        exists|secs: i64|
            0 <= secs <= crate::clock::LAST_SECOND && r@ == #[trigger] backup_name(secs),
{
    let now = utc_now();
    backup_file_name(now.secs)
}

/// Tests a file name.
pub fn names_a_backup(name: &str) -> (r: bool)
    ensures
        r == is_backup_name(name@),
{
    let v = to_chars(name);
    has_start(&v, "hosts-") && has_end(&v, ".bak")
}

/// A list of backups from the oldest on.
spec fn by_age(files: Seq<BackupFile>, v: Seq<usize>) -> bool {
    forall|a: int, b: int|
        0 <= a < b < v.len() ==> older(files, #[trigger] v[a] as int, #[trigger] v[b] as int)
}

/// The backups among the files, from the oldest on.
fn sorted_backups(files: &Vec<BackupFile>) -> (r: Vec<usize>)
    ensures
        by_age(files@, r@),
        r@.len() == backup_count(files@),
        forall|k: int| 0 <= k < r@.len() ==> is_backup(files@, #[trigger] r@[k] as int),
        forall|i: int| is_backup(files@, i) ==> r@.contains(i as usize),
{
    let mut v: Vec<usize> = Vec::new();
    let mut i: usize = 0;
    while i < files.len()
        invariant
            i <= files@.len(),
            by_age(files@, v@),
            v@.len() == backup_count(files@.take(i as int)),
            forall|k: int|
                0 <= k < v@.len() ==> is_backup(files@, #[trigger] v@[k] as int) && v@[k] < i,
            forall|j: int| 0 <= j < i && is_backup(files@, j) ==> v@.contains(j as usize),
        decreases files.len() - i,
    {
        let ghost v0 = v@;
        proof {
            assert(files@.take(i + 1).drop_last() =~= files@.take(i as int));
        }
        if names_a_backup(files[i].name.as_str()) {
            let mut p: usize = v.len();
            while p > 0 && files[v[p - 1]].modified > files[i].modified
                invariant
                    p <= v@.len(),
                    i < files@.len(),
                    forall|k: int| 0 <= k < v@.len() ==> #[trigger] v@[k] < i,
                    forall|k: int|
                        p <= k < v@.len() ==> files@[#[trigger] v@[k] as int].modified
                            > files@[i as int].modified,
                decreases p,
            {
                p = p - 1;
            }
            v.insert(p, i);
            proof {
                assert forall|a: int, b: int| 0 <= a < b < v@.len() implies older(
                    files@,
                    #[trigger] v@[a] as int,
                    #[trigger] v@[b] as int,
                ) by {
                    let x = if a < p {
                        a
                    } else {
                        a - 1
                    };
                    let y = if b < p {
                        b
                    } else {
                        b - 1
                    };
                    if a == p {
                        assert(v@[b] == v0[y]);
                    } else if b == p {
                        assert(v@[a] == v0[a]);
                        if a < p - 1 {
                            assert(older(files@, v0[a] as int, v0[p - 1] as int));
                        }
                    } else {
                        assert(v@[a] == v0[x] && v@[b] == v0[y]);
                    }
                }
                assert forall|k: int| 0 <= k < v@.len() implies is_backup(
                    files@,
                    #[trigger] v@[k] as int,
                ) && v@[k] < i + 1 by {
                    if k < p {
                        assert(v@[k] == v0[k]);
                    } else if k > p {
                        assert(v@[k] == v0[k - 1]);
                    }
                }
                assert forall|j: int| 0 <= j < i + 1 && is_backup(files@, j) implies v@.contains(
                    j as usize,
                ) by {
                    if j < i {
                        let k = choose|k: int| 0 <= k < v0.len() && v0[k] == j as usize;
                        if k < p {
                            assert(v@[k] == j as usize);
                        } else {
                            assert(v@[k + 1] == j as usize);
                        }
                    } else {
                        assert(v@[p as int] == j as usize);
                    }
                }
            }
        }
        i = i + 1;
    }
    assert(files@.take(i as int) =~= files@);
    v
}

/// The backups to remove so that no more than `MAX_BACKUPS` stay: the oldest ones,
/// from the oldest on.
pub fn backups_to_remove(files: &Vec<BackupFile>) -> (r: Vec<usize>)
    ensures
        is_surplus(files@, r@),
{
    let all = sorted_backups(files);
    let mut out: Vec<usize> = Vec::new();
    if all.len() <= MAX_BACKUPS {
        return out;
    }
    let n: usize = all.len() - MAX_BACKUPS;
    let total: usize = files.len();
    let mut i: usize = 0;
    while i < n
        invariant
            i <= n <= all@.len(),
            out@ == all@.take(i as int),
        decreases n - i,
    {
        assert(all@.take(i + 1) =~= all@.take(i as int).push(all@[i as int]));
        out.push(all[i]);
        i = i + 1;
    }
    proof {
        assert forall|i: int, k: int|
            is_backup(files@, i) && !out@.contains(i as usize) && 0 <= k < out@.len() implies older(
            files@,
            #[trigger] out@[k] as int,
            i,
        ) && #[trigger] is_backup(files@, i) by {
            let q = choose|q: int| 0 <= q < all@.len() && all@[q] == i as usize;
            if q < n {
                assert(out@[q] == i as usize);
            }
            assert(out@[k] == all@[k]);
            assert(i < total);
            assert(older(files@, all@[k] as int, all@[q] as int));
        }
    }
    out
}

/// What pruning comes to: it fails only if there was something to remove and none
/// of it could be removed.
pub fn prune_outcome(to_remove: usize, failed: usize) -> (r: Result<(), MhostError>)
    ensures
        if failed > 0 && failed == to_remove {
            r matches Err(MhostError::Apply(ApplyError::BackupFailed(m))) && m@
                == "failed to prune old backups: "@ + crate::text::decimal(failed as nat)
                + " deletions failed"@
        } else {
            r is Ok
        },
{
    if failed > 0 && failed == to_remove {
        let mut m: String = "failed to prune old backups: ".to_owned();
        m.append(decimal_text(failed as u64).as_str());
        m.append(" deletions failed");
        Err(MhostError::Apply(ApplyError::BackupFailed(m)))
    } else {
        Ok(())
    }
}

/// The backup to go back to: the one modified last, the first of these in the list.
/// Without any backup there is nothing to go back to.
pub fn latest_backup(files: &Vec<BackupFile>) -> (r: Result<usize, MhostError>)
    ensures
        match r {
            Ok(i) => is_latest(files@, i as int),
            Err(e) => (forall|j: int| !is_backup(files@, j)) && (e matches MhostError::Apply(
                ApplyError::BackupFailed(m),
            ) && m@ == "no backup found"@),
        },
        r is Ok <==> exists|j: int| is_backup(files@, j),
        r is Err <==> no_backups(files@),
{
    let mut best: Option<usize> = None;
    let mut i: usize = 0;
    while i < files.len()
        invariant
            i <= files@.len(),
            match best {
                Some(b) => b < i && is_backup(files@, b as int) && forall|j: int|
                    0 <= j < i && #[trigger] is_backup(files@, j) ==> files@[j].modified
                        < files@[b as int].modified || (files@[j].modified
                        == files@[b as int].modified && b <= j),
                None => forall|j: int| 0 <= j < i ==> !is_backup(files@, j),
            },
        decreases files.len() - i,
    {
        if names_a_backup(files[i].name.as_str()) {
            assert(is_backup(files@, i as int));
            match best {
                Some(b) => {
                    if files[b].modified < files[i].modified {
                        best = Some(i);
                    }
                },
                None => {
                    best = Some(i);
                },
            }
        }
        i = i + 1;
    }
    match best {
        Some(b) => Ok(b),
        None => Err(MhostError::Apply(ApplyError::BackupFailed("no backup found".to_owned()))),
    }
}

/// The name of a backup is the name of a backup file.
pub proof fn backup_names_are_recognised(secs: i64)
    ensures
        is_backup_name(backup_name(secs)),
{
    let s = backup_name(secs);
    assert(s.take("hosts-"@.len() as int) =~= "hosts-"@);
    assert(s.skip(s.len() - ".bak"@.len()) =~= ".bak"@);
}

/// The backups among the files, as a set.
spec fn backup_set(files: Seq<BackupFile>) -> Set<int> {
    Set::new(|i: int| is_backup(files, i))
}

/// There are as many backups as are counted.
proof fn lemma_backup_set(files: Seq<BackupFile>)
    ensures
        backup_set(files).finite(),
        backup_set(files).len() == backup_count(files),
    decreases files.len(),
{
    if files.len() == 0 {
        assert(backup_set(files) =~= Set::empty());
    } else {
        let init = files.drop_last();
        let n = files.len() - 1;
        lemma_backup_set(init);
        assert(!backup_set(init).contains(n));
        if is_backup_name(files.last().name@) {
            assert(backup_set(files) =~= backup_set(init).insert(n)) by {
                assert forall|i: int| is_backup(files, i) <==> is_backup(init, i) || i == n by {
                    if 0 <= i < n {
                        assert(init[i] == files[i]);
                    }
                }
            }
        } else {
            assert(backup_set(files) =~= backup_set(init)) by {
                assert forall|i: int| is_backup(files, i) <==> is_backup(init, i) by {
                    if 0 <= i < n {
                        assert(init[i] == files[i]);
                    }
                }
            }
        }
    }
}

/// Where some backups are removed, some stay.
pub proof fn lemma_some_stay(files: Seq<BackupFile>, gone: Seq<usize>)
    requires
        files.len() <= usize::MAX,
        is_surplus(files, gone),
        gone.len() > 0,
    ensures
        exists|j: int| #[trigger] is_backup(files, j) && !gone.contains(j as usize),
{
    let places = Seq::new(gone.len(), |k: int| gone[k] as int);
    lemma_backup_set(files);
    if forall|j: int| #[trigger] is_backup(files, j) ==> gone.contains(j as usize) {
        assert(backup_set(files).subset_of(places.to_set())) by {
            assert forall|j: int| backup_set(files).contains(j) implies places.to_set().contains(
                j,
            ) by {
                assert(is_backup(files, j));
                let k = choose|k: int| 0 <= k < gone.len() && gone[k] == j as usize;
                assert(places[k] == j);
            }
        }
        places.lemma_cardinality_of_set();
        vstd::set_lib::lemma_len_subset(backup_set(files), places.to_set());
    }
}

} // verus!
