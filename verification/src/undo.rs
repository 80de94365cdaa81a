//! The undo engine: restores an executed move from its recorded backup,
//! never overwriting a live file, and returns the action to `planned`.
//! The backup source is the explicit override when given, else the row's
//! recorded backup path, else the payload's.

use vstd::prelude::*;
use crate::db::{Action, ActionStatus, Database};
use crate::fsmodel::FsState;

verus! {

/// Restores `original` from `backup`: skipped when the original path
/// reappeared (never overwrite a live file) or the backup is gone;
/// otherwise the backup bytes are copied to the original path.
pub fn restore_from_backup(fs: &mut FsState, original: &String, backup: &String)
    -> (restored: bool)
    requires
        old(fs).wf(),
    ensures
        final(fs).wf(),
        old(fs).has_path(original@) ==> !restored && *final(fs) == *old(fs),
        !old(fs).has_path(original@) && !old(fs).has_path(backup@)
            ==> !restored && *final(fs) == *old(fs),
        !old(fs).has_path(original@) && old(fs).has_path(backup@) ==> restored
            && final(fs).has_path(original@)
            && final(fs).content(original@) == old(fs).content(backup@)
            && old(fs).same_except(*final(fs), original@),
{
    if fs.exists_path(original.as_str()) {
        return false;
    }
    match fs.read(backup.as_str()) {
        Some(data) => {
            fs.write(original.as_str(), data);
            true
        }
        None => false,
    }
}

/// Where the backup for a row comes from: the override first, then the
/// row's recorded backup path, then the payload's `backup` field.
pub open spec fn backup_source(row: Action, override_path: Option<Seq<char>>)
    -> Option<Seq<char>> {
    match override_path {
        Some(b) => Some(b),
        None => match row.backup_path {
            Some(b) => Some(b@),
            None => match row.payload.backup {
                Some(b) => Some(b@),
                None => None,
            },
        },
    }
}

pub open spec fn override_view(o: Option<&String>) -> Option<Seq<char>> {
    match o {
        Some(b) => Some(b@),
        None => None,
    }
}

/// Undoes one action row.  Nothing happens unless the row is executed,
/// its file row exists and a backup source resolves; a restore happens
/// only when the original path is absent and the backup present, and
/// only a successful restore flips the row back to `planned`, clears its
/// execution time and marks the path dirty with reason `undo`.
pub fn undo_one(
    db: &mut Database,
    fs: &mut FsState,
    i: usize,
    backup_override: Option<&String>,
    now: i64,
) -> (restored: bool)
    requires
        old(db).wf(),
        old(fs).wf(),
        i < old(db).actions@.len(),
    ensures
        final(db).wf(),
        final(fs).wf(),
        ({
            let row = old(db).actions@[i as int];
            let src = resolved_backup(row, backup_override);
            if !(row.status is Executed) || !old(db).has_file_id(row.file_id)
                || src is None {
                !restored && *final(db) == *old(db) && *final(fs) == *old(fs)
            } else {
                let path = old(db).files@[old(db).file_idx_by_id(row.file_id)].path@;
                let b = src->0;
                if old(fs).has_path(path) || !old(fs).has_path(b) {
                    // Never overwrite a live file; a lost backup restores
                    // nothing.  The row keeps its status and times.
                    !restored && *final(db) == *old(db) && *final(fs) == *old(fs)
                } else {
                    &&& restored
                    &&& final(fs).has_path(path)
                    &&& final(fs).content(path) == old(fs).content(b)
                    &&& old(fs).same_except(*final(fs), path)
                    &&& final(db).actions@ == old(db).actions@.update(i as int,
                        final(db).actions@[i as int])
                    &&& ({
                        let fin = final(db).actions@[i as int];
                        fin.status is Planned && fin.executed_at is None
                            && fin.id == row.id && fin.file_id == row.file_id
                            && fin.kind == row.kind && fin.payload == row.payload
                            && fin.backup_path == row.backup_path
                    })
                    &&& Database::dirty_upserted(*old(db), *final(db), path, "undo"@, now)
                    &&& final(db).files == old(db).files
                    &&& final(db).chunks == old(db).chunks
                    &&& final(db).tags == old(db).tags
                    &&& final(db).file_tags == old(db).file_tags
                    &&& final(db).rules == old(db).rules
                    &&& final(db).audit == old(db).audit
                    &&& final(db).metadata == old(db).metadata
                }
            }
        }),
{
    let executed = match db.actions[i].status {
        ActionStatus::Executed => true,
        _ => false,
    };
    if !executed {
        return false;
    }
    let path_opt: Option<String> = path_of_file(db, db.actions[i].file_id);
    let backup: Option<String> = match backup_override {
        Some(b) => Some(b.clone()),
        None => match &db.actions[i].backup_path {
            Some(b) => Some(b.clone()),
            None => crate::db::clone_opt_string(&db.actions[i].payload.backup),
        },
    };
    match (path_opt, backup) {
        (Some(path), Some(b)) => {
            let restored = restore_from_backup(fs, &path, &b);
            if restored {
                let ghost pre_rows = db.actions@;
                let mut row = db.actions.remove(i);
                row.status = ActionStatus::Planned;
                row.executed_at = None;
                db.actions.insert(i, row);
                proof {
                    assert(db.actions@ =~= pre_rows.update(i as int,
                        db.actions@[i as int]));
                    assert(db.actions_wf());
                }
                let ghost mid = *db;
                db.mark_dirty(path.as_str(), "undo", now);
                proof {
                    assert forall|q: Seq<char>| q != path@ && old(db).has_dirty(q)
                        implies #[trigger] old(db).dirty@[old(db).dirty_idx(q)]
                            == db.dirty@[db.dirty_idx(q)] by {
                        Database::lemma_same_dirty_idx(*old(db), mid, q);
                    }
                    assert forall|q: Seq<char>| q != path@
                        implies (old(db).has_dirty(q) <==> db.has_dirty(q)) by {
                        if old(db).has_dirty(q) {
                            Database::lemma_same_dirty_idx(*old(db), mid, q);
                        }
                        if mid.has_dirty(q) {
                            Database::lemma_same_dirty_idx(mid, *old(db), q);
                        }
                    }
                }
                true
            } else {
                false
            }
        }
        _ => false,
    }
}

/// The backup source for a row, as `undo_one` resolves it.
pub open spec fn resolved_backup(row: Action, o: Option<&String>) -> Option<Seq<char>> {
    backup_source(row, override_view(o))
}

/// Undoes every executed action in turn.  Rows that were not executed
/// are untouched, and a row changes only by flipping to `planned` with
/// its execution time cleared.
#[verifier::loop_isolation(false)]
pub fn undo_actions(
    db: &mut Database,
    fs: &mut FsState,
    backup_override: Option<&String>,
    now: i64,
)
    requires
        old(db).wf(),
        old(fs).wf(),
    ensures
        final(db).wf(),
        final(fs).wf(),
        final(db).actions@.len() == old(db).actions@.len(),
        forall|i: int| 0 <= i < old(db).actions@.len()
            && !((#[trigger] old(db).actions@[i]).status is Executed)
            ==> final(db).actions@[i] == old(db).actions@[i],
        forall|i: int| 0 <= i < final(db).actions@.len()
            ==> ((#[trigger] final(db).actions@[i]).status is Planned
                && final(db).actions@[i].executed_at is None
                && final(db).actions@[i].id == old(db).actions@[i].id
                && final(db).actions@[i].file_id == old(db).actions@[i].file_id
                && final(db).actions@[i].kind == old(db).actions@[i].kind
                && final(db).actions@[i].payload == old(db).actions@[i].payload
                && final(db).actions@[i].backup_path
                    == old(db).actions@[i].backup_path)
            || final(db).actions@[i] == old(db).actions@[i],
        final(db).files == old(db).files,
        final(db).chunks == old(db).chunks,
        final(db).tags == old(db).tags,
        final(db).file_tags == old(db).file_tags,
        final(db).rules == old(db).rules,
        final(db).audit == old(db).audit,
        final(db).metadata == old(db).metadata,
{
    let n = db.actions.len();
    let mut i: usize = 0;
    while i < n
        invariant
            i <= n,
            db.wf(),
            fs.wf(),
            n == db.actions@.len(),
            db.actions@.len() == old(db).actions@.len(),
            forall|k: int| 0 <= k < old(db).actions@.len()
                && !((#[trigger] old(db).actions@[k]).status is Executed)
                ==> db.actions@[k] == old(db).actions@[k],
            forall|k: int| 0 <= k < db.actions@.len()
                ==> ((#[trigger] db.actions@[k]).status is Planned
                    && db.actions@[k].executed_at is None
                    && db.actions@[k].id == old(db).actions@[k].id
                    && db.actions@[k].file_id == old(db).actions@[k].file_id
                    && db.actions@[k].kind == old(db).actions@[k].kind
                    && db.actions@[k].payload == old(db).actions@[k].payload
                    && db.actions@[k].backup_path == old(db).actions@[k].backup_path)
                || db.actions@[k] == old(db).actions@[k],
            db.files == old(db).files,
            db.chunks == old(db).chunks,
            db.tags == old(db).tags,
            db.file_tags == old(db).file_tags,
            db.rules == old(db).rules,
            db.audit == old(db).audit,
            db.metadata == old(db).metadata,
        decreases n - i,
    {
        let _ = undo_one(db, fs, i, backup_override, now);
        i = i + 1;
    }
}

/// The path of the file row with the given id, when one exists.
#[verifier::loop_isolation(false)]
fn path_of_file(db: &Database, fid: i64) -> (r: Option<String>)
    requires
        db.files_wf(),
    ensures
        r is Some <==> db.has_file_id(fid),
        r matches Some(p) ==> db.files@[db.file_idx_by_id(fid)].path@ == p@,
{
    let n = db.files.len();
    let mut i: usize = 0;
    while i < n
        invariant
            i <= n,
            n == db.files@.len(),
            forall|j: int| 0 <= j < i ==> (#[trigger] db.files@[j]).id != fid,
        decreases n - i,
    {
        if db.files[i].id == fid {
            proof {
                let w = db.file_idx_by_id(fid);
                assert(db.files@[w].id == fid);
                if w < i as int {
                    assert(db.files@[w].id != db.files@[i as int].id);
                } else if w > i as int {
                    assert(db.files@[i as int].id != db.files@[w].id);
                }
            }
            return Some(db.files[i].path.clone());
        }
        i = i + 1;
    }
    None
}

} // verus!
