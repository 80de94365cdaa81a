//! Watch-driven incremental decisions: a path that still exists is
//! re-marked dirty for the single-file pipeline; a vanished path is
//! purged from every table, its chunk hashes collected for the vector
//! store's delete calls, and a `watch_purge` audit entry written.

use vstd::prelude::*;
use crate::db::{AuditDetail, Database};
use crate::strutil::str_eq;

verus! {

/// What the watcher decided for one observed path.
pub enum WatchOutcome {
    /// The path still exists: it was marked dirty; the caller runs the
    /// single-file pipeline.
    Requeued,
    /// The path is gone: it was purged; the carried hashes feed the
    /// vector-store deletes and the keyword-index delete list.
    Purged { chunk_hashes: Vec<String>, file_hash: Option<String> },
    /// The path was never indexed: nothing to do.
    Unknown,
}

/// `h` occurs among the collected hashes.
pub open spec fn hash_listed(hs: Seq<String>, h: Seq<char>) -> bool {
    exists|t: int| 0 <= t < hs.len() && (#[trigger] hs[t])@ == h
}

/// The chunk hashes of the file at `path`, and the file row's hash.
#[verifier::loop_isolation(false)]
pub fn collect_hashes(db: &Database, path: &str) -> (r: (Vec<String>, Option<String>))
    requires
        db.wf(),
        db.has_file_path(path@),
    ensures
        ({
            let fid = db.files@[db.file_idx(path@)].id;
            &&& forall|i: int| 0 <= i < r.0@.len()
                ==> db.has_chunk(fid, (#[trigger] r.0@[i])@)
            &&& forall|j: int| 0 <= j < db.chunks@.len()
                && (#[trigger] db.chunks@[j]).file_id == fid
                ==> hash_listed(r.0@, db.chunks@[j].hash@)
            &&& r.1 == db.files@[db.file_idx(path@)].hash
        }),
{
    let fi = match db_find_file(db, path) {
        Some(fi) => fi,
        None => {
            proof {
                assert(false);
            }
            0
        }
    };
    let fid = db.files[fi].id;
    let mut hashes: Vec<String> = Vec::new();
    let n = db.chunks.len();
    let mut i: usize = 0;
    while i < n
        invariant
            i <= n,
            n == db.chunks@.len(),
            forall|t: int| 0 <= t < hashes@.len()
                ==> db.has_chunk(fid, (#[trigger] hashes@[t])@),
            forall|j: int| 0 <= j < i && (#[trigger] db.chunks@[j]).file_id == fid
                ==> hash_listed(hashes@, db.chunks@[j].hash@),
        decreases n - i,
    {
        if db.chunks[i].file_id == fid {
            let ghost hp = hashes@;
            hashes.push(db.chunks[i].hash.clone());
            proof {
                assert(hashes@.last()@ == db.chunks@[i as int].hash@);
                assert forall|j: int| 0 <= j < i + 1
                    && (#[trigger] db.chunks@[j]).file_id == fid
                    implies hash_listed(hashes@, db.chunks@[j].hash@) by {
                    if j < i {
                        assert(hash_listed(hp, db.chunks@[j].hash@));
                        let t = choose|t: int| 0 <= t < hp.len()
                            && (#[trigger] hp[t])@ == db.chunks@[j].hash@;
                        assert(hashes@[t]@ == db.chunks@[j].hash@);
                    } else {
                        assert(hashes@[hashes@.len() - 1]@ == db.chunks@[j].hash@);
                    }
                }
            }
        }
        i = i + 1;
    }
    let file_hash = crate::db::clone_opt_string(&db.files[fi].hash);
    (hashes, file_hash)
}

#[verifier::loop_isolation(false)]
fn db_find_file(db: &Database, p: &str) -> (r: Option<usize>)
    requires
        db.files_wf(),
    ensures
        match r {
            Some(i) => i < db.files@.len() && db.files@[i as int].path@ == p@
                && db.file_idx(p@) == i,
            None => !db.has_file_path(p@),
        },
{
    let n = db.files.len();
    let mut i: usize = 0;
    while i < n
        invariant
            i <= n,
            n == db.files@.len(),
            forall|j: int| 0 <= j < i ==> (#[trigger] db.files@[j]).path@ != p@,
        decreases n - i,
    {
        if str_eq(db.files[i].path.as_str(), p) {
            proof {
                let w = db.file_idx(p@);
                assert(db.files@[w].path@ == p@);
                if w < i as int {
                    assert(db.files@[w].path@ != db.files@[i as int].path@);
                } else if w > i as int {
                    assert(db.files@[i as int].path@ != db.files@[w].path@);
                }
            }
            return Some(i);
        }
        i = i + 1;
    }
    None
}

/// One watcher step for one observed path.  A live path is re-marked
/// dirty with reason `watch`.  A vanished indexed path is purged (no row
/// referencing it survives) and a `watch_purge` audit entry records the
/// path, its chunk hashes and the vector ids the caller will delete.
#[verifier::rlimit(30)]
pub fn watch_step(db: &mut Database, path: &str, exists_as_file: bool, now: i64)
    -> (outcome: WatchOutcome)
    requires
        old(db).wf(),
        old(db).next_audit_id < i64::MAX - 1,
    ensures
        final(db).wf(),
        exists_as_file ==> outcome is Requeued
            && Database::dirty_upserted(*old(db), *final(db), path@, "watch"@, now)
            && final(db).files == old(db).files
            && final(db).chunks == old(db).chunks
            && final(db).actions == old(db).actions
            && final(db).audit == old(db).audit,
        !exists_as_file && !old(db).has_file_path(path@)
            ==> outcome is Unknown && *final(db) == *old(db),
        !exists_as_file && old(db).has_file_path(path@) ==> ({
            let fid = old(db).files@[old(db).file_idx(path@)].id;
            &&& outcome matches WatchOutcome::Purged { chunk_hashes, file_hash }
                && (forall|i: int| 0 <= i < chunk_hashes@.len()
                    ==> old(db).has_chunk(fid, (#[trigger] chunk_hashes@[i])@))
                && (forall|j: int| 0 <= j < old(db).chunks@.len()
                    && (#[trigger] old(db).chunks@[j]).file_id == fid
                    ==> hash_listed(chunk_hashes@, old(db).chunks@[j].hash@))
                && file_hash == old(db).files@[old(db).file_idx(path@)].hash
            &&& !final(db).has_file_path(path@)
            &&& forall|i: int| 0 <= i < final(db).actions@.len()
                ==> (#[trigger] final(db).actions@[i]).file_id != fid
            &&& forall|i: int| 0 <= i < final(db).chunks@.len()
                ==> (#[trigger] final(db).chunks@[i]).file_id != fid
            &&& forall|i: int| 0 <= i < final(db).metadata@.len()
                ==> (#[trigger] final(db).metadata@[i]).file_id != fid
            &&& forall|i: int| 0 <= i < final(db).file_tags@.len()
                ==> (#[trigger] final(db).file_tags@[i]).file_id != fid
            &&& ({
                let row = final(db).audit@.last();
                row.event@ == "watch_purge"@
                    && (row.detail matches Some(d)
                        && d matches AuditDetail::Purge { paths, hashes, vector_ids, .. }
                        && paths@.len() == 1 && paths@[0]@ == path@
                        && (outcome matches WatchOutcome::Purged { chunk_hashes, .. }
                            ==> hashes@.len() == chunk_hashes@.len()
                                && vector_ids@.len() == chunk_hashes@.len()))
                    && row.created_at == now
            })
        }),
{
    if exists_as_file {
        db.mark_dirty(path, "watch", now);
        return WatchOutcome::Requeued;
    }
    if !db_has_path(db, path) {
        return WatchOutcome::Unknown;
    }
    let (chunk_hashes, file_hash) = collect_hashes(db, path);
    db.purge_file(path, now);
    let mut hashes_copy: Vec<String> = Vec::new();
    let mut ids_copy: Vec<String> = Vec::new();
    let nh = chunk_hashes.len();
    let mut i: usize = 0;
    while i < nh
        invariant
            i <= nh,
            nh == chunk_hashes@.len(),
            hashes_copy@.len() == i,
            ids_copy@.len() == i,
        decreases nh - i,
    {
        hashes_copy.push(chunk_hashes[i].clone());
        ids_copy.push(chunk_hashes[i].clone());
        i = i + 1;
    }
    let mut paths: Vec<String> = Vec::new();
    paths.push(path.to_owned());
    let attempted_vectors: i64 = if (nh as u64) <= (i64::MAX as u64) - 1 {
        (nh as i64) + 1
    } else {
        i64::MAX
    };
    let detail = AuditDetail::Purge {
        paths,
        hashes: hashes_copy,
        vector_ids: ids_copy,
        attempted_docs: 1,
        attempted_vectors,
    };
    db.append_audit(None, String::from_str("watch_purge"), Some(detail), now);
    WatchOutcome::Purged { chunk_hashes, file_hash }
}

fn db_has_path(db: &Database, p: &str) -> (r: bool)
    requires
        db.files_wf(),
    ensures
        r == db.has_file_path(p@),
{
    match db_find_file(db, p) {
        Some(_) => true,
        None => false,
    }
}

} // verus!
