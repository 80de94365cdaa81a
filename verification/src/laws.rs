//! The engine's cross-cutting laws, stated over the spec functions the
//! operations' contracts use.

use vstd::prelude::*;
use crate::db::{in_new, Database, NewChunk};
use crate::fsmodel::FsState;
use crate::apply::moved_ok;
use crate::keyword_index::KeywordIndex;
use crate::suggester::move_pending;

verus! {

/// Content-addressing: once a file's stored chunk set equals an incoming
/// set, running extraction again with the same set finds every incoming
/// hash stored and every stored hash incoming — so the re-run inserts
/// nothing and deletes nothing.
pub proof fn lemma_extract_rerun_clean(db: Database, fid: i64, new_chunks: Seq<NewChunk>)
    requires
        forall|h: Seq<char>| db.has_chunk(fid, h) <==> in_new(new_chunks, h),
    ensures
        forall|j: int| 0 <= j < new_chunks.len()
            ==> db.has_chunk(fid, (#[trigger] new_chunks[j]).hash@),
        forall|i: int| 0 <= i < db.chunks@.len()
            && (#[trigger] db.chunks@[i]).file_id == fid
            ==> in_new(new_chunks, db.chunks@[i].hash@),
{
    assert forall|j: int| 0 <= j < new_chunks.len()
        implies db.has_chunk(fid, (#[trigger] new_chunks[j]).hash@) by {
        assert(in_new(new_chunks, new_chunks[j].hash@));
    }
    assert forall|i: int| 0 <= i < db.chunks@.len()
        && (#[trigger] db.chunks@[i]).file_id == fid
        implies in_new(new_chunks, db.chunks@[i].hash@) by {
        assert(db.has_chunk(fid, db.chunks@[i].hash@));
    }
}

/// Suggestion exclusion: a suggester run never adds an action for a file
/// that already had a pending move or rename; the hypothesis is exactly
/// what `run_suggester` guarantees of every appended row.
pub proof fn lemma_suggestion_exclusion(pre: Database, post: Database, fid: i64)
    requires
        move_pending(pre, fid),
        post.actions@.len() >= pre.actions@.len(),
        forall|i: int| pre.actions@.len() <= i < post.actions@.len()
            ==> !move_pending(pre, (#[trigger] post.actions@[i]).file_id),
    ensures
        forall|i: int| pre.actions@.len() <= i < post.actions@.len()
            ==> (#[trigger] post.actions@[i]).file_id != fid,
{
}

/// Undo round-trip: a move left a backup holding the source's original
/// bytes; restoring the original path from that backup reproduces those
/// bytes exactly.
pub proof fn lemma_undo_round_trip(
    fs0: FsState,
    fs1: FsState,
    fs2: FsState,
    from: Seq<char>,
    to: Seq<char>,
    backup: Seq<char>,
)
    requires
        moved_ok(fs0, fs1, from, to, Some(backup)),
        fs2.has_path(from),
        fs2.content(from) == fs1.content(backup),
    ensures
        fs2.content(from) == fs0.content(from),
{
}

/// Deletion coherence, index side: once a path's document is deleted,
/// no search result ever names it.
pub proof fn lemma_deletion_coherence_search(
    idx: KeywordIndex,
    results: Seq<String>,
    p: Seq<char>,
)
    requires
        !idx.has_doc(p),
        forall|i: int| 0 <= i < results.len() ==> idx.has_doc((#[trigger] results[i])@),
    ensures
        forall|i: int| 0 <= i < results.len() ==> (#[trigger] results[i])@ != p,
{
}

} // verus!
