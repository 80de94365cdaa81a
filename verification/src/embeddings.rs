//! Embedding planning: which chunks need vectors — those whose hash the
//! vector store does not already hold — with the payload the store
//! indexes on.  Batching to the provider's size is a separate, purely
//! size-bounded split.

use vstd::prelude::*;
use crate::paths::{path_prefixes, prefix_fold};
use crate::strutil::norm_char;

verus! {

/// One chunk joined with its file's attributes, ready for embedding.
pub struct ChunkItem {
    pub chunk_id: i64,
    pub file_id: i64,
    pub hash: String,
    pub text: String,
    pub path: String,
    pub mime: Option<String>,
    pub ext: Option<String>,
    pub mtime: Option<i64>,
    pub file_hash: Option<String>,
}

/// A batch of texts for the embedding provider.
pub struct EmbeddingRequest {
    pub texts: Vec<String>,
    pub provider: Option<String>,
}

/// The payload stored with a vector point; `id` and the `hash` key both
/// carry the chunk hash, and `file_hash` the owning file's identity.
pub struct PointPlan {
    pub id: String,
    pub hash: String,
    pub chunk_id: i64,
    pub file_id: i64,
    pub path: String,
    pub mime: Option<String>,
    pub ext: Option<String>,
    pub mtime: Option<i64>,
    pub file_hash: Option<String>,
    pub path_prefixes: Vec<String>,
}

pub open spec fn hash_present(present: Seq<String>, h: Seq<char>) -> bool {
    exists|i: int| 0 <= i < present.len() && (#[trigger] present[i])@ == h
}

fn is_present(present: &Vec<String>, h: &str) -> (r: bool)
    ensures
        r == hash_present(present@, h@),
{
    let n = present.len();
    let mut i: usize = 0;
    while i < n
        invariant
            i <= n,
            n == present@.len(),
            forall|j: int| 0 <= j < i ==> (#[trigger] present@[j])@ != h@,
        decreases n - i,
    {
        if crate::strutil::str_eq(present[i].as_str(), h) {
            return true;
        }
        i = i + 1;
    }
    false
}

/// Plans the embedding run: exactly one point per distinct chunk hash
/// the store does not hold, in input order, each carrying its chunk's
/// payload.  When every chunk is already present, nothing is planned, so
/// a re-run after a full upsert is a no-op.
#[verifier::loop_isolation(false)]
#[verifier::rlimit(60)]
#[verifier::spinoff_prover]
pub fn plan_embedding(items: &Vec<ChunkItem>, present: &Vec<String>)
    -> (plans: Vec<PointPlan>)
    ensures
        forall|i: int| 0 <= i < plans@.len()
            ==> !hash_present(present@, (#[trigger] plans@[i]).id@),
        forall|i: int| 0 <= i < plans@.len() ==> exists|u: int|
            0 <= u < items@.len() && ({
                let it = #[trigger] items@[u];
                let pt = #[trigger] plans@[i];
                it.hash@ == pt.id@ && it.hash@ == pt.hash@
                    && it.chunk_id == pt.chunk_id
                    && it.file_id == pt.file_id && it.path@ == pt.path@
                    && it.mime == pt.mime && it.ext == pt.ext
                    && it.mtime == pt.mtime && it.file_hash == pt.file_hash
            }),
        forall|u: int| 0 <= u < items@.len()
            && !hash_present(present@, (#[trigger] items@[u]).hash@)
            ==> exists|i: int| 0 <= i < plans@.len()
                && (#[trigger] plans@[i]).id@ == items@[u].hash@,
        // One point per hash: the count is the size of the absent set.
        forall|i: int, j: int| 0 <= i < j < plans@.len()
            ==> (#[trigger] plans@[i]).id@ != (#[trigger] plans@[j]).id@,
        // The indexable prefixes come from the point's own path.
        forall|i: int| 0 <= i < plans@.len() ==> ({
            let pt = #[trigger] plans@[i];
            let pf = prefix_fold(pt.path@.map(|x: int, c: char| norm_char(c))).0;
            pt.path_prefixes@.len() == pf.len()
                && forall|j: int| 0 <= j < pf.len()
                    ==> (#[trigger] pt.path_prefixes@[j])@ == pf[j]
        }),
        (forall|u: int| 0 <= u < items@.len()
            ==> hash_present(present@, (#[trigger] items@[u]).hash@))
            ==> plans@.len() == 0,
{
    let mut plans: Vec<PointPlan> = Vec::new();
    let n = items.len();
    let mut t: usize = 0;
    while t < n
        invariant
            t <= n,
            n == items@.len(),
            forall|i: int| 0 <= i < plans@.len()
                ==> !hash_present(present@, (#[trigger] plans@[i]).id@),
            forall|i: int| 0 <= i < plans@.len() ==> exists|u: int|
                0 <= u < items@.len() && ({
                    let it = #[trigger] items@[u];
                    let pt = #[trigger] plans@[i];
                    it.hash@ == pt.id@ && it.hash@ == pt.hash@
                        && it.chunk_id == pt.chunk_id
                        && it.file_id == pt.file_id && it.path@ == pt.path@
                        && it.mime == pt.mime && it.ext == pt.ext
                        && it.mtime == pt.mtime && it.file_hash == pt.file_hash
                }),
            forall|u: int| 0 <= u < t
                && !hash_present(present@, (#[trigger] items@[u]).hash@)
                ==> exists|i: int| 0 <= i < plans@.len()
                    && (#[trigger] plans@[i]).id@ == items@[u].hash@,
            forall|i: int, j: int| 0 <= i < j < plans@.len()
                ==> (#[trigger] plans@[i]).id@ != (#[trigger] plans@[j]).id@,
            forall|i: int| 0 <= i < plans@.len() ==> ({
                let pt = #[trigger] plans@[i];
                let pf = prefix_fold(pt.path@.map(|x: int, c: char| norm_char(c))).0;
                pt.path_prefixes@.len() == pf.len()
                    && forall|j: int| 0 <= j < pf.len()
                        ==> (#[trigger] pt.path_prefixes@[j])@ == pf[j]
            }),
            (forall|u: int| 0 <= u < t
                ==> hash_present(present@, (#[trigger] items@[u]).hash@))
                ==> plans@.len() == 0,
        decreases n - t,
    {
        let it = &items[t];
        if !is_present(present, it.hash.as_str()) && !already_planned(&plans,
            it.hash.as_str()) {
            let prefixes = path_prefixes(it.path.as_str());
            let pt = PointPlan {
                id: it.hash.clone(),
                hash: it.hash.clone(),
                chunk_id: it.chunk_id,
                file_id: it.file_id,
                path: it.path.clone(),
                mime: crate::db::clone_opt_string(&it.mime),
                ext: crate::db::clone_opt_string(&it.ext),
                mtime: it.mtime,
                file_hash: crate::db::clone_opt_string(&it.file_hash),
                path_prefixes: prefixes,
            };
            let ghost pp = plans@;
            plans.push(pt);
            proof {
                assert(plans@.last().id@ == items@[t as int].hash@);
                assert forall|u: int| 0 <= u < t + 1
                    && !hash_present(present@, (#[trigger] items@[u]).hash@)
                    implies exists|i: int| 0 <= i < plans@.len()
                        && (#[trigger] plans@[i]).id@ == items@[u].hash@ by {
                    if u < t {
                        let i = choose|i: int| 0 <= i < pp.len()
                            && (#[trigger] pp[i]).id@ == items@[u].hash@;
                        assert(plans@[i].id@ == items@[u].hash@);
                    } else {
                        assert(plans@[plans@.len() - 1].id@ == items@[u].hash@);
                    }
                }
            }
        } else if !is_present(present, it.hash.as_str()) {
            proof {
                assert(exists|i: int| 0 <= i < plans@.len()
                    && (#[trigger] plans@[i]).id@ == items@[t as int].hash@);
            }
        }
        t = t + 1;
    }
    plans
}

/// Whether a point with this chunk hash was already planned.
fn already_planned(plans: &Vec<PointPlan>, h: &str) -> (r: bool)
    ensures
        r == exists|i: int| 0 <= i < plans@.len() && (#[trigger] plans@[i]).id@ == h@,
{
    let n = plans.len();
    let mut i: usize = 0;
    while i < n
        invariant
            i <= n,
            n == plans@.len(),
            forall|j: int| 0 <= j < i ==> (#[trigger] plans@[j]).id@ != h@,
        decreases n - i,
    {
        if crate::strutil::str_eq(plans[i].id.as_str(), h) {
            return true;
        }
        i = i + 1;
    }
    false
}

/// The batches laid end to end.
pub open spec fn flat_batches(batches: Seq<Vec<PointPlan>>) -> Seq<PointPlan>
    decreases batches.len(),
{
    if batches.len() == 0 {
        Seq::empty()
    } else {
        flat_batches(batches.drop_last()) + batches.last()@
    }
}

/// Splits planned points into batches of at most `batch_size`: laid end
/// to end the batches are exactly the input, in order.
#[verifier::loop_isolation(false)]
pub fn batch_plans(plans: Vec<PointPlan>, batch_size: usize) -> (batches: Vec<Vec<PointPlan>>)
    requires
        batch_size >= 1,
    ensures
        forall|b: int| 0 <= b < batches@.len()
            ==> 1 <= (#[trigger] batches@[b]).len() <= batch_size,
        flat_batches(batches@) == plans@,
{
    let ghost all = plans@;
    let mut rest = plans;
    let mut batches: Vec<Vec<PointPlan>> = Vec::new();
    let mut cur: Vec<PointPlan> = Vec::new();
    proof {
        assert(all.skip(0) =~= all);
    }
    while rest.len() > 0
        invariant
            cur@.len() < batch_size,
            rest@.len() <= all.len(),
            rest@ == all.skip(all.len() - rest@.len()),
            flat_batches(batches@) + cur@ == all.take(all.len() - rest@.len()),
            forall|b: int| 0 <= b < batches@.len()
                ==> 1 <= (#[trigger] batches@[b]).len() <= batch_size,
        decreases rest@.len(),
    {
        let ghost done: int = all.len() - rest@.len();
        proof {
            assert(rest@ == all.skip(done));
            assert(all.skip(done)[0] == all[done]);
        }
        let pt = rest.remove(0);
        proof {
            assert(pt == all[done]);
            assert(rest@ =~= all.skip(done + 1));
            assert(all.take(done + 1) =~= all.take(done).push(pt));
        }
        cur.push(pt);
        proof {
            assert(flat_batches(batches@) + cur@ =~= all.take(done + 1));
        }
        if cur.len() == batch_size {
            let full = cur;
            cur = Vec::new();
            let ghost bp = batches@;
            batches.push(full);
            proof {
                assert(batches@.drop_last() =~= bp);
                assert(flat_batches(batches@) + cur@ =~= all.take(done + 1));
            }
        }
    }
    if cur.len() > 0 {
        let ghost bp = batches@;
        batches.push(cur);
        proof {
            assert(batches@.drop_last() =~= bp);
            assert(flat_batches(batches@) =~= all.take(all.len() as int));
            assert(all.take(all.len() as int) =~= all);
        }
    } else {
        proof {
            assert(flat_batches(batches@) =~= all);
        }
    }
    batches
}

} // verus!
