//! The keyword index model: documents keyed by path, with full rebuild,
//! per-document upsert, deletion by path, and substring search.

use vstd::prelude::*;
use crate::strutil::{has_substring, str_contains, str_eq};

verus! {

pub struct KwDoc {
    pub path: String,
    pub text: String,
}

/// An on-disk keyword index, modeled as its document list; `built` says
/// whether a build has ever happened.
pub struct KeywordIndex {
    pub built: bool,
    pub docs: Vec<KwDoc>,
}

impl KeywordIndex {
    pub open spec fn has_doc(self, p: Seq<char>) -> bool {
        exists|i: int| 0 <= i < self.docs@.len() && (#[trigger] self.docs@[i]).path@ == p
    }

    pub fn new() -> (r: KeywordIndex)
        ensures
            !r.built,
            r.docs@.len() == 0,
    {
        KeywordIndex { built: false, docs: Vec::new() }
    }
}

/// Rebuilds the index from scratch: exactly the given documents, in
/// order.
pub fn build_index(idx: &mut KeywordIndex, docs: Vec<KwDoc>)
    ensures
        final(idx).built,
        final(idx).docs@ == docs@,
{
    idx.docs = docs;
    idx.built = true;
}

/// Removes every document stored under `p`.
#[verifier::loop_isolation(false)]
fn delete_path(idx: &mut KeywordIndex, p: &str)
    ensures
        final(idx).built == old(idx).built,
        !final(idx).has_doc(p@),
        forall|q: Seq<char>| q != p@
            ==> (old(idx).has_doc(q) <==> final(idx).has_doc(q)),
{
    let ghost pre = old(idx).docs@;
    let mut kept: Vec<KwDoc> = Vec::new();
    while idx.docs.len() > 0
        invariant
            idx.built == old(idx).built,
            idx.docs@.len() <= pre.len(),
            idx.docs@ == pre.skip(pre.len() - idx.docs@.len()),
            forall|a: int| 0 <= a < kept@.len() ==> (#[trigger] kept@[a]).path@ != p@,
            forall|j: int| 0 <= j < pre.len() - idx.docs@.len()
                && (#[trigger] pre[j]).path@ != p@
                ==> exists|a: int| 0 <= a < kept@.len()
                    && (#[trigger] kept@[a]).path@ == pre[j].path@,
            forall|a: int| 0 <= a < kept@.len() ==> exists|j: int|
                0 <= j < pre.len() - idx.docs@.len()
                && (#[trigger] pre[j]).path@ == (#[trigger] kept@[a]).path@,
        decreases idx.docs@.len(),
    {
        let ghost t: int = pre.len() - idx.docs@.len();
        proof {
            assert(idx.docs@ == pre.skip(t));
            assert(pre.skip(t)[0] == pre[t]);
        }
        let d = idx.docs.remove(0);
        proof {
            assert(d == pre[t]);
            assert(idx.docs@ =~= pre.skip(t + 1));
        }
        if !str_eq(d.path.as_str(), p) {
            let ghost kp = kept@;
            kept.push(d);
            proof {
                assert forall|j: int| 0 <= j < t + 1 && (#[trigger] pre[j]).path@ != p@
                    implies exists|a: int| 0 <= a < kept@.len()
                        && (#[trigger] kept@[a]).path@ == pre[j].path@ by {
                    if j == t {
                        assert(kept@[kept@.len() - 1].path@ == pre[t].path@);
                    } else {
                        let a = choose|a: int| 0 <= a < kp.len()
                            && (#[trigger] kp[a]).path@ == pre[j].path@;
                        assert(kept@[a].path@ == pre[j].path@);
                    }
                }
            }
        }
    }
    idx.docs = kept;
    proof {
        assert forall|q: Seq<char>| q != p@
            implies (old(idx).has_doc(q) <==> idx.has_doc(q)) by {
            if old(idx).has_doc(q) {
                let j = choose|j: int| 0 <= j < pre.len()
                    && (#[trigger] pre[j]).path@ == q;
                assert(exists|a: int| 0 <= a < kept@.len()
                    && (#[trigger] kept@[a]).path@ == q);
            }
            if idx.has_doc(q) {
                let a = choose|a: int| 0 <= a < idx.docs@.len()
                    && (#[trigger] idx.docs@[a]).path@ == q;
                let j = choose|j: int| 0 <= j < pre.len()
                    && (#[trigger] pre[j]).path@ == idx.docs@[a].path@;
                assert(old(idx).docs@[j].path@ == q);
            }
        }
    }
}

/// `q` is the path of one of the given documents.
pub open spec fn doc_path_listed(docs: Seq<KwDoc>, q: Seq<char>) -> bool {
    exists|j: int| 0 <= j < docs.len() && (#[trigger] docs[j]).path@ == q
}

/// `q` is one of the given paths.
pub open spec fn path_listed(paths: Seq<String>, q: Seq<char>) -> bool {
    exists|j: int| 0 <= j < paths.len() && (#[trigger] paths[j])@ == q
}

/// Per-document upsert: deletes any stored document with the same path,
/// then adds the new one, so the last document of one call wins for its
/// path; paths not named keep their documents.
#[verifier::loop_isolation(false)]
#[verifier::rlimit(80)]
#[verifier::spinoff_prover]
pub fn upsert_docs(idx: &mut KeywordIndex, docs: &Vec<KwDoc>)
    ensures
        final(idx).built == old(idx).built,
        forall|j: int| 0 <= j < docs@.len() ==> final(idx).has_doc(
            (#[trigger] docs@[j]).path@),
        forall|q: Seq<char>| !doc_path_listed(docs@, q)
            ==> (old(idx).has_doc(q) <==> final(idx).has_doc(q)),
{
    let n = docs.len();
    let mut i: usize = 0;
    while i < n
        invariant
            i <= n,
            n == docs@.len(),
            idx.built == old(idx).built,
            forall|j: int| 0 <= j < i ==> idx.has_doc((#[trigger] docs@[j]).path@),
            forall|q: Seq<char>| !doc_path_listed(docs@.take(i as int), q)
                ==> (old(idx).has_doc(q) <==> idx.has_doc(q)),
        decreases n - i,
    {
        let d = &docs[i];
        let ghost before = *idx;
        delete_path(idx, d.path.as_str());
        let ghost mid = *idx;
        idx.docs.push(KwDoc { path: d.path.clone(), text: d.text.clone() });
        proof {
            let last = idx.docs@.len() - 1;
            assert(idx.docs@[last].path@ == docs@[i as int].path@);
            assert forall|j: int| 0 <= j < i + 1
                implies idx.has_doc((#[trigger] docs@[j]).path@) by {
                if j < i && mid.has_doc(docs@[j].path@) {
                    let w = mid.idx_witness(docs@[j].path@);
                    assert(idx.docs@[w].path@ == docs@[j].path@);
                }
            }
            assert forall|q: Seq<char>| !doc_path_listed(docs@.take(i + 1), q)
                implies (old(idx).has_doc(q) <==> idx.has_doc(q)) by {
                assert(docs@.take(i + 1)[i as int] == docs@[i as int]);
                assert(q != docs@[i as int].path@);
                assert forall|j: int| 0 <= j < i
                    implies (#[trigger] docs@.take(i as int)[j]).path@ != q by {
                    assert(docs@.take(i + 1)[j] == docs@.take(i as int)[j]);
                }
                assert(!doc_path_listed(docs@.take(i as int), q));
                assert(before.has_doc(q) <==> mid.has_doc(q));
                if mid.has_doc(q) {
                    let w = mid.idx_witness(q);
                    assert(idx.docs@[w].path@ == q);
                }
                if idx.has_doc(q) {
                    let w = choose|w: int| 0 <= w < idx.docs@.len()
                        && (#[trigger] idx.docs@[w]).path@ == q;
                    assert(w < idx.docs@.len() - 1);
                    assert(mid.docs@[w].path@ == q);
                }
            }
        }
        i = i + 1;
    }
    proof {
        assert(docs@.take(n as int) =~= docs@);
    }
}

impl KeywordIndex {
    pub open spec fn idx_witness(self, p: Seq<char>) -> int {
        choose|i: int| 0 <= i < self.docs@.len() && (#[trigger] self.docs@[i]).path@ == p
    }
}

/// Deletes the documents stored under the given paths; every other path
/// keeps its document.
#[verifier::loop_isolation(false)]
pub fn delete_docs(idx: &mut KeywordIndex, paths: &Vec<String>)
    ensures
        final(idx).built == old(idx).built,
        forall|j: int| 0 <= j < paths@.len()
            ==> !final(idx).has_doc((#[trigger] paths@[j])@),
        forall|q: Seq<char>| !path_listed(paths@, q)
            ==> (old(idx).has_doc(q) <==> final(idx).has_doc(q)),
{
    let n = paths.len();
    let mut i: usize = 0;
    while i < n
        invariant
            i <= n,
            n == paths@.len(),
            idx.built == old(idx).built,
            forall|j: int| 0 <= j < i ==> !idx.has_doc((#[trigger] paths@[j])@),
            forall|q: Seq<char>| !path_listed(paths@.take(i as int), q)
                ==> (old(idx).has_doc(q) <==> idx.has_doc(q)),
        decreases n - i,
    {
        let ghost before = *idx;
        delete_path(idx, paths[i].as_str());
        proof {
            assert forall|q: Seq<char>| !path_listed(paths@.take(i + 1), q)
                implies (old(idx).has_doc(q) <==> idx.has_doc(q)) by {
                assert(paths@.take(i + 1)[i as int] == paths@[i as int]);
                assert(q != paths@[i as int]@);
                assert forall|j: int| 0 <= j < i
                    implies (#[trigger] paths@.take(i as int)[j])@ != q by {
                    assert(paths@.take(i + 1)[j] == paths@.take(i as int)[j]);
                }
                assert(!path_listed(paths@.take(i as int), q));
            }
        }
        i = i + 1;
    }
    proof {
        assert(paths@.take(n as int) =~= paths@);
    }
}

/// The paths of the documents whose text contains the query, in index
/// order.
pub open spec fn match_paths(docs: Seq<KwDoc>, query: Seq<char>) -> Seq<String>
    decreases docs.len(),
{
    if docs.len() == 0 {
        Seq::empty()
    } else {
        match_paths(docs.drop_last(), query) + (if has_substring(docs.last().text@, query) {
            seq![docs.last().path]
        } else {
            Seq::empty()
        })
    }
}

proof fn lemma_match_paths_add(a: Seq<KwDoc>, b: Seq<KwDoc>, query: Seq<char>)
    ensures
        match_paths(a + b, query) == match_paths(a, query) + match_paths(b, query),
    decreases b.len(),
{
    if b.len() == 0 {
        assert(a + b =~= a);
        assert(match_paths(a, query) + match_paths(b, query) =~= match_paths(a, query));
    } else {
        lemma_match_paths_add(a, b.drop_last(), query);
        assert((a + b).drop_last() =~= a + b.drop_last());
        assert((a + b).last() == b.last());
        if has_substring(b.last().text@, query) {
            assert(match_paths(a, query) + match_paths(b, query)
                =~= match_paths(a, query) + match_paths(b.drop_last(), query)
                    + seq![b.last().path]);
        } else {
            assert(match_paths(b, query) == match_paths(b.drop_last(), query));
        }
    }
}

/// Substring search over document text: exactly the paths of the first
/// (at most `limit`) documents whose text contains the query, in index
/// order.
#[verifier::loop_isolation(false)]
pub fn search(idx: &KeywordIndex, query: &str, limit: usize) -> (r: Vec<String>)
    ensures
        r@.len() <= limit,
        forall|i: int| 0 <= i < r@.len() ==> idx.has_doc((#[trigger] r@[i])@),
        r@ == (if match_paths(idx.docs@, query@).len() <= limit {
            match_paths(idx.docs@, query@)
        } else {
            match_paths(idx.docs@, query@).take(limit as int)
        }),
{
    let mut out: Vec<String> = Vec::new();
    let n = idx.docs.len();
    let mut i: usize = 0;
    while i < n
        invariant
            i <= n,
            n == idx.docs@.len(),
            out@.len() <= limit,
            out@ == match_paths(idx.docs@.take(i as int), query@),
            forall|k: int| 0 <= k < out@.len() ==> idx.has_doc((#[trigger] out@[k])@),
        decreases n - i,
    {
        if out.len() >= limit {
            // The limit is full: the kept prefix is the take of the full
            // match list.
            proof {
                assert(idx.docs@ =~= idx.docs@.take(i as int)
                    + idx.docs@.skip(i as int));
                lemma_match_paths_add(idx.docs@.take(i as int),
                    idx.docs@.skip(i as int), query@);
                assert(match_paths(idx.docs@, query@).take(limit as int) =~= out@);
            }
            return out;
        }
        let ghost pre = idx.docs@.take(i as int);
        proof {
            assert(idx.docs@.take(i + 1).drop_last() =~= pre);
            assert(idx.docs@.take(i + 1).last() == idx.docs@[i as int]);
        }
        let d = &idx.docs[i];
        if str_contains(d.text.as_str(), query) {
            out.push(d.path.clone());
            proof {
                assert(idx.docs@[i as int].path@ == out@.last()@);
                assert(out@ =~= match_paths(idx.docs@.take(i + 1), query@));
            }
        } else {
            proof {
                assert(out@ =~= match_paths(idx.docs@.take(i + 1), query@));
            }
        }
        i = i + 1;
    }
    proof {
        assert(idx.docs@.take(n as int) =~= idx.docs@);
    }
    out
}

} // verus!
