//! Search-side merging: the hybrid union of vector results and keyword
//! results, vector-first, de-duplicated by path.

use vstd::prelude::*;
use crate::strutil::str_eq;

verus! {

/// `p` occurs among the paths.
pub open spec fn path_in(paths: Seq<String>, p: Seq<char>) -> bool {
    exists|i: int| 0 <= i < paths.len() && (#[trigger] paths[i])@ == p
}

fn contains_path(paths: &Vec<String>, p: &str) -> (r: bool)
    ensures
        r == path_in(paths@, p@),
{
    let n = paths.len();
    let mut i: usize = 0;
    while i < n
        invariant
            i <= n,
            n == paths@.len(),
            forall|j: int| 0 <= j < i ==> (#[trigger] paths@[j])@ != p@,
        decreases n - i,
    {
        if str_eq(paths[i].as_str(), p) {
            return true;
        }
        i = i + 1;
    }
    false
}

/// The hybrid union: the vector results first and in full, then each
/// keyword path that is not already present, once, in keyword order.
#[verifier::loop_isolation(false)]
pub fn merge_hybrid(vector_paths: Vec<String>, keyword_paths: &Vec<String>)
    -> (r: Vec<String>)
    ensures
        // The vector results come first, unchanged.
        r@.len() >= vector_paths@.len(),
        forall|i: int| 0 <= i < vector_paths@.len()
            ==> r@[i] == vector_paths@[i],
        // Appended entries are keyword paths new to the result.
        forall|i: int| vector_paths@.len() <= i < r@.len()
            ==> path_in(keyword_paths@, (#[trigger] r@[i])@)
                && !path_in(vector_paths@, r@[i]@),
        // No two appended entries repeat a path.
        forall|i: int, j: int| vector_paths@.len() <= i < j < r@.len()
            ==> (#[trigger] r@[i])@ != (#[trigger] r@[j])@,
        // Every keyword path is somewhere in the result.
        forall|k: int| 0 <= k < keyword_paths@.len()
            ==> path_in(r@, (#[trigger] keyword_paths@[k])@),
{
    let ghost base = vector_paths@;
    let mut r = vector_paths;
    let n = keyword_paths.len();
    let mut k: usize = 0;
    while k < n
        invariant
            k <= n,
            n == keyword_paths@.len(),
            r@.len() >= base.len(),
            forall|i: int| 0 <= i < base.len() ==> r@[i] == base[i],
            forall|i: int| base.len() <= i < r@.len()
                ==> path_in(keyword_paths@, (#[trigger] r@[i])@)
                    && !path_in(base, r@[i]@),
            forall|i: int, j: int| base.len() <= i < j < r@.len()
                ==> (#[trigger] r@[i])@ != (#[trigger] r@[j])@,
            forall|t: int| 0 <= t < k
                ==> path_in(r@, (#[trigger] keyword_paths@[t])@),
        decreases n - k,
    {
        let p = &keyword_paths[k];
        if !contains_path(&r, p.as_str()) {
            let ghost rp = r@;
            r.push(p.clone());
            proof {
                assert(r@.last()@ == keyword_paths@[k as int]@);
                assert forall|t: int| 0 <= t < k + 1
                    implies path_in(r@, (#[trigger] keyword_paths@[t])@) by {
                    if t < k {
                        assert(path_in(rp, keyword_paths@[t]@));
                        let i = choose|i: int| 0 <= i < rp.len()
                            && (#[trigger] rp[i])@ == keyword_paths@[t]@;
                        assert(r@[i]@ == keyword_paths@[t]@);
                    } else {
                        assert(r@[r@.len() - 1]@ == keyword_paths@[t]@);
                    }
                }
                assert forall|i: int| base.len() <= i < r@.len()
                    implies path_in(keyword_paths@, (#[trigger] r@[i])@)
                        && !path_in(base, r@[i]@) by {
                    if i == r@.len() - 1 {
                        assert(keyword_paths@[k as int]@ == r@[i]@);
                        assert(!path_in(r@.subrange(0, base.len() as int), r@[i]@));
                        if path_in(base, r@[i]@) {
                            let w = choose|w: int| 0 <= w < base.len()
                                && (#[trigger] base[w])@ == r@[i]@;
                            assert(rp[w]@ == r@[i]@);
                        }
                    }
                }
            }
        }
        k = k + 1;
    }
    r
}

} // verus!
