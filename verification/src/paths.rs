//! Path safety gates: allow/deny prefix lists, hidden-file detection and
//! prefix enumeration for index payloads.

use vstd::prelude::*;
use crate::strutil::{is_prefix, norm_char, str_starts_with};

verus! {

/// Allow and deny prefix lists; deny always overrides, and a non-empty
/// allow list admits only paths under one of its prefixes.
pub struct AllowDeny {
    pub allow: Vec<String>,
    pub deny: Vec<String>,
}

/// What it means for a path to pass the allow/deny gate.
pub open spec fn allowed(path: Seq<char>, allow: Seq<String>, deny: Seq<String>) -> bool {
    (forall|i: int| 0 <= i < deny.len() ==> !is_prefix((#[trigger] deny[i])@, path))
        && (allow.len() == 0 || exists|i: int|
        0 <= i < allow.len() && is_prefix((#[trigger] allow[i])@, path))
}

/// Returns true if the path is allowed given the allow/deny lists: a
/// denied prefix always wins; with a non-empty allow list the path must
/// sit under at least one allowed prefix.
#[verifier::loop_isolation(false)]
pub fn is_allowed(path: &str, allow: &Vec<String>, deny: &Vec<String>) -> (r: bool)
    ensures
        r == allowed(path@, allow@, deny@),
{
    let nd = deny.len();
    let mut i: usize = 0;
    while i < nd
        invariant
            i <= nd,
            forall|j: int| 0 <= j < i ==> !is_prefix((#[trigger] deny@[j])@, path@),
        decreases nd - i,
    {
        if str_starts_with(path, deny[i].as_str()) {
            return false;
        }
        i = i + 1;
    }
    if allow.len() == 0 {
        return true;
    }
    let na = allow.len();
    let mut k: usize = 0;
    while k < na
        invariant
            k <= na,
            forall|j: int| 0 <= j < k ==> !is_prefix((#[trigger] allow@[j])@, path@),
        decreases na - k,
    {
        if str_starts_with(path, allow[k].as_str()) {
            return true;
        }
        k = k + 1;
    }
    false
}

/// A file is hidden when the component after the last separator starts
/// with a dot.
pub open spec fn hidden_path(path: Seq<char>) -> bool {
    exists|i: int| #![trigger path[i]]
        0 <= i < path.len() && path[i] == '.'
        && (i == 0 || path[i - 1] == '/')
        && (forall|j: int| i < j < path.len() ==> path[j] != '/')
}

/// Returns true if the path's file name starts with a dot.
#[verifier::loop_isolation(false)]
pub fn is_hidden(path: &str) -> (r: bool)
    ensures
        r == hidden_path(path@),
{
    let n = path.unicode_len();
    if n == 0 {
        return false;
    }
    // Find the start of the file name: one past the last '/'.
    let mut start: usize = n;
    while start > 0
        invariant
            start <= n,
            n == path@.len(),
            forall|j: int| start <= j < n ==> path@[j] != '/',
        decreases start,
    {
        if path.get_char(start - 1) == '/' {
            break;
        }
        start = start - 1;
    }
    proof {
        if start > 0 {
            assert(path@[start - 1] == '/');
        }
    }
    if start < n && path.get_char(start) == '.' {
        assert(hidden_path(path@)) by {
            assert(path@[start as int] == '.');
        }
        true
    } else {
        assert(!hidden_path(path@)) by {
            if hidden_path(path@) {
                let w = choose|i: int| #![trigger path@[i]]
                    0 <= i < path@.len() && path@[i] == '.'
                    && (i == 0 || path@[i - 1] == '/')
                    && (forall|j: int| i < j < path@.len() ==> path@[j] != '/');
                assert(w == start);
            }
        }
        false
    }
}

/// The `/`-joined ancestor prefixes of a normalized path, shortest first,
/// together with whether the last character sat inside a component.
/// Separators delimit components; empty components collapse; each
/// component extends the previous prefix by `/` and the component text.
pub open spec fn prefix_fold(norm: Seq<char>) -> (Seq<Seq<char>>, bool)
    decreases norm.len(),
{
    if norm.len() == 0 {
        (Seq::empty(), false)
    } else {
        let (ps, in_comp) = prefix_fold(norm.drop_last());
        let c = norm.last();
        if c == '/' {
            (ps, false)
        } else if in_comp {
            (ps.update(ps.len() - 1, ps.last().push(c)), true)
        } else {
            let base: Seq<char> = if ps.len() == 0 {
                Seq::empty()
            } else {
                ps.last()
            };
            (ps.push(base.push('/').push(c)), true)
        }
    }
}

/// Inside a component the prefix list is non-empty.
proof fn lemma_prefix_fold_in_comp(norm: Seq<char>)
    ensures
        prefix_fold(norm).1 ==> prefix_fold(norm).0.len() >= 1,
    decreases norm.len(),
{
    if norm.len() > 0 {
        lemma_prefix_fold_in_comp(norm.drop_last());
    }
}

/// The ancestor prefixes of the lowercased, slash-normalized path:
/// for `/A/b/c`, the sequence `/a`, `/a/b`, `/a/b/c`.
#[verifier::loop_isolation(false)]
pub fn path_prefixes(path: &str) -> (result: Vec<String>)
    ensures
        result@.len() == prefix_fold(path@.map(|i: int, c: char| norm_char(c))).0.len(),
        forall|j: int| 0 <= j < result@.len()
            ==> (#[trigger] result@[j])@
                == prefix_fold(path@.map(|i: int, c: char| norm_char(c))).0[j],
{
    let norm = crate::strutil::normalize_path(path);
    let ghost nv = path@.map(|i: int, c: char| norm_char(c));
    let n = norm.unicode_len();
    let mut out: Vec<String> = Vec::new();
    let mut in_comp: bool = false;
    let mut i: usize = 0;
    while i < n
        invariant
            i <= n,
            n == nv.len(),
            norm@ == nv,
            out@.map(|j: int, s: String| s@) =~= prefix_fold(nv.take(i as int)).0,
            in_comp == prefix_fold(nv.take(i as int)).1,
        decreases n - i,
    {
        let ghost pre = nv.take(i as int);
        proof {
            assert(nv.take(i + 1).drop_last() =~= pre);
            assert(nv.take(i + 1).last() == nv[i as int]);
        }
        let c = norm.as_str().get_char(i);
        if c == '/' {
            in_comp = false;
        } else if in_comp {
            proof {
                lemma_prefix_fold_in_comp(pre);
            }
            let last = out.pop();
            match last {
                Some(mut s) => {
                    crate::strutil::push_char(&mut s, c);
                    out.push(s);
                }
                None => {
                    assert(false);
                }
            }
        } else {
            let mut base: String = if out.len() == 0 {
                String::new()
            } else {
                let bl = out.len();
                out[bl - 1].clone()
            };
            crate::strutil::push_char(&mut base, '/');
            crate::strutil::push_char(&mut base, c);
            out.push(base);
            in_comp = true;
        }
        i = i + 1;
        assert(out@.map(|j: int, s: String| s@) =~= prefix_fold(nv.take(i as int)).0);
    }
    assert(nv.take(n as int) =~= nv);
    out
}

} // verus!
