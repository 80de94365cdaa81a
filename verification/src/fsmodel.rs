//! An in-memory model of the filesystem namespace the apply and undo
//! engines operate on: a flat map from absolute paths to file contents.
//! The engines are verified against this model; an outer layer performs
//! the same operations on the real filesystem.

use vstd::prelude::*;
use vstd::slice::slice_to_vec;
use crate::strutil::str_eq;

verus! {

pub struct FsFile {
    pub path: String,
    pub data: Vec<u8>,
}

/// A flat namespace of files; directories are implicit.
pub struct FsState {
    pub files: Vec<FsFile>,
}

impl FsState {
    /// Paths are unique.
    pub open spec fn wf(self) -> bool {
        forall|i: int, j: int| 0 <= i < j < self.files@.len()
            ==> (#[trigger] self.files@[i]).path@ != (#[trigger] self.files@[j]).path@
    }

    pub open spec fn has_path(self, p: Seq<char>) -> bool {
        exists|i: int| 0 <= i < self.files@.len() && (#[trigger] self.files@[i]).path@ == p
    }

    pub open spec fn idx_of(self, p: Seq<char>) -> int {
        choose|i: int| 0 <= i < self.files@.len() && (#[trigger] self.files@[i]).path@ == p
    }

    /// The bytes stored at `p`.
    pub open spec fn content(self, p: Seq<char>) -> Seq<u8> {
        self.files@[self.idx_of(p)].data@
    }

    /// `other` equals `self` except (at most) at path `p`.
    pub open spec fn same_except(self, other: FsState, p: Seq<char>) -> bool {
        (forall|q: Seq<char>| q != p ==> (self.has_path(q) <==> other.has_path(q)))
            && (forall|q: Seq<char>| q != p && self.has_path(q)
                ==> #[trigger] self.content(q) == other.content(q))
    }

    /// The two states hold the same files.
    pub open spec fn same_fs(self, other: FsState) -> bool {
        (forall|p: Seq<char>| self.has_path(p) <==> other.has_path(p))
            && (forall|p: Seq<char>| self.has_path(p)
                ==> #[trigger] self.content(p) == other.content(p))
    }

    pub fn new() -> (r: FsState)
        ensures
            r.wf(),
            forall|p: Seq<char>| !r.has_path(p),
    {
        FsState { files: Vec::new() }
    }

    fn find(&self, p: &str) -> (r: Option<usize>)
        requires
            self.wf(),
        ensures
            match r {
                Some(i) => i < self.files@.len() && self.files@[i as int].path@ == p@,
                None => !self.has_path(p@),
            },
    {
        let n = self.files.len();
        let mut i: usize = 0;
        while i < n
            invariant
                i <= n,
                n == self.files@.len(),
                forall|j: int| 0 <= j < i ==> (#[trigger] self.files@[j]).path@ != p@,
            decreases n - i,
        {
            if str_eq(self.files[i].path.as_str(), p) {
                return Some(i);
            }
            i = i + 1;
        }
        None
    }

    pub fn exists_path(&self, p: &str) -> (r: bool)
        requires
            self.wf(),
        ensures
            r == self.has_path(p@),
    {
        match self.find(p) {
            Some(_) => true,
            None => false,
        }
    }

    /// Reads the bytes at `p`, if present.
    pub fn read(&self, p: &str) -> (r: Option<Vec<u8>>)
        requires
            self.wf(),
        ensures
            r is Some <==> self.has_path(p@),
            r matches Some(d) ==> d@ == self.content(p@),
    {
        match self.find(p) {
            Some(i) => {
                let d = slice_to_vec(self.files[i].data.as_slice());
                proof {
                    assert(self.files@[i as int].path@ == p@);
                    assert(self.idx_of(p@) == i);
                }
                Some(d)
            }
            None => None,
        }
    }

    /// Creates or replaces the file at `p` with `data`.
    pub fn write(&mut self, p: &str, data: Vec<u8>)
        requires
            old(self).wf(),
        ensures
            final(self).wf(),
            final(self).has_path(p@),
            final(self).content(p@) == data@,
            old(self).same_except(*final(self), p@),
            old(self).files@.len() <= final(self).files@.len()
                <= old(self).files@.len() + 1,
            old(self).has_path(p@) ==> final(self).files@.len() == old(self).files@.len(),
    {
        let ghost dv = data@;
        let ghost pre = *self;
        let found = self.find(p);
        match found {
            Some(i) => {
                proof {
                    assert(pre.files@[i as int].path@ == p@);
                }
                let old_file = self.files.remove(i);
                self.files.push(FsFile { path: old_file.path, data });
            }
            None => {
                let owned = p.to_owned();
                self.files.push(FsFile { path: owned, data });
            }
        }
        proof {
            let fin = *self;
            let last = fin.files@.len() - 1;
            assert(fin.files@[last].path@ == p@);
            assert(fin.has_path(p@));
            // Every non-final slot corresponds to a slot of the old state
            // whose path is not `p`.
            assert forall|j: int| 0 <= j < last implies fin.files@[j].path@ != p@
                && pre.has_path(#[trigger] fin.files@[j].path@)
                && pre.content(fin.files@[j].path@) == fin.files@[j].data@ by {
                match found {
                    Some(i) => {
                        let w: int = if j < i { j } else { j + 1 };
                        assert(fin.files@[j] == pre.files@[w]);
                        assert(pre.files@[w].path@ != p@);
                        assert(pre.idx_of(fin.files@[j].path@) == w);
                    }
                    None => {
                        assert(fin.files@[j] == pre.files@[j]);
                        assert(pre.idx_of(fin.files@[j].path@) == j);
                    }
                }
            }
            assert(fin.wf());
            assert(fin.idx_of(p@) == last);
            assert(fin.content(p@) == dv);
            assert forall|q: Seq<char>| q != p@
                implies (pre.has_path(q) <==> fin.has_path(q)) by {
                if pre.has_path(q) {
                    let w = pre.idx_of(q);
                    match found {
                        Some(i) => {
                            let v: int = if w < i { w } else { w - 1 };
                            assert(fin.files@[v].path@ == q);
                        }
                        None => {
                            assert(fin.files@[w].path@ == q);
                        }
                    }
                }
                if fin.has_path(q) {
                    let w = fin.idx_of(q);
                    assert(w < last);
                }
            }
            assert forall|q: Seq<char>| q != p@ && pre.has_path(q)
                implies pre.content(q) == fin.content(q) by {
                let v = fin.idx_of(q);
                assert(fin.files@[v].path@ == q);
                assert(v < last);
            }
        }
    }

    /// Removes the file at `p`; returns whether it was present.
    pub fn remove_path(&mut self, p: &str) -> (r: bool)
        requires
            old(self).wf(),
        ensures
            final(self).wf(),
            r == old(self).has_path(p@),
            !final(self).has_path(p@),
            old(self).same_except(*final(self), p@),
            final(self).files@.len() <= old(self).files@.len(),
            old(self).has_path(p@)
                ==> final(self).files@.len() == old(self).files@.len() - 1,
    {
        let ghost pre = *self;
        match self.find(p) {
            Some(i) => {
                proof {
                    assert(pre.files@[i as int].path@ == p@);
                }
                let _ = self.files.remove(i);
                proof {
                    let fin = *self;
                    assert forall|j: int| 0 <= j < fin.files@.len()
                        implies (#[trigger] fin.files@[j]).path@ != p@
                        && pre.has_path(fin.files@[j].path@)
                        && pre.content(fin.files@[j].path@) == fin.files@[j].data@ by {
                        let w: int = if j < i { j } else { j + 1 };
                        assert(fin.files@[j] == pre.files@[w]);
                        assert(pre.files@[w].path@ != p@);
                        assert(pre.idx_of(fin.files@[j].path@) == w);
                    }
                    assert(fin.wf());
                    assert(!fin.has_path(p@));
                    assert forall|q: Seq<char>| q != p@
                        implies (pre.has_path(q) <==> fin.has_path(q)) by {
                        if pre.has_path(q) {
                            let w = pre.idx_of(q);
                            assert(w != i);
                            let v: int = if w < i { w } else { w - 1 };
                            assert(fin.files@[v].path@ == q);
                        }
                    }
                    assert forall|q: Seq<char>| q != p@ && pre.has_path(q)
                        implies pre.content(q) == fin.content(q) by {
                        let v = fin.idx_of(q);
                        assert(fin.files@[v].path@ == q);
                    }
                }
                true
            }
            None => {
                false
            }
        }
    }
}

} // verus!
