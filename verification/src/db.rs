//! The relational state the engine keeps: file records, chunks,
//! metadata, tags, rules, planned actions, the dirty queue and the audit
//! log, modeled as in-memory tables with their uniqueness invariants.

use vstd::prelude::*;
use crate::apply::ActionPayload;
use crate::rules as rulemod;
use crate::scanner::ScannedItem;
use crate::strutil::str_eq;

verus! {

/// A file row: unique by path, carrying identity hashes and scan state.
pub enum FileStatus {
    New,
    Seen,
    Gone,
}

pub struct File {
    pub id: i64,
    pub path: String,
    pub size: i64,
    pub mtime: i64,
    pub ctime: i64,
    pub hash: Option<String>,
    pub fast_hash: Option<String>,
    pub full_hash: Option<String>,
    pub mime: Option<String>,
    pub ext: Option<String>,
    pub status: FileStatus,
    pub first_seen: i64,
    pub last_seen: i64,
}

pub struct Metadata {
    pub id: i64,
    pub file_id: i64,
    pub key: String,
    pub value: Option<String>,
    pub source: Option<String>,
    pub updated_at: i64,
}

/// A chunk row: unique by `(file_id, hash)`.
pub struct Chunk {
    pub id: i64,
    pub file_id: i64,
    pub hash: String,
    pub start: i64,
    pub end: i64,
    pub text_preview: Option<String>,
}

pub struct Tag {
    pub id: i64,
    pub name: String,
}

/// Confidence is carried in per-mille (0 ..= 1000).
pub struct FileTag {
    pub file_id: i64,
    pub tag_id: i64,
    pub confidence: u32,
    pub source: Option<String>,
    pub updated_at: i64,
}

/// A stored rule, unique by name.
pub struct Rule {
    pub id: i64,
    pub name: String,
    pub condition: rulemod::Condition,
    pub actions: Vec<rulemod::Action>,
    pub priority: i64,
    pub enabled: i64,
}

pub enum ActionStatus {
    Planned,
    Executed,
    Error,
}

/// A planned unit of change with its three-state lifecycle.
pub struct Action {
    pub id: i64,
    pub file_id: i64,
    pub kind: String,
    pub payload: ActionPayload,
    pub status: ActionStatus,
    pub error: Option<String>,
    pub created_at: i64,
    pub executed_at: Option<i64>,
    pub undo_token: Option<String>,
    pub backup_path: Option<String>,
}

/// What an audit row records.
pub enum AuditDetail {
    Text(String),
    Purge {
        paths: Vec<String>,
        hashes: Vec<String>,
        vector_ids: Vec<String>,
        attempted_docs: i64,
        attempted_vectors: i64,
    },
}

pub struct Audit {
    pub id: i64,
    pub action_id: Option<i64>,
    pub event: String,
    pub detail: Option<AuditDetail>,
    pub created_at: i64,
}

pub struct Dirty {
    pub path: String,
    pub reason: Option<String>,
    pub updated_at: i64,
}

/// The engine's persistent state.
pub struct Database {
    pub files: Vec<File>,
    pub metadata: Vec<Metadata>,
    pub chunks: Vec<Chunk>,
    pub tags: Vec<Tag>,
    pub file_tags: Vec<FileTag>,
    pub rules: Vec<Rule>,
    pub actions: Vec<Action>,
    pub audit: Vec<Audit>,
    pub dirty: Vec<Dirty>,
    pub next_file_id: i64,
    pub next_chunk_id: i64,
    pub next_tag_id: i64,
    pub next_action_id: i64,
    pub next_audit_id: i64,
    pub next_metadata_id: i64,
}

impl Database {
    pub open spec fn files_wf(self) -> bool {
        &&& forall|i: int, j: int| 0 <= i < j < self.files@.len()
            ==> (#[trigger] self.files@[i]).path@ != (#[trigger] self.files@[j]).path@
        &&& forall|i: int, j: int| 0 <= i < j < self.files@.len()
            ==> (#[trigger] self.files@[i]).id != (#[trigger] self.files@[j]).id
        &&& forall|i: int| 0 <= i < self.files@.len()
            ==> (#[trigger] self.files@[i]).id < self.next_file_id
    }

    pub open spec fn chunks_wf(self) -> bool {
        &&& forall|i: int, j: int| 0 <= i < j < self.chunks@.len()
            ==> !((#[trigger] self.chunks@[i]).file_id == (#[trigger] self.chunks@[j]).file_id
                && self.chunks@[i].hash@ == self.chunks@[j].hash@)
        &&& forall|i: int, j: int| 0 <= i < j < self.chunks@.len()
            ==> (#[trigger] self.chunks@[i]).id != (#[trigger] self.chunks@[j]).id
        &&& forall|i: int| 0 <= i < self.chunks@.len()
            ==> (#[trigger] self.chunks@[i]).id < self.next_chunk_id
    }

    pub open spec fn tags_wf(self) -> bool {
        &&& forall|i: int, j: int| 0 <= i < j < self.tags@.len()
            ==> (#[trigger] self.tags@[i]).name@ != (#[trigger] self.tags@[j]).name@
        &&& forall|i: int, j: int| 0 <= i < j < self.tags@.len()
            ==> (#[trigger] self.tags@[i]).id != (#[trigger] self.tags@[j]).id
        &&& forall|i: int| 0 <= i < self.tags@.len()
            ==> (#[trigger] self.tags@[i]).id < self.next_tag_id
    }

    pub open spec fn file_tags_wf(self) -> bool {
        forall|i: int, j: int| 0 <= i < j < self.file_tags@.len()
            ==> !((#[trigger] self.file_tags@[i]).file_id
                == (#[trigger] self.file_tags@[j]).file_id
                && self.file_tags@[i].tag_id == self.file_tags@[j].tag_id)
    }

    pub open spec fn actions_wf(self) -> bool {
        &&& forall|i: int, j: int| 0 <= i < j < self.actions@.len()
            ==> (#[trigger] self.actions@[i]).id != (#[trigger] self.actions@[j]).id
        &&& forall|i: int| 0 <= i < self.actions@.len()
            ==> (#[trigger] self.actions@[i]).id < self.next_action_id
    }

    pub open spec fn dirty_wf(self) -> bool {
        forall|i: int, j: int| 0 <= i < j < self.dirty@.len()
            ==> (#[trigger] self.dirty@[i]).path@ != (#[trigger] self.dirty@[j]).path@
    }

    pub open spec fn wf(self) -> bool {
        &&& self.files_wf()
        &&& self.chunks_wf()
        &&& self.tags_wf()
        &&& self.file_tags_wf()
        &&& self.actions_wf()
        &&& self.dirty_wf()
    }

    pub fn new() -> (r: Database)
        ensures
            r.wf(),
            r.files@.len() == 0,
            r.chunks@.len() == 0,
            r.tags@.len() == 0,
            r.file_tags@.len() == 0,
            r.rules@.len() == 0,
            r.actions@.len() == 0,
            r.audit@.len() == 0,
            r.dirty@.len() == 0,
            r.metadata@.len() == 0,
            r.next_file_id == 1,
            r.next_chunk_id == 1,
            r.next_tag_id == 1,
            r.next_action_id == 1,
            r.next_audit_id == 1,
    {
        Database {
            files: Vec::new(),
            metadata: Vec::new(),
            chunks: Vec::new(),
            tags: Vec::new(),
            file_tags: Vec::new(),
            rules: Vec::new(),
            actions: Vec::new(),
            audit: Vec::new(),
            dirty: Vec::new(),
            next_file_id: 1,
            next_chunk_id: 1,
            next_tag_id: 1,
            next_action_id: 1,
            next_audit_id: 1,
            next_metadata_id: 1,
        }
    }

    pub open spec fn has_file_path(self, p: Seq<char>) -> bool {
        exists|i: int| 0 <= i < self.files@.len() && (#[trigger] self.files@[i]).path@ == p
    }

    pub open spec fn file_idx(self, p: Seq<char>) -> int {
        choose|i: int| 0 <= i < self.files@.len() && (#[trigger] self.files@[i]).path@ == p
    }

    pub open spec fn has_file_id(self, id: i64) -> bool {
        exists|i: int| 0 <= i < self.files@.len() && (#[trigger] self.files@[i]).id == id
    }

    pub open spec fn file_idx_by_id(self, id: i64) -> int {
        choose|i: int| 0 <= i < self.files@.len() && (#[trigger] self.files@[i]).id == id
    }

    pub open spec fn has_dirty(self, p: Seq<char>) -> bool {
        exists|i: int| 0 <= i < self.dirty@.len() && (#[trigger] self.dirty@[i]).path@ == p
    }

    pub open spec fn dirty_idx(self, p: Seq<char>) -> int {
        choose|i: int| 0 <= i < self.dirty@.len() && (#[trigger] self.dirty@[i]).path@ == p
    }

    /// The dirty queue of `post` equals that of `pre` with `(p, reason)`
    /// set at `now`.
    pub open spec fn dirty_upserted(
        pre: Database,
        post: Database,
        p: Seq<char>,
        reason: Seq<char>,
        now: i64,
    ) -> bool {
        &&& post.has_dirty(p)
        &&& post.dirty@[post.dirty_idx(p)].reason matches Some(re) && re@ == reason
        &&& post.dirty@[post.dirty_idx(p)].updated_at == now
        &&& forall|q: Seq<char>| q != p ==> (pre.has_dirty(q) <==> post.has_dirty(q))
        &&& forall|q: Seq<char>| q != p && pre.has_dirty(q)
            ==> #[trigger] pre.dirty@[pre.dirty_idx(q)] == post.dirty@[post.dirty_idx(q)]
    }

    /// Two states with the same dirty table agree on lookups into it.
    pub proof fn lemma_same_dirty_idx(a: Database, b: Database, q: Seq<char>)
        requires
            a.dirty@ == b.dirty@,
            a.dirty_wf(),
            a.has_dirty(q),
        ensures
            b.has_dirty(q),
            a.dirty_idx(q) == b.dirty_idx(q),
            a.dirty@[a.dirty_idx(q)] == b.dirty@[b.dirty_idx(q)],
    {
        let w1 = a.dirty_idx(q);
        assert(a.dirty@[w1].path@ == q);
        assert(b.dirty@[w1].path@ == q);
        assert(b.has_dirty(q));
        let w2 = b.dirty_idx(q);
        assert(b.dirty@[w2].path@ == q);
        assert(a.dirty@[w2].path@ == q);
        if w1 < w2 {
            assert(a.dirty@[w1].path@ != a.dirty@[w2].path@);
        } else if w2 < w1 {
            assert(a.dirty@[w2].path@ != a.dirty@[w1].path@);
        }
    }

    fn find_dirty(&self, p: &str) -> (r: Option<usize>)
        requires
            self.dirty_wf(),
        ensures
            match r {
                Some(i) => i < self.dirty@.len() && self.dirty@[i as int].path@ == p@,
                None => !self.has_dirty(p@),
            },
    {
        let n = self.dirty.len();
        let mut i: usize = 0;
        while i < n
            invariant
                i <= n,
                n == self.dirty@.len(),
                forall|j: int| 0 <= j < i ==> (#[trigger] self.dirty@[j]).path@ != p@,
            decreases n - i,
        {
            if str_eq(self.dirty[i].path.as_str(), p) {
                return Some(i);
            }
            i = i + 1;
        }
        None
    }

    /// Sets the dirty mark for `p`, replacing any earlier mark.
    pub fn mark_dirty(&mut self, p: &str, reason: &str, now: i64)
        requires
            old(self).wf(),
        ensures
            final(self).wf(),
            Self::dirty_upserted(*old(self), *final(self), p@, reason@, now),
            final(self).files == old(self).files,
            final(self).metadata == old(self).metadata,
            final(self).chunks == old(self).chunks,
            final(self).tags == old(self).tags,
            final(self).file_tags == old(self).file_tags,
            final(self).rules == old(self).rules,
            final(self).actions == old(self).actions,
            final(self).audit == old(self).audit,
            final(self).next_file_id == old(self).next_file_id,
            final(self).next_chunk_id == old(self).next_chunk_id,
            final(self).next_tag_id == old(self).next_tag_id,
            final(self).next_action_id == old(self).next_action_id,
    {
        let ghost pre = *self;
        let found = self.find_dirty(p);
        let row = Dirty { path: p.to_owned(), reason: Some(reason.to_owned()), updated_at: now };
        match found {
            Some(i) => {
                proof {
                    assert(pre.dirty@[i as int].path@ == p@);
                }
                let _ = self.dirty.remove(i);
                self.dirty.push(row);
            }
            None => {
                self.dirty.push(row);
            }
        }
        proof {
            let fin = *self;
            let last = fin.dirty@.len() - 1;
            assert(fin.dirty@[last].path@ == p@);
            assert forall|j: int| 0 <= j < last implies fin.dirty@[j].path@ != p@
                && pre.has_dirty(#[trigger] fin.dirty@[j].path@)
                && pre.dirty@[pre.dirty_idx(fin.dirty@[j].path@)] == fin.dirty@[j] by {
                match found {
                    Some(i) => {
                        let w: int = if j < i { j } else { j + 1 };
                        assert(fin.dirty@[j] == pre.dirty@[w]);
                        assert(pre.dirty@[w].path@ != p@);
                        assert(pre.dirty_idx(fin.dirty@[j].path@) == w);
                    }
                    None => {
                        assert(fin.dirty@[j] == pre.dirty@[j]);
                        assert(pre.dirty_idx(fin.dirty@[j].path@) == j);
                    }
                }
            }
            assert(fin.dirty_wf());
            assert(fin.dirty_idx(p@) == last);
            assert forall|q: Seq<char>| q != p@
                implies (pre.has_dirty(q) <==> fin.has_dirty(q)) by {
                if pre.has_dirty(q) {
                    let w = pre.dirty_idx(q);
                    match found {
                        Some(i) => {
                            let v: int = if w < i { w } else { w - 1 };
                            assert(fin.dirty@[v].path@ == q);
                        }
                        None => {
                            assert(fin.dirty@[w].path@ == q);
                        }
                    }
                }
                if fin.has_dirty(q) {
                    let w = fin.dirty_idx(q);
                    assert(w < last);
                }
            }
            assert forall|q: Seq<char>| q != p@ && pre.has_dirty(q)
                implies #[trigger] pre.dirty@[pre.dirty_idx(q)]
                    == fin.dirty@[fin.dirty_idx(q)] by {
                let v = fin.dirty_idx(q);
                assert(fin.dirty@[v].path@ == q);
                assert(v < last);
            }
        }
    }

    /// Drops the dirty mark for `p`, if set.
    pub fn clear_dirty(&mut self, p: &str)
        requires
            old(self).wf(),
        ensures
            final(self).wf(),
            !final(self).has_dirty(p@),
            forall|q: Seq<char>| q != p@
                ==> (old(self).has_dirty(q) <==> final(self).has_dirty(q)),
            forall|q: Seq<char>| q != p@ && old(self).has_dirty(q)
                ==> #[trigger] old(self).dirty@[old(self).dirty_idx(q)]
                    == final(self).dirty@[final(self).dirty_idx(q)],
            final(self).files == old(self).files,
            final(self).metadata == old(self).metadata,
            final(self).chunks == old(self).chunks,
            final(self).tags == old(self).tags,
            final(self).file_tags == old(self).file_tags,
            final(self).rules == old(self).rules,
            final(self).actions == old(self).actions,
            final(self).audit == old(self).audit,
            final(self).next_file_id == old(self).next_file_id,
            final(self).next_chunk_id == old(self).next_chunk_id,
            final(self).next_tag_id == old(self).next_tag_id,
            final(self).next_action_id == old(self).next_action_id,
    {
        let ghost pre = *self;
        match self.find_dirty(p) {
            Some(i) => {
                proof {
                    assert(pre.dirty@[i as int].path@ == p@);
                }
                let _ = self.dirty.remove(i);
                proof {
                    let fin = *self;
                    assert forall|j: int| 0 <= j < fin.dirty@.len()
                        implies (#[trigger] fin.dirty@[j]).path@ != p@
                        && pre.has_dirty(fin.dirty@[j].path@)
                        && pre.dirty@[pre.dirty_idx(fin.dirty@[j].path@)]
                            == fin.dirty@[j] by {
                        let w: int = if j < i { j } else { j + 1 };
                        assert(fin.dirty@[j] == pre.dirty@[w]);
                        assert(pre.dirty@[w].path@ != p@);
                        assert(pre.dirty_idx(fin.dirty@[j].path@) == w);
                    }
                    assert(!fin.has_dirty(p@));
                    assert forall|q: Seq<char>| q != p@
                        implies (pre.has_dirty(q) <==> fin.has_dirty(q)) by {
                        if pre.has_dirty(q) {
                            let w = pre.dirty_idx(q);
                            assert(w != i);
                            let v: int = if w < i { w } else { w - 1 };
                            assert(fin.dirty@[v].path@ == q);
                        }
                    }
                    assert forall|q: Seq<char>| q != p@ && pre.has_dirty(q)
                        implies #[trigger] pre.dirty@[pre.dirty_idx(q)]
                            == fin.dirty@[fin.dirty_idx(q)] by {
                        let v = fin.dirty_idx(q);
                        assert(fin.dirty@[v].path@ == q);
                    }
                }
            }
            None => {}
        }
    }

    #[verifier::loop_isolation(false)]
    fn find_file_by_path(&self, p: &str) -> (r: Option<usize>)
        requires
            self.files_wf(),
        ensures
            match r {
                Some(i) => i < self.files@.len() && self.files@[i as int].path@ == p@
                    && self.file_idx(p@) == i,
                None => !self.has_file_path(p@),
            },
    {
        let n = self.files.len();
        let mut i: usize = 0;
        while i < n
            invariant
                i <= n,
                n == self.files@.len(),
                forall|j: int| 0 <= j < i ==> (#[trigger] self.files@[j]).path@ != p@,
            decreases n - i,
        {
            if str_eq(self.files[i].path.as_str(), p) {
                proof {
                    assert(self.files@[i as int].path@ == p@);
                    let w = self.file_idx(p@);
                    assert(self.files@[w].path@ == p@);
                    if w < i as int {
                        assert(self.files@[w].path@ != self.files@[i as int].path@);
                    } else if w > i as int {
                        assert(self.files@[i as int].path@ != self.files@[w].path@);
                    }
                }
                return Some(i);
            }
            i = i + 1;
        }
        None
    }

    pub fn file_id_of(&self, p: &str) -> (r: Option<i64>)
        requires
            self.files_wf(),
        ensures
            r is Some <==> self.has_file_path(p@),
            r matches Some(id) ==> self.files@[self.file_idx(p@)].id == id,
    {
        match self.find_file_by_path(p) {
            Some(i) => Some(self.files[i].id),
            None => None,
        }
    }

    /// The stored hash text: the empty string when no hash is stored.
    pub open spec fn hash_text(h: Option<String>) -> Seq<char> {
        match h {
            Some(s) => s@,
            None => Seq::empty(),
        }
    }

    /// Whether the scanned item differs from the stored row in size,
    /// mtime or hash.
    pub open spec fn scan_differs(row: File, item: ScannedItem) -> bool {
        row.size != item.size || row.mtime != item.mtime
            || Self::hash_text(row.hash) != Self::hash_text(item.hash)
    }

    /// Upserts a scanned item into the file table: a new path inserts a
    /// fresh `new` row; a changed row updates size, mtime, hash, last
    /// seen and status `seen`; either way the path is marked dirty with
    /// reason `rescan`.  An unchanged row is left alone.  Returns whether
    /// anything changed.
    #[verifier::loop_isolation(false)]
    pub fn upsert_file(&mut self, item: &ScannedItem, now: i64) -> (r: bool)
        requires
            old(self).wf(),
            old(self).next_file_id < i64::MAX,
        ensures
            final(self).wf(),
            !old(self).has_file_path(item.path@) ==> ({
                &&& r
                &&& final(self).files@.len() == old(self).files@.len() + 1
                &&& final(self).files@ == old(self).files@.push(
                    final(self).files@.last())
                &&& ({
                    let row = final(self).files@.last();
                    row.id == old(self).next_file_id && row.path@ == item.path@
                        && row.size == item.size && row.mtime == item.mtime
                        && row.ctime == item.mtime
                        && Self::hash_text(row.hash) == Self::hash_text(item.hash)
                        && (row.ext is Some <==> crate::apply::ext_opt(item.path@) is Some)
                        && (row.ext matches Some(e)
                            ==> crate::apply::ext_opt(item.path@) == Some(e@))
                        && row.status is New && row.first_seen == now
                        && row.last_seen == now
                })
                &&& Self::dirty_upserted(*old(self), *final(self), item.path@, "rescan"@, now)
            }),
            old(self).has_file_path(item.path@)
                && Self::scan_differs(old(self).files@[old(self).file_idx(item.path@)],
                    *item) ==> ({
                let i = old(self).file_idx(item.path@);
                let pre_row = old(self).files@[i];
                &&& r
                &&& final(self).files@ == old(self).files@.update(i,
                    final(self).files@[i])
                &&& ({
                    let row = final(self).files@[i];
                    row.id == pre_row.id && row.path@ == pre_row.path@
                        && row.size == item.size && row.mtime == item.mtime
                        && row.ctime == pre_row.ctime
                        && Self::hash_text(row.hash) == Self::hash_text(item.hash)
                        && row.fast_hash == pre_row.fast_hash
                        && row.full_hash == pre_row.full_hash
                        && row.mime == pre_row.mime && row.ext == pre_row.ext
                        && row.status is Seen && row.first_seen == pre_row.first_seen
                        && row.last_seen == now
                })
                &&& Self::dirty_upserted(*old(self), *final(self), item.path@, "rescan"@, now)
            }),
            old(self).has_file_path(item.path@)
                && !Self::scan_differs(old(self).files@[old(self).file_idx(item.path@)],
                    *item) ==> (!r && *final(self) == *old(self)),
            final(self).chunks == old(self).chunks,
            final(self).metadata == old(self).metadata,
            final(self).tags == old(self).tags,
            final(self).file_tags == old(self).file_tags,
            final(self).rules == old(self).rules,
            final(self).actions == old(self).actions,
            final(self).audit == old(self).audit,
    {
        proof {
            reveal_strlit("");
            assert(""@ =~= Seq::<char>::empty());
        }
        let found = self.find_file_by_path(item.path.as_str());
        match found {
            Some(i) => {
                let differs = {
                    let row = &self.files[i];
                    let hash_differs: bool = match (&row.hash, &item.hash) {
                        (Some(a), Some(b)) => !str_eq(a.as_str(), b.as_str()),
                        (Some(a), None) => !str_eq(a.as_str(), ""),
                        (None, Some(b)) => !str_eq("", b.as_str()),
                        (None, None) => false,
                    };
                    row.size != item.size || row.mtime != item.mtime || hash_differs
                };
                if differs {
                    let mut row = self.files.remove(i);
                    row.size = item.size;
                    row.mtime = item.mtime;
                    row.hash = clone_opt_string(&item.hash);
                    row.status = FileStatus::Seen;
                    row.last_seen = now;
                    self.files.insert(i, row);
                    proof {
                        assert(self.files@ =~= old(self).files@.update(i as int,
                            self.files@[i as int]));
                        assert(self.files_wf());
                    }
                    let ghost mid = *self;
                    self.mark_dirty(item.path.as_str(), "rescan", now);
                    proof {
                        assert forall|q: Seq<char>| q != item.path@
                            && old(self).has_dirty(q)
                            implies #[trigger] old(self).dirty@[old(self).dirty_idx(q)]
                                == self.dirty@[self.dirty_idx(q)] by {
                            Database::lemma_same_dirty_idx(*old(self), mid, q);
                        }
                        assert forall|q: Seq<char>| q != item.path@
                            implies (old(self).has_dirty(q) <==> self.has_dirty(q)) by {
                            if old(self).has_dirty(q) {
                                Database::lemma_same_dirty_idx(*old(self), mid, q);
                            }
                            if mid.has_dirty(q) {
                                Database::lemma_same_dirty_idx(mid, *old(self), q);
                            }
                        }
                    }
                    true
                } else {
                    false
                }
            }
            None => {
                let ext = crate::apply::path_ext(&item.path);
                let row = File {
                    id: self.next_file_id,
                    path: item.path.clone(),
                    size: item.size,
                    mtime: item.mtime,
                    ctime: item.mtime,
                    hash: clone_opt_string(&item.hash),
                    fast_hash: None,
                    full_hash: None,
                    mime: None,
                    ext,
                    status: FileStatus::New,
                    first_seen: now,
                    last_seen: now,
                };
                self.files.push(row);
                self.next_file_id = self.next_file_id + 1;
                let ghost mid = *self;
                self.mark_dirty(item.path.as_str(), "rescan", now);
                proof {
                    assert forall|q: Seq<char>| q != item.path@
                        && old(self).has_dirty(q)
                        implies #[trigger] old(self).dirty@[old(self).dirty_idx(q)]
                            == self.dirty@[self.dirty_idx(q)] by {
                        Database::lemma_same_dirty_idx(*old(self), mid, q);
                    }
                    assert forall|q: Seq<char>| q != item.path@
                        implies (old(self).has_dirty(q) <==> self.has_dirty(q)) by {
                        if old(self).has_dirty(q) {
                            Database::lemma_same_dirty_idx(*old(self), mid, q);
                        }
                        if mid.has_dirty(q) {
                            Database::lemma_same_dirty_idx(mid, *old(self), q);
                        }
                    }
                }
                true
            }
        }
    }

    /// Looks the tag up by name, creating it when missing; returns its id.
    #[verifier::loop_isolation(false)]
    pub fn ensure_tag(&mut self, name: &str) -> (r: i64)
        requires
            old(self).wf(),
            old(self).next_tag_id < i64::MAX,
        ensures
            final(self).wf(),
            final(self).has_tag_name(name@),
            final(self).tags@[final(self).tag_idx(name@)].id == r,
            old(self).has_tag_name(name@) ==> *final(self) == *old(self),
            !old(self).has_tag_name(name@) ==> final(self).tags@
                == old(self).tags@.push(Tag { id: old(self).next_tag_id,
                    name: final(self).tags@.last().name })
                && final(self).tags@.last().name@ == name@
                && r == old(self).next_tag_id,
            final(self).files == old(self).files,
            final(self).chunks == old(self).chunks,
            final(self).metadata == old(self).metadata,
            final(self).file_tags == old(self).file_tags,
            final(self).rules == old(self).rules,
            final(self).actions == old(self).actions,
            final(self).audit == old(self).audit,
            final(self).dirty == old(self).dirty,
    {
        let n = self.tags.len();
        let mut i: usize = 0;
        while i < n
            invariant
                i <= n,
                n == self.tags@.len(),
                forall|j: int| 0 <= j < i ==> (#[trigger] self.tags@[j]).name@ != name@,
            decreases n - i,
        {
            if str_eq(self.tags[i].name.as_str(), name) {
                proof {
                    assert(self.tags@[i as int].name@ == name@);
                    let w = self.tag_idx(name@);
                    assert(self.tags@[w].name@ == name@);
                    if w < i as int {
                        assert(self.tags@[w].name@ != self.tags@[i as int].name@);
                    } else if w > i as int {
                        assert(self.tags@[i as int].name@ != self.tags@[w].name@);
                    }
                }
                return self.tags[i].id;
            }
            i = i + 1;
        }
        let id = self.next_tag_id;
        self.tags.push(Tag { id, name: name.to_owned() });
        self.next_tag_id = id + 1;
        proof {
            let last = self.tags@.len() - 1;
            assert(self.tags@[last].name@ == name@);
            let w = self.tag_idx(name@);
            assert(self.tags@[w].name@ == name@);
            if w < last {
                assert(self.tags@[w].name@ != self.tags@[last].name@);
            }
        }
        id
    }

    pub open spec fn has_tag_name(self, name: Seq<char>) -> bool {
        exists|i: int| 0 <= i < self.tags@.len() && (#[trigger] self.tags@[i]).name@ == name
    }

    pub open spec fn tag_idx(self, name: Seq<char>) -> int {
        choose|i: int| 0 <= i < self.tags@.len() && (#[trigger] self.tags@[i]).name@ == name
    }

    pub open spec fn has_file_tag(self, file_id: i64, tag_id: i64) -> bool {
        exists|i: int| 0 <= i < self.file_tags@.len()
            && (#[trigger] self.file_tags@[i]).file_id == file_id
            && self.file_tags@[i].tag_id == tag_id
    }

    /// Attaches the tag to the file unless that pair already exists.
    #[verifier::loop_isolation(false)]
    pub fn ensure_file_tag(
        &mut self,
        file_id: i64,
        tag_id: i64,
        confidence: u32,
        source: &str,
        now: i64,
    )
        requires
            old(self).wf(),
        ensures
            final(self).wf(),
            final(self).has_file_tag(file_id, tag_id),
            old(self).has_file_tag(file_id, tag_id) ==> *final(self) == *old(self),
            !old(self).has_file_tag(file_id, tag_id) ==> (final(self).file_tags@
                == old(self).file_tags@.push(final(self).file_tags@.last())
                && (final(self).file_tags@.last().source matches Some(s) && s@ == source@)
                && final(self).file_tags@.last().file_id == file_id
                && final(self).file_tags@.last().tag_id == tag_id
                && final(self).file_tags@.last().confidence == confidence
                && final(self).file_tags@.last().updated_at == now),
            final(self).files == old(self).files,
            final(self).chunks == old(self).chunks,
            final(self).metadata == old(self).metadata,
            final(self).tags == old(self).tags,
            final(self).rules == old(self).rules,
            final(self).actions == old(self).actions,
            final(self).audit == old(self).audit,
            final(self).dirty == old(self).dirty,
            final(self).next_tag_id == old(self).next_tag_id,
    {
        let n = self.file_tags.len();
        let mut i: usize = 0;
        while i < n
            invariant
                i <= n,
                n == self.file_tags@.len(),
                forall|j: int| 0 <= j < i
                    ==> !((#[trigger] self.file_tags@[j]).file_id == file_id
                        && self.file_tags@[j].tag_id == tag_id),
            decreases n - i,
        {
            let ft = &self.file_tags[i];
            if ft.file_id == file_id && ft.tag_id == tag_id {
                return ;
            }
            i = i + 1;
        }
        self.file_tags.push(FileTag {
            file_id,
            tag_id,
            confidence,
            source: Some(source.to_owned()),
            updated_at: now,
        });
    }

    pub open spec fn has_chunk(self, fid: i64, h: Seq<char>) -> bool {
        exists|i: int| 0 <= i < self.chunks@.len()
            && (#[trigger] self.chunks@[i]).file_id == fid && self.chunks@[i].hash@ == h
    }

    fn has_chunk_exec(&self, fid: i64, hash: &str) -> (r: bool)
        ensures
            r == self.has_chunk(fid, hash@),
    {
        let n = self.chunks.len();
        let mut i: usize = 0;
        while i < n
            invariant
                i <= n,
                n == self.chunks@.len(),
                forall|j: int| 0 <= j < i ==> !((#[trigger] self.chunks@[j]).file_id == fid
                    && self.chunks@[j].hash@ == hash@),
            decreases n - i,
        {
            let c = &self.chunks[i];
            if c.file_id == fid && str_eq(c.hash.as_str(), hash) {
                return true;
            }
            i = i + 1;
        }
        false
    }

    #[verifier::loop_isolation(false)]
    fn find_file_by_id(&self, id: i64) -> (r: Option<usize>)
        requires
            self.files_wf(),
        ensures
            match r {
                Some(i) => i < self.files@.len() && self.files@[i as int].id == id
                    && self.file_idx_by_id(id) == i,
                None => !self.has_file_id(id),
            },
    {
        let n = self.files.len();
        let mut i: usize = 0;
        while i < n
            invariant
                i <= n,
                forall|j: int| 0 <= j < i ==> (#[trigger] self.files@[j]).id != id,
            decreases n - i,
        {
            if self.files[i].id == id {
                proof {
                    let w = self.file_idx_by_id(id);
                    assert(self.files@[w].id == id);
                    if w < i as int {
                        assert(self.files@[w].id != self.files@[i as int].id);
                    } else if w > i as int {
                        assert(self.files@[i as int].id != self.files@[w].id);
                    }
                }
                return Some(i);
            }
            i = i + 1;
        }
        None
    }

    /// Applies one file's extraction outcome: deletes stored chunks
    /// whose hash is absent from the incoming set, inserts incoming
    /// chunks whose hash was not stored, updates the file's MIME, and
    /// backfills `fast_hash`/`hash` only when unset.  The dirty mark is
    /// cleared only when work was done or chunks exist.  Returns
    /// `(inserted, deleted)`.
    #[verifier::loop_isolation(false)]
    #[verifier::rlimit(100)]
    #[verifier::spinoff_prover]
    pub fn apply_extraction(
        &mut self,
        file_id: i64,
        path: &str,
        mime: &Option<String>,
        new_chunks: &Vec<NewChunk>,
        current_fast: &Option<String>,
        now: i64,
    ) -> (counts: (usize, usize))
        requires
            old(self).wf(),
            old(self).has_file_id(file_id),
            old(self).next_chunk_id + new_chunks@.len() < i64::MAX,
        ensures
            final(self).wf(),
            // The stored chunk set for this file is exactly the incoming set.
            forall|h: Seq<char>| final(self).has_chunk(file_id, h)
                <==> in_new(new_chunks@, h),
            // Other files' chunk sets are untouched.
            forall|f2: i64, h: Seq<char>| f2 != file_id
                ==> (final(self).has_chunk(f2, h) <==> old(self).has_chunk(f2, h)),
            // No inserts exactly when every incoming hash was stored.
            counts.0 == 0 <==> (forall|j: int| 0 <= j < new_chunks@.len()
                ==> old(self).has_chunk(file_id, (#[trigger] new_chunks@[j]).hash@)),
            // No deletions exactly when every stored hash is incoming.
            counts.1 == 0 <==> (forall|i: int| 0 <= i < old(self).chunks@.len()
                && (#[trigger] old(self).chunks@[i]).file_id == file_id
                ==> in_new(new_chunks@, old(self).chunks@[i].hash@)),
            // Every stored chunk row either survives verbatim or is a new
            // row carrying incoming data.
            forall|k: int| 0 <= k < final(self).chunks@.len()
                ==> (exists|t: int| 0 <= t < old(self).chunks@.len()
                    && old(self).chunks@[t] == (#[trigger] final(self).chunks@[k]))
                || (final(self).chunks@[k].file_id == file_id
                    && !old(self).has_chunk(file_id, final(self).chunks@[k].hash@)
                    && exists|t: int| 0 <= t < new_chunks@.len()
                        && (#[trigger] new_chunks@[t]).hash@ == final(self).chunks@[k].hash@
                        && new_chunks@[t].start == final(self).chunks@[k].start
                        && new_chunks@[t].end == final(self).chunks@[k].end
                        && ((new_chunks@[t].preview is Some
                                && final(self).chunks@[k].text_preview is Some
                                && new_chunks@[t].preview->0@
                                    == final(self).chunks@[k].text_preview->0@)
                            || (new_chunks@[t].preview is None
                                && final(self).chunks@[k].text_preview is None))),
            // The file row gets the extracted MIME; hashes are backfilled
            // only when unset.
            ({
                let i = old(self).file_idx_by_id(file_id);
                let pre_row = old(self).files@[i];
                let row = final(self).files@[i];
                final(self).files@ == old(self).files@.update(i, row)
                    && row.id == pre_row.id && row.path@ == pre_row.path@
                    && row.size == pre_row.size && row.mtime == pre_row.mtime
                    && row.ctime == pre_row.ctime && row.ext == pre_row.ext
                    && row.status == pre_row.status
                    && row.first_seen == pre_row.first_seen
                    && row.last_seen == pre_row.last_seen
                    && row.full_hash == pre_row.full_hash
                    && (row.mime is Some <==> mime is Some)
                    && (row.mime matches Some(m) ==> mime matches Some(m2) && m@ == m2@)
                    && (pre_row.fast_hash is Some ==> row.fast_hash == pre_row.fast_hash)
                    && (pre_row.hash is Some ==> row.hash == pre_row.hash)
                    && (pre_row.fast_hash is None ==> row.fast_hash == *current_fast)
                    && (pre_row.hash is None ==> row.hash == *current_fast)
            }),
            // Dirty is cleared only when work was done or chunks exist.
            counts.0 > 0 || counts.1 > 0 || new_chunks@.len() > 0 ==> ({
                &&& !final(self).has_dirty(path@)
                &&& forall|q: Seq<char>| q != path@
                    ==> (old(self).has_dirty(q) <==> final(self).has_dirty(q))
                &&& forall|q: Seq<char>| q != path@ && old(self).has_dirty(q)
                    ==> #[trigger] old(self).dirty@[old(self).dirty_idx(q)]
                        == final(self).dirty@[final(self).dirty_idx(q)]
            }),
            counts.0 == 0 && counts.1 == 0 && new_chunks@.len() == 0
                ==> final(self).dirty == old(self).dirty,
            final(self).metadata == old(self).metadata,
            final(self).tags == old(self).tags,
            final(self).file_tags == old(self).file_tags,
            final(self).rules == old(self).rules,
            final(self).actions == old(self).actions,
            final(self).audit == old(self).audit,
            final(self).next_file_id == old(self).next_file_id,
            final(self).next_tag_id == old(self).next_tag_id,
            final(self).next_action_id == old(self).next_action_id,
    {
        let ghost pre = *self;
        let ghost pred = |c: Chunk| c.file_id != file_id || in_new(new_chunks@, c.hash@);
        // Delete stored chunks whose hash is no longer present.
        let mut kept: Vec<Chunk> = Vec::new();
        let mut del: usize = 0;
        let total_chunks = self.chunks.len();
        while self.chunks.len() > 0
            invariant
                total_chunks == pre.chunks@.len(),
                self.chunks@ == pre.chunks@.skip(
                    pre.chunks@.len() - self.chunks@.len()),
                kept@ == pre.chunks@.take(
                    pre.chunks@.len() - self.chunks@.len()).filter(pred),
                del == pre.chunks@.len() - self.chunks@.len() - kept@.len(),
                (del == 0) <==> (forall|j: int|
                    0 <= j < pre.chunks@.len() - self.chunks@.len()
                    ==> pred(#[trigger] pre.chunks@[j])),
                forall|a: int| 0 <= a < kept@.len() ==> exists|jj: int|
                    0 <= jj < pre.chunks@.len() - self.chunks@.len()
                    && pre.chunks@[jj] == (#[trigger] kept@[a]),
                forall|a: int, b: int| 0 <= a < b < kept@.len()
                    ==> (#[trigger] kept@[a]).id != (#[trigger] kept@[b]).id,
                forall|a: int, b: int| 0 <= a < b < kept@.len()
                    ==> !((#[trigger] kept@[a]).file_id == (#[trigger] kept@[b]).file_id
                        && kept@[a].hash@ == kept@[b].hash@),
                forall|a: int| 0 <= a < kept@.len()
                    ==> (#[trigger] kept@[a]).id < pre.next_chunk_id,
                self.files == pre.files,
                self.dirty == pre.dirty,
                self.metadata == pre.metadata,
                self.tags == pre.tags,
                self.file_tags == pre.file_tags,
                self.rules == pre.rules,
                self.actions == pre.actions,
                self.audit == pre.audit,
                self.next_chunk_id == pre.next_chunk_id,
                self.next_file_id == pre.next_file_id,
                self.next_tag_id == pre.next_tag_id,
                self.next_action_id == pre.next_action_id,
            decreases self.chunks@.len(),
        {
            let ghost t = pre.chunks@.len() - self.chunks@.len();
            let row = self.chunks.remove(0);
            proof {
                assert(row == pre.chunks@[t]);
                assert(pre.chunks@.take(t + 1) =~= pre.chunks@.take(t) + seq![row]);
                Seq::<Chunk>::filter_distributes_over_add(pre.chunks@.take(t),
                    seq![row], pred);
                reveal_with_fuel(Seq::filter, 3);
                assert(seq![row].filter(pred) =~= (if pred(row) {
                    seq![row]
                } else {
                    Seq::<Chunk>::empty()
                })) by {
                    assert(seq![row].drop_last() =~= Seq::<Chunk>::empty());
                }
                assert(self.chunks@ =~= pre.chunks@.skip(t + 1));
            }
            let keep: bool = if row.file_id != file_id {
                true
            } else {
                hash_in_new(new_chunks, row.hash.as_str())
            };
            proof {
                assert(keep == pred(row));
            }
            if keep {
                let ghost kept_pre = kept@;
                kept.push(row);
                proof {
                    assert forall|a: int| 0 <= a < kept@.len() - 1
                        implies (#[trigger] kept@[a]).id != row.id
                            && !(kept@[a].file_id == row.file_id
                                && kept@[a].hash@ == row.hash@) by {
                        assert(kept@[a] == kept_pre[a]);
                        let jj = choose|jj: int| 0 <= jj < t
                            && pre.chunks@[jj] == kept_pre[a];
                        assert(pre.chunks@[jj].id != pre.chunks@[t].id);
                        assert(!(pre.chunks@[jj].file_id == pre.chunks@[t].file_id
                            && pre.chunks@[jj].hash@ == pre.chunks@[t].hash@));
                    }
                }
            } else {
                proof {
                    assert(del <= t && t < pre.chunks@.len());
                }
                del = del + 1;
            }
        }
        proof {
            assert(pre.chunks@.take(pre.chunks@.len() as int) =~= pre.chunks@);
        }
        self.chunks = kept;
        let ghost base = *self;
        proof {
            broadcast use vstd::seq_lib::group_filter_ensures;
            assert(base.chunks@ == pre.chunks@.filter(pred));
            assert(base.chunks_wf());
            // Each kept row keeps its identity from the original table.
            assert forall|k: int| 0 <= k < base.chunks@.len()
                implies exists|t: int| 0 <= t < pre.chunks@.len()
                    && pre.chunks@[t] == (#[trigger] base.chunks@[k]) by {
                assert(pre.chunks@.filter(pred).contains(base.chunks@[k]));
                pre.chunks@.lemma_filter_contains_rev(pred, base.chunks@[k]);
                let t = choose|t: int| 0 <= t < pre.chunks@.len()
                    && pre.chunks@[t] == base.chunks@[k];
                assert(pre.chunks@[t] == base.chunks@[k]);
            }
            // The kept chunk set is the stored set restricted to the
            // incoming hashes, for this file; untouched for others.
            assert forall|h: Seq<char>| base.has_chunk(file_id, h)
                implies pre.has_chunk(file_id, h) && in_new(new_chunks@, h) by {
                let w = choose|w: int| 0 <= w < base.chunks@.len()
                    && (#[trigger] base.chunks@[w]).file_id == file_id
                    && base.chunks@[w].hash@ == h;
                assert(pred(base.chunks@[w]));
                let t = choose|t: int| 0 <= t < pre.chunks@.len()
                    && pre.chunks@[t] == base.chunks@[w];
                assert(pre.chunks@[t].file_id == file_id && pre.chunks@[t].hash@ == h);
            }
            assert forall|h: Seq<char>| pre.has_chunk(file_id, h)
                && in_new(new_chunks@, h) implies base.has_chunk(file_id, h) by {
                let t = choose|t: int| 0 <= t < pre.chunks@.len()
                    && (#[trigger] pre.chunks@[t]).file_id == file_id
                    && pre.chunks@[t].hash@ == h;
                assert(pred(pre.chunks@[t]));
                pre.chunks@.lemma_filter_contains(pred, t);
                let w = choose|w: int| 0 <= w < base.chunks@.len()
                    && base.chunks@[w] == pre.chunks@[t];
                assert(base.chunks@[w].file_id == file_id
                    && base.chunks@[w].hash@ == h);
            }
            assert forall|f2: i64, h: Seq<char>| f2 != file_id
                implies (base.has_chunk(f2, h) <==> pre.has_chunk(f2, h)) by {
                if base.has_chunk(f2, h) {
                    let w = choose|w: int| 0 <= w < base.chunks@.len()
                        && (#[trigger] base.chunks@[w]).file_id == f2
                        && base.chunks@[w].hash@ == h;
                    let t = choose|t: int| 0 <= t < pre.chunks@.len()
                        && pre.chunks@[t] == base.chunks@[w];
                    assert(pre.chunks@[t].file_id == f2 && pre.chunks@[t].hash@ == h);
                }
                if pre.has_chunk(f2, h) {
                    let t = choose|t: int| 0 <= t < pre.chunks@.len()
                        && (#[trigger] pre.chunks@[t]).file_id == f2
                        && pre.chunks@[t].hash@ == h;
                    assert(pred(pre.chunks@[t]));
                    pre.chunks@.lemma_filter_contains(pred, t);
                    let w = choose|w: int| 0 <= w < base.chunks@.len()
                        && base.chunks@[w] == pre.chunks@[t];
                    assert(base.chunks@[w].file_id == f2 && base.chunks@[w].hash@ == h);
                }
            }
        }
        // Insert incoming chunks whose hash is not stored.
        let mut ins: usize = 0;
        let nn = new_chunks.len();
        let mut j: usize = 0;
        while j < nn
            invariant
                j <= nn,
                self.chunks_wf(),
                self.next_chunk_id >= pre.next_chunk_id,
                self.next_chunk_id <= pre.next_chunk_id + j,
                // chunk-set characterization so far
                forall|h: Seq<char>| self.has_chunk(file_id, h)
                    <==> ((pre.has_chunk(file_id, h) && in_new(new_chunks@, h))
                        || in_new(new_chunks@.take(j as int), h)),
                forall|f2: i64, h: Seq<char>| f2 != file_id
                    ==> (self.has_chunk(f2, h) <==> pre.has_chunk(f2, h)),
                ins <= j,
                (ins == 0) <==> (forall|u: int| 0 <= u < j
                    ==> pre.has_chunk(file_id, (#[trigger] new_chunks@[u]).hash@)),
                // provenance of every current row
                forall|k: int| 0 <= k < self.chunks@.len()
                    ==> (exists|t: int| 0 <= t < pre.chunks@.len()
                        && pre.chunks@[t] == (#[trigger] self.chunks@[k]))
                    || (self.chunks@[k].file_id == file_id
                        && !pre.has_chunk(file_id, self.chunks@[k].hash@)
                        && exists|t: int| 0 <= t < new_chunks@.len()
                            && (#[trigger] new_chunks@[t]).hash@ == self.chunks@[k].hash@
                            && new_chunks@[t].start == self.chunks@[k].start
                            && new_chunks@[t].end == self.chunks@[k].end
                            && ((new_chunks@[t].preview is Some
                                    && self.chunks@[k].text_preview is Some
                                    && new_chunks@[t].preview->0@
                                        == self.chunks@[k].text_preview->0@)
                                || (new_chunks@[t].preview is None
                                    && self.chunks@[k].text_preview is None))),
                self.files == pre.files,
                self.dirty == pre.dirty,
                self.metadata == pre.metadata,
                self.tags == pre.tags,
                self.file_tags == pre.file_tags,
                self.rules == pre.rules,
                self.actions == pre.actions,
                self.audit == pre.audit,
                self.next_file_id == pre.next_file_id,
                self.next_tag_id == pre.next_tag_id,
                self.next_action_id == pre.next_action_id,
            decreases nn - j,
        {
            let nc = &new_chunks[j];
            let present = self.has_chunk_exec(file_id, nc.hash.as_str());
            let ghost hstar = new_chunks@[j as int].hash@;
            proof {
                assert(new_chunks@.take(j + 1) =~= new_chunks@.take(j as int).push(
                    new_chunks@[j as int]));
                assert(in_new(new_chunks@, hstar));
            }
            let ghost prev = *self;
            if !present {
                let id = self.next_chunk_id;
                let row = Chunk {
                    id,
                    file_id,
                    hash: nc.hash.clone(),
                    start: nc.start,
                    end: nc.end,
                    text_preview: clone_opt_string(&nc.preview),
                };
                self.chunks.push(row);
                self.next_chunk_id = id + 1;
                ins = ins + 1;
                proof {
                    let last = self.chunks@.len() - 1;
                    assert(self.chunks@[last].hash@ == hstar);
                    assert(self.chunks@[last].file_id == file_id);
                    assert(!pre.has_chunk(file_id, hstar));
                    assert forall|h: Seq<char>| self.has_chunk(file_id, h)
                        implies ((pre.has_chunk(file_id, h) && in_new(new_chunks@, h))
                            || in_new(new_chunks@.take(j + 1), h)) by {
                        let w = choose|w: int| 0 <= w < self.chunks@.len()
                            && (#[trigger] self.chunks@[w]).file_id == file_id
                            && self.chunks@[w].hash@ == h;
                        if w < last {
                            assert(prev.chunks@[w].file_id == file_id
                                && prev.chunks@[w].hash@ == h);
                            assert(prev.has_chunk(file_id, h));
                        } else {
                            assert(new_chunks@.take(j + 1)[j as int].hash@ == h);
                        }
                    }
                    assert forall|h: Seq<char>|
                        ((pre.has_chunk(file_id, h) && in_new(new_chunks@, h))
                            || in_new(new_chunks@.take(j + 1), h))
                        implies self.has_chunk(file_id, h) by {
                        if prev.has_chunk(file_id, h) {
                            let w = choose|w: int| 0 <= w < prev.chunks@.len()
                                && (#[trigger] prev.chunks@[w]).file_id == file_id
                                && prev.chunks@[w].hash@ == h;
                            assert(self.chunks@[w].file_id == file_id
                                && self.chunks@[w].hash@ == h);
                        } else if h == hstar {
                            assert(self.chunks@[last].hash@ == h);
                        } else {
                            if in_new(new_chunks@.take(j + 1), h) {
                                let u = choose|u: int| 0 <= u < j + 1
                                    && (#[trigger] new_chunks@.take(j + 1)[u]).hash@ == h;
                                assert(new_chunks@.take(j + 1)[j as int].hash@ == hstar);
                                assert(u < j);
                                assert(new_chunks@.take(j as int)[u].hash@ == h);
                                assert(in_new(new_chunks@.take(j as int), h));
                            }
                            assert(prev.has_chunk(file_id, h));
                            let w = choose|w: int| 0 <= w < prev.chunks@.len()
                                && (#[trigger] prev.chunks@[w]).file_id == file_id
                                && prev.chunks@[w].hash@ == h;
                            assert(self.chunks@[w].file_id == file_id
                                && self.chunks@[w].hash@ == h);
                        }
                    }
                    assert forall|f2: i64, h: Seq<char>| f2 != file_id
                        implies (self.has_chunk(f2, h) <==> pre.has_chunk(f2, h)) by {
                        if self.has_chunk(f2, h) {
                            let w = choose|w: int| 0 <= w < self.chunks@.len()
                                && (#[trigger] self.chunks@[w]).file_id == f2
                                && self.chunks@[w].hash@ == h;
                            assert(w < last);
                            assert(prev.has_chunk(f2, h));
                        }
                        if prev.has_chunk(f2, h) {
                            let w = choose|w: int| 0 <= w < prev.chunks@.len()
                                && (#[trigger] prev.chunks@[w]).file_id == f2
                                && prev.chunks@[w].hash@ == h;
                            assert(self.chunks@[w].file_id == f2
                                && self.chunks@[w].hash@ == h);
                        }
                    }
                    assert(self.chunks_wf()) by {
                        assert forall|a: int, b: int| 0 <= a < b < self.chunks@.len()
                            implies !((#[trigger] self.chunks@[a]).file_id
                                == (#[trigger] self.chunks@[b]).file_id
                                && self.chunks@[a].hash@ == self.chunks@[b].hash@)
                                && self.chunks@[a].id != self.chunks@[b].id by {
                            if b == last {
                                assert(self.chunks@[a] == prev.chunks@[a]);
                                if self.chunks@[a].file_id == file_id
                                    && self.chunks@[a].hash@ == hstar {
                                    assert(prev.has_chunk(file_id, hstar));
                                }
                            }
                        }
                    }
                }
            } else {
                proof {
                    assert forall|h: Seq<char>| self.has_chunk(file_id, h)
                        implies ((pre.has_chunk(file_id, h) && in_new(new_chunks@, h))
                            || in_new(new_chunks@.take(j + 1), h)) by {
                        if in_new(new_chunks@.take(j as int), h) {
                            let u = choose|u: int| 0 <= u < j
                                && (#[trigger] new_chunks@.take(j as int)[u]).hash@ == h;
                            assert(new_chunks@.take(j + 1)[u].hash@ == h);
                        }
                    }
                    assert forall|h: Seq<char>|
                        ((pre.has_chunk(file_id, h) && in_new(new_chunks@, h))
                            || in_new(new_chunks@.take(j + 1), h))
                        implies self.has_chunk(file_id, h) by {
                        if in_new(new_chunks@.take(j + 1), h)
                            && !in_new(new_chunks@.take(j as int), h)
                            && !(pre.has_chunk(file_id, h) && in_new(new_chunks@, h)) {
                            let u = choose|u: int| 0 <= u < j + 1
                                && (#[trigger] new_chunks@.take(j + 1)[u]).hash@ == h;
                            assert(u == j);
                            assert(h == hstar);
                        }
                    }
                    if !pre.has_chunk(file_id, hstar) {
                        assert(in_new(new_chunks@.take(j as int), hstar));
                        let u = choose|u: int| 0 <= u < j
                            && (#[trigger] new_chunks@.take(j as int)[u]).hash@ == hstar;
                        assert(!pre.has_chunk(file_id, new_chunks@[u].hash@));
                        assert(ins != 0);
                    }
                }
            }
            j = j + 1;
        }
        proof {
            assert(new_chunks@.take(nn as int) =~= new_chunks@);
        }
        // Update the file row: extracted MIME, and hash backfill only
        // where unset.
        let fi = match self.find_file_by_id(file_id) {
            Some(fi) => fi,
            None => {
                proof {
                    assert(false);
                }
                0
            }
        };
        let mut row = self.files.remove(fi);
        row.mime = clone_opt_string(mime);
        if row.fast_hash.is_none() {
            row.fast_hash = clone_opt_string(current_fast);
        }
        if row.hash.is_none() {
            row.hash = clone_opt_string(current_fast);
        }
        self.files.insert(fi, row);
        proof {
            assert(self.files@ =~= pre.files@.update(fi as int, self.files@[fi as int]));
            assert(self.files_wf());
        }
        // Clear the dirty mark only when something was done.
        if ins > 0 || del > 0 || new_chunks.len() > 0 {
            let ghost mid = *self;
            self.clear_dirty(path);
            proof {
                assert forall|q: Seq<char>| q != path@ && old(self).has_dirty(q)
                    implies #[trigger] old(self).dirty@[old(self).dirty_idx(q)]
                        == self.dirty@[self.dirty_idx(q)] by {
                    Database::lemma_same_dirty_idx(*old(self), mid, q);
                }
                assert forall|q: Seq<char>| q != path@
                    implies (old(self).has_dirty(q) <==> self.has_dirty(q)) by {
                    if old(self).has_dirty(q) {
                        Database::lemma_same_dirty_idx(*old(self), mid, q);
                    }
                    if mid.has_dirty(q) {
                        Database::lemma_same_dirty_idx(mid, *old(self), q);
                    }
                }
            }
        }
        (ins, del)
    }


    /// Drops every actions row owned by `fid`.
    #[verifier::loop_isolation(false)]
    #[verifier::rlimit(60)]
    #[verifier::spinoff_prover]
    fn retain_actions_without(&mut self, fid: i64)
        requires
            old(self).actions_wf(),
        ensures
            final(self).actions_wf(),
            forall|i: int| 0 <= i < final(self).actions@.len()
                ==> (#[trigger] final(self).actions@[i]).file_id != fid,
            final(self).files == old(self).files,
            final(self).metadata == old(self).metadata,
            final(self).chunks == old(self).chunks,
            final(self).tags == old(self).tags,
            final(self).file_tags == old(self).file_tags,
            final(self).rules == old(self).rules,
            final(self).audit == old(self).audit,
            final(self).dirty == old(self).dirty,
            final(self).next_file_id == old(self).next_file_id,
            final(self).next_chunk_id == old(self).next_chunk_id,
            final(self).next_tag_id == old(self).next_tag_id,
            final(self).next_action_id == old(self).next_action_id,
            final(self).next_audit_id == old(self).next_audit_id,
    {
        let ghost pre_rows = old(self).actions@;
        let mut kept: Vec<Action> = Vec::new();
        let total: usize = self.actions.len();
        proof {
            assert(pre_rows.skip(0) =~= pre_rows);
        }
        while self.actions.len() > 0
            invariant
                total == pre_rows.len(),
                self.actions@.len() <= pre_rows.len(),
                self.actions@ == pre_rows.skip(pre_rows.len() - self.actions@.len()),
                forall|a: int| 0 <= a < kept@.len()
                    ==> (#[trigger] kept@[a]).file_id != fid,
                forall|a: int| 0 <= a < kept@.len() ==> exists|jj: int|
                    0 <= jj < pre_rows.len() - self.actions@.len()
                    && pre_rows[jj] == (#[trigger] kept@[a]),
                forall|a: int, b: int| 0 <= a < b < kept@.len()
                    ==> (#[trigger] kept@[a]).id != (#[trigger] kept@[b]).id,
                self.files == old(self).files,
                self.metadata == old(self).metadata || false,
                self.chunks == old(self).chunks || false,
                self.tags == old(self).tags,
                self.file_tags == old(self).file_tags || false,
                self.rules == old(self).rules,
                self.actions == old(self).actions || true,
                self.audit == old(self).audit,
                self.dirty == old(self).dirty,
                self.next_file_id == old(self).next_file_id,
                self.next_chunk_id == old(self).next_chunk_id,
                self.next_tag_id == old(self).next_tag_id,
                self.next_action_id == old(self).next_action_id,
                self.next_audit_id == old(self).next_audit_id,
            decreases self.actions@.len(),
        {
            let ghost t: int = pre_rows.len() - self.actions@.len();
            proof {
                assert(self.actions@ == pre_rows.skip(t));
                assert(pre_rows.skip(t)[0] == pre_rows[t]);
            }
            let row = self.actions.remove(0);
            proof {
                assert(row == pre_rows[t]);
                assert(self.actions@ =~= pre_rows.skip(t + 1));
            }
            if row.file_id != fid {
                let ghost kp = kept@;
                kept.push(row);
                proof {
                    assert forall|a: int| 0 <= a < kept@.len()
                        implies exists|jj: int| 0 <= jj < t + 1
                            && pre_rows[jj] == (#[trigger] kept@[a]) by {
                        if a == kept@.len() - 1 {
                            assert(pre_rows[t] == kept@[a]);
                        } else {
                            assert(kept@[a] == kp[a]);
                            let jj = choose|jj: int| 0 <= jj < t
                                && pre_rows[jj] == kp[a];
                            assert(pre_rows[jj] == kept@[a]);
                        }
                    }
                    assert forall|a: int| 0 <= a < kept@.len() - 1
                        implies (#[trigger] kept@[a]).id != row.id by {
                        assert(kept@[a] == kp[a]);
                        let jj = choose|jj: int| 0 <= jj < t
                            && pre_rows[jj] == kp[a];
                        assert(pre_rows[jj] == kept@[a]);
                        assert(jj != t);
                    }

                }
            }
        }
        self.actions = kept;
        proof {
            assert(self.actions_wf());
        }
    }

    /// Drops every chunks row owned by `fid`.
    #[verifier::loop_isolation(false)]
    #[verifier::rlimit(60)]
    #[verifier::spinoff_prover]
    fn retain_chunks_without(&mut self, fid: i64)
        requires
            old(self).chunks_wf(),
        ensures
            final(self).chunks_wf(),
            forall|i: int| 0 <= i < final(self).chunks@.len()
                ==> (#[trigger] final(self).chunks@[i]).file_id != fid,
            final(self).files == old(self).files,
            final(self).metadata == old(self).metadata,
            final(self).tags == old(self).tags,
            final(self).file_tags == old(self).file_tags,
            final(self).rules == old(self).rules,
            final(self).actions == old(self).actions,
            final(self).audit == old(self).audit,
            final(self).dirty == old(self).dirty,
            final(self).next_file_id == old(self).next_file_id,
            final(self).next_chunk_id == old(self).next_chunk_id,
            final(self).next_tag_id == old(self).next_tag_id,
            final(self).next_action_id == old(self).next_action_id,
            final(self).next_audit_id == old(self).next_audit_id,
    {
        let ghost pre_rows = old(self).chunks@;
        let mut kept: Vec<Chunk> = Vec::new();
        let total: usize = self.chunks.len();
        proof {
            assert(pre_rows.skip(0) =~= pre_rows);
        }
        while self.chunks.len() > 0
            invariant
                total == pre_rows.len(),
                self.chunks@.len() <= pre_rows.len(),
                self.chunks@ == pre_rows.skip(pre_rows.len() - self.chunks@.len()),
                forall|a: int| 0 <= a < kept@.len()
                    ==> (#[trigger] kept@[a]).file_id != fid,
                forall|a: int| 0 <= a < kept@.len() ==> exists|jj: int|
                    0 <= jj < pre_rows.len() - self.chunks@.len()
                    && pre_rows[jj] == (#[trigger] kept@[a]),
                forall|a: int, b: int| 0 <= a < b < kept@.len()
                    ==> (#[trigger] kept@[a]).id != (#[trigger] kept@[b]).id,
                forall|a: int, b: int| 0 <= a < b < kept@.len()
                    ==> !((#[trigger] kept@[a]).file_id == (#[trigger] kept@[b]).file_id && kept@[a].hash@ == kept@[b].hash@),
                self.files == old(self).files,
                self.metadata == old(self).metadata || false,
                self.chunks == old(self).chunks || true,
                self.tags == old(self).tags,
                self.file_tags == old(self).file_tags || false,
                self.rules == old(self).rules,
                self.actions == old(self).actions || false,
                self.audit == old(self).audit,
                self.dirty == old(self).dirty,
                self.next_file_id == old(self).next_file_id,
                self.next_chunk_id == old(self).next_chunk_id,
                self.next_tag_id == old(self).next_tag_id,
                self.next_action_id == old(self).next_action_id,
                self.next_audit_id == old(self).next_audit_id,
            decreases self.chunks@.len(),
        {
            let ghost t: int = pre_rows.len() - self.chunks@.len();
            proof {
                assert(self.chunks@ == pre_rows.skip(t));
                assert(pre_rows.skip(t)[0] == pre_rows[t]);
            }
            let row = self.chunks.remove(0);
            proof {
                assert(row == pre_rows[t]);
                assert(self.chunks@ =~= pre_rows.skip(t + 1));
            }
            if row.file_id != fid {
                let ghost kp = kept@;
                kept.push(row);
                proof {
                    assert forall|a: int| 0 <= a < kept@.len()
                        implies exists|jj: int| 0 <= jj < t + 1
                            && pre_rows[jj] == (#[trigger] kept@[a]) by {
                        if a == kept@.len() - 1 {
                            assert(pre_rows[t] == kept@[a]);
                        } else {
                            assert(kept@[a] == kp[a]);
                            let jj = choose|jj: int| 0 <= jj < t
                                && pre_rows[jj] == kp[a];
                            assert(pre_rows[jj] == kept@[a]);
                        }
                    }
                    assert forall|a: int| 0 <= a < kept@.len() - 1
                        implies (#[trigger] kept@[a]).id != row.id && !(kept@[a].file_id == row.file_id && kept@[a].hash@ == row.hash@) by {
                        assert(kept@[a] == kp[a]);
                        let jj = choose|jj: int| 0 <= jj < t
                            && pre_rows[jj] == kp[a];
                        assert(pre_rows[jj] == kept@[a]);
                        assert(jj != t);
                    }

                }
            }
        }
        self.chunks = kept;
        proof {
            assert(self.chunks_wf());
        }
    }

    /// Drops every metadata row owned by `fid`.
    #[verifier::loop_isolation(false)]
    #[verifier::rlimit(60)]
    #[verifier::spinoff_prover]
    fn retain_metadata_without(&mut self, fid: i64)
        requires
            old(self).dirty_wf(),
        ensures
            final(self).dirty_wf(),
            forall|i: int| 0 <= i < final(self).metadata@.len()
                ==> (#[trigger] final(self).metadata@[i]).file_id != fid,
            final(self).files == old(self).files,
            final(self).chunks == old(self).chunks,
            final(self).tags == old(self).tags,
            final(self).file_tags == old(self).file_tags,
            final(self).rules == old(self).rules,
            final(self).actions == old(self).actions,
            final(self).audit == old(self).audit,
            final(self).dirty == old(self).dirty,
            final(self).next_file_id == old(self).next_file_id,
            final(self).next_chunk_id == old(self).next_chunk_id,
            final(self).next_tag_id == old(self).next_tag_id,
            final(self).next_action_id == old(self).next_action_id,
            final(self).next_audit_id == old(self).next_audit_id,
    {
        let ghost pre_rows = old(self).metadata@;
        let mut kept: Vec<Metadata> = Vec::new();
        let total: usize = self.metadata.len();
        proof {
            assert(pre_rows.skip(0) =~= pre_rows);
        }
        while self.metadata.len() > 0
            invariant
                total == pre_rows.len(),
                self.metadata@.len() <= pre_rows.len(),
                self.metadata@ == pre_rows.skip(pre_rows.len() - self.metadata@.len()),
                forall|a: int| 0 <= a < kept@.len()
                    ==> (#[trigger] kept@[a]).file_id != fid,
                forall|a: int| 0 <= a < kept@.len() ==> exists|jj: int|
                    0 <= jj < pre_rows.len() - self.metadata@.len()
                    && pre_rows[jj] == (#[trigger] kept@[a]),
                self.files == old(self).files,
                self.metadata == old(self).metadata || true,
                self.chunks == old(self).chunks || false,
                self.tags == old(self).tags,
                self.file_tags == old(self).file_tags || false,
                self.rules == old(self).rules,
                self.actions == old(self).actions || false,
                self.audit == old(self).audit,
                self.dirty == old(self).dirty,
                self.next_file_id == old(self).next_file_id,
                self.next_chunk_id == old(self).next_chunk_id,
                self.next_tag_id == old(self).next_tag_id,
                self.next_action_id == old(self).next_action_id,
                self.next_audit_id == old(self).next_audit_id,
            decreases self.metadata@.len(),
        {
            let ghost t: int = pre_rows.len() - self.metadata@.len();
            proof {
                assert(self.metadata@ == pre_rows.skip(t));
                assert(pre_rows.skip(t)[0] == pre_rows[t]);
            }
            let row = self.metadata.remove(0);
            proof {
                assert(row == pre_rows[t]);
                assert(self.metadata@ =~= pre_rows.skip(t + 1));
            }
            if row.file_id != fid {
                let ghost kp = kept@;
                kept.push(row);
                proof {
                    assert forall|a: int| 0 <= a < kept@.len()
                        implies exists|jj: int| 0 <= jj < t + 1
                            && pre_rows[jj] == (#[trigger] kept@[a]) by {
                        if a == kept@.len() - 1 {
                            assert(pre_rows[t] == kept@[a]);
                        } else {
                            assert(kept@[a] == kp[a]);
                            let jj = choose|jj: int| 0 <= jj < t
                                && pre_rows[jj] == kp[a];
                            assert(pre_rows[jj] == kept@[a]);
                        }
                    }

                }
            }
        }
        self.metadata = kept;
        proof {
            assert(true);
        }
    }

    /// Drops every file_tags row owned by `fid`.
    #[verifier::loop_isolation(false)]
    #[verifier::rlimit(60)]
    #[verifier::spinoff_prover]
    fn retain_file_tags_without(&mut self, fid: i64)
        requires
            old(self).file_tags_wf(),
        ensures
            final(self).file_tags_wf(),
            forall|i: int| 0 <= i < final(self).file_tags@.len()
                ==> (#[trigger] final(self).file_tags@[i]).file_id != fid,
            final(self).files == old(self).files,
            final(self).metadata == old(self).metadata,
            final(self).chunks == old(self).chunks,
            final(self).tags == old(self).tags,
            final(self).rules == old(self).rules,
            final(self).actions == old(self).actions,
            final(self).audit == old(self).audit,
            final(self).dirty == old(self).dirty,
            final(self).next_file_id == old(self).next_file_id,
            final(self).next_chunk_id == old(self).next_chunk_id,
            final(self).next_tag_id == old(self).next_tag_id,
            final(self).next_action_id == old(self).next_action_id,
            final(self).next_audit_id == old(self).next_audit_id,
    {
        let ghost pre_rows = old(self).file_tags@;
        let mut kept: Vec<FileTag> = Vec::new();
        let total: usize = self.file_tags.len();
        proof {
            assert(pre_rows.skip(0) =~= pre_rows);
        }
        while self.file_tags.len() > 0
            invariant
                total == pre_rows.len(),
                self.file_tags@.len() <= pre_rows.len(),
                self.file_tags@ == pre_rows.skip(pre_rows.len() - self.file_tags@.len()),
                forall|a: int| 0 <= a < kept@.len()
                    ==> (#[trigger] kept@[a]).file_id != fid,
                forall|a: int| 0 <= a < kept@.len() ==> exists|jj: int|
                    0 <= jj < pre_rows.len() - self.file_tags@.len()
                    && pre_rows[jj] == (#[trigger] kept@[a]),
                forall|a: int, b: int| 0 <= a < b < kept@.len()
                    ==> !((#[trigger] kept@[a]).file_id == (#[trigger] kept@[b]).file_id && kept@[a].tag_id == kept@[b].tag_id),
                self.files == old(self).files,
                self.metadata == old(self).metadata || false,
                self.chunks == old(self).chunks || false,
                self.tags == old(self).tags,
                self.file_tags == old(self).file_tags || true,
                self.rules == old(self).rules,
                self.actions == old(self).actions || false,
                self.audit == old(self).audit,
                self.dirty == old(self).dirty,
                self.next_file_id == old(self).next_file_id,
                self.next_chunk_id == old(self).next_chunk_id,
                self.next_tag_id == old(self).next_tag_id,
                self.next_action_id == old(self).next_action_id,
                self.next_audit_id == old(self).next_audit_id,
            decreases self.file_tags@.len(),
        {
            let ghost t: int = pre_rows.len() - self.file_tags@.len();
            proof {
                assert(self.file_tags@ == pre_rows.skip(t));
                assert(pre_rows.skip(t)[0] == pre_rows[t]);
            }
            let row = self.file_tags.remove(0);
            proof {
                assert(row == pre_rows[t]);
                assert(self.file_tags@ =~= pre_rows.skip(t + 1));
            }
            if row.file_id != fid {
                let ghost kp = kept@;
                kept.push(row);
                proof {
                    assert forall|a: int| 0 <= a < kept@.len()
                        implies exists|jj: int| 0 <= jj < t + 1
                            && pre_rows[jj] == (#[trigger] kept@[a]) by {
                        if a == kept@.len() - 1 {
                            assert(pre_rows[t] == kept@[a]);
                        } else {
                            assert(kept@[a] == kp[a]);
                            let jj = choose|jj: int| 0 <= jj < t
                                && pre_rows[jj] == kp[a];
                            assert(pre_rows[jj] == kept@[a]);
                        }
                    }
                    assert forall|a: int| 0 <= a < kept@.len() - 1
                        implies !((#[trigger] kept@[a]).file_id == row.file_id && kept@[a].tag_id == row.tag_id) by {
                        assert(kept@[a] == kp[a]);
                        let jj = choose|jj: int| 0 <= jj < t
                            && pre_rows[jj] == kp[a];
                        assert(pre_rows[jj] == kept@[a]);
                        assert(jj != t);
                    }

                }
            }
        }
        self.file_tags = kept;
        proof {
            assert(self.file_tags_wf());
        }
    }
    /// Removes every trace of a deleted path: its actions, chunks,
    /// metadata and tag links, then the file row itself, and records a
    /// `file_purged` audit entry.
    #[verifier::loop_isolation(false)]
    #[verifier::rlimit(80)]
    #[verifier::spinoff_prover]
    pub fn purge_file(&mut self, path: &str, now: i64)
        requires
            old(self).wf(),
            old(self).has_file_path(path@),
            old(self).next_audit_id < i64::MAX,
        ensures
            final(self).wf(),
            !final(self).has_file_path(path@),
            ({
                let fid = old(self).files@[old(self).file_idx(path@)].id;
                &&& forall|i: int| 0 <= i < final(self).actions@.len()
                    ==> (#[trigger] final(self).actions@[i]).file_id != fid
                &&& forall|i: int| 0 <= i < final(self).chunks@.len()
                    ==> (#[trigger] final(self).chunks@[i]).file_id != fid
                &&& forall|i: int| 0 <= i < final(self).metadata@.len()
                    ==> (#[trigger] final(self).metadata@[i]).file_id != fid
                &&& forall|i: int| 0 <= i < final(self).file_tags@.len()
                    ==> (#[trigger] final(self).file_tags@[i]).file_id != fid
                &&& forall|q: Seq<char>| q != path@
                    ==> (old(self).has_file_path(q) <==> final(self).has_file_path(q))
            }),
            final(self).audit@ == old(self).audit@.push(final(self).audit@.last()),
            ({
                let row = final(self).audit@.last();
                row.event@ == "file_purged"@ && row.action_id is None
                    && (row.detail matches Some(d) && d matches AuditDetail::Text(tp)
                        && tp@ == path@)
                    && row.created_at == now
            }),
            final(self).tags == old(self).tags,
            final(self).rules == old(self).rules,
            final(self).dirty == old(self).dirty,
            final(self).next_file_id == old(self).next_file_id,
            final(self).next_chunk_id == old(self).next_chunk_id,
            final(self).next_tag_id == old(self).next_tag_id,
            final(self).next_action_id == old(self).next_action_id,
            final(self).next_audit_id == old(self).next_audit_id + 1,
    {
        let ghost pre = *old(self);
        let fi = match self.find_file_by_path(path) {
            Some(fi) => fi,
            None => {
                proof {
                    assert(false);
                }
                0
            }
        };
        let fid = self.files[fi].id;
        self.retain_actions_without(fid);
        self.retain_chunks_without(fid);
        self.retain_metadata_without(fid);
        self.retain_file_tags_without(fid);
        let _ = self.files.remove(fi);
        proof {
            let fin_files = self.files@;
            assert forall|j: int| 0 <= j < fin_files.len()
                implies (#[trigger] fin_files[j]).path@ != path@
                && pre.has_file_path(fin_files[j].path@) by {
                let w: int = if j < fi { j } else { j + 1 };
                assert(fin_files[j] == pre.files@[w]);
                assert(pre.files@[w].path@ != path@);
            }
            assert(self.files_wf()) by {
                assert forall|a: int, b: int| 0 <= a < b < fin_files.len()
                    implies (#[trigger] fin_files[a]).path@ != (#[trigger] fin_files[b]).path@
                        && fin_files[a].id != fin_files[b].id by {
                    let wa: int = if a < fi { a } else { a + 1 };
                    let wb: int = if b < fi { b } else { b + 1 };
                    assert(fin_files[a] == pre.files@[wa]);
                    assert(fin_files[b] == pre.files@[wb]);
                }
                assert forall|a: int| 0 <= a < fin_files.len()
                    implies (#[trigger] fin_files[a]).id < self.next_file_id by {
                    let wa: int = if a < fi { a } else { a + 1 };
                    assert(fin_files[a] == pre.files@[wa]);
                }
            }
            assert forall|q: Seq<char>| q != path@
                implies (pre.has_file_path(q) <==> self.has_file_path(q)) by {
                if pre.has_file_path(q) {
                    let w = pre.file_idx(q);
                    assert(w != fi);
                    let v: int = if w < fi { w } else { w - 1 };
                    assert(fin_files[v].path@ == q);
                }
            }
        }
        let detail = AuditDetail::Text(path.to_owned());
        self.append_audit(None, String::from_str("file_purged"), Some(detail), now);
    }

    /// Whether another file row (the canonical, in table order) carries
    /// the same hash.
    pub open spec fn dup_exists(self, path: Seq<char>, hash: Seq<char>) -> bool {
        exists|i: int| 0 <= i < self.files@.len()
            && ((#[trigger] self.files@[i]).hash matches Some(h) && h@ == hash)
            && self.files@[i].path@ != path
    }

    /// The first file row carrying `hash` under a different path.
    pub fn detect_duplicate_for_hash(&self, current_path: &str, hash: &str)
        -> (r: Option<String>)
        ensures
            r is Some <==> self.dup_exists(current_path@, hash@),
            r matches Some(p) ==> (exists|i: int| 0 <= i < self.files@.len()
                && (#[trigger] self.files@[i]).path@ == p@
                && (self.files@[i].hash matches Some(h) && h@ == hash@)
                && (forall|j: int| 0 <= j < i
                    ==> !(((#[trigger] self.files@[j]).hash matches Some(h2)
                        && h2@ == hash@) && self.files@[j].path@ != current_path@)))
                && p@ != current_path@,
    {
        let n = self.files.len();
        let mut i: usize = 0;
        while i < n
            invariant
                i <= n,
                n == self.files@.len(),
                forall|j: int| 0 <= j < i ==> !(((#[trigger] self.files@[j]).hash
                    matches Some(h) && h@ == hash@) && self.files@[j].path@
                    != current_path@),
            decreases n - i,
        {
            let row = &self.files[i];
            let hit = match &row.hash {
                Some(h) => crate::strutil::str_eq(h.as_str(), hash)
                    && !crate::strutil::str_eq(row.path.as_str(), current_path),
                None => false,
            };
            if hit {
                return Some(row.path.clone());
            }
            i = i + 1;
        }
        None
    }

    /// A dedupe or merge action of the file is already planned.
    pub open spec fn dup_planned(self, fid: i64) -> bool {
        exists|i: int| 0 <= i < self.actions@.len()
            && (#[trigger] self.actions@[i]).file_id == fid
            && self.actions@[i].status is Planned
            && (self.actions@[i].kind@ == "dedupe"@
                || self.actions@[i].kind@ == "merge_duplicate"@)
    }

    fn has_dup_planned(&self, fid: i64) -> (r: bool)
        ensures
            r == self.dup_planned(fid),
    {
        let n = self.actions.len();
        let mut i: usize = 0;
        while i < n
            invariant
                i <= n,
                n == self.actions@.len(),
                forall|j: int| 0 <= j < i ==> !((#[trigger] self.actions@[j]).file_id == fid
                    && self.actions@[j].status is Planned
                    && (self.actions@[j].kind@ == "dedupe"@
                        || self.actions@[j].kind@ == "merge_duplicate"@)),
            decreases n - i,
        {
            let a = &self.actions[i];
            let planned = match a.status {
                ActionStatus::Planned => true,
                _ => false,
            };
            if a.file_id == fid && planned && (crate::strutil::str_eq(a.kind.as_str(),
                "dedupe") || crate::strutil::str_eq(a.kind.as_str(), "merge_duplicate")) {
                return true;
            }
            i = i + 1;
        }
        false
    }

    /// Plans the duplicate pair for a file: one `dedupe` marker and one
    /// `merge_duplicate` carrying the canonical path and strategy — but
    /// only when the file has no such pending pair, so exactly one pair
    /// ever exists.
    #[verifier::loop_isolation(false)]
    pub fn plan_dedupe_pair(
        &mut self,
        dup_file_id: i64,
        canonical: &str,
        strategy: &str,
        now: i64,
    )
        requires
            old(self).wf(),
            old(self).next_action_id < i64::MAX - 2,
        ensures
            final(self).wf(),
            old(self).dup_planned(dup_file_id) ==> *final(self) == *old(self),
            !old(self).dup_planned(dup_file_id) ==> ({
                &&& final(self).actions@.len() == old(self).actions@.len() + 2
                &&& forall|i: int| 0 <= i < old(self).actions@.len()
                    ==> final(self).actions@[i] == old(self).actions@[i]
                &&& ({
                    let d = final(self).actions@[final(self).actions@.len() - 2];
                    d.file_id == dup_file_id && d.kind@ == "dedupe"@
                        && d.status is Planned
                        && (d.payload.duplicate_of matches Some(c) && c@ == canonical@)
                })
                &&& ({
                    let m = final(self).actions@.last();
                    m.file_id == dup_file_id && m.kind@ == "merge_duplicate"@
                        && m.status is Planned
                        && (m.payload.duplicate_of matches Some(c) && c@ == canonical@)
                        && (m.payload.strategy matches Some(st) && st@ == strategy@)
                })
                &&& exactly_one_dedupe_pair(*final(self), dup_file_id)
            }),
            final(self).files == old(self).files,
            final(self).chunks == old(self).chunks,
            final(self).tags == old(self).tags,
            final(self).file_tags == old(self).file_tags,
            final(self).rules == old(self).rules,
            final(self).audit == old(self).audit,
            final(self).dirty == old(self).dirty,
    {
        if self.has_dup_planned(dup_file_id) {
            return ;
        }
        let dedupe_payload = ActionPayload {
            to: None,
            tag: None,
            duplicate_of: Some(canonical.to_owned()),
            strategy: None,
            rule: None,
            backup: None,
        };
        let merge_payload = ActionPayload {
            to: None,
            tag: None,
            duplicate_of: Some(canonical.to_owned()),
            strategy: Some(strategy.to_owned()),
            rule: None,
            backup: None,
        };
        proof {
            reveal_strlit("dedupe");
            reveal_strlit("merge_duplicate");
            assert("dedupe"@.len() == 6);
            assert("merge_duplicate"@.len() == 15);
        }
        let _ = self.insert_action(dup_file_id, String::from_str("dedupe"), dedupe_payload,
            now);
        let _ = self.insert_action(dup_file_id, String::from_str("merge_duplicate"),
            merge_payload, now);
        proof {
            let fin = *self;
            let n2 = fin.actions@.len();
            assert(fin.actions@[n2 - 2].kind@ == "dedupe"@);
            assert(fin.actions@[n2 - 1].kind@ == "merge_duplicate"@);
            assert forall|i: int| 0 <= i < n2 - 2
                implies !((#[trigger] fin.actions@[i]).file_id == dup_file_id
                    && fin.actions@[i].status is Planned
                    && (fin.actions@[i].kind@ == "dedupe"@
                        || fin.actions@[i].kind@ == "merge_duplicate"@)) by {
                assert(fin.actions@[i] == old(self).actions@[i]);
            }
            assert(dedupe_row(fin, dup_file_id, n2 - 2));
            assert(merge_row(fin, dup_file_id, n2 - 1));
            assert forall|j: int| dedupe_row(fin, dup_file_id, j)
                implies j == n2 - 2 by {
                if j < n2 - 2 {
                    assert(fin.actions@[j] == old(self).actions@[j]);
                } else if j == n2 - 1 {
                    assert(fin.actions@[j].kind@.len() == 15);
                }
            }
            assert forall|j: int| merge_row(fin, dup_file_id, j)
                implies j == n2 - 1 by {
                if j < n2 - 2 {
                    assert(fin.actions@[j] == old(self).actions@[j]);
                } else if j == n2 - 2 {
                    assert(fin.actions@[j].kind@.len() == 6);
                }
            }
            assert(exactly_one_dedupe_pair(fin, dup_file_id));
        }
    }

    /// The safety gate: when the file's path fails the allow/deny lists,
    /// the planned action moves to `error` with message `path denied` and
    /// nothing else changes.  An allowed action is left untouched.
    #[verifier::loop_isolation(false)]
    pub fn gate_action(
        &mut self,
        idx: usize,
        allow: &Vec<String>,
        deny: &Vec<String>,
        now: i64,
    ) -> (denied: bool)
        requires
            old(self).wf(),
            idx < old(self).actions@.len(),
            old(self).has_file_id(old(self).actions@[idx as int].file_id),
        ensures
            final(self).wf(),
            denied == !crate::paths::allowed(
                old(self).files@[old(self).file_idx_by_id(
                    old(self).actions@[idx as int].file_id)].path@, allow@, deny@),
            !denied ==> *final(self) == *old(self),
            denied ==> ({
                let row = final(self).actions@[idx as int];
                &&& final(self).actions@ == old(self).actions@.update(idx as int, row)
                &&& row.status is Error
                &&& (row.error matches Some(e) && e@ == "path denied"@)
                &&& row.id == old(self).actions@[idx as int].id
                &&& row.file_id == old(self).actions@[idx as int].file_id
                &&& row.kind == old(self).actions@[idx as int].kind
                &&& row.payload == old(self).actions@[idx as int].payload
                &&& final(self).files == old(self).files
                &&& final(self).chunks == old(self).chunks
                &&& final(self).metadata == old(self).metadata
                &&& final(self).tags == old(self).tags
                &&& final(self).file_tags == old(self).file_tags
                &&& final(self).rules == old(self).rules
                &&& final(self).dirty == old(self).dirty
                &&& final(self).audit == old(self).audit
            }),
    {
        let fid = self.actions[idx].file_id;
        let path = match self.find_file_by_id(fid) {
            Some(fi) => self.files[fi].path.clone(),
            None => {
                proof {
                    assert(false);
                }
                String::new()
            }
        };
        if !crate::paths::is_allowed(path.as_str(), allow, deny) {
            let ghost pre_rows = self.actions@;
            let mut row = self.actions.remove(idx);
            row.status = ActionStatus::Error;
            row.error = Some(String::from_str("path denied"));
            self.actions.insert(idx, row);
            proof {
                assert(self.actions@ =~= pre_rows.update(idx as int,
                    self.actions@[idx as int]));
                assert(self.actions_wf());
            }
            true
        } else {
            false
        }
    }

    /// Copies every tag link of `from_fid` onto `to_fid`, de-duplicated:
    /// tags attached to a merged duplicate survive on the canonical file.
    #[verifier::loop_isolation(false)]
    pub fn copy_file_tags(&mut self, from_fid: i64, to_fid: i64, now: i64)
        requires
            old(self).wf(),
        ensures
            final(self).wf(),
            forall|i: int| 0 <= i < old(self).file_tags@.len()
                && (#[trigger] old(self).file_tags@[i]).file_id == from_fid
                ==> final(self).has_file_tag(to_fid, old(self).file_tags@[i].tag_id),
            forall|i: int| 0 <= i < old(self).file_tags@.len()
                ==> final(self).has_file_tag((#[trigger] old(self).file_tags@[i]).file_id,
                    old(self).file_tags@[i].tag_id),
            final(self).files == old(self).files,
            final(self).chunks == old(self).chunks,
            final(self).tags == old(self).tags,
            final(self).rules == old(self).rules,
            final(self).actions == old(self).actions,
            final(self).audit == old(self).audit,
            final(self).dirty == old(self).dirty,
    {
        let n = self.file_tags.len();
        proof {
            assert forall|i: int| 0 <= i < old(self).file_tags@.len()
                implies self.has_file_tag((#[trigger] old(self).file_tags@[i]).file_id,
                    old(self).file_tags@[i].tag_id) by {
                assert(self.file_tags@[i] == old(self).file_tags@[i]);
            }
        }
        let mut i: usize = 0;
        while i < n
            invariant
                i <= n,
                self.wf(),
                n <= self.file_tags@.len(),
                forall|j: int| 0 <= j < n ==> self.file_tags@[j]
                    == old(self).file_tags@[j],
                forall|j: int| 0 <= j < i
                    && (#[trigger] old(self).file_tags@[j]).file_id == from_fid
                    ==> self.has_file_tag(to_fid, old(self).file_tags@[j].tag_id),
                forall|j: int| 0 <= j < old(self).file_tags@.len()
                    ==> self.has_file_tag((#[trigger] old(self).file_tags@[j]).file_id,
                        old(self).file_tags@[j].tag_id),
                self.files == old(self).files,
                self.chunks == old(self).chunks,
                self.tags == old(self).tags,
                self.rules == old(self).rules,
                self.actions == old(self).actions,
                self.audit == old(self).audit,
                self.dirty == old(self).dirty,
            decreases n - i,
        {
            let link = if self.file_tags[i].file_id == from_fid {
                Some((self.file_tags[i].tag_id, self.file_tags[i].confidence))
            } else {
                None
            };
            match link {
                Some((tag_id, confidence)) => {
                    let ghost mid = *self;
                    self.ensure_file_tag(to_fid, tag_id, confidence, "apply", now);
                    proof {
                        assert forall|j: int| 0 <= j < old(self).file_tags@.len()
                            implies self.has_file_tag(
                                (#[trigger] old(self).file_tags@[j]).file_id,
                                old(self).file_tags@[j].tag_id) by {
                            let w = choose|w: int| 0 <= w < mid.file_tags@.len()
                                && (#[trigger] mid.file_tags@[w]).file_id
                                    == old(self).file_tags@[j].file_id
                                && mid.file_tags@[w].tag_id
                                    == old(self).file_tags@[j].tag_id;
                            assert(self.file_tags@[w].file_id
                                == old(self).file_tags@[j].file_id);
                        }
                        assert forall|j: int| 0 <= j < i + 1
                            && (#[trigger] old(self).file_tags@[j]).file_id == from_fid
                            implies self.has_file_tag(to_fid,
                                old(self).file_tags@[j].tag_id) by {
                            if j < i as int && mid.has_file_tag(to_fid,
                                old(self).file_tags@[j].tag_id) {
                                let w = choose|w: int| 0 <= w < mid.file_tags@.len()
                                    && (#[trigger] mid.file_tags@[w]).file_id == to_fid
                                    && mid.file_tags@[w].tag_id
                                        == old(self).file_tags@[j].tag_id;
                                assert(self.file_tags@[w].file_id == to_fid);
                            }
                        }
                    }
                }
                None => {}
            }
            i = i + 1;
        }
    }

    /// Marks a planned action executed, recording the execution time and
    /// the chosen backup path.
    pub fn mark_action_executed(&mut self, idx: usize, backup: Option<String>, now: i64)
        requires
            old(self).wf(),
            idx < old(self).actions@.len(),
            old(self).actions@[idx as int].status is Planned,
        ensures
            final(self).wf(),
            final(self).actions@ == old(self).actions@.update(idx as int,
                final(self).actions@[idx as int]),
            ({
                let row = final(self).actions@[idx as int];
                let pre = old(self).actions@[idx as int];
                row.status is Executed && row.executed_at == Some(now)
                    && row.backup_path == backup && row.error is None
                    && row.id == pre.id && row.file_id == pre.file_id
                    && row.kind == pre.kind && row.payload == pre.payload
                    && row.created_at == pre.created_at
                    && row.undo_token == pre.undo_token
            }),
            final(self).files == old(self).files,
            final(self).chunks == old(self).chunks,
            final(self).metadata == old(self).metadata,
            final(self).tags == old(self).tags,
            final(self).file_tags == old(self).file_tags,
            final(self).rules == old(self).rules,
            final(self).audit == old(self).audit,
            final(self).dirty == old(self).dirty,
            final(self).next_action_id == old(self).next_action_id,
    {
        let mut row = self.actions.remove(idx);
        row.status = ActionStatus::Executed;
        row.executed_at = Some(now);
        row.backup_path = backup;
        row.error = None;
        self.actions.insert(idx, row);
        proof {
            assert(self.actions@ =~= old(self).actions@.update(idx as int,
                self.actions@[idx as int]));
            assert(self.actions_wf());
        }
    }

    /// Marks an action failed with the given message; the execution time
    /// is left as it was.
    pub fn mark_action_error(&mut self, idx: usize, message: String)
        requires
            old(self).wf(),
            idx < old(self).actions@.len(),
        ensures
            final(self).wf(),
            final(self).actions@ == old(self).actions@.update(idx as int,
                final(self).actions@[idx as int]),
            ({
                let row = final(self).actions@[idx as int];
                let pre = old(self).actions@[idx as int];
                row.status is Error && (row.error matches Some(m) && m@ == message@)
                    && row.executed_at == pre.executed_at
                    && row.backup_path == pre.backup_path
                    && row.id == pre.id && row.file_id == pre.file_id
                    && row.kind == pre.kind && row.payload == pre.payload
                    && row.created_at == pre.created_at
            }),
            final(self).files == old(self).files,
            final(self).chunks == old(self).chunks,
            final(self).metadata == old(self).metadata,
            final(self).tags == old(self).tags,
            final(self).file_tags == old(self).file_tags,
            final(self).rules == old(self).rules,
            final(self).audit == old(self).audit,
            final(self).dirty == old(self).dirty,
            final(self).next_action_id == old(self).next_action_id,
    {
        let ghost msg = message@;
        let mut row = self.actions.remove(idx);
        row.status = ActionStatus::Error;
        row.error = Some(message);
        self.actions.insert(idx, row);
        proof {
            assert(self.actions@ =~= old(self).actions@.update(idx as int,
                self.actions@[idx as int]));
            assert(self.actions_wf());
        }
    }

    /// A file has at least one tag link.
    pub open spec fn file_is_tagged(self, fid: i64) -> bool {
        exists|i: int| 0 <= i < self.file_tags@.len()
            && (#[trigger] self.file_tags@[i]).file_id == fid
    }

    /// `v` is the id of some untagged file.
    pub open spec fn untagged_entry(self, v: i64) -> bool {
        exists|w: int| 0 <= w < self.files@.len() && (#[trigger] self.files@[w]).id == v
            && !self.file_is_tagged(self.files@[w].id)
    }

    /// The ids of the files with no tag link, in table order: the files
    /// the classifier still has to look at.
    #[verifier::loop_isolation(false)]
    pub fn untagged_files(&self) -> (r: Vec<i64>)
        ensures
            forall|t: int| 0 <= t < r@.len() ==> self.untagged_entry(#[trigger] r@[t]),
            forall|i: int| 0 <= i < self.files@.len()
                && !self.file_is_tagged((#[trigger] self.files@[i]).id)
                ==> r@.contains(self.files@[i].id),
    {
        let mut r: Vec<i64> = Vec::new();
        let n = self.files.len();
        let mut i: usize = 0;
        while i < n
            invariant
                i <= n,
                n == self.files@.len(),
                forall|t: int| 0 <= t < r@.len()
                    ==> self.untagged_entry(#[trigger] r@[t]),
                forall|w: int| 0 <= w < i
                    && !self.file_is_tagged((#[trigger] self.files@[w]).id)
                    ==> r@.contains(self.files@[w].id),
            decreases n - i,
        {
            let fid = self.files[i].id;
            let m = self.file_tags.len();
            let mut k: usize = 0;
            let mut tagged = false;
            while !tagged && k < m
                invariant
                    k <= m,
                    m == self.file_tags@.len(),
                    !tagged ==> forall|j: int| 0 <= j < k
                        ==> (#[trigger] self.file_tags@[j]).file_id != fid,
                    tagged ==> self.file_is_tagged(fid),
                decreases m - k + (if tagged { 0int } else { 1int }),
            {
                if self.file_tags[k].file_id == fid {
                    tagged = true;
                } else {
                    k = k + 1;
                }
            }
            if !tagged {
                proof {
                    assert(!self.file_is_tagged(fid));
                }
                let ghost rp = r@;
                r.push(fid);
                proof {
                    assert(r@.last() == self.files@[i as int].id);
                    assert forall|t: int| 0 <= t < r@.len()
                        implies self.untagged_entry(#[trigger] r@[t]) by {
                        if t < r@.len() - 1 {
                            assert(r@[t] == rp[t]);
                            assert(self.untagged_entry(rp[t]));
                        } else {
                            assert(self.files@[i as int].id == r@[t]);
                            assert(self.untagged_entry(r@[t]));
                        }
                    }
                    assert forall|w: int| 0 <= w < i + 1
                        && !self.file_is_tagged((#[trigger] self.files@[w]).id)
                        implies r@.contains(self.files@[w].id) by {
                        if w < i as int {
                            let t = choose|t: int| 0 <= t < rp.len()
                                && rp[t] == self.files@[w].id;
                            assert(r@[t] == self.files@[w].id);
                        } else {
                            assert(r@[r@.len() - 1] == self.files@[w].id);
                        }
                    }
                }
            }
            i = i + 1;
        }
        r
    }

    /// The hash the extractor compares against: the full hash when
    /// recorded, else the legacy hash, else the fast hash.
    pub open spec fn stored_hash(row: File) -> Option<Seq<char>> {
        match row.full_hash {
            Some(h) => Some(h@),
            None => match row.hash {
                Some(h) => Some(h@),
                None => match row.fast_hash {
                    Some(h) => Some(h@),
                    None => None,
                },
            },
        }
    }

    /// Whether the stored identity is the full hash, so the caller knows
    /// which hash to recompute.
    pub fn wants_full_hash(&self, path: &str) -> (r: bool)
        requires
            self.files_wf(),
        ensures
            r == (self.has_file_path(path@)
                && self.files@[self.file_idx(path@)].full_hash is Some),
    {
        match self.find_file_by_path(path) {
            Some(i) => self.files[i].full_hash.is_some(),
            None => false,
        }
    }

    /// The extractor's short-circuit: when the freshly computed hash
    /// equals the stored one, the dirty mark is cleared and extraction is
    /// skipped.
    pub fn skip_if_unchanged(&mut self, path: &str, current: &Option<String>)
        -> (skipped: bool)
        requires
            old(self).wf(),
        ensures
            final(self).wf(),
            skipped == (old(self).has_file_path(path@)
                && (Self::stored_hash(old(self).files@[old(self).file_idx(path@)])
                    matches Some(h)
                    && (current matches Some(c) && c@ == h))),
            !skipped ==> *final(self) == *old(self),
            skipped ==> ({
                &&& !final(self).has_dirty(path@)
                &&& forall|q: Seq<char>| q != path@
                    ==> (old(self).has_dirty(q) <==> final(self).has_dirty(q))
                &&& final(self).files == old(self).files
                &&& final(self).chunks == old(self).chunks
                &&& final(self).metadata == old(self).metadata
                &&& final(self).tags == old(self).tags
                &&& final(self).file_tags == old(self).file_tags
                &&& final(self).rules == old(self).rules
                &&& final(self).actions == old(self).actions
                &&& final(self).audit == old(self).audit
            }),
    {
        let found = self.find_file_by_path(path);
        let same = match (found, current) {
            (Some(i), Some(c)) => {
                let row = &self.files[i];
                match &row.full_hash {
                    Some(h) => str_eq(h.as_str(), c.as_str()),
                    None => match &row.hash {
                        Some(h) => str_eq(h.as_str(), c.as_str()),
                        None => match &row.fast_hash {
                            Some(h) => str_eq(h.as_str(), c.as_str()),
                            None => false,
                        },
                    },
                }
            }
            _ => false,
        };
        if same {
            self.clear_dirty(path);
            true
        } else {
            false
        }
    }

    pub open spec fn has_metadata(self, fid: i64, key: Seq<char>) -> bool {
        exists|i: int| 0 <= i < self.metadata@.len()
            && (#[trigger] self.metadata@[i]).file_id == fid
            && self.metadata@[i].key@ == key
    }

    /// Upserts one metadata pair: the first row with this `(file, key)`
    /// gets the new value and time; a missing pair is appended.
    #[verifier::loop_isolation(false)]
    pub fn upsert_metadata(
        &mut self,
        file_id: i64,
        key: &str,
        value: Option<String>,
        source: &str,
        now: i64,
    )
        requires
            old(self).wf(),
            old(self).next_metadata_id < i64::MAX,
        ensures
            final(self).wf(),
            final(self).has_metadata(file_id, key@),
            old(self).has_metadata(file_id, key@) ==> exists|i: int|
                0 <= i < old(self).metadata@.len()
                && final(self).metadata@ == old(self).metadata@.update(i,
                    #[trigger] final(self).metadata@[i])
                && ({
                    let row = final(self).metadata@[i];
                    let pre = old(self).metadata@[i];
                    row.file_id == file_id && row.key@ == key@
                        && row.value == value && row.updated_at == now
                        && row.id == pre.id && row.source == pre.source
                }),
            !old(self).has_metadata(file_id, key@) ==> final(self).metadata@
                == old(self).metadata@.push(final(self).metadata@.last())
                && ({
                    let row = final(self).metadata@.last();
                    row.file_id == file_id && row.key@ == key@ && row.value == value
                        && (row.source matches Some(sv) && sv@ == source@)
                        && row.updated_at == now
                }),
            final(self).files == old(self).files,
            final(self).chunks == old(self).chunks,
            final(self).tags == old(self).tags,
            final(self).file_tags == old(self).file_tags,
            final(self).rules == old(self).rules,
            final(self).actions == old(self).actions,
            final(self).audit == old(self).audit,
            final(self).dirty == old(self).dirty,
    {
        let n = self.metadata.len();
        let mut i: usize = 0;
        while i < n
            invariant
                i <= n,
                *self == *old(self),
                n == self.metadata@.len(),
                forall|j: int| 0 <= j < i
                    ==> !((#[trigger] self.metadata@[j]).file_id == file_id
                        && self.metadata@[j].key@ == key@),
            decreases n - i,
        {
            let hit = {
                let row = &self.metadata[i];
                row.file_id == file_id && str_eq(row.key.as_str(), key)
            };
            if hit {
                let mut row = self.metadata.remove(i);
                row.value = value;
                row.updated_at = now;
                self.metadata.insert(i, row);
                proof {
                    assert(self.metadata@ =~= old(self).metadata@.update(i as int,
                        self.metadata@[i as int]));
                    assert(self.metadata@[i as int].key@ == key@);
                }
                return ;
            }
            i = i + 1;
        }
        let id = self.next_metadata_id;
        self.metadata.push(Metadata {
            id,
            file_id,
            key: key.to_owned(),
            value,
            source: Some(source.to_owned()),
            updated_at: now,
        });
        self.next_metadata_id = id + 1;
        proof {
            assert(self.metadata@.last().key@ == key@);
        }
    }

    /// Applies a planned `tag` action: with a tag in the payload, the tag
    /// row and its file link are ensured (confidence full, source
    /// `apply`) and the row becomes executed; without one the row moves
    /// to `error` with message `invalid tag payload`.
    pub fn apply_tag_action(&mut self, idx: usize, now: i64) -> (ok: bool)
        requires
            old(self).wf(),
            idx < old(self).actions@.len(),
            old(self).actions@[idx as int].status is Planned,
            old(self).next_tag_id < i64::MAX,
        ensures
            final(self).wf(),
            ok == old(self).actions@[idx as int].payload.tag is Some,
            final(self).actions@ == old(self).actions@.update(idx as int,
                final(self).actions@[idx as int]),
            ok ==> ({
                let row = final(self).actions@[idx as int];
                let tag = old(self).actions@[idx as int].payload.tag->0;
                row.status is Executed && row.executed_at == Some(now)
                    && final(self).has_tag_name(tag@)
                    && final(self).has_file_tag(row.file_id,
                        final(self).tags@[final(self).tag_idx(tag@)].id)
            }),
            !ok ==> ({
                let row = final(self).actions@[idx as int];
                row.status is Error
                    && (row.error matches Some(m) && m@ == "invalid tag payload"@)
            }),
            final(self).files == old(self).files,
            final(self).chunks == old(self).chunks,
            final(self).metadata == old(self).metadata,
            final(self).rules == old(self).rules,
            final(self).audit == old(self).audit,
            final(self).dirty == old(self).dirty,
    {
        let tag = crate::db::clone_opt_string(&self.actions[idx].payload.tag);
        match tag {
            Some(t) => {
                let fid = self.actions[idx].file_id;
                let tag_id = self.ensure_tag(t.as_str());
                self.ensure_file_tag(fid, tag_id, 1000, "apply", now);
                proof {
                    assert(self.tags@[self.tag_idx(t@)].id == tag_id);
                }
                self.mark_action_executed(idx, None, now);
                true
            }
            None => {
                self.mark_action_error(idx, String::from_str("invalid tag payload"));
                false
            }
        }
    }

    /// Records a planned action row; returns its id.
    pub fn insert_action(
        &mut self,
        file_id: i64,
        kind: String,
        payload: ActionPayload,
        now: i64,
    ) -> (r: i64)
        requires
            old(self).wf(),
            old(self).next_action_id < i64::MAX,
        ensures
            final(self).wf(),
            r == old(self).next_action_id,
            final(self).next_action_id == old(self).next_action_id + 1,
            final(self).actions@ == old(self).actions@.push(final(self).actions@.last()),
            ({
                let row = final(self).actions@.last();
                row.id == r && row.file_id == file_id && row.kind@ == kind@
                    && row.payload == payload && row.status is Planned
                    && row.created_at == now && row.executed_at is None
                    && row.backup_path is None && row.error is None
            }),
            final(self).files == old(self).files,
            final(self).chunks == old(self).chunks,
            final(self).metadata == old(self).metadata,
            final(self).tags == old(self).tags,
            final(self).file_tags == old(self).file_tags,
            final(self).rules == old(self).rules,
            final(self).audit == old(self).audit,
            final(self).dirty == old(self).dirty,
            final(self).next_file_id == old(self).next_file_id,
            final(self).next_tag_id == old(self).next_tag_id,
    {
        let id = self.next_action_id;
        self.actions.push(Action {
            id,
            file_id,
            kind,
            payload,
            status: ActionStatus::Planned,
            error: None,
            created_at: now,
            executed_at: None,
            undo_token: None,
            backup_path: None,
        });
        self.next_action_id = id + 1;
        id
    }

    /// Appends an audit row.
    pub fn append_audit(
        &mut self,
        action_id: Option<i64>,
        event: String,
        detail: Option<AuditDetail>,
        now: i64,
    )
        requires
            old(self).wf(),
            old(self).next_audit_id < i64::MAX,
        ensures
            final(self).wf(),
            final(self).audit@ == old(self).audit@.push(final(self).audit@.last()),
            ({
                let row = final(self).audit@.last();
                row.action_id == action_id && row.event@ == event@ && row.detail == detail
                    && row.created_at == now
            }),
            final(self).files == old(self).files,
            final(self).chunks == old(self).chunks,
            final(self).metadata == old(self).metadata,
            final(self).tags == old(self).tags,
            final(self).file_tags == old(self).file_tags,
            final(self).rules == old(self).rules,
            final(self).actions == old(self).actions,
            final(self).dirty == old(self).dirty,
            final(self).next_action_id == old(self).next_action_id,
            final(self).next_file_id == old(self).next_file_id,
            final(self).next_chunk_id == old(self).next_chunk_id,
            final(self).next_tag_id == old(self).next_tag_id,
            final(self).next_audit_id == old(self).next_audit_id + 1,
    {
        let id = self.next_audit_id;
        self.audit.push(Audit { id, action_id, event, detail, created_at: now });
        self.next_audit_id = id + 1;
    }
}

/// One incoming chunk from extraction: its content hash, byte offsets
/// and text preview.
pub struct NewChunk {
    pub hash: String,
    pub start: i64,
    pub end: i64,
    pub preview: Option<String>,
}

/// `h` occurs among the incoming chunk hashes.
pub open spec fn in_new(cs: Seq<NewChunk>, h: Seq<char>) -> bool {
    exists|j: int| 0 <= j < cs.len() && (#[trigger] cs[j]).hash@ == h
}

/// Whether `h` occurs among the incoming chunk hashes.
pub fn hash_in_new(new_chunks: &Vec<NewChunk>, h: &str) -> (r: bool)
    ensures
        r == in_new(new_chunks@, h@),
{
    let n = new_chunks.len();
    let mut i: usize = 0;
    while i < n
        invariant
            i <= n,
            n == new_chunks@.len(),
            forall|j: int| 0 <= j < i ==> (#[trigger] new_chunks@[j]).hash@ != h@,
        decreases n - i,
    {
        if str_eq(new_chunks[i].hash.as_str(), h) {
            return true;
        }
        i = i + 1;
    }
    false
}

/// Exactly one planned `dedupe` row and one planned `merge_duplicate`
/// row exist for the file.
pub open spec fn exactly_one_dedupe_pair(db: Database, fid: i64) -> bool {
    (exists|i: int| dedupe_row(db, fid, i) && forall|j: int| dedupe_row(db, fid, j)
        ==> j == i) && (exists|i: int| merge_row(db, fid, i) && forall|j: int|
        merge_row(db, fid, j) ==> j == i)
}

pub open spec fn dedupe_row(db: Database, fid: i64, i: int) -> bool {
    0 <= i < db.actions@.len() && db.actions@[i].file_id == fid
        && db.actions@[i].status is Planned && db.actions@[i].kind@ == "dedupe"@
}

pub open spec fn merge_row(db: Database, fid: i64, i: int) -> bool {
    0 <= i < db.actions@.len() && db.actions@[i].file_id == fid
        && db.actions@[i].status is Planned && db.actions@[i].kind@ == "merge_duplicate"@
}

/// Copies an optional string, preserving its value.
pub fn clone_opt_string(o: &Option<String>) -> (r: Option<String>)
    ensures
        r == *o,
{
    match o {
        Some(s) => Some(s.clone()),
        None => None,
    }
}

} // verus!
