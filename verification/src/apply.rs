//! The apply engine: parsing planned actions, resolving destination
//! conflicts with the `{stem}_{n}{.ext}` counter rule, backing files up
//! into the trash directory, and executing moves, renames and duplicate
//! merges against the filesystem model.

use vstd::prelude::*;
use crate::fsmodel::FsState;
use crate::strutil::{dec_str, lemma_dec_str_injective, push_char, str_eq, u64_to_string};

verus! {

/// The largest index of `/` in `p`, or -1.
pub open spec fn last_slash(p: Seq<char>, e: int) -> int
    decreases e,
{
    if e <= 0 {
        -1
    } else if p[e - 1] == '/' {
        e - 1
    } else {
        last_slash(p, e - 1)
    }
}

/// The largest index of `.` in `[s, e)`, or -1.
pub open spec fn last_dot(p: Seq<char>, s: int, e: int) -> int
    decreases e - s,
{
    if e <= s {
        -1
    } else if p[e - 1] == '.' {
        e - 1
    } else {
        last_dot(p, s, e - 1)
    }
}

/// Where the file name of `p` starts: one past the last separator.
pub open spec fn name_start(p: Seq<char>) -> int {
    last_slash(p, p.len() as int) + 1
}

/// The stem of `p`'s file name: up to the last dot, the whole name when
/// there is no dot past the first name character, and `file` when the
/// name is empty.
pub open spec fn stem_of(p: Seq<char>) -> Seq<char> {
    let s = name_start(p);
    if s == p.len() {
        "file"@
    } else {
        let d = last_dot(p, s + 1, p.len() as int);
        if d >= 0 {
            p.subrange(s, d)
        } else {
            p.subrange(s, p.len() as int)
        }
    }
}

/// The extension of `p`'s file name: what follows the last dot, empty
/// when there is none.
pub open spec fn ext_part(p: Seq<char>) -> Seq<char> {
    let s = name_start(p);
    if s == p.len() {
        Seq::empty()
    } else {
        let d = last_dot(p, s + 1, p.len() as int);
        if d >= 0 {
            p.subrange(d + 1, p.len() as int)
        } else {
            Seq::empty()
        }
    }
}

/// The `n`-th alternative name for a contested destination:
/// `{dir}{stem}_{n}` with the extension re-appended when there is one.
pub open spec fn conflict_candidate(dest: Seq<char>, n: nat) -> Seq<char> {
    let dir = dest.take(name_start(dest));
    let tail: Seq<char> = if ext_part(dest).len() > 0 {
        seq!['.'] + ext_part(dest)
    } else {
        Seq::empty()
    };
    dir + stem_of(dest) + seq!['_'] + dec_str(n) + tail
}

/// Distinct counters give distinct candidate names.
proof fn lemma_candidate_injective(dest: Seq<char>, n1: nat, n2: nat)
    requires
        conflict_candidate(dest, n1) == conflict_candidate(dest, n2),
    ensures
        n1 == n2,
{
    let dir = dest.take(name_start(dest));
    let tail: Seq<char> = if ext_part(dest).len() > 0 {
        seq!['.'] + ext_part(dest)
    } else {
        Seq::empty()
    };
    let head = dir + stem_of(dest) + seq!['_'];
    let c1 = conflict_candidate(dest, n1);
    let c2 = conflict_candidate(dest, n2);
    assert(c1 == head + dec_str(n1) + tail);
    assert(c2 == head + dec_str(n2) + tail);
    assert(c1.len() == head.len() + dec_str(n1).len() + tail.len());
    assert(c2.len() == head.len() + dec_str(n2).len() + tail.len());
    assert(dec_str(n1).len() == dec_str(n2).len());
    assert(dec_str(n1) =~= dec_str(n2)) by {
        assert forall|i: int| 0 <= i < dec_str(n1).len()
            implies dec_str(n1)[i] == dec_str(n2)[i] by {
            assert(c1[head.len() + i] == dec_str(n1)[i]);
            assert(c2[head.len() + i] == dec_str(n2)[i]);
        }
    }
    lemma_dec_str_injective(n1, n2);
}

/// The last separator sits before `e`.
proof fn lemma_last_slash_range(p: Seq<char>, e: int)
    ensures
        last_slash(p, e) == -1 || 0 <= last_slash(p, e) < e,
    decreases e,
{
    if e > 0 {
        lemma_last_slash_range(p, e - 1);
    }
}

/// The last dot sits within `[s, e)`.
proof fn lemma_last_dot_range(p: Seq<char>, s: int, e: int)
    ensures
        last_dot(p, s, e) == -1 || s <= last_dot(p, s, e) < e,
    decreases e - s,
{
    if e > s {
        lemma_last_dot_range(p, s, e - 1);
    }
}

/// Finds where the file name starts and where its last dot sits.
pub(crate) fn split_points(p: &str) -> (r: (usize, bool, usize))
    ensures
        r.0 == name_start(p@),
        r.0 <= p@.len(),
        r.1 <==> last_dot(p@, r.0 + 1, p@.len() as int) >= 0,
        r.1 ==> r.2 == last_dot(p@, r.0 + 1, p@.len() as int) && r.0 < r.2 < p@.len(),
{
    let n = p.unicode_len();
    proof {
        lemma_last_slash_range(p@, n as int);
    }
    let mut j: usize = n;
    let mut slash: usize = 0;
    let mut slash_found: bool = false;
    while !slash_found && j > 0
        invariant
            j <= n,
            n == p@.len(),
            !slash_found ==> last_slash(p@, n as int) == last_slash(p@, j as int),
            slash_found ==> slash < n && last_slash(p@, n as int) == slash,
        decreases j + (if slash_found { 0int } else { 1int }),
    {
        if p.get_char(j - 1) == '/' {
            slash = j - 1;
            slash_found = true;
        } else {
            j = j - 1;
        }
    }
    let start: usize = if slash_found {
        slash + 1
    } else {
        0
    };
    assert(start == name_start(p@));
    proof {
        lemma_last_dot_range(p@, start + 1, n as int);
    }
    let mut dot: usize = 0;
    let mut dot_found: bool = false;
    if start < n {
        let lb: usize = start + 1;
        let mut k: usize = n;
        while !dot_found && k > lb
            invariant
                lb <= k + 1,
                k <= n,
                n == p@.len(),
                lb == start + 1,
                start == name_start(p@),
                !dot_found ==> last_dot(p@, lb as int, n as int)
                    == last_dot(p@, lb as int, k as int),
                dot_found ==> start < dot < n && last_dot(p@, lb as int, n as int) == dot,
            decreases k + (if dot_found { 0int } else { 1int }),
        {
            if p.get_char(k - 1) == '.' {
                dot = k - 1;
                dot_found = true;
            } else {
                k = k - 1;
            }
        }
    }
    (start, dot_found, dot)
}

/// Builds `conflict_candidate(dest, n)` as a string.
fn build_candidate(dest: &str, n: u64) -> (r: String)
    ensures
        r@ == conflict_candidate(dest@, n as nat),
{
    let len = dest.unicode_len();
    let (start, has_dot, dot) = split_points(dest);
    let mut out = String::new();
    // Directory part, including the separator.
    let dir = dest.substring_char(0, start);
    out.append(dir);
    // Stem.
    if start == len {
        out.append("file");
        proof {
            reveal_strlit("file");
        }
    } else {
        let stem_end: usize = if has_dot {
            dot
        } else {
            len
        };
        let stem = dest.substring_char(start, stem_end);
        out.append(stem);
    }
    push_char(&mut out, '_');
    let num = u64_to_string(n);
    out.append(num.as_str());
    // Extension, when present and non-empty.
    if start < len && has_dot && dot + 1 < len {
        push_char(&mut out, '.');
        let ext = dest.substring_char(dot + 1, len);
        out.append(ext);
    }
    proof {
        let p = dest@;
        let dir_s = p.take(name_start(p));
        let tail: Seq<char> = if ext_part(p).len() > 0 {
            seq!['.'] + ext_part(p)
        } else {
            Seq::empty()
        };
        assert(out@ =~= dir_s + stem_of(p) + seq!['_'] + dec_str(n as nat) + tail);
    }
    out
}

/// Picks the first free alternative destination: the least `n >= 1` whose
/// `{stem}_{n}{.ext}` name does not exist.
#[verifier::loop_isolation(false)]
pub fn resolve_conflict(fs: &FsState, dest: &String) -> (r: String)
    requires
        fs.wf(),
        fs.files@.len() < usize::MAX,
    ensures
        !fs.has_path(r@),
        exists|n: int| #![trigger conflict_candidate(dest@, n as nat)]
            1 <= n && r@ == conflict_candidate(dest@, n as nat)
            && forall|k: int| #![trigger conflict_candidate(dest@, k as nat)]
                1 <= k < n ==> fs.has_path(conflict_candidate(dest@, k as nat)),
{
    let m = fs.files.len();
    let mut c: usize = 1;
    loop
        invariant
            1 <= c <= m + 1,
            m == fs.files@.len(),
            forall|k: int| #![trigger conflict_candidate(dest@, k as nat)]
                1 <= k < c ==> fs.has_path(conflict_candidate(dest@, k as nat)),
        decreases m + 2 - c,
    {
        let cand = build_candidate(dest.as_str(), c as u64);
        if !fs.exists_path(cand.as_str()) {
            proof {
                let n0: int = c as int;
                assert(cand@ == conflict_candidate(dest@, n0 as nat));
                assert(forall|k: int| #![trigger conflict_candidate(dest@, k as nat)]
                    1 <= k < n0 ==> fs.has_path(conflict_candidate(dest@, k as nat)));
            }
            return cand;
        }
        proof {
            lemma_conflict_pigeonhole(*fs, dest@, c as int);
        }
        c = c + 1;
    }
}

/// If the first `c` candidates all exist, the namespace holds at least
/// `c` files.
proof fn lemma_conflict_pigeonhole(fs: FsState, dest: Seq<char>, c: int)
    requires
        fs.wf(),
        c >= 1,
        forall|k: int| #![trigger conflict_candidate(dest, k as nat)]
            1 <= k <= c ==> fs.has_path(conflict_candidate(dest, k as nat)),
    ensures
        c <= fs.files@.len(),
{
    let cands = Seq::new(c as nat, |k: int| conflict_candidate(dest, (k + 1) as nat));
    assert(cands.no_duplicates()) by {
        assert forall|a: int, b: int| 0 <= a < b < cands.len()
            implies cands[a] != cands[b] by {
            if cands[a] == cands[b] {
                lemma_candidate_injective(dest, (a + 1) as nat, (b + 1) as nat);
            }
        }
    }
    let paths = fs.files@.map(|i: int, f: crate::fsmodel::FsFile| f.path@);
    assert(cands.to_set().subset_of(paths.to_set())) by {
        assert forall|x: Seq<char>| cands.to_set().contains(x)
            implies paths.to_set().contains(x) by {
            let k = choose|k: int| 0 <= k < cands.len() && cands[k] == x;
            assert(fs.has_path(conflict_candidate(dest, (k + 1) as nat)));
            let w = fs.idx_of(x);
            assert(paths[w] == x);
            assert(paths.to_set().contains(paths[w]));
        }
    }
    cands.unique_seq_to_set();
    paths.lemma_cardinality_of_set();
    vstd::set_lib::lemma_len_subset(cands.to_set(), paths.to_set());
}

/// The structured payload carried by a stored action row.
pub struct ActionPayload {
    pub to: Option<String>,
    pub tag: Option<String>,
    pub duplicate_of: Option<String>,
    pub strategy: Option<String>,
    pub rule: Option<String>,
    pub backup: Option<String>,
}

/// A planned change, parsed into its operational form.
pub enum ActionKind {
    Move { from: String, to: String },
    Rename { from: String, to: String },
    Tag { path: String, tag: String },
    Dedupe { path: String, duplicate_of: String },
    MergeDuplicate { from: String, target: String, strategy: String },
    Unsupported,
}

/// Why an action could not be executed.
#[derive(Debug)]
pub enum ApplyError {
    SourceMissing,
}

impl ApplyError {
    pub fn message(&self) -> (r: String)
        ensures
            r@ == "source missing"@,
    {
        String::from_str("source missing")
    }
}

/// Turns a stored row (file path, kind label, payload) into an
/// operational action.  Missing destinations fall back to the source
/// path, a missing merge strategy falls back to `trash`, and an unknown
/// kind is unsupported.
pub fn parse_action(path: &String, kind: &String, payload: &ActionPayload) -> (r: ActionKind)
    ensures
        kind@ == "move"@ ==> (r matches ActionKind::Move { from, to }
            && from@ == path@ && to@ == (match payload.to {
                Some(ref t) => t@,
                None => path@,
            })),
        kind@ == "rename"@ ==> (r matches ActionKind::Rename { from, to }
            && from@ == path@ && to@ == (match payload.to {
                Some(ref t) => t@,
                None => path@,
            })),
        kind@ == "tag"@ ==> (r matches ActionKind::Tag { path: p, tag }
            && p@ == path@ && tag@ == (match payload.tag {
                Some(ref t) => t@,
                None => Seq::<char>::empty(),
            })),
        kind@ == "dedupe"@ ==> (r matches ActionKind::Dedupe { path: p, duplicate_of }
            && p@ == path@ && duplicate_of@ == (match payload.duplicate_of {
                Some(ref d) => d@,
                None => Seq::<char>::empty(),
            })),
        kind@ == "merge_duplicate"@ ==> (r matches ActionKind::MergeDuplicate {
            from, target, strategy }
            && from@ == path@ && target@ == (match payload.duplicate_of {
                Some(ref d) => d@,
                None => Seq::<char>::empty(),
            }) && strategy@ == (match payload.strategy {
                Some(ref st) => st@,
                None => "trash"@,
            })),
        kind@ != "move"@ && kind@ != "rename"@ && kind@ != "tag"@ && kind@ != "dedupe"@
            && kind@ != "merge_duplicate"@ ==> r is Unsupported,
{
    proof {
        reveal_strlit("move");
        reveal_strlit("rename");
        reveal_strlit("tag");
        reveal_strlit("dedupe");
        reveal_strlit("merge_duplicate");
        assert("move"@.len() == 4);
        assert("rename"@.len() == 6);
        assert("tag"@.len() == 3);
        assert("dedupe"@.len() == 6);
        assert("merge_duplicate"@.len() == 15);
        assert(("rename"@)[0] == 'r');
        assert(("dedupe"@)[0] == 'd');
    }
    if str_eq(kind.as_str(), "move") {
        let to = match &payload.to {
            Some(t) => t.clone(),
            None => path.clone(),
        };
        ActionKind::Move { from: path.clone(), to }
    } else if str_eq(kind.as_str(), "rename") {
        let to = match &payload.to {
            Some(t) => t.clone(),
            None => path.clone(),
        };
        ActionKind::Rename { from: path.clone(), to }
    } else if str_eq(kind.as_str(), "tag") {
        let tag = match &payload.tag {
            Some(t) => t.clone(),
            None => String::new(),
        };
        ActionKind::Tag { path: path.clone(), tag }
    } else if str_eq(kind.as_str(), "dedupe") {
        let duplicate_of = match &payload.duplicate_of {
            Some(d) => d.clone(),
            None => String::new(),
        };
        ActionKind::Dedupe { path: path.clone(), duplicate_of }
    } else if str_eq(kind.as_str(), "merge_duplicate") {
        let target = match &payload.duplicate_of {
            Some(d) => d.clone(),
            None => String::new(),
        };
        let strategy = match &payload.strategy {
            Some(st) => st.clone(),
            None => String::from_str("trash"),
        };
        ActionKind::MergeDuplicate { from: path.clone(), target, strategy }
    } else {
        ActionKind::Unsupported
    }
}

/// The file-name component of `src`, or `backup` when there is none.
pub open spec fn file_name_or_backup(src: Seq<char>) -> Seq<char> {
    if name_start(src) == src.len() {
        "backup"@
    } else {
        src.skip(name_start(src))
    }
}

/// `dir` and `name` joined with a single separator.
pub open spec fn joined(dir: Seq<char>, name: Seq<char>) -> Seq<char> {
    if dir.len() == 0 {
        name
    } else if dir[dir.len() - 1] == '/' {
        dir + name
    } else {
        dir + seq!['/'] + name
    }
}

fn join_path(dir: &String, name: &String) -> (r: String)
    ensures
        r@ == joined(dir@, name@),
{
    let dl = dir.unicode_len();
    let mut out = String::new();
    if dl == 0 {
        out.append(name.as_str());
    } else {
        out.append(dir.as_str());
        if dir.as_str().get_char(dl - 1) != '/' {
            push_char(&mut out, '/');
        }
        out.append(name.as_str());
    }
    assert(out@ =~= joined(dir@, name@));
    out
}

fn file_name_of(src: &String) -> (r: String)
    ensures
        r@ == file_name_or_backup(src@),
{
    let n = src.unicode_len();
    let (start, _, _) = split_points(src.as_str());
    if start == n {
        proof {
            reveal_strlit("backup");
        }
        String::from_str("backup")
    } else {
        let name = src.as_str().substring_char(start, n);
        assert(name@ =~= src@.skip(name_start(src@)));
        String::from_str(name)
    }
}

/// `r` is `base` when that name is free, else the least-counter
/// alternative `{stem}_{n}{.ext}` of `base`; free either way.
pub open spec fn fresh_alternative(pre: FsState, base: Seq<char>, r: Seq<char>) -> bool {
    if !pre.has_path(base) {
        r == base
    } else {
        !pre.has_path(r) && exists|n: int| #![trigger conflict_candidate(base, n as nat)]
            1 <= n && r == conflict_candidate(base, n as nat)
            && forall|k: int| #![trigger conflict_candidate(base, k as nat)]
                1 <= k < n ==> pre.has_path(conflict_candidate(base, k as nat))
    }
}

/// Copies `src` into the trash directory under a non-colliding name and
/// returns the chosen backup path.  A missing source leaves the
/// filesystem untouched (the chosen name is still returned).
pub fn backup_to_trash(fs: &mut FsState, src: &String, trash: &String) -> (r: String)
    requires
        old(fs).wf(),
        old(fs).files@.len() < usize::MAX,
    ensures
        final(fs).wf(),
        !old(fs).has_path(r@),
        fresh_alternative(*old(fs), joined(trash@, file_name_or_backup(src@)), r@),
        old(fs).has_path(src@) ==> final(fs).has_path(r@)
            && final(fs).content(r@) == old(fs).content(src@)
            && old(fs).same_except(*final(fs), r@)
            && final(fs).has_path(src@)
            && final(fs).content(src@) == old(fs).content(src@),
        !old(fs).has_path(src@) ==> *final(fs) == *old(fs),
        final(fs).files@.len() <= old(fs).files@.len() + 1,
{
    let fname = file_name_of(src);
    let base = join_path(trash, &fname);
    let chosen: String = if !fs.exists_path(base.as_str()) {
        base
    } else {
        resolve_conflict(fs, &base)
    };
    let data = fs.read(src.as_str());
    match data {
        Some(d) => {
            proof {
                assert(chosen@ != src@);
            }
            fs.write(chosen.as_str(), d);
        }
        None => {}
    }
    chosen
}

/// The move transition: `to` now holds what `from` held, `from` is gone
/// (unless it is `to`), the backup (when one was made) holds the same
/// bytes under a previously free name, and nothing else changed.
pub open spec fn moved_ok(
    pre: FsState,
    post: FsState,
    from: Seq<char>,
    to: Seq<char>,
    backup: Option<Seq<char>>,
) -> bool {
    &&& post.has_path(to)
    &&& post.content(to) == pre.content(from)
    &&& (to != from ==> !post.has_path(from))
    &&& match backup {
        Some(b) => post.has_path(b) && post.content(b) == pre.content(from) && b != from
            && !pre.has_path(b),
        None => true,
    }
    &&& forall|q: Seq<char>|
        q != from && q != to && (match backup {
            Some(b) => q != b,
            None => true,
        }) ==> (pre.has_path(q) <==> post.has_path(q))
    &&& forall|q: Seq<char>|
        q != from && q != to && (match backup {
            Some(b) => q != b,
            None => true,
        }) && pre.has_path(q) ==> #[trigger] pre.content(q) == post.content(q)
}

/// Moves `from` to `to`, backing the source up into the trash directory
/// first when one is configured.  Copy-then-delete and rename leave the
/// same final state in the model.
pub fn apply_move(
    fs: &mut FsState,
    from: &String,
    to: &String,
    trash_dir: Option<&String>,
    copy_then_delete: bool,
) -> (r: Result<Option<String>, ApplyError>)
    requires
        old(fs).wf(),
        old(fs).files@.len() < usize::MAX,
    ensures
        final(fs).wf(),
        final(fs).files@.len() <= old(fs).files@.len() + 1,
        old(fs).has_path(from@) ==> (r matches Ok(b) && (b is Some <==> trash_dir is Some)
            && moved_ok(*old(fs), *final(fs), from@, to@, match b {
                Some(ref bp) => Some(bp@),
                None => None,
            })
            && (match b {
                Some(ref bp) => trash_dir matches Some(t) && fresh_alternative(*old(fs),
                    joined(t@, file_name_or_backup(from@)), bp@),
                None => true,
            })),
        !old(fs).has_path(from@) ==> r is Err && *final(fs) == *old(fs),
{
    let ghost pre = *old(fs);
    let mut backup: Option<String> = None;
    match trash_dir {
        Some(t) => {
            let b = backup_to_trash(fs, from, t);
            backup = Some(b);
        }
        None => {}
    }
    let ghost mid = *fs;
    let data = fs.read(from.as_str());
    match data {
        Some(d) => {
            proof {
                assert(pre.has_path(from@));
                assert(mid.content(from@) == pre.content(from@));
            }
            let _ = fs.remove_path(from.as_str());
            fs.write(to.as_str(), d);
            proof {
                let post = *fs;
                assert(post.content(to@) == pre.content(from@));
                match backup {
                    Some(ref bp) => {
                        assert(!pre.has_path(bp@));
                        assert(bp@ != from@);
                        if bp@ != to@ {
                            assert(post.has_path(bp@));
                            assert(post.content(bp@) == pre.content(from@));
                        }
                    }
                    None => {}
                }
            }
            Ok(backup)
        }
        None => {
            proof {
                assert(!pre.has_path(from@));
                assert(*fs == pre);
            }
            Err(ApplyError::SourceMissing)
        }
    }
}

/// What a move or rename leaves behind under the conflict policy.
pub open spec fn move_policy_post(
    pre: FsState,
    post: FsState,
    r: Result<Option<String>, ApplyError>,
    from: Seq<char>,
    to: Seq<char>,
    conflict: Seq<char>,
    has_trash: bool,
) -> bool {
    if pre.has_path(to) && conflict == "skip"@ {
        r matches Ok(b) && b is None && post == pre
    } else {
        exists|t: Seq<char>| #[trigger] target_of(pre, to, conflict, t)
            && (if pre.has_path(from) {
                r matches Ok(b) && (b is Some <==> has_trash)
                    && moved_ok(pre, post, from, t, match b {
                    Some(ref bp) => Some(bp@),
                    None => None,
                })
            } else {
                r is Err && post == pre
            })
    }
}

/// The destination actually used for a move: the requested one unless it
/// exists and the policy says to pick a fresh alternative.
pub open spec fn target_of(pre: FsState, to: Seq<char>, conflict: Seq<char>, t: Seq<char>)
    -> bool {
    if pre.has_path(to) && conflict != "skip"@ && conflict != "overwrite"@ {
        fresh_alternative(pre, to, t)
    } else {
        t == to
    }
}

/// Executes one parsed action against the filesystem model, honouring
/// the conflict policy (`skip`, `overwrite`, else pick a fresh name) and
/// the trash-backup discipline.  Tag and dedupe actions touch no files.
#[verifier::rlimit(30)]
pub fn apply_action(
    fs: &mut FsState,
    action: &ActionKind,
    trash_dir: Option<&String>,
    copy_then_delete: bool,
    conflict_policy: &str,
) -> (r: Result<Option<String>, ApplyError>)
    requires
        old(fs).wf(),
        old(fs).files@.len() < usize::MAX - 1,
    ensures
        final(fs).wf(),
        final(fs).files@.len() <= old(fs).files@.len() + 2,
        (action matches ActionKind::Tag { .. } || action matches ActionKind::Dedupe { .. }
            || action is Unsupported) ==> (r matches Ok(b) && b is None
            && *final(fs) == *old(fs)),
        action matches ActionKind::Move { ref from, ref to }
            ==> move_policy_post(*old(fs), *final(fs), r, from@, to@, conflict_policy@,
                trash_dir is Some),
        action matches ActionKind::Rename { ref from, ref to }
            ==> move_policy_post(*old(fs), *final(fs), r, from@, to@, conflict_policy@,
                trash_dir is Some),
        action matches ActionKind::MergeDuplicate { ref from, ref target, ref strategy }
            ==> (if strategy@ == "replace"@ {
            if old(fs).has_path(from@) {
                r matches Ok(b) && (b is Some <==> trash_dir is Some)
                    && moved_ok(*old(fs), *final(fs), from@, target@, match b {
                    Some(ref bp) => Some(bp@),
                    None => None,
                })
            } else {
                r is Err && *final(fs) == *old(fs)
            }
        } else {
            !final(fs).has_path(from@) && (match trash_dir {
                Some(t) => r matches Ok(b) && b matches Some(bp)
                    && fresh_alternative(*old(fs), joined(t@, file_name_or_backup(from@)),
                        bp@)
                    && (old(fs).has_path(from@) ==> final(fs).has_path(bp@)
                        && final(fs).content(bp@) == old(fs).content(from@))
                    && (forall|q: Seq<char>| q != from@ && q != bp@
                        ==> (old(fs).has_path(q) <==> final(fs).has_path(q)))
                    && (forall|q: Seq<char>| q != from@ && q != bp@ && old(fs).has_path(q)
                        ==> #[trigger] old(fs).content(q) == final(fs).content(q)),
                None => r matches Ok(b) && b is None
                    && old(fs).same_except(*final(fs), from@),
            })
        }),
{
    proof {
        reveal_strlit("skip");
        reveal_strlit("overwrite");
        reveal_strlit("replace");
        assert("skip"@.len() == 4);
        assert("overwrite"@.len() == 9);
        assert("replace"@.len() == 7);
    }
    match action {
        ActionKind::Move { from, to } => {
            let r = move_with_policy(fs, from, to, trash_dir, copy_then_delete,
                conflict_policy);
            proof {
                if !(old(fs).has_path(to@) && conflict_policy@ == "skip"@) {
                    let t = choose|t: Seq<char>|
                        #[trigger] target_of(*old(fs), to@, conflict_policy@, t)
                        && (if old(fs).has_path(from@) {
                            r matches Ok(b) && (b is Some <==> trash_dir is Some)
                                && moved_ok(*old(fs), *fs, from@, t, match b {
                                Some(ref bp) => Some(bp@),
                                None => None,
                            })
                        } else {
                            r is Err && *fs == *old(fs)
                        });
                    assert(target_of(*old(fs), to@, conflict_policy@, t));
                }
            }
            r
        }
        ActionKind::Rename { from, to } => {
            let r = move_with_policy(fs, from, to, trash_dir, copy_then_delete,
                conflict_policy);
            proof {
                if !(old(fs).has_path(to@) && conflict_policy@ == "skip"@) {
                    let t = choose|t: Seq<char>|
                        #[trigger] target_of(*old(fs), to@, conflict_policy@, t)
                        && (if old(fs).has_path(from@) {
                            r matches Ok(b) && (b is Some <==> trash_dir is Some)
                                && moved_ok(*old(fs), *fs, from@, t, match b {
                                Some(ref bp) => Some(bp@),
                                None => None,
                            })
                        } else {
                            r is Err && *fs == *old(fs)
                        });
                    assert(target_of(*old(fs), to@, conflict_policy@, t));
                }
            }
            r
        }
        ActionKind::Tag { .. } => Ok(None),
        ActionKind::Dedupe { .. } => Ok(None),
        ActionKind::MergeDuplicate { from, target, strategy } => {
            if str_eq(strategy.as_str(), "replace") {
                let r = apply_move(fs, from, target, trash_dir, copy_then_delete);
                r
            } else {
                match trash_dir {
                    Some(t) => {
                        let bp = backup_to_trash(fs, from, t);
                        let ghost mid = *fs;
                        let _ = fs.remove_path(from.as_str());
                        proof {
                            assert(!old(fs).has_path(bp@));
                            if old(fs).has_path(from@) {
                                assert(bp@ != from@);
                                assert(fs.has_path(bp@));
                            }
                        }
                        Ok(Some(bp))
                    }
                    None => {
                        let _ = fs.remove_path(from.as_str());
                        Ok(None)
                    }
                }
            }
        }
        ActionKind::Unsupported => Ok(None),
    }
}

/// A move or rename under the conflict policy: skip silently, overwrite,
/// or pick the first free alternative name.
fn move_with_policy(
    fs: &mut FsState,
    from: &String,
    to: &String,
    trash_dir: Option<&String>,
    copy_then_delete: bool,
    conflict_policy: &str,
) -> (r: Result<Option<String>, ApplyError>)
    requires
        old(fs).wf(),
        old(fs).files@.len() < usize::MAX - 1,
    ensures
        final(fs).wf(),
        final(fs).files@.len() <= old(fs).files@.len() + 1,
        old(fs).has_path(to@) && conflict_policy@ == "skip"@ ==> (r matches Ok(b)
            && b is None && *final(fs) == *old(fs)),
        !(old(fs).has_path(to@) && conflict_policy@ == "skip"@) ==> exists|t: Seq<char>|
            #[trigger] target_of(*old(fs), to@, conflict_policy@, t)
            && (if old(fs).has_path(from@) {
                r matches Ok(b) && (b is Some <==> trash_dir is Some)
                    && moved_ok(*old(fs), *final(fs), from@, t, match b {
                    Some(ref bp) => Some(bp@),
                    None => None,
                })
            } else {
                r is Err && *final(fs) == *old(fs)
            }),
{
    let dest_exists = fs.exists_path(to.as_str());
    if dest_exists && str_eq(conflict_policy, "skip") {
        return Ok(None);
    }
    let target: String = if dest_exists && str_eq(conflict_policy, "overwrite") {
        to.clone()
    } else if dest_exists {
        resolve_conflict(fs, to)
    } else {
        to.clone()
    };
    proof {
        assert(target_of(*old(fs), to@, conflict_policy@, target@));
    }
    let r = apply_move(fs, from, &target, trash_dir, copy_then_delete);
    r
}

/// The extension of a path, when its file name has a dot past its first
/// character.
pub open spec fn ext_opt(p: Seq<char>) -> Option<Seq<char>> {
    let s = name_start(p);
    if s == p.len() {
        None
    } else {
        let d = last_dot(p, s + 1, p.len() as int);
        if d >= 0 {
            Some(p.skip(d + 1))
        } else {
            None
        }
    }
}

/// The extension component of a path, as `Path::extension` sees it.
pub fn path_ext(p: &String) -> (r: Option<String>)
    ensures
        r is Some <==> ext_opt(p@) is Some,
        r matches Some(e) ==> ext_opt(p@) == Some(e@),
{
    let n = p.unicode_len();
    let (start, has_dot, dot) = split_points(p.as_str());
    if start < n && has_dot {
        let e = p.as_str().substring_char(dot + 1, n);
        assert(e@ =~= p@.skip(dot + 1));
        Some(String::from_str(e))
    } else {
        None
    }
}

} // verus!
