//! The suggester: evaluates the stored rule set, in ascending priority
//! order, against every file that has no pending move or rename, and
//! records each matched rule's actions as planned rows.  Files with a
//! planned move or rename are excluded so suggestions never stack.

use vstd::prelude::*;
use crate::apply::ActionPayload;
use crate::db::{Action, ActionStatus, Database, FileTag, Rule, Tag};
use crate::rules::{action_kind, action_value, condition_holds, opt_str_view, RuleContext};
use crate::strutil::str_eq;

verus! {

/// A proposed change, before it is persisted.
pub enum SuggestedAction {
    Move { from: String, to: String },
    Tag { path: String, tag: String },
    Rename { from: String, to: String },
    Dedupe { path: String, duplicate_of: String },
    MergeDuplicate { path: String, duplicate_of: String },
    Noop,
}

/// A persisted suggestion, keyed by file path.
pub struct ActionRecord {
    pub file_path: String,
    pub kind: String,
    pub payload: ActionPayload,
    pub rule: Option<String>,
}

/// How applying one action ended.
pub enum ApplyOutcome {
    Executed,
    Skipped(String),
}

/// A file already has a pending move or rename.
pub open spec fn move_pending(db: Database, fid: i64) -> bool {
    exists|i: int| 0 <= i < db.actions@.len() && (#[trigger] db.actions@[i]).file_id == fid
        && db.actions@[i].status is Planned
        && (db.actions@[i].kind@ == "move"@ || db.actions@[i].kind@ == "rename"@)
}

/// Whether the file already has a planned move or rename row.
pub fn has_pending_move(db: &Database, fid: i64) -> (r: bool)
    ensures
        r == move_pending(*db, fid),
{
    let n = db.actions.len();
    let mut i: usize = 0;
    while i < n
        invariant
            i <= n,
            n == db.actions@.len(),
            forall|j: int| 0 <= j < i ==> !((#[trigger] db.actions@[j]).file_id == fid
                && db.actions@[j].status is Planned
                && (db.actions@[j].kind@ == "move"@ || db.actions@[j].kind@ == "rename"@)),
        decreases n - i,
    {
        let a = &db.actions[i];
        let planned = match a.status {
            ActionStatus::Planned => true,
            _ => false,
        };
        if a.file_id == fid && planned
            && (str_eq(a.kind.as_str(), "move") || str_eq(a.kind.as_str(), "rename")) {
            return true;
        }
        i = i + 1;
    }
    false
}

/// The name of the first tag row carrying `id`, scanning from `k`.
pub open spec fn tag_name_from(tags: Seq<Tag>, id: i64, k: int) -> Option<Seq<char>>
    decreases tags.len() - k,
{
    if k < 0 || k >= tags.len() {
        None
    } else if tags[k].id == id {
        Some(tags[k].name@)
    } else {
        tag_name_from(tags, id, k + 1)
    }
}

/// Scanning past non-matching rows does not change the first match.
proof fn lemma_tag_name_skip(tags: Seq<Tag>, id: i64, k: int)
    requires
        0 <= k <= tags.len(),
        forall|j: int| 0 <= j < k ==> (#[trigger] tags[j]).id != id,
    ensures
        tag_name_from(tags, id, 0) == tag_name_from(tags, id, k),
    decreases k,
{
    if k > 0 {
        lemma_tag_name_skip(tags, id, k - 1);
        assert(tag_name_from(tags, id, k - 1) == tag_name_from(tags, id, k));
    }
}

/// The tag names attached to a file, in link-table order; a link whose
/// tag row is missing contributes nothing.
pub open spec fn tag_views(tags: Seq<Tag>, fts: Seq<FileTag>, fid: i64) -> Seq<Seq<char>>
    decreases fts.len(),
{
    if fts.len() == 0 {
        Seq::empty()
    } else {
        tag_views(tags, fts.drop_last(), fid) + (if fts.last().file_id == fid {
            match tag_name_from(tags, fts.last().tag_id, 0) {
                Some(nm) => seq![nm],
                None => Seq::empty(),
            }
        } else {
            Seq::empty()
        })
    }
}

/// The tag names attached to a file, in link-table order.
#[verifier::loop_isolation(false)]
fn tags_of(db: &Database, fid: i64) -> (r: Vec<String>)
    ensures
        r@.map(|t: int, s: String| s@) == tag_views(db.tags@, db.file_tags@, fid),
{
    let mut out: Vec<String> = Vec::new();
    let n = db.file_tags.len();
    let mut i: usize = 0;
    while i < n
        invariant
            i <= n,
            n == db.file_tags@.len(),
            out@.map(|t: int, s: String| s@)
                == tag_views(db.tags@, db.file_tags@.take(i as int), fid),
        decreases n - i,
    {
        proof {
            assert(db.file_tags@.take(i + 1).drop_last() =~= db.file_tags@.take(i as int));
            assert(db.file_tags@.take(i + 1).last() == db.file_tags@[i as int]);
        }
        let ft = &db.file_tags[i];
        if ft.file_id == fid {
            let m = db.tags.len();
            let mut k: usize = 0;
            let mut found = false;
            while !found && k < m
                invariant
                    k <= m,
                    m == db.tags@.len(),
                    !found ==> forall|j: int| 0 <= j < k
                        ==> (#[trigger] db.tags@[j]).id != ft.tag_id,
                    found ==> k < m && db.tags@[k as int].id == ft.tag_id
                        && (forall|j: int| 0 <= j < k
                            ==> (#[trigger] db.tags@[j]).id != ft.tag_id),
                decreases m - k + (if found { 0int } else { 1int }),
            {
                if db.tags[k].id == ft.tag_id {
                    found = true;
                } else {
                    k = k + 1;
                }
            }
            if found {
                out.push(db.tags[k].name.clone());
                proof {
                    lemma_tag_name_skip(db.tags@, ft.tag_id, k as int);
                    assert(tag_name_from(db.tags@, ft.tag_id, k as int)
                        == Some(db.tags@[k as int].name@));
                    assert(tag_name_from(db.tags@, ft.tag_id, 0)
                        == Some(db.tags@[k as int].name@));
                    assert(out@.map(|t: int, s: String| s@) =~= tag_views(db.tags@,
                        db.file_tags@.take(i + 1), fid));
                }
            } else {
                proof {
                    lemma_tag_name_skip(db.tags@, ft.tag_id, db.tags@.len() as int);
                    assert(tag_name_from(db.tags@, ft.tag_id, 0) is None);
                    assert(out@.map(|t: int, s: String| s@) =~= tag_views(db.tags@,
                        db.file_tags@.take(i + 1), fid));
                }
            }
        } else {
            proof {
                assert(out@.map(|t: int, s: String| s@) =~= tag_views(db.tags@,
                    db.file_tags@.take(i + 1), fid));
            }
        }
        i = i + 1;
    }
    proof {
        assert(db.file_tags@.take(n as int) =~= db.file_tags@);
    }
    out
}

/// The rule indices in ascending priority order, ties in table order:
/// every index appears, exactly once.
#[verifier::loop_isolation(false)]
fn rule_order(rules: &Vec<Rule>) -> (order: Vec<usize>)
    ensures
        order@.len() == rules@.len(),
        forall|i: int| 0 <= i < order@.len() ==> (#[trigger] order@[i]) < rules@.len(),
        forall|k: int| 0 <= k < rules@.len() ==> #[trigger] order@.contains(k as usize),
        forall|i: int, j: int| 0 <= i < j < order@.len()
            ==> crate::rules::runs_before_prio(rules@[order@[i] as int].priority,
                order@[i] as int, rules@[order@[j] as int].priority, order@[j] as int),
{
    let n = rules.len();
    let mut order: Vec<usize> = Vec::new();
    let mut k: usize = 0;
    while k < n
        invariant
            k <= n,
            order@.len() == k,
            forall|i: int| 0 <= i < order@.len() ==> (#[trigger] order@[i]) < k,
            forall|t: int| 0 <= t < k ==> #[trigger] order@.contains(t as usize),
            forall|i: int, j: int| 0 <= i < j < order@.len()
                ==> crate::rules::runs_before_prio(rules@[order@[i] as int].priority,
                    order@[i] as int, rules@[order@[j] as int].priority,
                    order@[j] as int),
        decreases n - k,
    {
        let pk = rules[k].priority;
        let m = order.len();
        let mut pos: usize = 0;
        let mut stop: bool = false;
        while !stop && pos < m
            invariant
                pos <= m,
                m == order@.len(),
                forall|t: int| 0 <= t < pos
                    ==> rules@[#[trigger] order@[t] as int].priority <= pk,
                stop ==> pos < m && rules@[order@[pos as int] as int].priority > pk,
            decreases m - pos + (if stop { 0int } else { 1int }),
        {
            let idx = order[pos];
            if rules[idx].priority <= pk {
                pos = pos + 1;
            } else {
                stop = true;
            }
        }
        let ghost old_order = order@;
        order.insert(pos, k);
        proof {
            assert forall|i: int, j: int| 0 <= i < j < order@.len()
                implies crate::rules::runs_before_prio(
                    rules@[order@[i] as int].priority, order@[i] as int,
                    rules@[order@[j] as int].priority, order@[j] as int) by {
                if j < pos {
                } else if i > pos {
                } else if i < pos && j == pos {
                } else if i == pos && j > pos {
                    assert(order@[j] == old_order[j - 1]);
                    assert(rules@[old_order[pos as int] as int].priority > pk);
                    if j - 1 > pos {
                        assert(crate::rules::runs_before_prio(
                            rules@[old_order[pos as int] as int].priority,
                            old_order[pos as int] as int,
                            rules@[old_order[j - 1] as int].priority,
                            old_order[j - 1] as int));
                    }
                } else if i < pos && j > pos {
                    assert(order@[i] == old_order[i] && order@[j] == old_order[j - 1]);
                    if j - 1 > i {
                        assert(crate::rules::runs_before_prio(
                            rules@[old_order[i] as int].priority, old_order[i] as int,
                            rules@[old_order[j - 1] as int].priority,
                            old_order[j - 1] as int));
                    } else {
                        assert(rules@[old_order[i] as int].priority > pk);
                        assert(rules@[old_order[i] as int].priority <= pk);
                    }
                }
            }
            assert forall|t: int| 0 <= t < k + 1 implies #[trigger] order@.contains(t as usize) by {
                if t < k {
                    assert(old_order.contains(t as usize));
                    let w = choose|w: int| 0 <= w < old_order.len()
                        && old_order[w] == t as usize;
                    if w < pos {
                        assert(order@[w] == t as usize);
                    } else {
                        assert(order@[w + 1] == t as usize);
                    }
                } else {
                    assert(order@[pos as int] == k as usize);
                }
            }
        }
        k = k + 1;
    }
    order
}

/// The planned row a rule action maps to, for a file.
pub open spec fn suggested_row(row: Action, fid: i64, rule: Rule, act: crate::rules::Action)
    -> bool {
    &&& row.file_id == fid
    &&& row.status is Planned
    &&& row.kind@ == action_kind(act)
    &&& match act {
        crate::rules::Action::Tag { .. } => row.payload.tag matches Some(v)
            && v@ == action_value(act),
        _ => row.payload.to matches Some(v) && v@ == action_value(act),
    }
    &&& row.payload.rule matches Some(rn) && rn@ == rule.name@
}

/// A rule applies to a file row: enabled, and its condition holds of the
/// file's path, MIME, extension and tag names.
pub open spec fn rule_applies(db: Database, k: int, w: int) -> bool {
    db.rules@[k].enabled > 0 && condition_holds(db.rules@[k].condition,
        db.files@[w].path@, opt_str_view(db.files@[w].mime),
        opt_str_view(db.files@[w].ext),
        tag_views(db.tags@, db.file_tags@, db.files@[w].id))
}


/// A suggestion row for file `w`, rule `k`, action `a` sits among the
/// rows appended since `pre`.
pub open spec fn row_exists(pre: Database, cur: Database, w: int, k: int, a: int) -> bool {
    exists|t: int| pre.actions@.len() <= t < cur.actions@.len()
        && suggested_row(#[trigger] cur.actions@[t], pre.files@[w].id, pre.rules@[k],
            pre.rules@[k].actions@[a])
}

/// Every action of every matching enabled rule has a suggestion row, for
/// the first `upto` files.
pub open spec fn covered_files(pre: Database, cur: Database, upto: int) -> bool {
    forall|w: int, k: int, a: int|
        0 <= w < upto && !move_pending(pre, pre.files@[w].id)
            && 0 <= k < pre.rules@.len() && rule_applies(pre, k, w)
            && 0 <= a < pre.rules@[k].actions@.len()
            ==> #[trigger] row_exists(pre, cur, w, k, a)
}

/// Every action of the first `upto` rules (in evaluation order) that
/// match file `w` has a suggestion row.
pub open spec fn covered_rules(
    pre: Database,
    cur: Database,
    order: Seq<usize>,
    upto: int,
    w: int,
) -> bool {
    forall|oi2: int, a: int|
        0 <= oi2 < upto && rule_applies(pre, (#[trigger] order[oi2]) as int, w)
            && 0 <= a < pre.rules@[order[oi2] as int].actions@.len()
            ==> #[trigger] row_exists(pre, cur, w, order[oi2] as int, a)
}

/// Every one of rule `k`'s first `upto` actions has a suggestion row for
/// file `w`.
pub open spec fn covered_actions(
    pre: Database,
    cur: Database,
    k: int,
    upto: int,
    w: int,
) -> bool {
    forall|a: int| 0 <= a < upto ==> #[trigger] row_exists(pre, cur, w, k, a)
}

/// Appending rows preserves a witness: it keeps its place.
proof fn lemma_row_exists_grow(
    pre: Database,
    a: Database,
    b: Database,
    w: int,
    k: int,
    act: int,
)
    requires
        row_exists(pre, a, w, k, act),
        b.actions@.len() >= a.actions@.len(),
        forall|i: int| 0 <= i < a.actions@.len()
            ==> b.actions@[i] == a.actions@[i],
    ensures
        row_exists(pre, b, w, k, act),
{
    let t = choose|t: int| pre.actions@.len() <= t < a.actions@.len()
        && suggested_row(#[trigger] a.actions@[t], pre.files@[w].id, pre.rules@[k],
            pre.rules@[k].actions@[act]);
    assert(b.actions@[t] == a.actions@[t]);
    assert(suggested_row(b.actions@[t], pre.files@[w].id, pre.rules@[k],
        pre.rules@[k].actions@[act]));
}

proof fn lemma_covered_files_grow(pre: Database, a: Database, b: Database, upto: int)
    requires
        covered_files(pre, a, upto),
        b.actions@.len() >= a.actions@.len(),
        forall|i: int| 0 <= i < a.actions@.len()
            ==> b.actions@[i] == a.actions@[i],
    ensures
        covered_files(pre, b, upto),
{
    assert forall|w: int, k: int, act: int|
        0 <= w < upto && !move_pending(pre, pre.files@[w].id)
            && 0 <= k < pre.rules@.len() && rule_applies(pre, k, w)
            && 0 <= act < pre.rules@[k].actions@.len()
        implies #[trigger] row_exists(pre, b, w, k, act) by {
        assert(row_exists(pre, a, w, k, act));
        lemma_row_exists_grow(pre, a, b, w, k, act);
    }
}

proof fn lemma_covered_rules_grow(
    pre: Database,
    a: Database,
    b: Database,
    order: Seq<usize>,
    upto: int,
    w: int,
)
    requires
        covered_rules(pre, a, order, upto, w),
        b.actions@.len() >= a.actions@.len(),
        forall|i: int| 0 <= i < a.actions@.len()
            ==> b.actions@[i] == a.actions@[i],
    ensures
        covered_rules(pre, b, order, upto, w),
{
    assert forall|oi2: int, act: int|
        0 <= oi2 < upto && rule_applies(pre, (#[trigger] order[oi2]) as int, w)
            && 0 <= act < pre.rules@[order[oi2] as int].actions@.len()
        implies #[trigger] row_exists(pre, b, w, order[oi2] as int, act) by {
        assert(row_exists(pre, a, w, order[oi2] as int, act));
        lemma_row_exists_grow(pre, a, b, w, order[oi2] as int, act);
    }
}

proof fn lemma_covered_actions_grow(
    pre: Database,
    a: Database,
    b: Database,
    k: int,
    upto: int,
    w: int,
)
    requires
        covered_actions(pre, a, k, upto, w),
        b.actions@.len() >= a.actions@.len(),
        forall|i: int| 0 <= i < a.actions@.len()
            ==> b.actions@[i] == a.actions@[i],
    ensures
        covered_actions(pre, b, k, upto, w),
{
    assert forall|act: int| 0 <= act < upto
        implies #[trigger] row_exists(pre, b, w, k, act) by {
        assert(row_exists(pre, a, w, k, act));
        lemma_row_exists_grow(pre, a, b, w, k, act);
    }
}

/// Runs the rule set, in ascending priority order, over every eligible
/// file.  Pre-existing rows are untouched; every appended row is a
/// planned suggestion of a matched enabled rule for a file with no
/// pending move or rename; and (short of id exhaustion) every action of
/// every matched rule is recorded for every eligible file.
#[verifier::loop_isolation(false)]
#[verifier::rlimit(100)]
#[verifier::spinoff_prover]
pub fn run_suggester(db: &mut Database, now: i64)
    requires
        old(db).wf(),
    ensures
        final(db).wf(),
        final(db).actions@.len() >= old(db).actions@.len(),
        forall|i: int| 0 <= i < old(db).actions@.len()
            ==> final(db).actions@[i] == old(db).actions@[i],
        forall|i: int| old(db).actions@.len() <= i < final(db).actions@.len()
            ==> ({
                let a = #[trigger] final(db).actions@[i];
                a.status is Planned && !move_pending(*old(db), a.file_id)
                    && a.payload.rule is Some
                    && (a.kind@ == "move"@ || a.kind@ == "tag"@ || a.kind@ == "rename"@)
                    && (exists|w: int| 0 <= w < old(db).files@.len()
                        && a.file_id == (#[trigger] old(db).files@[w]).id)
            }),
        // Completeness: short of action-id exhaustion, each action of
        // each matching enabled rule is recorded for each eligible file.
        final(db).next_action_id < i64::MAX ==> covered_files(*old(db), *final(db),
            old(db).files@.len() as int),
        final(db).files == old(db).files,
        final(db).chunks == old(db).chunks,
        final(db).metadata == old(db).metadata,
        final(db).tags == old(db).tags,
        final(db).file_tags == old(db).file_tags,
        final(db).rules == old(db).rules,
        final(db).audit == old(db).audit,
        final(db).dirty == old(db).dirty,
{
    let nf = db.files.len();
    let order = rule_order(&db.rules);
    let no = order.len();
    let mut fi: usize = 0;
    while fi < nf
        invariant
            fi <= nf,
            db.wf(),
            nf == db.files@.len(),
            no == order@.len(),
            order@.len() == db.rules@.len(),
            forall|i: int| 0 <= i < order@.len() ==> (#[trigger] order@[i])
                < db.rules@.len(),
            forall|k: int| 0 <= k < db.rules@.len() ==> #[trigger] order@.contains(k as usize),
            db.actions@.len() >= old(db).actions@.len(),
            forall|i: int| 0 <= i < old(db).actions@.len()
                ==> db.actions@[i] == old(db).actions@[i],
            forall|i: int| old(db).actions@.len() <= i < db.actions@.len()
                ==> ({
                    let a = #[trigger] db.actions@[i];
                    a.status is Planned && !move_pending(*old(db), a.file_id)
                        && a.payload.rule is Some
                        && (a.kind@ == "move"@ || a.kind@ == "tag"@
                            || a.kind@ == "rename"@)
                        && (exists|w: int| 0 <= w < fi
                            && a.file_id == (#[trigger] old(db).files@[w]).id)
                }),
            db.next_action_id < i64::MAX ==> covered_files(*old(db), *db, fi as int),
            db.files == old(db).files,
            db.chunks == old(db).chunks,
            db.metadata == old(db).metadata,
            db.tags == old(db).tags,
            db.file_tags == old(db).file_tags,
            db.rules == old(db).rules,
            db.audit == old(db).audit,
            db.dirty == old(db).dirty,
        decreases nf - fi,
    {
        let fid = db.files[fi].id;
        let eligible = !has_pending_move(db, fid);
        proof {
            assert(eligible ==> !move_pending(*old(db), fid));
        }
        if eligible {
            let ctx = RuleContext {
                path: db.files[fi].path.clone(),
                mime: crate::db::clone_opt_string(&db.files[fi].mime),
                ext: crate::db::clone_opt_string(&db.files[fi].ext),
                tags: tags_of(db, fid),
            };
            let mut oi: usize = 0;
            while oi < no
                invariant
                    oi <= no,
                    db.wf(),
                    no == order@.len(),
                    order@.len() == db.rules@.len(),
                    forall|i: int| 0 <= i < order@.len() ==> (#[trigger] order@[i])
                        < db.rules@.len(),
                    fid == old(db).files@[fi as int].id,
                    !move_pending(*old(db), fid),
                    ctx.path@ == old(db).files@[fi as int].path@,
                    opt_str_view(ctx.mime) == opt_str_view(old(db).files@[fi as int].mime),
                    opt_str_view(ctx.ext) == opt_str_view(old(db).files@[fi as int].ext),
                    ctx.tags@.map(|t: int, s: String| s@)
                        == tag_views(old(db).tags@, old(db).file_tags@, fid),
                    db.actions@.len() >= old(db).actions@.len(),
                    forall|i: int| 0 <= i < old(db).actions@.len()
                        ==> db.actions@[i] == old(db).actions@[i],
                    forall|i: int| old(db).actions@.len() <= i < db.actions@.len()
                        ==> ({
                            let a = #[trigger] db.actions@[i];
                            a.status is Planned && !move_pending(*old(db), a.file_id)
                                && a.payload.rule is Some
                                && (a.kind@ == "move"@ || a.kind@ == "tag"@
                                    || a.kind@ == "rename"@)
                                && (exists|w: int| 0 <= w <= fi
                                    && a.file_id == (#[trigger] old(db).files@[w]).id)
                        }),
                    db.next_action_id < i64::MAX
                        ==> covered_files(*old(db), *db, fi as int),
                    db.next_action_id < i64::MAX
                        ==> covered_rules(*old(db), *db, order@, oi as int, fi as int),
                    db.files == old(db).files,
                    db.chunks == old(db).chunks,
                    db.metadata == old(db).metadata,
                    db.tags == old(db).tags,
                    db.file_tags == old(db).file_tags,
                    db.rules == old(db).rules,
                    db.audit == old(db).audit,
                    db.dirty == old(db).dirty,
                decreases no - oi,
            {
                let k = order[oi];
                let enabled = db.rules[k].enabled > 0;
                let hit = if enabled {
                    crate::rules::matches(&db.rules[k].condition, &ctx)
                } else {
                    false
                };
                proof {
                    assert(hit == rule_applies(*old(db), k as int, fi as int));
                }
                if hit {
                    let na = db.rules[k].actions.len();
                    let mut ai: usize = 0;
                    while ai < na
                        invariant
                            ai <= na,
                            db.wf(),
                            k < db.rules@.len(),
                            na == db.rules@[k as int].actions@.len(),
                            fid == old(db).files@[fi as int].id,
                            !move_pending(*old(db), fid),
                            rule_applies(*old(db), k as int, fi as int),
                            db.actions@.len() >= old(db).actions@.len(),
                            forall|i: int| 0 <= i < old(db).actions@.len()
                                ==> db.actions@[i] == old(db).actions@[i],
                            forall|i: int| old(db).actions@.len() <= i
                                < db.actions@.len()
                                ==> ({
                                    let a = #[trigger] db.actions@[i];
                                    a.status is Planned
                                        && !move_pending(*old(db), a.file_id)
                                        && a.payload.rule is Some
                                        && (a.kind@ == "move"@ || a.kind@ == "tag"@
                                            || a.kind@ == "rename"@)
                                        && (exists|w: int| 0 <= w <= fi
                                            && a.file_id
                                                == (#[trigger] old(db).files@[w]).id)
                                }),
                            db.next_action_id < i64::MAX
                                ==> covered_files(*old(db), *db, fi as int),
                            db.next_action_id < i64::MAX
                                ==> covered_rules(*old(db), *db, order@, oi as int,
                                    fi as int),
                            db.next_action_id < i64::MAX
                                ==> covered_actions(*old(db), *db, k as int, ai as int,
                                    fi as int),
                            db.files == old(db).files,
                            db.chunks == old(db).chunks,
                            db.metadata == old(db).metadata,
                            db.tags == old(db).tags,
                            db.file_tags == old(db).file_tags,
                            db.rules == old(db).rules,
                            db.audit == old(db).audit,
                            db.dirty == old(db).dirty,
                        decreases na - ai,
                    {
                        let rule_name = Some(db.rules[k].name.clone());
                        let (kind, payload) = match &db.rules[k].actions[ai] {
                            crate::rules::Action::Move { to } => (
                                String::from_str("move"),
                                ActionPayload {
                                    to: Some(to.clone()),
                                    tag: None,
                                    duplicate_of: None,
                                    strategy: None,
                                    rule: rule_name,
                                    backup: None,
                                },
                            ),
                            crate::rules::Action::Tag { tag } => (
                                String::from_str("tag"),
                                ActionPayload {
                                    to: None,
                                    tag: Some(tag.clone()),
                                    duplicate_of: None,
                                    strategy: None,
                                    rule: rule_name,
                                    backup: None,
                                },
                            ),
                            crate::rules::Action::Rename { template } => (
                                String::from_str("rename"),
                                ActionPayload {
                                    to: Some(template.clone()),
                                    tag: None,
                                    duplicate_of: None,
                                    strategy: None,
                                    rule: rule_name,
                                    backup: None,
                                },
                            ),
                        };
                        proof {
                            reveal_strlit("move");
                            reveal_strlit("tag");
                            reveal_strlit("rename");
                        }
                        if db.next_action_id < i64::MAX {
                            let ghost before = *db;
                            let _ = db.insert_action(fid, kind, payload, now);
                            proof {
                                let last = db.actions@.len() - 1;
                                assert(suggested_row(db.actions@[last], fid,
                                    old(db).rules@[k as int],
                                    old(db).rules@[k as int].actions@[ai as int]));
                                assert(row_exists(*old(db), *db, fi as int, k as int,
                                    ai as int));
                                assert(db.actions@[last].file_id
                                    == old(db).files@[fi as int].id);
                                if before.next_action_id < i64::MAX {
                                    lemma_covered_files_grow(*old(db), before, *db,
                                        fi as int);
                                    lemma_covered_rules_grow(*old(db), before, *db,
                                        order@, oi as int, fi as int);
                                    lemma_covered_actions_grow(*old(db), before, *db,
                                        k as int, ai as int, fi as int);
                                    assert(covered_actions(*old(db), *db, k as int,
                                        ai + 1, fi as int));
                                }
                            }
                        }
                        ai = ai + 1;
                    }
                    proof {
                        if db.next_action_id < i64::MAX {
                            assert forall|oi2: int, act: int|
                                0 <= oi2 < oi + 1 && rule_applies(*old(db),
                                    (#[trigger] order@[oi2]) as int, fi as int)
                                && 0 <= act < old(db).rules@[
                                    order@[oi2] as int].actions@.len()
                                implies #[trigger] row_exists(*old(db), *db, fi as int,
                                    order@[oi2] as int, act) by {
                                if oi2 == oi as int {
                                    assert(order@[oi2] == k);
                                    assert(covered_actions(*old(db), *db, k as int,
                                        old(db).rules@[k as int].actions@.len() as int,
                                        fi as int));
                                    assert(row_exists(*old(db), *db, fi as int,
                                        k as int, act));
                                }
                            }
                            assert(covered_rules(*old(db), *db, order@, oi + 1,
                                fi as int));
                        }
                    }
                } else {
                    proof {
                        if db.next_action_id < i64::MAX {
                            assert forall|oi2: int, act: int|
                                0 <= oi2 < oi + 1 && rule_applies(*old(db),
                                    (#[trigger] order@[oi2]) as int, fi as int)
                                && 0 <= act < old(db).rules@[
                                    order@[oi2] as int].actions@.len()
                                implies #[trigger] row_exists(*old(db), *db, fi as int,
                                    order@[oi2] as int, act) by {
                                if oi2 == oi as int {
                                    assert(order@[oi2] == k);
                                    assert(!rule_applies(*old(db), k as int,
                                        fi as int));
                                }
                            }
                            assert(covered_rules(*old(db), *db, order@, oi + 1,
                                fi as int));
                        }
                    }
                }
                oi = oi + 1;
            }
            proof {
                if db.next_action_id < i64::MAX {
                    assert forall|w: int, k: int, act: int|
                        0 <= w < fi + 1
                            && !move_pending(*old(db), (#[trigger] old(db).files@[w]).id)
                            && 0 <= k < old(db).rules@.len()
                            && rule_applies(*old(db), k, w)
                            && 0 <= act < old(db).rules@[k].actions@.len()
                        implies #[trigger] row_exists(*old(db), *db, w, k, act) by {
                        if w == fi as int {
                            assert(order@.contains(k as usize));
                            let oi2 = choose|oi2: int| 0 <= oi2 < order@.len()
                                && order@[oi2] == k as usize;
                            assert(order@[oi2] as int == k);
                            assert(rule_applies(*old(db), order@[oi2] as int,
                                fi as int));
                            assert(covered_rules(*old(db), *db, order@,
                                order@.len() as int, fi as int));
                            assert(row_exists(*old(db), *db, fi as int,
                                order@[oi2] as int, act));
                        } else {
                            assert(covered_files(*old(db), *db, fi as int));
                            assert(row_exists(*old(db), *db, w, k, act));
                        }
                    }
                    assert(covered_files(*old(db), *db, fi + 1));
                }
            }
        } else {
            proof {
                if db.next_action_id < i64::MAX {
                    assert forall|w: int, k: int, act: int|
                        0 <= w < fi + 1
                            && !move_pending(*old(db), (#[trigger] old(db).files@[w]).id)
                            && 0 <= k < old(db).rules@.len()
                            && rule_applies(*old(db), k, w)
                            && 0 <= act < old(db).rules@[k].actions@.len()
                        implies #[trigger] row_exists(*old(db), *db, w, k, act) by {
                        if w == fi as int {
                            assert(old(db).files@[w].id == fid);
                            // The pending move seen for this file must be a
                            // pre-existing row: appended rows belong to
                            // earlier files, whose ids differ.
                            assert(move_pending(*db, fid));
                            let t = choose|t: int| 0 <= t < db.actions@.len()
                                && (#[trigger] db.actions@[t]).file_id == fid
                                && db.actions@[t].status is Planned
                                && (db.actions@[t].kind@ == "move"@
                                    || db.actions@[t].kind@ == "rename"@);
                            if t < old(db).actions@.len() {
                                assert(old(db).actions@[t].file_id == fid);
                                assert(move_pending(*old(db), fid));
                            } else {
                                let w2 = choose|w2: int| 0 <= w2 < fi
                                    && db.actions@[t].file_id
                                        == (#[trigger] old(db).files@[w2]).id;
                                assert(old(db).files@[w2].id
                                    != old(db).files@[fi as int].id);
                            }
                            assert(false);
                        } else {
                            assert(covered_files(*old(db), *db, fi as int));
                            assert(row_exists(*old(db), *db, w, k, act));
                        }
                    }
                    assert(covered_files(*old(db), *db, fi + 1));
                }
            }
        }
        fi = fi + 1;
    }
}

} // verus!
