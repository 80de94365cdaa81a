//! The declarative rule set: a recursive condition grammar over a file's
//! path, MIME type, extension and tags, and the actions a matched rule
//! proposes.  `evaluate` returns the matching rules in ascending priority
//! order, ties broken by position.

use vstd::prelude::*;
use crate::strutil::is_prefix;

verus! {

/// A condition tree over a file context.
pub enum Condition {
    PathPrefix { prefix: String },
    Mime { mime: String },
    Extension { ext: String },
    Tag { tag: String },
    And { all: Vec<Condition> },
    Or { any: Vec<Condition> },
}

/// An action a rule proposes for a matched file.
pub enum Action {
    Move { to: String },
    Tag { tag: String },
    Rename { template: String },
}

/// A named rule: lower priority runs earlier; disabled rules never match.
pub struct Rule {
    pub name: String,
    pub priority: i32,
    pub enabled: bool,
    pub condition: Condition,
    pub actions: Vec<Action>,
}

/// The file attributes a condition is evaluated against.
pub struct RuleContext {
    pub path: String,
    pub mime: Option<String>,
    pub ext: Option<String>,
    pub tags: Vec<String>,
}

/// The view of an optional string attribute.
pub open spec fn opt_str_view(o: Option<String>) -> Option<Seq<char>> {
    match o {
        Some(s) => Some(s@),
        None => None,
    }
}

/// What it means for a condition tree to match a file's attributes.
pub open spec fn condition_holds(
    c: Condition,
    path: Seq<char>,
    mime: Option<Seq<char>>,
    ext: Option<Seq<char>>,
    tags: Seq<Seq<char>>,
) -> bool
    decreases c,
{
    match c {
        Condition::PathPrefix { prefix } => is_prefix(prefix@, path),
        Condition::Mime { mime: m } => match mime {
            Some(mv) => mv == m@,
            None => false,
        },
        Condition::Extension { ext: e } => match ext {
            Some(ev) => ev == e@,
            None => false,
        },
        Condition::Tag { tag } => exists|i: int|
            0 <= i < tags.len() && #[trigger] tags[i] == tag@,
        Condition::And { all } => forall|i: int|
            0 <= i < all@.len() ==> condition_holds(#[trigger] all@[i], path, mime, ext,
                tags),
        Condition::Or { any } => exists|i: int|
            0 <= i < any@.len() && condition_holds(#[trigger] any@[i], path, mime, ext,
                tags),
    }
}

/// What it means for a condition tree to match a context.
pub open spec fn condition_matches(c: Condition, ctx: RuleContext) -> bool {
    condition_holds(c, ctx.path@, opt_str_view(ctx.mime), opt_str_view(ctx.ext),
        ctx.tags@.map(|i: int, s: String| s@))
}

#[verifier::loop_isolation(false)]
pub fn matches(condition: &Condition, ctx: &RuleContext) -> (r: bool)
    ensures
        r == condition_matches(*condition, *ctx),
    decreases condition,
{
    match condition {
        Condition::PathPrefix { prefix } => {
            crate::strutil::str_starts_with(ctx.path.as_str(), prefix.as_str())
        }
        Condition::Mime { mime } => match &ctx.mime {
            Some(m) => *m == *mime,
            None => false,
        },
        Condition::Extension { ext } => match &ctx.ext {
            Some(e) => *e == *ext,
            None => false,
        },
        Condition::Tag { tag } => {
            let n = ctx.tags.len();
            let mut i: usize = 0;
            while i < n
                invariant
                    i <= n,
                    forall|j: int| 0 <= j < i ==> #[trigger] ctx.tags@[j]@ != tag@,
                decreases n - i,
            {
                let ti = &ctx.tags[i];
                if *ti == *tag {
                    proof {
                        assert(ctx.tags@.map(|k: int, s: String| s@)[i as int] == tag@);
                    }
                    return true;
                }
                i = i + 1;
            }
            proof {
                assert forall|j: int| 0 <= j < ctx.tags@.len()
                    implies (#[trigger] ctx.tags@[j])@ != tag@
                        && ctx.tags@.map(|k: int, s: String| s@)[j] != tag@ by {
                    assert(ctx.tags@.map(|k: int, s: String| s@)[j] == ctx.tags@[j]@);
                }
            }
            false
        }
        Condition::And { all } => {
            let n = all.len();
            let mut i: usize = 0;
            while i < n
                invariant
                    i <= n,
                    forall|j: int| 0 <= j < i ==> condition_matches(#[trigger] all@[j], *ctx),
                decreases n - i,
            {
                if !matches(&all[i], ctx) {
                    assert(!condition_matches(all@[i as int], *ctx));
                    return false;
                }
                i = i + 1;
            }
            true
        }
        Condition::Or { any } => {
            let n = any.len();
            let mut i: usize = 0;
            while i < n
                invariant
                    i <= n,
                    forall|j: int| 0 <= j < i ==> !condition_matches(#[trigger] any@[j], *ctx),
                decreases n - i,
            {
                if matches(&any[i], ctx) {
                    assert(condition_matches(any@[i as int], *ctx));
                    return true;
                }
                i = i + 1;
            }
            false
        }
    }
}

/// A rule applies to a context when it is enabled and its condition matches.
pub open spec fn rule_selected(r: Rule, ctx: RuleContext) -> bool {
    r.enabled && condition_matches(r.condition, ctx)
}

/// Rule at index `a` runs before the rule at index `b`: lower priority
/// first, ties in table order.
pub open spec fn runs_before(rs: Seq<Rule>, a: int, b: int) -> bool {
    rs[a].priority < rs[b].priority || (rs[a].priority == rs[b].priority && a < b)
}

/// The same ordering over bare priorities and table positions.
pub open spec fn runs_before_prio(p1: i64, i1: int, p2: i64, i2: int) -> bool {
    p1 < p2 || (p1 == p2 && i1 < i2)
}

/// The indices of the enabled rules whose condition matches `ctx`, each
/// exactly once, ordered by ascending priority with ties in table order.
#[verifier::loop_isolation(false)]
pub fn evaluate(rules: &Vec<Rule>, ctx: &RuleContext) -> (order: Vec<usize>)
    ensures
        forall|i: int| 0 <= i < order@.len() ==> (#[trigger] order@[i]) < rules@.len(),
        forall|i: int| 0 <= i < order@.len()
            ==> rule_selected(rules@[#[trigger] order@[i] as int], *ctx),
        forall|k: int| 0 <= k < rules@.len() && rule_selected(#[trigger] rules@[k], *ctx)
            ==> order@.contains(k as usize),
        forall|i: int, j: int| 0 <= i < j < order@.len()
            ==> runs_before(rules@, order@[i] as int, order@[j] as int),
{
    let n = rules.len();
    let mut order: Vec<usize> = Vec::new();
    let mut k: usize = 0;
    while k < n
        invariant
            k <= n,
            forall|i: int| 0 <= i < order@.len() ==> (#[trigger] order@[i]) < k,
            forall|i: int| 0 <= i < order@.len()
                ==> rule_selected(rules@[#[trigger] order@[i] as int], *ctx),
            forall|t: int| 0 <= t < k && rule_selected(#[trigger] rules@[t], *ctx)
                ==> order@.contains(t as usize),
            forall|i: int, j: int| 0 <= i < j < order@.len()
                ==> runs_before(rules@, order@[i] as int, order@[j] as int),
        decreases n - k,
    {
        let rk = &rules[k];
        if rk.enabled && matches(&rk.condition, ctx) {
            let pk = rk.priority;
            let m = order.len();
            let mut pos: usize = 0;
            let mut stop: bool = false;
            while !stop && pos < m
                invariant
                    pos <= m,
                    m == order@.len(),
                    forall|t: int| 0 <= t < pos
                        ==> rules@[#[trigger] order@[t] as int].priority <= pk,
                    stop ==> pos < m && rules@[order@[pos as int] as int].priority > pk,
                decreases m - pos + (if stop { 0int } else { 1int }),
            {
                let idx = order[pos];
                if rules[idx].priority <= pk {
                    pos = pos + 1;
                } else {
                    stop = true;
                }
            }
            assert(pos < m ==> rules@[order@[pos as int] as int].priority > pk);
            let ghost old_order = order@;
            order.insert(pos, k);
            assert forall|i: int, j: int| 0 <= i < j < order@.len()
                implies runs_before(rules@, order@[i] as int, order@[j] as int) by {
                if j < pos {
                    assert(order@[i] == old_order[i] && order@[j] == old_order[j]);
                } else if i > pos {
                    assert(order@[i] == old_order[i - 1] && order@[j] == old_order[j - 1]);
                } else if i < pos && j == pos {
                    assert(order@[i] == old_order[i]);
                } else if i == pos && j > pos {
                    assert(order@[j] == old_order[j - 1]);
                    assert(rules@[old_order[pos as int] as int].priority > pk);
                    if j - 1 > pos {
                        assert(runs_before(rules@, old_order[pos as int] as int,
                            old_order[j - 1] as int));
                    }
                } else if i < pos && j > pos {
                    assert(order@[i] == old_order[i] && order@[j] == old_order[j - 1]);
                    if j - 1 > i {
                        assert(runs_before(rules@, old_order[i] as int,
                            old_order[j - 1] as int));
                    } else {
                        assert(rules@[old_order[i] as int].priority > pk);
                        assert(rules@[old_order[i] as int].priority <= pk);
                    }
                }
            }
            assert forall|t: int| 0 <= t < k + 1 && rule_selected(#[trigger] rules@[t], *ctx)
                implies order@.contains(t as usize) by {
                if t < k {
                    let w = choose|w: int| 0 <= w < old_order.len()
                        && old_order[w] == t as usize;
                    if w < pos {
                        assert(order@[w] == t as usize);
                    } else {
                        assert(order@[w + 1] == t as usize);
                    }
                } else {
                    assert(order@[pos as int] == k as usize);
                }
            }
        } else {
            assert forall|t: int| 0 <= t < k + 1 && rule_selected(#[trigger] rules@[t], *ctx)
                implies order@.contains(t as usize) by {
            }
        }
        k = k + 1;
    }
    order
}

/// The kind label an action is stored under.
pub open spec fn action_kind(a: Action) -> Seq<char> {
    match a {
        Action::Move { .. } => "move"@,
        Action::Tag { .. } => "tag"@,
        Action::Rename { .. } => "rename"@,
    }
}

/// The value an action carries.
pub open spec fn action_value(a: Action) -> Seq<char> {
    match a {
        Action::Move { to } => to@,
        Action::Tag { tag } => tag@,
        Action::Rename { template } => template@,
    }
}

/// Some action in `actions` is stored under kind `k`.
pub open spec fn kind_present(actions: Seq<Action>, k: Seq<char>) -> bool {
    exists|i: int| 0 <= i < actions.len() && action_kind(#[trigger] actions[i]) == k
}

/// The value of the last action stored under kind `k`.
pub open spec fn last_value(actions: Seq<Action>, k: Seq<char>) -> Seq<char>
    decreases actions.len(),
{
    if actions.len() == 0 {
        Seq::empty()
    } else if action_kind(actions.last()) == k {
        action_value(actions.last())
    } else {
        last_value(actions.drop_last(), k)
    }
}

/// How one more action changes the folded per-kind state.
proof fn lemma_fold_step(actions: Seq<Action>, i: int, k: Seq<char>)
    requires
        0 <= i < actions.len(),
    ensures
        kind_present(actions.take(i + 1), k)
            <==> (kind_present(actions.take(i), k) || action_kind(actions[i]) == k),
        last_value(actions.take(i + 1), k) == (if action_kind(actions[i]) == k {
            action_value(actions[i])
        } else {
            last_value(actions.take(i), k)
        }),
{
    let pre = actions.take(i);
    let nxt = actions.take(i + 1);
    assert(nxt.drop_last() =~= pre);
    assert(nxt.last() == actions[i]);
    if kind_present(pre, k) {
        let w = choose|w: int| 0 <= w < pre.len() && action_kind(#[trigger] pre[w]) == k;
        assert(action_kind(nxt[w]) == k);
    }
    if action_kind(actions[i]) == k {
        assert(action_kind(nxt[i]) == k);
    }
    if kind_present(nxt, k) && action_kind(actions[i]) != k {
        let w = choose|w: int| 0 <= w < nxt.len() && action_kind(#[trigger] nxt[w]) == k;
        assert(w != i);
        assert(action_kind(pre[w]) == k);
    }
}

/// The rule's actions folded into a keyed map, one entry per action kind,
/// later actions of the same kind overwriting earlier ones.
#[verifier::loop_isolation(false)]
#[verifier::rlimit(30)]
pub fn apply_actions(rule: &Rule, _ctx: &RuleContext) -> (result: Vec<(String, String)>)
    ensures
        forall|i: int, j: int| 0 <= i < j < result@.len()
            ==> (#[trigger] result@[i]).0@ != (#[trigger] result@[j]).0@,
        forall|i: int| 0 <= i < result@.len()
            ==> kind_present(rule.actions@, (#[trigger] result@[i]).0@)
                && result@[i].1@ == last_value(rule.actions@, result@[i].0@),
        kind_present(rule.actions@, "move"@)
            <==> exists|i: int| 0 <= i < result@.len() && (#[trigger] result@[i]).0@ == "move"@,
        kind_present(rule.actions@, "tag"@)
            <==> exists|i: int| 0 <= i < result@.len() && (#[trigger] result@[i]).0@ == "tag"@,
        kind_present(rule.actions@, "rename"@)
            <==> exists|i: int| 0 <= i < result@.len() && (#[trigger] result@[i]).0@ == "rename"@,
{
    let n = rule.actions.len();
    let mut move_v: Option<String> = None;
    let mut tag_v: Option<String> = None;
    let mut ren_v: Option<String> = None;
    proof {
        reveal_strlit("move");
        reveal_strlit("tag");
        reveal_strlit("rename");
    }
    let mut i: usize = 0;
    while i < n
        invariant
            i <= n,
            n == rule.actions@.len(),
            move_v is Some <==> kind_present(rule.actions@.take(i as int), "move"@),
            tag_v is Some <==> kind_present(rule.actions@.take(i as int), "tag"@),
            ren_v is Some <==> kind_present(rule.actions@.take(i as int), "rename"@),
            move_v matches Some(v)
                ==> v@ == last_value(rule.actions@.take(i as int), "move"@),
            tag_v matches Some(v) ==> v@ == last_value(rule.actions@.take(i as int), "tag"@),
            ren_v matches Some(v)
                ==> v@ == last_value(rule.actions@.take(i as int), "rename"@),
        decreases n - i,
    {
        let ghost prefix = rule.actions@.take(i as int);
        proof {
            reveal_strlit("move");
            reveal_strlit("tag");
            reveal_strlit("rename");
            assert(rule.actions@.take(i + 1).drop_last() =~= prefix);
            assert(rule.actions@.take(i + 1).last() == rule.actions@[i as int]);
        }
        match &rule.actions[i] {
            Action::Move { to } => {
                move_v = Some(to.clone());
                assert(action_kind(rule.actions@[i as int]) == "move"@);
            }
            Action::Tag { tag } => {
                tag_v = Some(tag.clone());
                assert(action_kind(rule.actions@[i as int]) == "tag"@);
            }
            Action::Rename { template } => {
                ren_v = Some(template.clone());
                assert(action_kind(rule.actions@[i as int]) == "rename"@);
            }
        }
        proof {
            assert("tag"@.len() == 3);
            assert("move"@.len() == 4);
            lemma_fold_step(rule.actions@, i as int, "move"@);
            lemma_fold_step(rule.actions@, i as int, "tag"@);
            lemma_fold_step(rule.actions@, i as int, "rename"@);
            let nxt = rule.actions@.take(i + 1);
            assert(move_v is Some <==> kind_present(nxt, "move"@));
            assert(tag_v is Some <==> kind_present(nxt, "tag"@));
            assert(ren_v is Some <==> kind_present(nxt, "rename"@));
            assert(move_v matches Some(v) ==> v@ == last_value(nxt, "move"@));
            assert(tag_v matches Some(v) ==> v@ == last_value(nxt, "tag"@));
            assert(ren_v matches Some(v) ==> v@ == last_value(nxt, "rename"@));
        }
        i = i + 1;
    }
    assert(rule.actions@.take(n as int) =~= rule.actions@);
    proof {
        assert("move"@.len() == 4 && "tag"@.len() == 3 && "rename"@.len() == 6);
    }
    let ghost has_move = move_v is Some;
    let ghost has_tag = tag_v is Some;
    let mut result: Vec<(String, String)> = Vec::new();
    match move_v {
        Some(v) => {
            result.push((String::from_str("move"), v));
        }
        None => {}
    }
    match tag_v {
        Some(v) => {
            result.push((String::from_str("tag"), v));
        }
        None => {}
    }
    match ren_v {
        Some(v) => {
            result.push((String::from_str("rename"), v));
        }
        None => {}
    }
    proof {
        if has_move {
            assert(result@[0].0@ == "move"@);
        }
        if has_tag {
            let ti: int = if has_move { 1 } else { 0 };
            assert(result@[ti].0@ == "tag"@);
        }
        if kind_present(rule.actions@, "rename"@) {
            let ri: int = result@.len() - 1;
            assert(result@[ri].0@ == "rename"@);
        }
        assert forall|i: int, j: int| 0 <= i < j < result@.len()
            implies (#[trigger] result@[i]).0@ != (#[trigger] result@[j]).0@ by {
            assert(result@[i].0@.len() != result@[j].0@.len());
        }
    }
    result
}

} // verus!
