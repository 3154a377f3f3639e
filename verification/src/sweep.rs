//! One sweep cycle: gather facts per repo, decide, act, report.
//!
//! The status file is written by the application; this module builds what
//! goes into it.

use vstd::prelude::*;
use vstd::string::*;

use crate::gitio::{
    branch_cmd, checkout_calls, checkout_default, checkout_error_from, checkout_outcomes,
    current_branch, default_branch_calls,
    default_branch, default_branch_from, default_branch_outcomes, dirty, dirty_from,
    git_dirs_cmd, github_from, github_origin, last_known_remote_sha, linked_from,
    linked_worktree, merged_pr_head_sha, origin_url_cmd, pr_head_from, pr_list_cmd, probe_cmd,
    probe_from, remote_probe, remote_ref_cmd, repo_root, root_cmd, root_from, status_cmd,
    checkout_cmd, git_cmd, heads_ref, local_default_from,
    text_or_empty, tip_cmd, tip_sha,
};
use crate::herdrio::{list_panes, pane_list_cmd, pane_views, panes_from, Pane};
use crate::json::{json_get, json_get_str, json_text_value, lemma_lookup_at, lookup, parse_json, Json};
use crate::policy::{
    action_name, busy_agent_count, lemma_checkout_only_when_safe, fate_of, busy_count, decide, decision_of, fate_name, opt_view,
    skip_reason, status_views, ActionKind, Decision, Fate, LocalFacts, RemoteFacts,
    local_skip_reason,
};
use crate::procio::{Call, RunResult, Runner, Session};
use crate::text::{
    views, concat2, concat3, concat4, lemma_text_lt_asymmetric, lemma_text_lt_irreflexive,
    lemma_text_lt_total, lemma_text_lt_transitive, owned, same_text, text_less, text_lt,
};

verus! {

/// `(pane_id, cwd, agent_status)`
pub type PaneV = (Seq<char>, Seq<char>, Seq<char>);

// ---------------------------------------------------------------------------
// Grouping panes by repo
// ---------------------------------------------------------------------------

/// `root` is what resolving the repo root of `cwd` can yield.
pub open spec fn root_resolved<R: Runner>(run: &R, cwd: Seq<char>, root: Option<Seq<char>>) -> bool {
    exists|r: RunResult| #[trigger] run.outcome(root_cmd(cwd), None, r) && root == root_from(r)
}

/// `roots[i]` is the resolved repo root of pane `i`, and panes that share a
/// directory share a root (each directory is resolved once).
pub open spec fn roots_resolved<R: Runner>(
    run: &R,
    panes: Seq<PaneV>,
    roots: Seq<Option<Seq<char>>>,
) -> bool {
    &&& roots.len() == panes.len()
    &&& forall|i: int| 0 <= i < panes.len() ==> root_resolved(run, panes[i].1, #[trigger] roots[i])
    &&& forall|i: int, j: int|
        0 <= i < panes.len() && 0 <= j < panes.len() && panes[i].1 == panes[j].1 ==> #[trigger] roots[i]
            == #[trigger] roots[j]
}

/// The panes whose root is `key`, in their order.
pub open spec fn panes_in(panes: Seq<PaneV>, roots: Seq<Option<Seq<char>>>, key: Seq<char>) -> Seq<
    PaneV,
>
    decreases panes.len(),
{
    if panes.len() == 0 || roots.len() == 0 {
        Seq::empty()
    } else {
        let init = panes_in(panes.drop_last(), roots.drop_last(), key);
        if roots.last() == Some(key) {
            init.push(panes.last())
        } else {
            init
        }
    }
}

/// One pane is in the group of `key` exactly when its root is `key`.
pub proof fn lemma_panes_in_single(pane: PaneV, root: Option<Seq<char>>, key: Seq<char>)
    ensures
        panes_in(seq![pane], seq![root], key) == (if root == Some(key) {
            seq![pane]
        } else {
            Seq::<PaneV>::empty()
        }),
{
    let ps = seq![pane];
    let rs = seq![root];
    assert(ps.drop_last() =~= Seq::<PaneV>::empty());
    assert(rs.drop_last() =~= Seq::<Option<Seq<char>>>::empty());
    assert(panes_in(Seq::<PaneV>::empty(), Seq::<Option<Seq<char>>>::empty(), key) =~= Seq::empty());
    assert(ps.last() == pane && rs.last() == root);
    assert(Seq::<PaneV>::empty().push(pane) =~= seq![pane]);
}

/// A repo's group gathers every pane whose root is that repo, in order:
/// the group of two lists of panes one after the other is the group of the
/// first, then that of the second. No pane is left out for what an earlier
/// pane held.
pub proof fn lemma_panes_in_concat(
    a: Seq<PaneV>,
    ra: Seq<Option<Seq<char>>>,
    b: Seq<PaneV>,
    rb: Seq<Option<Seq<char>>>,
    key: Seq<char>,
)
    requires
        a.len() == ra.len(),
        b.len() == rb.len(),
    ensures
        panes_in(a + b, ra + rb, key) == panes_in(a, ra, key) + panes_in(b, rb, key),
    decreases b.len(),
{
    if b.len() == 0 {
        assert(a + b =~= a);
        assert(ra + rb =~= ra);
        assert(panes_in(a, ra, key) + panes_in(b, rb, key) =~= panes_in(a, ra, key));
    } else {
        lemma_panes_in_concat(a, ra, b.drop_last(), rb.drop_last(), key);
        assert((a + b).drop_last() =~= a + b.drop_last());
        assert((ra + rb).drop_last() =~= ra + rb.drop_last());
        assert((a + b).last() == b.last());
        assert((ra + rb).last() == rb.last());
        if rb.last() == Some(key) {
            assert(panes_in(a, ra, key) + panes_in(b.drop_last(), rb.drop_last(), key).push(b.last())
                =~= (panes_in(a, ra, key) + panes_in(b.drop_last(), rb.drop_last(), key)).push(
                b.last(),
            ));
        }
    }
}

/// `groups` lists every root that some pane has, once, in increasing order,
/// each with its panes in their order.
pub open spec fn is_grouping(
    panes: Seq<PaneV>,
    roots: Seq<Option<Seq<char>>>,
    groups: Seq<(Seq<char>, Seq<PaneV>)>,
) -> bool {
    &&& forall|i: int, j: int|
        0 <= i < j < groups.len() ==> text_lt(#[trigger] groups[i].0, #[trigger] groups[j].0)
    &&& forall|k: Seq<char>|
        #![trigger roots.contains(Some(k))]
        groups.map_values(|g: (Seq<char>, Seq<PaneV>)| g.0).contains(k) <==> roots.contains(Some(k))
    &&& forall|i: int| 0 <= i < groups.len() ==> #[trigger] groups[i].1 == panes_in(panes, roots, groups[i].0)
}

pub open spec fn groups_view(groups: Seq<(String, Vec<Pane>)>) -> Seq<(Seq<char>, Seq<PaneV>)> {
    groups.map_values(|g: (String, Vec<Pane>)| (g.0@, pane_views(g.1@)))
}

pub open spec fn opt_views(v: Seq<Option<String>>) -> Seq<Option<Seq<char>>> {
    v.map_values(|o: Option<String>| opt_view(o))
}

/// The cache maps `cwd` to `root`.
pub open spec fn cached(cache: Seq<(String, Option<String>)>, cwd: Seq<char>, root: Option<Seq<char>>) -> bool {
    exists|c: int| 0 <= c < cache.len() && #[trigger] cache[c].0@ == cwd && opt_view(cache[c].1) == root
}

/// The texts in order of first occurrence, each once.
pub open spec fn first_occurrences(s: Seq<Seq<char>>) -> Seq<Seq<char>>
    decreases s.len(),
{
    if s.len() == 0 {
        Seq::empty()
    } else {
        let init = first_occurrences(s.drop_last());
        if init.contains(s.last()) {
            init
        } else {
            init.push(s.last())
        }
    }
}

/// The directories of panes.
pub open spec fn cwds_of(panes: Seq<PaneV>) -> Seq<Seq<char>> {
    panes.map_values(|p: PaneV| p.1)
}

/// One `rev-parse --show-toplevel` per directory, in order.
pub open spec fn root_calls(cwds: Seq<Seq<char>>) -> Seq<Call> {
    cwds.map_values(|c: Seq<char>| (root_cmd(c), None::<Seq<char>>))
}

/// Each directory is looked up once: the directories in order of first
/// occurrence are distinct, and they are exactly the directories given.
pub proof fn lemma_first_occurrences(s: Seq<Seq<char>>)
    ensures
        forall|a: int, b: int|
            0 <= a < b < first_occurrences(s).len() ==> #[trigger] first_occurrences(s)[a]
                != #[trigger] first_occurrences(s)[b],
        forall|x: Seq<char>| #[trigger] first_occurrences(s).contains(x) <==> s.contains(x),
    decreases s.len(),
{
    if s.len() > 0 {
        let rest = s.drop_last();
        lemma_first_occurrences(rest);
        let init = first_occurrences(rest);
        let out = first_occurrences(s);
        assert forall|x: Seq<char>| out.contains(x) <==> s.contains(x) by {
            if s.contains(x) {
                let w = choose|w: int| 0 <= w < s.len() && s[w] == x;
                if w < rest.len() {
                    assert(rest[w] == x);
                    assert(rest.contains(x));
                    assert(init.contains(x));
                    let v = choose|v: int| 0 <= v < init.len() && init[v] == x;
                    assert(out[v] == x);
                } else if !init.contains(x) {
                    assert(out[init.len() as int] == x);
                }
            }
            if out.contains(x) {
                let v = choose|v: int| 0 <= v < out.len() && out[v] == x;
                if v < init.len() {
                    assert(init[v] == x);
                    assert(init.contains(x));
                    assert(rest.contains(x));
                    let w = choose|w: int| 0 <= w < rest.len() && rest[w] == x;
                    assert(s[w] == x);
                } else {
                    assert(s[s.len() - 1] == x);
                }
            }
        }
        if !init.contains(s.last()) {
            assert forall|a: int, b: int| 0 <= a < b < out.len() implies #[trigger] out[a] != #[trigger] out[b] by {
                if b == init.len() {
                    assert(out[a] == init[a]);
                    assert(init.contains(init[a]));
                } else {
                    assert(out[a] == init[a] && out[b] == init[b]);
                }
            }
        }
    }
}

/// The directories a cache holds, in order.
pub open spec fn cache_keys(cache: Seq<(String, Option<String>)>) -> Seq<Seq<char>> {
    cache.map_values(|e: (String, Option<String>)| e.0@)
}

fn copy_opt(o: &Option<String>) -> (res: Option<String>)
    ensures
        opt_view(res) == opt_view(*o),
{
    match o {
        Some(s) => Some(s.clone()),
        None => None,
    }
}

fn find_cached(cache: &Vec<(String, Option<String>)>, cwd: &str) -> (res: Option<usize>)
    ensures
        match res {
            Some(c) => c < cache@.len() && cache@[c as int].0@ == cwd@,
            None => forall|c: int| 0 <= c < cache@.len() ==> cache@[c].0@ != cwd@,
        },
{
    let mut c: usize = 0;
    while c < cache.len()
        invariant
            c <= cache@.len(),
            forall|k: int| 0 <= k < c ==> cache@[k].0@ != cwd@,
        decreases cache@.len() - c,
    {
        if same_text(cache[c].0.as_str(), cwd) {
            return Some(c);
        }
        c += 1;
    }
    None
}

/// The repo root of each pane, resolving each directory once, in order of
/// first occurrence.
fn resolve_roots<R: Runner>(run: &mut Session<R>, panes: &[Pane]) -> (roots: Vec<Option<String>>)
    ensures
        final(run).runner() == old(run).runner(),
        final(run).calls() == old(run).calls() + root_calls(
            first_occurrences(cwds_of(pane_views(panes@))),
        ),
        roots_resolved(old(run).runner(), pane_views(panes@), opt_views(roots@)),
{
    let ghost runner = run.runner();
    let ghost calls0 = run.calls();
    let ghost cwds = cwds_of(pane_views(panes@));
    let n = panes.len();
    let mut roots: Vec<Option<String>> = Vec::new();
    let mut cache: Vec<(String, Option<String>)> = Vec::new();
    let mut i: usize = 0;
    proof {
        assert(cwds.take(0) =~= Seq::<Seq<char>>::empty());
        assert(cache_keys(cache@) =~= Seq::<Seq<char>>::empty());
        assert(root_calls(Seq::<Seq<char>>::empty()) =~= Seq::<Call>::empty());
        assert(calls0 + Seq::<Call>::empty() =~= calls0);
    }
    while i < n
        invariant
            n == panes@.len(),
            i <= n,
            roots@.len() == i,
            run.runner() == runner,
            cwds == cwds_of(pane_views(panes@)),
            cache_keys(cache@) == first_occurrences(cwds.take(i as int)),
            run.calls() == calls0 + root_calls(cache_keys(cache@)),
            forall|a: int, b: int| 0 <= a < b < cache@.len() ==> cache@[a].0@ != cache@[b].0@,
            forall|c: int|
                0 <= c < cache@.len() ==> root_resolved(runner, #[trigger] cache@[c].0@, opt_view(cache@[c].1)),
            forall|k: int| 0 <= k < i ==> cached(cache@, panes@[k].cwd@, #[trigger] opt_view(roots@[k])),
        decreases n - i,
    {
        let cwd = panes[i].cwd.as_str();
        let ghost keys = cache_keys(cache@);
        proof {
            assert(cwds.take(i + 1).drop_last() =~= cwds.take(i as int));
            assert(cwds.take(i + 1).last() == cwd@);
        }
        match find_cached(&cache, cwd) {
            Some(c) => {
                let root = copy_opt(&cache[c].1);
                roots.push(root);
                proof {
                    assert(keys[c as int] == cwd@);
                    assert(keys.contains(cwd@));
                    assert(opt_view(roots@[i as int]) == opt_view(cache@[c as int].1));
                    assert(cached(cache@, panes@[i as int].cwd@, opt_view(roots@[i as int])));
                }
            },
            None => {
                proof {
                    if keys.contains(cwd@) {
                        let w = choose|w: int| 0 <= w < keys.len() && keys[w] == cwd@;
                        assert(cache@[w].0@ == cwd@);
                    }
                }
                let root = repo_root(run, cwd);
                let ghost before = cache@;
                cache.push((owned(cwd), copy_opt(&root)));
                roots.push(root);
                proof {
                    let last = cache@.len() - 1;
                    assert(cache_keys(cache@) =~= keys.push(cwd@));
                    assert(root_calls(keys.push(cwd@)) =~= root_calls(keys).push((root_cmd(cwd@), None::<Seq<char>>)));
                    assert(run.calls() =~= calls0 + root_calls(cache_keys(cache@)));
                    assert(cache@[last].0@ == cwd@);
                    assert(root_resolved(runner, cache@[last].0@, opt_view(cache@[last].1)));
                    assert forall|a: int, b: int| 0 <= a < b < cache@.len() implies cache@[a].0@ != cache@[b].0@ by {
                        if b == last {
                            assert(keys[a] == cache@[a].0@);
                        } else {
                            assert(cache@[a] == before[a] && cache@[b] == before[b]);
                        }
                    }
                    assert forall|k: int| 0 <= k <= i implies cached(
                        cache@,
                        panes@[k].cwd@,
                        #[trigger] opt_view(roots@[k]),
                    ) by {
                        if k < i {
                            let c = choose|c: int|
                                0 <= c < before.len() && #[trigger] before[c].0@ == panes@[k].cwd@
                                    && opt_view(before[c].1) == opt_view(roots@[k]);
                            assert(cache@[c] == before[c]);
                        } else {
                            assert(cache@[last].0@ == panes@[k].cwd@);
                        }
                    }
                    assert forall|c: int|
                        0 <= c < cache@.len() implies root_resolved(
                        runner,
                        #[trigger] cache@[c].0@,
                        opt_view(cache@[c].1),
                    ) by {
                        if c < last {
                            assert(cache@[c] == before[c]);
                        }
                    }
                }
            },
        }
        i += 1;
    }
    proof {
        assert(cwds.take(n as int) =~= cwds);
        let pv = pane_views(panes@);
        let rv = opt_views(roots@);
        assert forall|k: int| 0 <= k < pv.len() implies root_resolved(runner, pv[k].1, #[trigger] rv[k]) by {
            let c = choose|c: int|
                0 <= c < cache@.len() && #[trigger] cache@[c].0@ == panes@[k].cwd@ && opt_view(cache@[c].1)
                    == opt_view(roots@[k]);
            assert(root_resolved(runner, cache@[c].0@, opt_view(cache@[c].1)));
        }
        assert forall|a: int, b: int|
            0 <= a < pv.len() && 0 <= b < pv.len() && pv[a].1 == pv[b].1 implies #[trigger] rv[a]
            == #[trigger] rv[b] by {
            assert(cached(cache@, panes@[a].cwd@, opt_view(roots@[a])));
            assert(cached(cache@, panes@[b].cwd@, opt_view(roots@[b])));
            let ca = choose|c: int|
                0 <= c < cache@.len() && #[trigger] cache@[c].0@ == panes@[a].cwd@ && opt_view(cache@[c].1)
                    == opt_view(roots@[a]);
            let cb = choose|c: int|
                0 <= c < cache@.len() && #[trigger] cache@[c].0@ == panes@[b].cwd@ && opt_view(cache@[c].1)
                    == opt_view(roots@[b]);
            if ca < cb {
                assert(cache@[ca].0@ != cache@[cb].0@);
            } else if cb < ca {
                assert(cache@[cb].0@ != cache@[ca].0@);
            }
        }
    }
    roots
}

/// The texts are in strictly increasing order.
pub open spec fn strictly_increasing(keys: Seq<Seq<char>>) -> bool {
    forall|a: int, b: int| 0 <= a < b < keys.len() ==> text_lt(#[trigger] keys[a], #[trigger] keys[b])
}

/// Every root that occurs, once, in increasing order.
fn sorted_roots(roots: &Vec<Option<String>>) -> (keys: Vec<String>)
    ensures
        strictly_increasing(views(keys@)),
        forall|k: Seq<char>|
            #![trigger opt_views(roots@).contains(Some(k))]
            views(keys@).contains(k) <==> opt_views(roots@).contains(Some(k)),
{
    let n = roots.len();
    let mut keys: Vec<String> = Vec::new();
    let mut i: usize = 0;
    while i < n
        invariant
            n == roots@.len(),
            i <= n,
            strictly_increasing(views(keys@)),
            forall|k: Seq<char>|
                #![trigger opt_views(roots@).take(i as int).contains(Some(k))]
                views(keys@).contains(k) <==> opt_views(roots@).take(i as int).contains(Some(k)),
        decreases n - i,
    {
        let ghost old_keys = views(keys@);
        let ghost seen = opt_views(roots@).take(i as int);
        let ghost seen_next = opt_views(roots@).take(i + 1);
        proof {
            assert(seen_next =~= seen.push(opt_view(roots@[i as int])));
        }
        match &roots[i] {
            None => {
                proof {
                    assert forall|k: Seq<char>|
                        #![trigger seen_next.contains(Some(k))]
                        views(keys@).contains(k) <==> seen_next.contains(Some(k)) by {
                        if seen_next.contains(Some(k)) {
                            let w = choose|w: int| 0 <= w < seen_next.len() && seen_next[w] == Some(k);
                            assert(w < seen.len());
                            assert(seen[w] == Some(k));
                        }
                        if seen.contains(Some(k)) {
                            let w = choose|w: int| 0 <= w < seen.len() && seen[w] == Some(k);
                            assert(seen_next[w] == Some(k));
                        }
                    }
                }
            },
            Some(r) => {
                let len = keys.len();
                let mut p: usize = 0;
                while p < len && text_less(keys[p].as_str(), r.as_str())
                    invariant
                        len == keys@.len(),
                        p <= len,
                        forall|a: int| 0 <= a < p ==> text_lt(#[trigger] keys@[a]@, r@),
                    decreases len - p,
                {
                    p += 1;
                }
                let present = p < len && same_text(keys[p].as_str(), r.as_str());
                if !present {
                    keys.insert(p, r.clone());
                    proof {
                        let nk = views(keys@);
                        assert(nk =~= old_keys.insert(p as int, r@));
                        assert forall|a: int, b: int| 0 <= a < b < nk.len() implies text_lt(
                            #[trigger] nk[a],
                            #[trigger] nk[b],
                        ) by {
                            if b < p {
                                assert(nk[a] == old_keys[a] && nk[b] == old_keys[b]);
                            } else if b == p {
                                assert(nk[a] == old_keys[a]);
                            } else if a < p {
                                assert(nk[a] == old_keys[a] && nk[b] == old_keys[b - 1]);
                                lemma_text_lt_total(old_keys[p as int], r@);
                                lemma_text_lt_asymmetric(r@, old_keys[p as int]);
                                if b - 1 > p {
                                    lemma_text_lt_transitive(r@, old_keys[p as int], old_keys[b - 1]);
                                }
                                lemma_text_lt_transitive(old_keys[a], r@, old_keys[b - 1]);
                            } else if a == p {
                                assert(nk[b] == old_keys[b - 1]);
                                lemma_text_lt_total(old_keys[p as int], r@);
                                if b - 1 > p {
                                    lemma_text_lt_transitive(r@, old_keys[p as int], old_keys[b - 1]);
                                }
                            } else {
                                assert(nk[a] == old_keys[a - 1] && nk[b] == old_keys[b - 1]);
                            }
                        }
                        assert forall|k: Seq<char>|
                            #![trigger seen_next.contains(Some(k))]
                            nk.contains(k) <==> seen_next.contains(Some(k)) by {
                            if nk.contains(k) {
                                let w = choose|w: int| 0 <= w < nk.len() && nk[w] == k;
                                if w < p {
                                    assert(old_keys[w] == k);
                                    assert(old_keys.contains(k));
                                    assert(seen.contains(Some(k)));
                                    let v = choose|v: int| 0 <= v < seen.len() && seen[v] == Some(k);
                                    assert(seen_next[v] == Some(k));
                                } else if w == p {
                                    assert(seen_next[i as int] == Some(k));
                                } else {
                                    assert(old_keys[w - 1] == k);
                                    assert(old_keys.contains(k));
                                    assert(seen.contains(Some(k)));
                                    let v = choose|v: int| 0 <= v < seen.len() && seen[v] == Some(k);
                                    assert(seen_next[v] == Some(k));
                                }
                            }
                            if seen_next.contains(Some(k)) {
                                let w = choose|w: int| 0 <= w < seen_next.len() && seen_next[w] == Some(k);
                                if w < seen.len() {
                                    assert(seen[w] == Some(k));
                                    assert(seen.contains(Some(k)));
                                    assert(old_keys.contains(k));
                                    let v = choose|v: int| 0 <= v < old_keys.len() && old_keys[v] == k;
                                    if v < p {
                                        assert(nk[v] == k);
                                    } else {
                                        assert(nk[v + 1] == k);
                                    }
                                } else {
                                    assert(nk[p as int] == k);
                                }
                            }
                        }
                    }
                } else {
                    proof {
                        assert(old_keys[p as int] == r@);
                        assert forall|k: Seq<char>|
                            #![trigger seen_next.contains(Some(k))]
                            old_keys.contains(k) <==> seen_next.contains(Some(k)) by {
                            if seen_next.contains(Some(k)) {
                                let w = choose|w: int| 0 <= w < seen_next.len() && seen_next[w] == Some(k);
                                if w < seen.len() {
                                    assert(seen[w] == Some(k));
                                    assert(seen.contains(Some(k)));
                                } else {
                                    assert(old_keys[p as int] == k);
                                }
                            }
                            if old_keys.contains(k) {
                                assert(seen.contains(Some(k)));
                                let v = choose|v: int| 0 <= v < seen.len() && seen[v] == Some(k);
                                assert(seen_next[v] == Some(k));
                            }
                        }
                    }
                }
            },
        }
        i += 1;
    }
    proof {
        assert(opt_views(roots@).take(n as int) =~= opt_views(roots@));
    }
    keys
}

/// The panes whose root is `key`.
fn panes_with_root(panes: &[Pane], roots: &Vec<Option<String>>, key: &str) -> (group: Vec<Pane>)
    requires
        roots@.len() == panes@.len(),
    ensures
        pane_views(group@) == panes_in(pane_views(panes@), opt_views(roots@), key@),
{
    let n = panes.len();
    let ghost pv = pane_views(panes@);
    let ghost rv = opt_views(roots@);
    let mut group: Vec<Pane> = Vec::new();
    let mut m: usize = 0;
    proof {
        assert(pane_views(group@) =~= Seq::empty());
    }
    while m < n
        invariant
            n == panes@.len(),
            roots@.len() == n,
            pv == pane_views(panes@),
            rv == opt_views(roots@),
            m <= n,
            pane_views(group@) == panes_in(pv.take(m as int), rv.take(m as int), key@),
        decreases n - m,
    {
        let ghost before = group@;
        proof {
            assert(pv.take(m + 1).drop_last() =~= pv.take(m as int));
            assert(rv.take(m + 1).drop_last() =~= rv.take(m as int));
            assert(rv.take(m + 1).last() == opt_view(roots@[m as int]));
            assert(pv.take(m + 1).last() == panes@[m as int]@);
        }
        let matches = match &roots[m] {
            Some(r) => same_text(r.as_str(), key),
            None => false,
        };
        if matches {
            group.push(panes[m].copy());
            proof {
                assert(pane_views(group@) =~= pane_views(before).push(panes@[m as int]@));
            }
        }
        m += 1;
    }
    proof {
        assert(pv.take(n as int) =~= pv);
        assert(rv.take(n as int) =~= rv);
    }
    group
}

/// Group panes by the git repo root their cwd belongs to: every root once,
/// in increasing order, each with its panes in order. Panes outside any
/// repo are dropped; each directory is resolved once.
pub fn repos_from_panes<R: Runner>(run: &mut Session<R>, panes: &[Pane]) -> (groups: Vec<(String, Vec<Pane>)>)
    ensures
        final(run).runner() == old(run).runner(),
        final(run).calls() == old(run).calls() + root_calls(
            first_occurrences(cwds_of(pane_views(panes@))),
        ),
        exists|roots: Seq<Option<Seq<char>>>|
            #[trigger] roots_resolved(old(run).runner(), pane_views(panes@), roots) && is_grouping(
                pane_views(panes@),
                roots,
                groups_view(groups@),
            ),
{
    let roots = resolve_roots(run, panes);
    let keys = sorted_roots(&roots);
    let mut groups: Vec<(String, Vec<Pane>)> = Vec::new();
    let ghost pv = pane_views(panes@);
    let ghost rv = opt_views(roots@);
    let mut g: usize = 0;
    while g < keys.len()
        invariant
            pv == pane_views(panes@),
            rv == opt_views(roots@),
            roots@.len() == panes@.len(),
            g <= keys@.len(),
            groups@.len() == g,
            forall|j: int|
                0 <= j < g ==> #[trigger] groups_view(groups@)[j] == (views(keys@)[j], panes_in(
                    pv,
                    rv,
                    views(keys@)[j],
                )),
        decreases keys@.len() - g,
    {
        let group = panes_with_root(panes, &roots, keys[g].as_str());
        let ghost before = groups@;
        let ghost gview = pane_views(group@);
        let key = keys[g].clone();
        groups.push((key, group));
        proof {
            assert(views(keys@)[g as int] == keys@[g as int]@);
            assert(groups_view(groups@)[g as int] == (key@, gview));
            assert forall|j: int| 0 <= j <= g implies #[trigger] groups_view(groups@)[j] == (
                views(keys@)[j],
                panes_in(pv, rv, views(keys@)[j]),
            ) by {
                if j < g {
                    assert(groups@[j] == before[j]);
                    assert(groups_view(groups@)[j] == groups_view(before)[j]);
                } else {
                    assert(gview == panes_in(pv, rv, key@));
                }
            }
        }
        g += 1;
    }
    proof {
        let gv = groups_view(groups@);
        assert(gv.map_values(|x: (Seq<char>, Seq<PaneV>)| x.0) =~= views(keys@));
        assert forall|i: int, j: int| 0 <= i < j < gv.len() implies text_lt(
            #[trigger] gv[i].0,
            #[trigger] gv[j].0,
        ) by {
            assert(gv[i].0 == views(keys@)[i]);
            assert(gv[j].0 == views(keys@)[j]);
        }
        assert forall|i: int| 0 <= i < gv.len() implies #[trigger] gv[i].1 == panes_in(pv, rv, gv[i].0) by {
            assert(gv[i] == (views(keys@)[i], panes_in(pv, rv, views(keys@)[i])));
        }
        assert(is_grouping(pv, rv, gv));
    }
    groups
}

// ---------------------------------------------------------------------------
// Facts and the report for one repo
// ---------------------------------------------------------------------------

#[derive(Debug, Clone, PartialEq, Eq)]
pub struct RepoReport {
    pub root: String,
    pub branch: String,
    pub fate: &'static str,
    pub action: &'static str,
    pub reason: String,
    pub checked_out: bool,
}

/// `(root, branch, fate, action, reason, checked_out)`
pub type ReportV = (Seq<char>, Seq<char>, Seq<char>, Seq<char>, Seq<char>, bool);

impl View for RepoReport {
    type V = ReportV;

    open spec fn view(&self) -> ReportV {
        (self.root@, self.branch@, self.fate@, self.action@, self.reason@, self.checked_out)
    }
}

pub open spec fn report_views(reports: Seq<RepoReport>) -> Seq<ReportV> {
    reports.map_values(|r: RepoReport| r@)
}

#[derive(Debug, Clone, Copy, PartialEq, Eq, Structural)]
pub struct Settings {
    pub dry_run: bool,
    pub notify_only: bool,
}

/// The report for a repo whose facts are `local`.
pub open spec fn report_view(
    local: LocalFacts,
    action: ActionKind,
    fate: Fate,
    reason: Seq<char>,
    checked_out: bool,
) -> ReportV {
    (local.root@, local.branch@, fate_name(fate), action_name(action), reason, checked_out)
}

/// The commands that gather the local facts of `root`, when `symbolic-ref`
/// yields `r1`.
pub open spec fn local_calls(root: Seq<char>, r1: RunResult) -> Seq<Call> {
    seq![(branch_cmd(root), None::<Seq<char>>)] + default_branch_calls(root, r1) + seq![
        (origin_url_cmd(root), None::<Seq<char>>),
        (git_dirs_cmd(root), None::<Seq<char>>),
        (status_cmd(root), None::<Seq<char>>),
        (tip_cmd(root), None::<Seq<char>>),
    ]
}

/// `local` holds what the local commands can yield for `root`, `calls` are
/// the commands run for it, and the number of busy agents is counted among
/// `statuses`.
pub open spec fn local_facts_outcome<R: Runner>(
    run: &R,
    root: Seq<char>,
    statuses: Seq<Seq<char>>,
    local: LocalFacts,
    calls: Seq<Call>,
) -> bool {
    &&& local.root@ == root
    &&& local.busy_agents == busy_count(statuses)
    &&& exists|r: RunResult|
        #[trigger] run.outcome(branch_cmd(root), None, r) && local.branch@ == text_or_empty(r)
    &&& exists|r1: RunResult, r2: RunResult|
        #[trigger] default_branch_outcomes(run, root, r1, r2) && local.default_branch@
            == default_branch_from(r1, r2) && calls == local_calls(root, r1)
    &&& exists|r: RunResult|
        #[trigger] run.outcome(origin_url_cmd(root), None, r) && local.github_origin == github_from(
            r,
        )
    &&& exists|r: RunResult|
        #[trigger] run.outcome(git_dirs_cmd(root), None, r) && local.linked_worktree == linked_from(
            r,
        )
    &&& exists|r: RunResult|
        #[trigger] run.outcome(status_cmd(root), None, r) && local.dirty == dirty_from(r)
    &&& exists|r: RunResult|
        #[trigger] run.outcome(tip_cmd(root), None, r) && local.tip_sha@ == text_or_empty(r)
}

/// What the probe of `branch` can yield.
pub open spec fn probe_outcome<R: Runner>(
    run: &R,
    root: Seq<char>,
    branch: Seq<char>,
    probe: Option<(bool, Seq<char>)>,
) -> bool {
    exists|r: RunResult| #[trigger] run.outcome(probe_cmd(root, branch), None, r) && probe == probe_from(r, branch)
}

/// What asking `gh` for the merged pull request of `branch` can yield.
pub open spec fn pr_head_outcome<R: Runner>(
    run: &R,
    root: Seq<char>,
    branch: Seq<char>,
    sha: Seq<char>,
) -> bool {
    exists|r: RunResult| #[trigger] run.outcome(pr_list_cmd(branch), Some(root), r) && sha == pr_head_from(r)
}

/// What reading the last fetched `origin/<branch>` can yield.
pub open spec fn remote_sha_outcome<R: Runner>(
    run: &R,
    root: Seq<char>,
    branch: Seq<char>,
    sha: Seq<char>,
) -> bool {
    exists|r: RunResult| #[trigger] run.outcome(remote_ref_cmd(root, branch), None, r) && sha == text_or_empty(r)
}

/// `remote` holds what the remote commands can yield; nothing exactly when
/// the probe could not reach the remote.
pub open spec fn remote_facts_outcome<R: Runner>(
    run: &R,
    root: Seq<char>,
    branch: Seq<char>,
    remote: Option<RemoteFacts>,
) -> bool {
    match remote {
        None => probe_outcome(run, root, branch, None),
        Some(rf) => {
            &&& probe_outcome(run, root, branch, Some((rf.branch_exists, rf.remote_default_branch@)))
            &&& pr_head_outcome(run, root, branch, rf.merged_pr_head_sha@)
            &&& remote_sha_outcome(run, root, branch, rf.last_known_remote_sha@)
        },
    }
}

/// The commands that gather the remote facts: the probe, and only when it
/// reached the remote, the `gh` query and the read of `origin/<branch>`.
pub open spec fn remote_calls(root: Seq<char>, branch: Seq<char>, remote: Option<RemoteFacts>) -> Seq<
    Call,
> {
    match remote {
        None => seq![(probe_cmd(root, branch), None::<Seq<char>>)],
        Some(_) => seq![
            (probe_cmd(root, branch), None::<Seq<char>>),
            (pr_list_cmd(branch), Some(root)),
            (remote_ref_cmd(root, branch), None::<Seq<char>>),
        ],
    }
}

/// Whether the switch happened, and the reason reported, for a decided
/// checkout: notify-only and dry-run modes never switch; otherwise the
/// outcome of switching decides (`error` is why it failed, if it did).
pub open spec fn checkout_result(
    reason: Seq<char>,
    target: Seq<char>,
    settings: Settings,
    error: Option<Seq<char>>,
) -> (bool, Seq<char>) {
    if settings.notify_only {
        (false, reason + " (notify-only mode, not switching)"@)
    } else if settings.dry_run {
        (false, reason + " (dry run, would checkout "@ + target + ")"@)
    } else {
        match error {
            Some(e) => (false, reason + ", but "@ + e),
            None => (true, reason + ", checked out "@ + target),
        }
    }
}

/// `error` is what switching `root` to `target` can yield and `calls` the
/// commands run for it: none at all in notify-only or dry-run mode.
pub open spec fn checkout_attempt<R: Runner>(
    run: &R,
    root: Seq<char>,
    target: Seq<char>,
    settings: Settings,
    error: Option<Seq<char>>,
    calls: Seq<Call>,
) -> bool {
    if settings.notify_only || settings.dry_run {
        calls == Seq::<Call>::empty()
    } else {
        exists|c: RunResult, p: RunResult|
            #[trigger] checkout_outcomes(run, root, target, c, p) && error == checkout_error_from(
                target,
                c,
                p,
            ) && calls == checkout_calls(root, target, c)
    }
}

/// The report of one sweep of a repo, from its local facts, its remote facts
/// (nothing when the remote was unreachable) and the outcome of switching.
/// The checkout target is always the remote's default branch.
pub open spec fn sweep_report_of(
    local: LocalFacts,
    remote: Option<RemoteFacts>,
    settings: Settings,
    error: Option<Seq<char>>,
) -> ReportV {
    match skip_reason(local) {
        Some(skip) => report_view(local, ActionKind::Skip, Fate::Unknown, skip, false),
        None => match remote {
            None => report_view(local, ActionKind::Skip, Fate::Unknown, "remote unreachable"@, false),
            Some(rf) => {
                let d = decision_of(local, rf);
                if d.0 != ActionKind::Checkout {
                    report_view(local, d.0, d.1, d.2, false)
                } else {
                    let out = checkout_result(d.2, rf.remote_default_branch@, settings, error);
                    report_view(local, ActionKind::Checkout, d.1, out.1, out.0)
                }
            },
        },
    }
}

/// A checkout was decided: no local gate fired, the remote answered, and
/// the decision on the facts is a checkout.
pub open spec fn checkout_decided(local: LocalFacts, remote: Option<RemoteFacts>) -> bool {
    skip_reason(local) is None && remote is Some && decision_of(local, remote->0).0
        == ActionKind::Checkout
}

/// `local`, `remote` and `error` are what the commands of one sweep of `root`
/// can yield, `local_calls` the commands that gathered the local facts and
/// `switch_calls` those of the switch: the remote is asked only when no local
/// gate fires, and a switch is attempted only for a decided checkout.
pub open spec fn sweep_inputs<R: Runner>(
    run: &R,
    root: Seq<char>,
    statuses: Seq<Seq<char>>,
    settings: Settings,
    local: LocalFacts,
    remote: Option<RemoteFacts>,
    error: Option<Seq<char>>,
    local_calls: Seq<Call>,
    switch_calls: Seq<Call>,
) -> bool {
    &&& local_facts_outcome(run, root, statuses, local, local_calls)
    &&& skip_reason(local) is None ==> remote_facts_outcome(run, root, local.branch@, remote)
    &&& checkout_decided(local, remote) ==> checkout_attempt(
        run,
        root,
        remote->0.remote_default_branch@,
        settings,
        error,
        switch_calls,
    )
}

/// Every command one sweep of `root` runs, in order: the local commands;
/// then, when no local gate fired, the remote commands; then, for a decided
/// checkout, the switch.
pub open spec fn sweep_calls(
    root: Seq<char>,
    local: LocalFacts,
    remote: Option<RemoteFacts>,
    local_calls: Seq<Call>,
    switch_calls: Seq<Call>,
) -> Seq<Call> {
    if skip_reason(local) is Some {
        local_calls
    } else if checkout_decided(local, remote) {
        local_calls + remote_calls(root, local.branch@, remote) + switch_calls
    } else {
        local_calls + remote_calls(root, local.branch@, remote)
    }
}

/// `report` is what one sweep of `root` with these agent statuses can
/// yield, and `calls` the commands it runs.
pub open spec fn sweep_repo_outcome<R: Runner>(
    run: &R,
    root: Seq<char>,
    statuses: Seq<Seq<char>>,
    settings: Settings,
    report: ReportV,
    calls: Seq<Call>,
) -> bool {
    exists|
        local: LocalFacts,
        remote: Option<RemoteFacts>,
        error: Option<Seq<char>>,
        lc: Seq<Call>,
        sc: Seq<Call>,
    |
        #[trigger] sweep_inputs(run, root, statuses, settings, local, remote, error, lc, sc)
            && report == sweep_report_of(local, remote, settings, error) && calls == sweep_calls(
            root,
            local,
            remote,
            lc,
            sc,
        )
}

/// The local facts of `root`, with the busy agents counted among `panes`.
pub fn local_facts<R: Runner>(run: &mut Session<R>, root: &str, panes: &[Pane]) -> (res: LocalFacts)
    ensures
        final(run).runner() == old(run).runner(),
        exists|calls: Seq<Call>|
            #[trigger] local_facts_outcome(old(run).runner(), root@, status_views(panes@), res, calls)
                && final(run).calls() == old(run).calls() + calls,
{
    let ghost calls0 = run.calls();
    let busy_agents = busy_agent_count(panes);
    let branch = current_branch(run, root);
    let ghost calls1 = run.calls();
    let default_branch = default_branch(run, root);
    let ghost calls2 = run.calls();
    let github_origin = github_origin(run, root);
    let linked_worktree = linked_worktree(run, root);
    let dirty = dirty(run, root);
    let tip_sha = tip_sha(run, root);
    let res = LocalFacts {
        root: owned(root),
        branch,
        default_branch,
        github_origin,
        linked_worktree,
        dirty,
        tip_sha,
        busy_agents,
    };
    proof {
        let (r1, r2) = choose|r1: RunResult, r2: RunResult|
            #[trigger] default_branch_outcomes(run.runner(), root@, r1, r2) && res.default_branch@
                == default_branch_from(r1, r2) && calls2 == calls1 + default_branch_calls(root@, r1);
        let lc = local_calls(root@, r1);
        assert(run.calls() =~= calls0 + lc);
        assert(local_facts_outcome(run.runner(), root@, status_views(panes@), res, lc));
    }
    res
}

/// None when the remote is unreachable; the repo is skipped this cycle.
pub fn remote_facts<R: Runner>(run: &mut Session<R>, root: &str, branch: &str) -> (res: Option<
    RemoteFacts,
>)
    ensures
        final(run).runner() == old(run).runner(),
        final(run).calls() == old(run).calls() + remote_calls(root@, branch@, res),
        remote_facts_outcome(old(run).runner(), root@, branch@, res),
{
    let ghost calls0 = run.calls();
    let probe = match remote_probe(run, root, branch) {
        Some(p) => p,
        None => {
            assert(run.calls() =~= calls0 + remote_calls(root@, branch@, None));
            return None;
        },
    };
    let merged_pr_head_sha = merged_pr_head_sha(run, root, branch);
    let last_known_remote_sha = last_known_remote_sha(run, root, branch);
    let res = RemoteFacts {
        branch_exists: probe.branch_exists,
        remote_default_branch: probe.default_branch,
        merged_pr_head_sha,
        last_known_remote_sha,
    };
    assert(run.calls() =~= calls0 + remote_calls(root@, branch@, Some(res)));
    Some(res)
}

fn report_for(
    local: &LocalFacts,
    action: ActionKind,
    fate: Fate,
    reason: String,
    checked_out: bool,
) -> (res: RepoReport)
    ensures
        res@ == report_view(*local, action, fate, reason@, checked_out),
{
    RepoReport {
        root: local.root.clone(),
        branch: local.branch.clone(),
        fate: fate.as_str(),
        action: action.as_str(),
        reason,
        checked_out,
    }
}

fn apply_checkout<R: Runner>(
    run: &mut Session<R>,
    local: &LocalFacts,
    target_branch: &str,
    settings: Settings,
    reason: &str,
) -> (res: (bool, String))
    ensures
        final(run).runner() == old(run).runner(),
        exists|error: Option<Seq<char>>, calls: Seq<Call>|
            #[trigger] checkout_attempt(
                old(run).runner(),
                local.root@,
                target_branch@,
                settings,
                error,
                calls,
            ) && (res.0, res.1@) == checkout_result(reason@, target_branch@, settings, error)
                && final(run).calls() == old(run).calls() + calls,
{
    let ghost calls0 = run.calls();
    if settings.notify_only {
        let res = (false, concat2(reason, " (notify-only mode, not switching)"));
        assert(checkout_attempt(run.runner(), local.root@, target_branch@, settings, None, Seq::empty()));
        assert(run.calls() =~= calls0 + Seq::<Call>::empty());
        return res;
    }
    if settings.dry_run {
        let res = (false, concat4(reason, " (dry run, would checkout ", target_branch, ")"));
        assert(checkout_attempt(run.runner(), local.root@, target_branch@, settings, None, Seq::empty()));
        assert(run.calls() =~= calls0 + Seq::<Call>::empty());
        return res;
    }
    let outcome = checkout_default(run, local.root.as_str(), target_branch);
    proof {
        let (c, p) = choose|c: RunResult, p: RunResult|
            #[trigger] checkout_outcomes(run.runner(), local.root@, target_branch@, c, p) && opt_view(
                outcome,
            ) == checkout_error_from(target_branch@, c, p) && run.calls() == calls0 + checkout_calls(
                local.root@,
                target_branch@,
                c,
            );
        assert(checkout_attempt(
            run.runner(),
            local.root@,
            target_branch@,
            settings,
            opt_view(outcome),
            checkout_calls(local.root@, target_branch@, c),
        ));
    }
    match outcome {
        Some(error) => (false, concat3(reason, ", but ", error.as_str())),
        None => (true, concat3(reason, ", checked out ", target_branch)),
    }
}

/// Sweep one repo: gather its facts, decide, switch if decided and allowed,
/// and report.
pub fn sweep_repo<R: Runner>(
    run: &mut Session<R>,
    root: &str,
    panes: &[Pane],
    settings: Settings,
) -> (res: RepoReport)
    ensures
        final(run).runner() == old(run).runner(),
        exists|calls: Seq<Call>|
            #[trigger] sweep_repo_outcome(
                old(run).runner(),
                root@,
                status_views(panes@),
                settings,
                res@,
                calls,
            ) && final(run).calls() == old(run).calls() + calls,
{
    let ghost runner = run.runner();
    let ghost calls0 = run.calls();
    let ghost statuses = status_views(panes@);
    let local = local_facts(run, root, panes);
    let ghost calls1 = run.calls();
    let ghost lc = choose|calls: Seq<Call>|
        #[trigger] local_facts_outcome(runner, root@, statuses, local, calls) && calls1 == calls0 + calls;
    if let Some(skip) = local_skip_reason(&local) {
        let res = report_for(&local, ActionKind::Skip, Fate::Unknown, skip, false);
        proof {
            let empty = Seq::<Call>::empty();
            assert(sweep_inputs(runner, root@, statuses, settings, local, None, None, lc, empty));
            assert(sweep_repo_outcome(runner, root@, statuses, settings, res@, lc));
        }
        return res;
    }
    let remote = match remote_facts(run, local.root.as_str(), local.branch.as_str()) {
        Some(r) => r,
        None => {
            let res = report_for(
                &local,
                ActionKind::Skip,
                Fate::Unknown,
                owned("remote unreachable"),
                false,
            );
            proof {
                let empty = Seq::<Call>::empty();
                assert(sweep_inputs(runner, root@, statuses, settings, local, None, None, lc, empty));
                let calls = sweep_calls(root@, local, None, lc, empty);
                assert(run.calls() =~= calls0 + calls);
                assert(sweep_repo_outcome(runner, root@, statuses, settings, res@, calls));
            }
            return res;
        },
    };
    let ghost calls2 = run.calls();
    let decision = decide(&local, &remote);
    // The checkout target is the remote's authoritative default branch; the
    // local origin/HEAD guess in `local.default_branch` can be stale.
    let res = finish_report(run, &local, remote.remote_default_branch.as_str(), &decision, settings);
    proof {
        if decision.action != ActionKind::Checkout {
            let empty = Seq::<Call>::empty();
            assert(sweep_inputs(runner, root@, statuses, settings, local, Some(remote), None, lc, empty));
            let calls = sweep_calls(root@, local, Some(remote), lc, empty);
            assert(run.calls() =~= calls0 + calls);
            assert(sweep_repo_outcome(runner, root@, statuses, settings, res@, calls));
        } else {
            let (error, sc) = choose|error: Option<Seq<char>>, calls: Seq<Call>|
                #[trigger] checkout_attempt(
                    runner,
                    local.root@,
                    remote.remote_default_branch@,
                    settings,
                    error,
                    calls,
                ) && {
                    let out = checkout_result(
                        decision.reason@,
                        remote.remote_default_branch@,
                        settings,
                        error,
                    );
                    res@ == report_view(local, decision.action, decision.fate, out.1, out.0)
                } && run.calls() == calls2 + calls;
            assert(sweep_inputs(runner, root@, statuses, settings, local, Some(remote), error, lc, sc));
            let calls = sweep_calls(root@, local, Some(remote), lc, sc);
            assert(run.calls() =~= calls0 + calls);
            assert(res@ == sweep_report_of(local, Some(remote), settings, error));
            assert(sweep_repo_outcome(runner, root@, statuses, settings, res@, calls));
        }
    }
    res
}

/// The report for a decision; a decided checkout is carried out first, as
/// far as the mode allows.
fn finish_report<R: Runner>(
    run: &mut Session<R>,
    local: &LocalFacts,
    target_branch: &str,
    decision: &Decision,
    settings: Settings,
) -> (res: RepoReport)
    ensures
        final(run).runner() == old(run).runner(),
        decision.action != ActionKind::Checkout ==> res@ == report_view(
            *local,
            decision.action,
            decision.fate,
            decision.reason@,
            false,
        ) && final(run).calls() == old(run).calls(),
        decision.action == ActionKind::Checkout ==> exists|
            error: Option<Seq<char>>,
            calls: Seq<Call>,
        |
            #[trigger] checkout_attempt(
                old(run).runner(),
                local.root@,
                target_branch@,
                settings,
                error,
                calls,
            ) && {
                let out = checkout_result(decision.reason@, target_branch@, settings, error);
                res@ == report_view(*local, decision.action, decision.fate, out.1, out.0)
            } && final(run).calls() == old(run).calls() + calls,
{
    if decision.action != ActionKind::Checkout {
        return report_for(local, decision.action, decision.fate, decision.reason.clone(), false);
    }
    let (checked_out, reason) = apply_checkout(
        run,
        local,
        target_branch,
        settings,
        decision.reason.as_str(),
    );
    report_for(local, decision.action, decision.fate, reason, checked_out)
}

// ---------------------------------------------------------------------------
// One sweep over every repo
// ---------------------------------------------------------------------------

/// The agent statuses of panes.
pub open spec fn statuses_of(panes: Seq<PaneV>) -> Seq<Seq<char>> {
    panes.map_values(|p: PaneV| p.2)
}

/// `panes` is what the pane list can yield, `roots` their resolved repo roots
/// and `groups` the repos with their panes.
pub open spec fn sweep_plan<R: Runner>(
    run: &R,
    herdr_bin: Seq<char>,
    panes: Seq<PaneV>,
    roots: Seq<Option<Seq<char>>>,
    groups: Seq<(Seq<char>, Seq<PaneV>)>,
) -> bool {
    &&& exists|r: RunResult| #[trigger] run.outcome(pane_list_cmd(herdr_bin), None, r) && panes == panes_from(r)
    &&& roots_resolved(run, panes, roots)
    &&& is_grouping(panes, roots, groups)
}

/// The command lists, one after the other.
pub open spec fn concat_calls(parts: Seq<Seq<Call>>) -> Seq<Call>
    decreases parts.len(),
{
    if parts.len() == 0 {
        Seq::empty()
    } else {
        concat_calls(parts.drop_last()) + parts.last()
    }
}

/// The commands of a sweep before the repos are swept: the pane list, then
/// one root lookup per directory.
pub open spec fn plan_calls(herdr_bin: Seq<char>, panes: Seq<PaneV>) -> Seq<Call> {
    seq![(pane_list_cmd(herdr_bin), None::<Seq<char>>)] + root_calls(
        first_occurrences(cwds_of(panes)),
    )
}

/// One sweep: list the panes, group them by repo, and sweep each repo in
/// increasing order of its root. Writing the status file is left to the
/// caller.
pub fn sweep_once<R: Runner>(run: &mut Session<R>, herdr_bin: &str, settings: Settings) -> (res: Vec<
    RepoReport,
>)
    ensures
        final(run).runner() == old(run).runner(),
        exists|
            panes: Seq<PaneV>,
            roots: Seq<Option<Seq<char>>>,
            groups: Seq<(Seq<char>, Seq<PaneV>)>,
            repo_calls: Seq<Seq<Call>>,
        |
            #[trigger] sweep_plan(old(run).runner(), herdr_bin@, panes, roots, groups) && res@.len()
                == groups.len() && repo_calls.len() == groups.len() && final(run).calls()
                == old(run).calls() + plan_calls(herdr_bin@, panes) + #[trigger] concat_calls(repo_calls)
                && forall|i: int|
                0 <= i < groups.len() ==> sweep_repo_outcome(
                    old(run).runner(),
                    groups[i].0,
                    statuses_of(groups[i].1),
                    settings,
                    #[trigger] res@[i]@,
                    repo_calls[i],
                ),
{
    let ghost runner = run.runner();
    let ghost calls0 = run.calls();
    let panes = list_panes(run, herdr_bin);
    let groups = repos_from_panes(run, panes.as_slice());
    let ghost calls1 = run.calls();
    let ghost gv = groups_view(groups@);
    let mut reports: Vec<RepoReport> = Vec::new();
    let ghost mut repo_calls: Seq<Seq<Call>> = Seq::empty();
    let mut i: usize = 0;
    proof {
        assert(calls1 =~= calls0 + plan_calls(herdr_bin@, pane_views(panes@)) + concat_calls(repo_calls));
    }
    while i < groups.len()
        invariant
            gv == groups_view(groups@),
            i <= groups@.len(),
            reports@.len() == i,
            repo_calls.len() == i,
            run.runner() == runner,
            run.calls() == calls0 + plan_calls(herdr_bin@, pane_views(panes@)) + concat_calls(repo_calls),
            forall|j: int|
                0 <= j < i ==> sweep_repo_outcome(
                    runner,
                    gv[j].0,
                    statuses_of(gv[j].1),
                    settings,
                    #[trigger] reports@[j]@,
                    repo_calls[j],
                ),
        decreases groups@.len() - i,
    {
        let ghost before_calls = run.calls();
        let report = sweep_repo(run, groups[i].0.as_str(), groups[i].1.as_slice(), settings);
        proof {
            assert(status_views(groups@[i as int].1@) =~= statuses_of(gv[i as int].1));
        }
        let ghost this = choose|calls: Seq<Call>|
            #[trigger] sweep_repo_outcome(
                runner,
                groups@[i as int].0@,
                status_views(groups@[i as int].1@),
                settings,
                report@,
                calls,
            ) && run.calls() == before_calls + calls;
        let ghost before = reports@;
        let ghost before_parts = repo_calls;
        reports.push(report);
        proof {
            repo_calls = repo_calls.push(this);
            assert(repo_calls.drop_last() =~= before_parts);
            assert(run.calls() =~= calls0 + plan_calls(herdr_bin@, pane_views(panes@)) + concat_calls(
                repo_calls,
            ));
            assert forall|j: int| 0 <= j <= i implies sweep_repo_outcome(
                runner,
                gv[j].0,
                statuses_of(gv[j].1),
                settings,
                #[trigger] reports@[j]@,
                repo_calls[j],
            ) by {
                if j < i {
                    assert(reports@[j] == before[j]);
                    assert(repo_calls[j] == before_parts[j]);
                }
            }
        }
        i += 1;
    }
    proof {
        let pv = pane_views(panes@);
        let roots = choose|roots: Seq<Option<Seq<char>>>|
            #[trigger] roots_resolved(runner, pv, roots) && is_grouping(pv, roots, gv);
        assert(sweep_plan(runner, herdr_bin@, pv, roots, gv));
        assert(run.calls() == calls0 + plan_calls(herdr_bin@, pv) + concat_calls(repo_calls));
    }
    reports
}

// ---------------------------------------------------------------------------
// Laws of a sweep
// ---------------------------------------------------------------------------

/// A repo is switched only when the decision is a checkout (so every safety
/// gate passed), the mode allows switching, and the switch succeeded; the
/// branch switched to is the remote's default branch, and the report says so.
pub proof fn lemma_switch_only_when_safe(
    local: LocalFacts,
    remote: Option<RemoteFacts>,
    settings: Settings,
    error: Option<Seq<char>>,
)
    requires
        sweep_report_of(local, remote, settings, error).5,
    ensures
        skip_reason(local) is None,
        remote is Some,
        decision_of(local, remote->0).0 == ActionKind::Checkout,
        !settings.dry_run,
        !settings.notify_only,
        error is None,
        !local.linked_worktree,
        local.busy_agents == 0,
        !local.dirty,
        fate_of(remote->0) == Fate::Merged ==> local.tip_sha@ == remote->0.merged_pr_head_sha@,
        fate_of(remote->0) == Fate::Deleted ==> local.tip_sha@ == remote->0.last_known_remote_sha@,
        sweep_report_of(local, remote, settings, error).3 == "checkout"@,
        sweep_report_of(local, remote, settings, error).4 == decision_of(local, remote->0).2
            + ", checked out "@ + remote->0.remote_default_branch@,
{
    lemma_checkout_only_when_safe(local, remote->0);
}

/// In dry-run or notify-only mode no report says its repo was switched
/// (that no `git checkout` runs then is `lemma_sweep_checkout_commands`).
pub proof fn lemma_modes_never_switch(
    local: LocalFacts,
    remote: Option<RemoteFacts>,
    settings: Settings,
    error: Option<Seq<char>>,
)
    requires
        settings.dry_run || settings.notify_only,
    ensures
        !sweep_report_of(local, remote, settings, error).5,
{
}

/// The report names the repo and branch whose facts were gathered, and a
/// repo whose remote cannot be reached is skipped.
pub proof fn lemma_report_identity(
    local: LocalFacts,
    remote: Option<RemoteFacts>,
    settings: Settings,
    error: Option<Seq<char>>,
)
    ensures
        sweep_report_of(local, remote, settings, error).0 == local.root@,
        sweep_report_of(local, remote, settings, error).1 == local.branch@,
        skip_reason(local) is None && remote is None ==> sweep_report_of(
            local,
            remote,
            settings,
            error,
        ) == report_view(local, ActionKind::Skip, Fate::Unknown, "remote unreachable"@, false),
{
}

/// The local `origin/HEAD` guess never picks the checkout target: two repos
/// that differ only in that guess (both set and both other than the current
/// branch) get the same report.
pub proof fn lemma_local_default_never_targets(
    local1: LocalFacts,
    local2: LocalFacts,
    remote: Option<RemoteFacts>,
    settings: Settings,
    error: Option<Seq<char>>,
)
    requires
        local1.root == local2.root,
        local1.branch == local2.branch,
        local1.github_origin == local2.github_origin,
        local1.linked_worktree == local2.linked_worktree,
        local1.dirty == local2.dirty,
        local1.tip_sha == local2.tip_sha,
        local1.busy_agents == local2.busy_agents,
        local1.default_branch@.len() != 0,
        local2.default_branch@.len() != 0,
        local1.default_branch@ != local1.branch@,
        local2.default_branch@ != local2.branch@,
    ensures
        sweep_report_of(local1, remote, settings, error) == sweep_report_of(
            local2,
            remote,
            settings,
            error,
        ),
{
}

// ---------------------------------------------------------------------------
// The status file's content, and the one-line summary of a report
// ---------------------------------------------------------------------------

/// The command is a `git ... checkout`: its subcommand is `checkout`.
pub open spec fn is_checkout_call(call: Call) -> bool {
    call.0.len() > 3 && call.0[0] == "git"@ && call.0[3] == "checkout"@
}

/// None of the commands is a `git checkout`.
pub open spec fn no_checkout(calls: Seq<Call>) -> bool {
    forall|i: int| 0 <= i < calls.len() ==> !is_checkout_call(#[trigger] calls[i])
}

proof fn lemma_no_checkout_concat(a: Seq<Call>, b: Seq<Call>)
    requires
        no_checkout(a),
        no_checkout(b),
    ensures
        no_checkout(a + b),
{
    assert forall|i: int| 0 <= i < (a + b).len() implies !is_checkout_call(#[trigger] (a + b)[i]) by {
        if i < a.len() {
            assert((a + b)[i] == a[i]);
        } else {
            assert((a + b)[i] == b[i - a.len()]);
        }
    }
}

/// A `git -C root <sub> ...` command whose subcommand is not `checkout`.
proof fn lemma_git_not_checkout(root: Seq<char>, args: Seq<Seq<char>>)
    requires
        args.len() > 0,
        args[0].len() != 8,
    ensures
        !is_checkout_call((git_cmd(root, args), None::<Seq<char>>)),
{
    reveal_strlit("checkout");
    assert(git_cmd(root, args)[3] == args[0]);
}

proof fn lemma_local_calls_no_checkout(root: Seq<char>, r1: RunResult)
    ensures
        no_checkout(local_calls(root, r1)),
{
    reveal_strlit("branch");
    reveal_strlit("symbolic-ref");
    reveal_strlit("ls-remote");
    reveal_strlit("remote");
    reveal_strlit("rev-parse");
    reveal_strlit("status");
    lemma_git_not_checkout(root, seq!["branch"@, "--show-current"@]);
    lemma_git_not_checkout(root, seq!["symbolic-ref"@, "--short"@, "refs/remotes/origin/HEAD"@]);
    lemma_git_not_checkout(root, seq!["ls-remote"@, "--symref"@, "origin"@, "HEAD"@]);
    lemma_git_not_checkout(root, seq!["remote"@, "get-url"@, "origin"@]);
    lemma_git_not_checkout(root, seq!["rev-parse"@, "--git-dir"@, "--git-common-dir"@]);
    lemma_git_not_checkout(root, seq!["status"@, "--porcelain"@]);
    lemma_git_not_checkout(root, seq!["rev-parse"@, "HEAD"@]);
    let l = local_calls(root, r1);
    assert forall|i: int| 0 <= i < l.len() implies !is_checkout_call(#[trigger] l[i]) by {
        if local_default_from(r1) is None {
            assert(l.len() == 7);
        } else {
            assert(l.len() == 6);
        }
    }
}

proof fn lemma_remote_calls_no_checkout(root: Seq<char>, branch: Seq<char>, remote: Option<RemoteFacts>)
    ensures
        no_checkout(remote_calls(root, branch, remote)),
{
    reveal_strlit("ls-remote");
    reveal_strlit("rev-parse");
    reveal_strlit("gh");
    reveal_strlit("git");
    lemma_git_not_checkout(root, seq!["ls-remote"@, "--symref"@, "origin"@, "HEAD"@, heads_ref(branch)]);
    lemma_git_not_checkout(root, seq!["rev-parse"@, "refs/remotes/origin/"@ + branch]);
    lemma_texts_differ("gh"@, "git"@);
    let c = remote_calls(root, branch, remote);
    assert forall|i: int| 0 <= i < c.len() implies !is_checkout_call(#[trigger] c[i]) by {
        if i == 1 {
            assert(c[i].0[0] == "gh"@);
        }
    }
}

/// The commands of one sweep of a repo. `git checkout` runs at most once,
/// only when no local gate fired, the remote answered, the decision is a
/// checkout (so every safety gate passed) and neither dry-run nor
/// notify-only mode is set; its target is the remote's default branch,
/// never the local `origin/HEAD` guess. When a local gate fires only the
/// local commands run, so the remote is never asked; when the remote is
/// unreachable the probe is the last command.
pub proof fn lemma_sweep_checkout_commands<R: Runner>(
    run: &R,
    root: Seq<char>,
    statuses: Seq<Seq<char>>,
    settings: Settings,
    local: LocalFacts,
    remote: Option<RemoteFacts>,
    error: Option<Seq<char>>,
    lc: Seq<Call>,
    sc: Seq<Call>,
)
    requires
        sweep_inputs(run, root, statuses, settings, local, remote, error, lc, sc),
    ensures
        forall|i: int|
            0 <= i < sweep_calls(root, local, remote, lc, sc).len() && is_checkout_call(
                #[trigger] sweep_calls(root, local, remote, lc, sc)[i],
            ) ==> {
                &&& checkout_decided(local, remote)
                &&& !settings.dry_run
                &&& !settings.notify_only
                &&& !local.dirty && !local.linked_worktree && local.busy_agents == 0
                &&& sweep_calls(root, local, remote, lc, sc)[i] == (
                    checkout_cmd(root, remote->0.remote_default_branch@),
                    None::<Seq<char>>,
                )
            },
        skip_reason(local) is Some ==> exists|r1: RunResult|
            sweep_calls(root, local, remote, lc, sc) == #[trigger] local_calls(root, r1),
        skip_reason(local) is None && remote is None ==> exists|r1: RunResult|
            sweep_calls(root, local, remote, lc, sc) == #[trigger] local_calls(root, r1) + seq![
                (probe_cmd(root, local.branch@), None::<Seq<char>>),
            ],
{
    let r1 = choose|r1: RunResult, r2: RunResult|
        #[trigger] default_branch_outcomes(run, root, r1, r2) && local.default_branch@
            == default_branch_from(r1, r2) && lc == local_calls(root, r1);
    let (r1, r2) = r1;
    assert(lc == local_calls(root, r1));
    lemma_local_calls_no_checkout(root, r1);
    lemma_remote_calls_no_checkout(root, local.branch@, remote);
    let calls = sweep_calls(root, local, remote, lc, sc);
    if checkout_decided(local, remote) {
        lemma_checkout_only_when_safe(local, remote->0);
        let rc = remote_calls(root, local.branch@, remote);
        lemma_no_checkout_concat(lc, rc);
        let head = lc + rc;
        assert(calls == head + sc);
        let target = remote->0.remote_default_branch@;
        assert forall|i: int| 0 <= i < calls.len() && is_checkout_call(#[trigger] calls[i]) implies calls[i]
            == (checkout_cmd(root, target), None::<Seq<char>>) && !settings.dry_run
            && !settings.notify_only by {
            if i < head.len() {
                assert(calls[i] == head[i]);
            } else {
                assert(calls[i] == sc[i - head.len()]);
                if settings.notify_only || settings.dry_run {
                    assert(sc.len() == 0);
                } else {
                    let (c, p) = choose|c: RunResult, p: RunResult|
                        #[trigger] checkout_outcomes(run, root, target, c, p) && error
                            == checkout_error_from(target, c, p) && sc == checkout_calls(
                            root,
                            target,
                            c,
                        );
                    if i - head.len() == 1 {
                        reveal_strlit("pull");
                        lemma_git_not_checkout(root, seq!["pull"@, "--ff-only"@]);
                    }
                }
            }
        }
    } else if skip_reason(local) is None {
        lemma_no_checkout_concat(lc, remote_calls(root, local.branch@, remote));
        if remote is None {
            assert(calls =~= local_calls(root, r1) + seq![(probe_cmd(root, local.branch@), None::<Seq<char>>)]);
        }
    }
}

/// What a sweep of a repo reports, with the commands it ran: a `git
/// checkout` among them means the repo's report is a checkout in a mode
/// that allows switching, and its target is the default branch that the
/// remote probe named.
pub proof fn lemma_sweep_repo_checkout<R: Runner>(
    run: &R,
    root: Seq<char>,
    statuses: Seq<Seq<char>>,
    settings: Settings,
    report: ReportV,
    calls: Seq<Call>,
    i: int,
)
    requires
        sweep_repo_outcome(run, root, statuses, settings, report, calls),
        0 <= i < calls.len(),
        is_checkout_call(calls[i]),
    ensures
        !settings.dry_run,
        !settings.notify_only,
        report.3 == "checkout"@,
        exists|exists_remote: bool, target: Seq<char>|
            #[trigger] probe_outcome(run, root, report.1, Some((exists_remote, target))) && calls[i]
                == (checkout_cmd(root, target), None::<Seq<char>>),
{
    let (local, remote, error, lc, sc) = choose|
        local: LocalFacts,
        remote: Option<RemoteFacts>,
        error: Option<Seq<char>>,
        lc: Seq<Call>,
        sc: Seq<Call>,
    |
        #[trigger] sweep_inputs(run, root, statuses, settings, local, remote, error, lc, sc)
            && report == sweep_report_of(local, remote, settings, error) && calls == sweep_calls(
            root,
            local,
            remote,
            lc,
            sc,
        );
    lemma_sweep_checkout_commands(run, root, statuses, settings, local, remote, error, lc, sc);
    assert(calls[i] == sweep_calls(root, local, remote, lc, sc)[i]);
    let rf = remote->0;
    assert(probe_outcome(run, root, report.1, Some((rf.branch_exists, rf.remote_default_branch@))));
}

/// Two texts differ when their lengths or their first characters do.
pub proof fn lemma_texts_differ(a: Seq<char>, b: Seq<char>)
    requires
        a.len() != b.len() || (a.len() > 0 && b.len() > 0 && a[0] != b[0]),
    ensures
        a != b,
{
}

/// The entry is named `key` and holds the string `value`.
pub open spec fn entry_is_str(e: (String, Json), key: Seq<char>, value: Seq<char>) -> bool {
    &&& e.0@ == key
    &&& e.1 matches Json::Str(s) && s@ == value
}

/// `row` is the status-file row of the report `r`: an object of exactly the
/// six entries `root`, `branch`, `fate`, `action`, `reason`, `checked_out`,
/// in that order, each once.
pub open spec fn is_status_row(row: Json, r: ReportV) -> bool {
    &&& row matches Json::Object(entries) && entries@.len() == 6 && entry_is_str(
        entries@[0],
        "root"@,
        r.0,
    ) && entry_is_str(entries@[1], "branch"@, r.1) && entry_is_str(entries@[2], "fate"@, r.2)
        && entry_is_str(entries@[3], "action"@, r.3) && entry_is_str(entries@[4], "reason"@, r.4)
        && entries@[5].0@ == "checked_out"@ && entries@[5].1 == Json::Bool(r.5)
    &&& json_get_str(row, "root"@) == Some(r.0)
    &&& json_get_str(row, "branch"@) == Some(r.1)
    &&& json_get_str(row, "fate"@) == Some(r.2)
    &&& json_get_str(row, "action"@) == Some(r.3)
    &&& json_get_str(row, "reason"@) == Some(r.4)
    &&& json_get(row, "checked_out"@) == Some(Json::Bool(r.5))
}

/// `status` holds the mode flags and one row per report, in order: an
/// object of exactly the entries `dry_run`, `notify_only` and `reports`.
pub open spec fn is_status(status: Json, reports: Seq<ReportV>, settings: Settings) -> bool {
    &&& status matches Json::Object(entries) && entries@.len() == 3 && entries@[0].0@ == "dry_run"@
        && entries@[0].1 == Json::Bool(settings.dry_run) && entries@[1].0@ == "notify_only"@
        && entries@[1].1 == Json::Bool(settings.notify_only) && entries@[2].0@ == "reports"@
        && entries@[2].1 is Array
    &&& json_get(status, "dry_run"@) == Some(Json::Bool(settings.dry_run))
    &&& json_get(status, "notify_only"@) == Some(Json::Bool(settings.notify_only))
    &&& match json_get(status, "reports"@) {
        Some(Json::Array(rows)) => rows@.len() == reports.len() && forall|i: int|
            0 <= i < reports.len() ==> is_status_row(#[trigger] rows@[i], reports[i]),
        _ => false,
    }
}

fn entry_str(key: &str, value: &str) -> (res: (String, Json))
    ensures
        res.0@ == key@,
        res.1 matches Json::Str(s) && s@ == value@,
{
    (owned(key), Json::Str(owned(value)))
}

/// The status-file row of one report.
pub fn status_row(report: &RepoReport) -> (res: Json)
    ensures
        is_status_row(res, report@),
{
    let mut entries: Vec<(String, Json)> = Vec::new();
    entries.push(entry_str("root", report.root.as_str()));
    entries.push(entry_str("branch", report.branch.as_str()));
    entries.push(entry_str("fate", report.fate));
    entries.push(entry_str("action", report.action));
    entries.push(entry_str("reason", report.reason.as_str()));
    entries.push((owned("checked_out"), Json::Bool(report.checked_out)));
    proof {
        reveal_strlit("root");
        reveal_strlit("branch");
        reveal_strlit("fate");
        reveal_strlit("action");
        reveal_strlit("reason");
        reveal_strlit("checked_out");
        let e = entries@;
        let keys = seq!["root"@, "branch"@, "fate"@, "action"@, "reason"@, "checked_out"@];
        assert forall|a: int, b: int| 0 <= a < b < 6 implies keys[a] != keys[b] by {
            lemma_texts_differ(keys[a], keys[b]);
        }
        assert forall|j: int| 0 <= j < 6 implies lookup(e, keys[j]) == Some(e[j].1) by {
            assert(e[0].0@ == keys[0] && e[1].0@ == keys[1] && e[2].0@ == keys[2] && e[3].0@
                == keys[3] && e[4].0@ == keys[4] && e[5].0@ == keys[5]);
            lemma_lookup_at(e, keys[j], j);
        }
        assert(lookup(e, keys[0]) == Some(e[0].1));
        assert(lookup(e, keys[1]) == Some(e[1].1));
        assert(lookup(e, keys[2]) == Some(e[2].1));
        assert(lookup(e, keys[3]) == Some(e[3].1));
        assert(lookup(e, keys[4]) == Some(e[4].1));
        assert(lookup(e, keys[5]) == Some(e[5].1));
    }
    Json::Object(entries)
}

/// What goes into the status file, but for the time of the sweep: the mode
/// flags and one row per report.
pub fn status_json(reports: &[RepoReport], settings: Settings) -> (res: Json)
    ensures
        is_status(res, report_views(reports@), settings),
{
    let mut rows: Vec<Json> = Vec::new();
    let mut i: usize = 0;
    while i < reports.len()
        invariant
            i <= reports@.len(),
            rows@.len() == i,
            forall|j: int| 0 <= j < i ==> is_status_row(#[trigger] rows@[j], reports@[j]@),
        decreases reports@.len() - i,
    {
        let row = status_row(&reports[i]);
        rows.push(row);
        i += 1;
    }
    let mut entries: Vec<(String, Json)> = Vec::new();
    entries.push((owned("dry_run"), Json::Bool(settings.dry_run)));
    entries.push((owned("notify_only"), Json::Bool(settings.notify_only)));
    entries.push((owned("reports"), Json::Array(rows)));
    proof {
        reveal_strlit("dry_run");
        reveal_strlit("notify_only");
        reveal_strlit("reports");
        let e = entries@;
        lemma_texts_differ("dry_run"@, "notify_only"@);
        lemma_texts_differ("dry_run"@, "reports"@);
        lemma_texts_differ("notify_only"@, "reports"@);
        lemma_lookup_at(e, "dry_run"@, 0);
        lemma_lookup_at(e, "notify_only"@, 1);
        lemma_lookup_at(e, "reports"@, 2);
    }
    Json::Object(entries)
}

/// `action [branch] root (fate): reason`
pub open spec fn report_line_of(r: ReportV) -> Seq<char> {
    r.3 + " ["@ + r.1 + "] "@ + r.0 + " ("@ + r.2 + "): "@ + r.4
}

/// The one-line summary of a report that `once` prints.
pub fn report_line(report: &RepoReport) -> (res: String)
    ensures
        res@ == report_line_of(report@),
{
    let mut line = owned(report.action);
    line.append(" [");
    line.append(report.branch.as_str());
    line.append("] ");
    line.append(report.root.as_str());
    line.append(" (");
    line.append(report.fate);
    line.append("): ");
    line.append(report.reason.as_str());
    line
}

/// A parsed status file holds a status when its value is an object.
pub open spec fn status_of(value: Option<Json>) -> Option<Json> {
    match value {
        Some(Json::Object(entries)) => Some(Json::Object(entries)),
        _ => None,
    }
}

/// The status a status file's text holds: its JSON value when that is an
/// object, else nothing.
pub open spec fn status_of_text(text: Seq<char>) -> Option<Json> {
    status_of(json_text_value(text))
}

/// The status held by a parsed status file, if it holds one.
pub fn status_of_value(value: Option<Json>) -> (res: Option<Json>)
    ensures
        res == status_of(value),
{
    match value {
        Some(Json::Object(entries)) => Some(Json::Object(entries)),
        _ => None,
    }
}

/// The status held by the text of a status file, if it holds one.
pub fn status_from_text(text: &str) -> (res: Option<Json>)
    ensures
        res == status_of_text(text@),
{
    status_of_value(parse_json(text))
}

} // verus!
