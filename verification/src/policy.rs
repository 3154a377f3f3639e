//! Pure decision logic: which repos get switched back to the default branch.
//!
//! This module holds no IO. Facts come in, a decision comes out, and every
//! safety gate lives here, stated as a spec function and proved against it.

use vstd::prelude::*;
use vstd::string::*;

use crate::text::{concat2, decimal, decimal_string, owned, same_text};

verus! {

/// What happened to the branch on the GitHub remote.
#[derive(Debug, Clone, Copy, PartialEq, Eq, Structural)]
pub enum Fate {
    Unknown,
    Alive,
    Merged,
    Deleted,
}

/// What the sweeper should do with a repo this cycle.
#[derive(Debug, Clone, Copy, PartialEq, Eq, Structural)]
pub enum ActionKind {
    Checkout,
    Hold,
    Skip,
}

pub open spec fn fate_name(fate: Fate) -> Seq<char> {
    match fate {
        Fate::Unknown => "unknown"@,
        Fate::Alive => "alive"@,
        Fate::Merged => "merged"@,
        Fate::Deleted => "deleted"@,
    }
}

pub open spec fn action_name(action: ActionKind) -> Seq<char> {
    match action {
        ActionKind::Checkout => "checkout"@,
        ActionKind::Hold => "hold"@,
        ActionKind::Skip => "skip"@,
    }
}

impl Fate {
    /// The stable name of the fate, as it appears on the status board.
    pub fn as_str(self) -> (res: &'static str)
        ensures
            res@ == fate_name(self),
    {
        match self {
            Fate::Unknown => "unknown",
            Fate::Alive => "alive",
            Fate::Merged => "merged",
            Fate::Deleted => "deleted",
        }
    }
}

impl ActionKind {
    /// The stable name of the action, as it appears on the status board.
    pub fn as_str(self) -> (res: &'static str)
        ensures
            res@ == action_name(self),
    {
        match self {
            ActionKind::Checkout => "checkout",
            ActionKind::Hold => "hold",
            ActionKind::Skip => "skip",
        }
    }
}

/// Facts readable from the local repo and the herdr session alone.
#[derive(Debug, Clone, PartialEq, Eq)]
pub struct LocalFacts {
    pub root: String,
    pub branch: String,
    pub default_branch: String,
    pub github_origin: bool,
    pub linked_worktree: bool,
    pub dirty: bool,
    pub tip_sha: String,
    pub busy_agents: usize,
}

/// Facts that required talking to GitHub.
///
/// `remote_default_branch` is the remote's authoritative default branch, the
/// only checkout target a sweep ever uses.
#[derive(Debug, Clone, PartialEq, Eq)]
pub struct RemoteFacts {
    pub branch_exists: bool,
    pub remote_default_branch: String,
    pub merged_pr_head_sha: String,
    pub last_known_remote_sha: String,
}

#[derive(Debug, Clone, PartialEq, Eq)]
pub struct Decision {
    pub action: ActionKind,
    pub fate: Fate,
    pub reason: String,
}

impl View for Decision {
    type V = (ActionKind, Fate, Seq<char>);

    open spec fn view(&self) -> (ActionKind, Fate, Seq<char>) {
        (self.action, self.fate, self.reason@)
    }
}

/// The view of an optional string.
pub open spec fn opt_view(o: Option<String>) -> Option<Seq<char>> {
    match o {
        Some(s) => Some(s@),
        None => None,
    }
}

/// Reasons to leave a repo alone without ever asking the remote.
pub open spec fn skip_reason(local: LocalFacts) -> Option<Seq<char>> {
    if local.branch@.len() == 0 {
        Some("detached HEAD"@)
    } else if local.default_branch@.len() == 0 {
        Some("default branch unknown"@)
    } else if local.branch@ == local.default_branch@ {
        Some("already on default branch"@)
    } else if !local.github_origin {
        Some("origin is not GitHub"@)
    } else {
        None
    }
}

/// A merged pull request wins over a deleted branch.
pub open spec fn fate_of(remote: RemoteFacts) -> Fate {
    if remote.merged_pr_head_sha@.len() != 0 {
        Fate::Merged
    } else if !remote.branch_exists {
        Fate::Deleted
    } else {
        Fate::Alive
    }
}

/// The local tip differs from the last commit GitHub is known to have seen.
pub open spec fn unpushed(local: LocalFacts, remote: RemoteFacts, fate: Fate) -> bool {
    if fate == Fate::Merged {
        local.tip_sha@ != remote.merged_pr_head_sha@
    } else {
        remote.last_known_remote_sha@.len() == 0 || local.tip_sha@
            != remote.last_known_remote_sha@
    }
}

pub open spec fn busy_message(busy: nat) -> Seq<char> {
    decimal(busy) + " agent(s) working in this repo"@
}

/// Safety gates: the branch is gone, but switching now would be unsafe.
pub open spec fn hold_reason_of(local: LocalFacts, remote: RemoteFacts, fate: Fate) -> Option<
    Seq<char>,
> {
    if local.linked_worktree {
        Some("linked worktree, the branch is its identity"@)
    } else if local.busy_agents > 0 {
        Some(busy_message(local.busy_agents as nat))
    } else if local.dirty {
        Some("working tree has uncommitted changes"@)
    } else if unpushed(local, remote, fate) {
        Some("local tip does not match the last commit GitHub saw"@)
    } else {
        None
    }
}

/// The decision for one repo: the action, the fate and the reason.
pub open spec fn decision_of(local: LocalFacts, remote: RemoteFacts) -> (
    ActionKind,
    Fate,
    Seq<char>,
) {
    match skip_reason(local) {
        Some(skip) => (ActionKind::Skip, Fate::Unknown, skip),
        None => {
            let fate = fate_of(remote);
            if fate == Fate::Alive {
                (ActionKind::Skip, fate, "branch still exists on the remote"@)
            } else {
                match hold_reason_of(local, remote, fate) {
                    Some(hold) => (ActionKind::Hold, fate, hold),
                    None => if fate == Fate::Merged {
                        (ActionKind::Checkout, fate, "branch merged"@)
                    } else {
                        (ActionKind::Checkout, fate, "branch deleted on remote"@)
                    },
                }
            }
        },
    }
}

pub open spec fn is_busy_status(status: Seq<char>) -> bool {
    status == "working"@ || status == "blocked"@
}

/// How many of the statuses are `working` or `blocked`.
pub open spec fn busy_count(statuses: Seq<Seq<char>>) -> nat
    decreases statuses.len(),
{
    if statuses.len() == 0 {
        0
    } else {
        busy_count(statuses.drop_last()) + if is_busy_status(statuses.last()) {
            1nat
        } else {
            0nat
        }
    }
}

/// A value that carries an agent status as text.
pub trait AgentStatus {
    spec fn status_view(&self) -> Seq<char>;

    fn status_str(&self) -> (res: &str)
        ensures
            res@ == self.status_view(),
    ;
}

impl<'a> AgentStatus for &'a str {
    open spec fn status_view(&self) -> Seq<char> {
        (**self)@
    }

    fn status_str(&self) -> (res: &str) {
        *self
    }
}

impl AgentStatus for String {
    open spec fn status_view(&self) -> Seq<char> {
        self@
    }

    fn status_str(&self) -> (res: &str) {
        self.as_str()
    }
}

pub open spec fn status_views<S: AgentStatus>(statuses: Seq<S>) -> Seq<Seq<char>> {
    statuses.map_values(|s: S| s.status_view())
}

/// Reasons to leave a repo alone without ever asking the remote.
pub fn local_skip_reason(local: &LocalFacts) -> (res: Option<String>)
    ensures
        opt_view(res) == skip_reason(*local),
{
    if local.branch.as_str().is_empty() {
        return Some(owned("detached HEAD"));
    }
    if local.default_branch.as_str().is_empty() {
        return Some(owned("default branch unknown"));
    }
    if local.branch == local.default_branch {
        return Some(owned("already on default branch"));
    }
    if !local.github_origin {
        return Some(owned("origin is not GitHub"));
    }
    None
}

/// What happened to the branch on the remote.
pub fn branch_fate(remote: &RemoteFacts) -> (res: Fate)
    ensures
        res == fate_of(*remote),
{
    if !remote.merged_pr_head_sha.as_str().is_empty() {
        return Fate::Merged;
    }
    if !remote.branch_exists {
        return Fate::Deleted;
    }
    Fate::Alive
}

/// True when the local tip may hold commits GitHub never saw.
///
/// A squash merge rewrites history, so `git branch --merged` lies; the
/// reliable check is whether the local tip is exactly the commit the remote
/// last knew about (the merged PR head, or the last fetched remote ref).
pub fn has_unpushed_work(local: &LocalFacts, remote: &RemoteFacts, fate: Fate) -> (res: bool)
    ensures
        res == unpushed(*local, *remote, fate),
{
    if fate == Fate::Merged {
        return local.tip_sha != remote.merged_pr_head_sha;
    }
    remote.last_known_remote_sha.as_str().is_empty() || local.tip_sha
        != remote.last_known_remote_sha
}

/// Safety gates: the branch is gone, but switching now would be unsafe.
pub fn hold_reason(local: &LocalFacts, remote: &RemoteFacts, fate: Fate) -> (res: Option<String>)
    ensures
        opt_view(res) == hold_reason_of(*local, *remote, fate),
{
    if local.linked_worktree {
        return Some(owned("linked worktree, the branch is its identity"));
    }
    if local.busy_agents > 0 {
        let count = decimal_string(local.busy_agents as u64);
        return Some(concat2(count.as_str(), " agent(s) working in this repo"));
    }
    if local.dirty {
        return Some(owned("working tree has uncommitted changes"));
    }
    if has_unpushed_work(local, remote, fate) {
        return Some(owned("local tip does not match the last commit GitHub saw"));
    }
    None
}

/// The decision for one repo.
pub fn decide(local: &LocalFacts, remote: &RemoteFacts) -> (res: Decision)
    ensures
        res@ == decision_of(*local, *remote),
{
    if let Some(skip) = local_skip_reason(local) {
        return Decision { action: ActionKind::Skip, fate: Fate::Unknown, reason: skip };
    }
    let fate = branch_fate(remote);
    if fate == Fate::Alive {
        return Decision {
            action: ActionKind::Skip,
            fate,
            reason: owned("branch still exists on the remote"),
        };
    }
    if let Some(hold) = hold_reason(local, remote, fate) {
        return Decision { action: ActionKind::Hold, fate, reason: hold };
    }
    let reason = if fate == Fate::Merged {
        owned("branch merged")
    } else {
        owned("branch deleted on remote")
    };
    Decision { action: ActionKind::Checkout, fate, reason }
}

/// How many agents are `working` or `blocked`.
pub fn busy_agent_count<S: AgentStatus>(agent_statuses: &[S]) -> (res: usize)
    ensures
        res == busy_count(status_views(agent_statuses@)),
{
    let n = agent_statuses.len();
    let mut count: usize = 0;
    let mut i: usize = 0;
    while i < n
        invariant
            n == agent_statuses@.len(),
            i <= n,
            count <= i,
            count == busy_count(status_views(agent_statuses@.take(i as int))),
        decreases n - i,
    {
        let status = agent_statuses[i].status_str();
        let busy = same_text(status, "working") || same_text(status, "blocked");
        proof {
            let before = status_views(agent_statuses@.take(i as int));
            let after = status_views(agent_statuses@.take(i + 1));
            assert(after.drop_last() =~= before);
            assert(after.last() == agent_statuses@[i as int].status_view());
        }
        if busy {
            count += 1;
        }
        i += 1;
    }
    assert(agent_statuses@.take(n as int) =~= agent_statuses@);
    count
}

// ---------------------------------------------------------------------------
// Laws of the decision
// ---------------------------------------------------------------------------

/// A checkout is decided only when every safety gate passes: the branch is
/// a named, non-default branch of a GitHub clone, it is gone on the remote
/// (merged or deleted), the checkout is not a linked worktree, no agent is
/// working or blocked in it, the tree is clean, and the local tip is exactly
/// the commit GitHub last saw.
pub proof fn lemma_checkout_only_when_safe(local: LocalFacts, remote: RemoteFacts)
    requires
        decision_of(local, remote).0 == ActionKind::Checkout,
    ensures
        local.branch@.len() != 0,
        local.default_branch@.len() != 0,
        local.branch@ != local.default_branch@,
        local.github_origin,
        !local.linked_worktree,
        local.busy_agents == 0,
        !local.dirty,
        local.tip_sha@.len() != 0,
        fate_of(remote) == Fate::Merged || fate_of(remote) == Fate::Deleted,
        decision_of(local, remote).1 == fate_of(remote),
        fate_of(remote) == Fate::Merged ==> local.tip_sha@ == remote.merged_pr_head_sha@,
        fate_of(remote) == Fate::Deleted ==> !remote.branch_exists && local.tip_sha@
            == remote.last_known_remote_sha@,
{
}

/// A repo is skipped exactly when a local gate fires or the branch still
/// exists on the remote; the fate is `Unknown` exactly when a local gate
/// fires, and otherwise it is what the remote facts say.
pub proof fn lemma_skip_exactly_when(local: LocalFacts, remote: RemoteFacts)
    ensures
        decision_of(local, remote).0 == ActionKind::Skip <==> (skip_reason(local) is Some
            || fate_of(remote) == Fate::Alive),
        decision_of(local, remote).1 == Fate::Unknown <==> skip_reason(local) is Some,
        skip_reason(local) is None ==> decision_of(local, remote).1 == fate_of(remote),
{
}

/// A repo is held exactly when the branch is gone but a safety gate fires,
/// and the reason given is the first gate that fires.
pub proof fn lemma_hold_exactly_when(local: LocalFacts, remote: RemoteFacts)
    ensures
        decision_of(local, remote).0 == ActionKind::Hold <==> (skip_reason(local) is None
            && fate_of(remote) != Fate::Alive && hold_reason_of(local, remote, fate_of(remote))
            is Some),
        decision_of(local, remote).0 == ActionKind::Hold ==> Some(decision_of(local, remote).2)
            == hold_reason_of(local, remote, fate_of(remote)),
{
}

/// The remote is never consulted for its facts when a local gate fires: the
/// decision does not depend on the remote facts then.
pub proof fn lemma_local_skip_ignores_remote(
    local: LocalFacts,
    remote1: RemoteFacts,
    remote2: RemoteFacts,
)
    requires
        skip_reason(local) is Some,
    ensures
        decision_of(local, remote1) == decision_of(local, remote2),
{
}

/// The busy count of one status: 1 exactly when it is `working` or
/// `blocked`.
pub proof fn lemma_busy_count_single(status: Seq<char>)
    ensures
        busy_count(seq![status]) == (if status == "working"@ || status == "blocked"@ {
            1nat
        } else {
            0nat
        }),
{
    let one = seq![status];
    assert(one.drop_last() =~= Seq::<Seq<char>>::empty());
    assert(one.last() == status);
    assert(busy_count(Seq::<Seq<char>>::empty()) == 0);
    assert(busy_count(one) == busy_count(one.drop_last()) + if is_busy_status(one.last()) {
        1nat
    } else {
        0nat
    });
}

/// Busy agents are counted wherever they stand: the count of two lists
/// one after the other is the sum of their counts.
pub proof fn lemma_busy_count_concat(a: Seq<Seq<char>>, b: Seq<Seq<char>>)
    ensures
        busy_count(a + b) == busy_count(a) + busy_count(b),
    decreases b.len(),
{
    if b.len() == 0 {
        assert(a + b =~= a);
    } else {
        lemma_busy_count_concat(a, b.drop_last());
        assert((a + b).drop_last() =~= a + b.drop_last());
        assert((a + b).last() == b.last());
    }
}

/// The busy count never exceeds the number of statuses.
pub proof fn lemma_busy_count_bound(statuses: Seq<Seq<char>>)
    ensures
        busy_count(statuses) <= statuses.len(),
    decreases statuses.len(),
{
    if statuses.len() > 0 {
        lemma_busy_count_bound(statuses.drop_last());
    }
}

} // verus!
