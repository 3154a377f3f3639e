use herdr_branch_cleanup::policy::{
    branch_fate, busy_agent_count, decide, has_unpushed_work, hold_reason, local_skip_reason,
    ActionKind, Fate, LocalFacts, RemoteFacts,
};

fn local() -> LocalFacts {
    LocalFacts {
        root: "/repo".to_owned(),
        branch: "feature".to_owned(),
        default_branch: "main".to_owned(),
        github_origin: true,
        linked_worktree: false,
        dirty: false,
        tip_sha: "abc123".to_owned(),
        busy_agents: 0,
    }
}

fn remote() -> RemoteFacts {
    RemoteFacts {
        branch_exists: true,
        remote_default_branch: "main".to_owned(),
        merged_pr_head_sha: String::new(),
        last_known_remote_sha: "abc123".to_owned(),
    }
}

#[test]
fn clean_feature_branch_is_not_skipped() {
    assert_eq!(local_skip_reason(&local()), None);
}

#[test]
fn detached_head_skips() {
    let facts = LocalFacts {
        branch: String::new(),
        ..local()
    };
    assert_eq!(local_skip_reason(&facts).as_deref(), Some("detached HEAD"));
}

#[test]
fn unknown_default_branch_skips() {
    let facts = LocalFacts {
        default_branch: String::new(),
        ..local()
    };
    assert_eq!(
        local_skip_reason(&facts).as_deref(),
        Some("default branch unknown")
    );
}

#[test]
fn already_on_default_skips() {
    let facts = LocalFacts {
        branch: "main".to_owned(),
        ..local()
    };
    assert_eq!(
        local_skip_reason(&facts).as_deref(),
        Some("already on default branch")
    );
}

#[test]
fn non_github_origin_skips() {
    let facts = LocalFacts {
        github_origin: false,
        ..local()
    };
    assert_eq!(
        local_skip_reason(&facts).as_deref(),
        Some("origin is not GitHub")
    );
}

#[test]
fn detached_wins_over_missing_default() {
    let facts = LocalFacts {
        branch: String::new(),
        default_branch: String::new(),
        ..local()
    };
    assert_eq!(local_skip_reason(&facts).as_deref(), Some("detached HEAD"));
}

#[test]
fn fate_alive_when_branch_exists_and_no_merged_pr() {
    assert_eq!(branch_fate(&remote()), Fate::Alive);
}

#[test]
fn fate_merged_when_pr_head_known() {
    let facts = RemoteFacts {
        merged_pr_head_sha: "abc123".to_owned(),
        ..remote()
    };
    assert_eq!(branch_fate(&facts), Fate::Merged);
}

#[test]
fn fate_merged_wins_over_deleted() {
    let facts = RemoteFacts {
        branch_exists: false,
        merged_pr_head_sha: "abc123".to_owned(),
        ..remote()
    };
    assert_eq!(branch_fate(&facts), Fate::Merged);
}

#[test]
fn fate_deleted_when_branch_gone() {
    let facts = RemoteFacts {
        branch_exists: false,
        ..remote()
    };
    assert_eq!(branch_fate(&facts), Fate::Deleted);
}

#[test]
fn merged_tip_matching_pr_head_is_pushed() {
    let facts = RemoteFacts {
        merged_pr_head_sha: "abc123".to_owned(),
        ..remote()
    };
    assert!(!has_unpushed_work(&local(), &facts, Fate::Merged));
}

#[test]
fn merged_tip_differing_from_pr_head_is_unpushed() {
    let facts = RemoteFacts {
        merged_pr_head_sha: "other".to_owned(),
        ..remote()
    };
    assert!(has_unpushed_work(&local(), &facts, Fate::Merged));
}

#[test]
fn deleted_tip_matching_last_known_is_pushed() {
    let facts = RemoteFacts {
        branch_exists: false,
        ..remote()
    };
    assert!(!has_unpushed_work(&local(), &facts, Fate::Deleted));
}

#[test]
fn deleted_tip_differing_is_unpushed() {
    let facts = RemoteFacts {
        branch_exists: false,
        last_known_remote_sha: "other".to_owned(),
        ..remote()
    };
    assert!(has_unpushed_work(&local(), &facts, Fate::Deleted));
}

#[test]
fn deleted_with_no_last_known_sha_counts_as_unpushed() {
    let facts = RemoteFacts {
        branch_exists: false,
        last_known_remote_sha: String::new(),
        ..remote()
    };
    assert!(has_unpushed_work(&local(), &facts, Fate::Deleted));
}

fn merged_remote() -> RemoteFacts {
    RemoteFacts {
        merged_pr_head_sha: "abc123".to_owned(),
        ..remote()
    }
}

#[test]
fn no_hold_when_all_gates_pass() {
    assert_eq!(hold_reason(&local(), &merged_remote(), Fate::Merged), None);
}

#[test]
fn linked_worktree_holds() {
    let facts = LocalFacts {
        linked_worktree: true,
        ..local()
    };
    assert_eq!(
        hold_reason(&facts, &merged_remote(), Fate::Merged).as_deref(),
        Some("linked worktree, the branch is its identity")
    );
}

#[test]
fn busy_agents_hold_with_count() {
    let facts = LocalFacts {
        busy_agents: 2,
        ..local()
    };
    assert_eq!(
        hold_reason(&facts, &merged_remote(), Fate::Merged).as_deref(),
        Some("2 agent(s) working in this repo")
    );
}

#[test]
fn dirty_tree_holds() {
    let facts = LocalFacts {
        dirty: true,
        ..local()
    };
    assert_eq!(
        hold_reason(&facts, &merged_remote(), Fate::Merged).as_deref(),
        Some("working tree has uncommitted changes")
    );
}

#[test]
fn unpushed_work_holds() {
    let facts = RemoteFacts {
        merged_pr_head_sha: "other".to_owned(),
        ..remote()
    };
    assert_eq!(
        hold_reason(&local(), &facts, Fate::Merged).as_deref(),
        Some("local tip does not match the last commit GitHub saw")
    );
}

#[test]
fn worktree_gate_checked_before_busy_agents() {
    let facts = LocalFacts {
        linked_worktree: true,
        busy_agents: 1,
        ..local()
    };
    assert_eq!(
        hold_reason(&facts, &merged_remote(), Fate::Merged).as_deref(),
        Some("linked worktree, the branch is its identity")
    );
}

#[test]
fn busy_gate_checked_before_dirty() {
    let facts = LocalFacts {
        busy_agents: 1,
        dirty: true,
        ..local()
    };
    assert_eq!(
        hold_reason(&facts, &merged_remote(), Fate::Merged).as_deref(),
        Some("1 agent(s) working in this repo")
    );
}

#[test]
fn decide_skips_when_local_gate_fires() {
    let facts = LocalFacts {
        branch: "main".to_owned(),
        ..local()
    };
    let decision = decide(&facts, &remote());
    assert_eq!(decision.action, ActionKind::Skip);
    assert_eq!(decision.fate, Fate::Unknown);
    assert_eq!(decision.reason, "already on default branch");
}

#[test]
fn decide_skips_when_branch_alive() {
    let decision = decide(&local(), &remote());
    assert_eq!(decision.action, ActionKind::Skip);
    assert_eq!(decision.fate, Fate::Alive);
    assert_eq!(decision.reason, "branch still exists on the remote");
}

#[test]
fn decide_holds_when_gate_fires() {
    let facts = LocalFacts {
        dirty: true,
        ..local()
    };
    let decision = decide(&facts, &merged_remote());
    assert_eq!(decision.action, ActionKind::Hold);
    assert_eq!(decision.fate, Fate::Merged);
    assert_eq!(decision.reason, "working tree has uncommitted changes");
}

#[test]
fn decide_checks_out_clean_merged_branch() {
    let decision = decide(&local(), &merged_remote());
    assert_eq!(decision.action, ActionKind::Checkout);
    assert_eq!(decision.fate, Fate::Merged);
    assert_eq!(decision.reason, "branch merged");
}

#[test]
fn decide_checks_out_clean_deleted_branch() {
    let facts = RemoteFacts {
        branch_exists: false,
        ..remote()
    };
    let decision = decide(&local(), &facts);
    assert_eq!(decision.action, ActionKind::Checkout);
    assert_eq!(decision.fate, Fate::Deleted);
    assert_eq!(decision.reason, "branch deleted on remote");
}

#[test]
fn merged_fate_reaches_hold_gates() {
    // Tip matches the merged PR head but NOT the stale remote ref, so the
    // unpushed gate only passes when hold_reason receives the MERGED fate.
    let facts = RemoteFacts {
        merged_pr_head_sha: "abc123".to_owned(),
        last_known_remote_sha: "stale".to_owned(),
        ..remote()
    };
    let decision = decide(&local(), &facts);
    assert_eq!(decision.action, ActionKind::Checkout);
    assert_eq!(decision.fate, Fate::Merged);
}

#[test]
fn busy_agent_count_counts_working_and_blocked_only() {
    let statuses = ["working", "blocked", "idle", "done", "unknown"];
    assert_eq!(busy_agent_count(&statuses), 2);
}

#[test]
fn busy_agent_count_empty() {
    assert_eq!(busy_agent_count::<&str>(&[]), 0);
}

#[test]
fn busy_agent_count_all_idle() {
    assert_eq!(busy_agent_count(&["idle", "done"]), 0);
}

#[test]
fn fate_and_action_names_are_stable() {
    assert_eq!(Fate::Unknown.as_str(), "unknown");
    assert_eq!(Fate::Alive.as_str(), "alive");
    assert_eq!(Fate::Merged.as_str(), "merged");
    assert_eq!(Fate::Deleted.as_str(), "deleted");
    assert_eq!(ActionKind::Checkout.as_str(), "checkout");
    assert_eq!(ActionKind::Hold.as_str(), "hold");
    assert_eq!(ActionKind::Skip.as_str(), "skip");
}

#[test]
fn local_skip_does_not_depend_on_remote_facts() {
    let detached = LocalFacts {
        branch: String::new(),
        ..local()
    };
    let gone = RemoteFacts {
        branch_exists: false,
        merged_pr_head_sha: "abc123".to_owned(),
        ..remote()
    };
    assert_eq!(decide(&detached, &remote()), decide(&detached, &gone));
    assert_eq!(decide(&detached, &gone).action, ActionKind::Skip);
    assert_eq!(decide(&detached, &gone).fate, Fate::Unknown);
}

#[test]
fn checkout_only_when_every_gate_passes() {
    let merged = RemoteFacts {
        branch_exists: false,
        merged_pr_head_sha: "abc123".to_owned(),
        ..remote()
    };
    assert_eq!(decide(&local(), &merged).action, ActionKind::Checkout);
    let variants = [
        LocalFacts { linked_worktree: true, ..local() },
        LocalFacts { busy_agents: 2, ..local() },
        LocalFacts { dirty: true, ..local() },
        LocalFacts { tip_sha: "other".to_owned(), ..local() },
        LocalFacts { github_origin: false, ..local() },
        LocalFacts { branch: "main".to_owned(), ..local() },
    ];
    for facts in variants {
        assert_ne!(decide(&facts, &merged).action, ActionKind::Checkout);
    }
}
