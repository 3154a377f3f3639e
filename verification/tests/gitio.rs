use std::cell::RefCell;

use herdr_branch_cleanup::gitio::{
    checkout_default, current_branch, default_branch, dirty, github_origin,
    last_known_remote_sha, linked_worktree, merged_pr_head_sha, remote_probe, repo_root,
    tip_sha, RemoteProbe,
};
use herdr_branch_cleanup::procio::{RunResult, Runner, Session};

struct FakeRunner {
    responses: Vec<(Vec<String>, RunResult)>,
    calls: RefCell<Vec<(Vec<String>, Option<String>)>>,
}

impl FakeRunner {
    fn new() -> Self {
        FakeRunner {
            responses: Vec::new(),
            calls: RefCell::new(Vec::new()),
        }
    }

    /// Register a response for any command whose joined argv contains every
    /// whitespace-separated needle in `pattern`.
    fn on(mut self, pattern: &str, code: i32, stdout: &str, stderr: &str) -> Self {
        let needles = pattern.split_whitespace().map(str::to_owned).collect();
        self.responses.push((
            needles,
            RunResult {
                code,
                stdout: stdout.to_owned(),
                stderr: stderr.to_owned(),
            },
        ));
        self
    }

    /// Remove the response registered with exactly this pattern.
    #[allow(dead_code)]
    fn drop_response(&mut self, pattern: &str) {
        let target: Vec<String> = pattern.split_whitespace().map(str::to_owned).collect();
        self.responses.retain(|(needles, _)| *needles != target);
    }

    #[allow(dead_code)]
    fn calls(&self) -> Vec<(Vec<String>, Option<String>)> {
        self.calls.borrow().clone()
    }
}

impl Runner for FakeRunner {
    fn run(&self, argv: &[String], cwd: Option<&str>) -> RunResult {
        self.calls
            .borrow_mut()
            .push((argv.to_vec(), cwd.map(|path| path.to_owned())));
        let joined = argv.join(" ");
        for (needles, result) in &self.responses {
            if needles
                .iter()
                .all(|needle| joined.contains(needle.as_str()))
            {
                return result.clone();
            }
        }
        RunResult {
            code: 1,
            stdout: String::new(),
            stderr: format!("no fake response for: {joined}"),
        }
    }
}

#[test]
fn repo_root_returns_toplevel() {
    let run = FakeRunner::new().on("rev-parse --show-toplevel", 0, "/repo\n", "");
    assert_eq!(repo_root(&mut Session::new(&run), "/repo/sub").as_deref(), Some("/repo"));
}

#[test]
fn repo_root_none_outside_a_repo() {
    let run = FakeRunner::new().on("rev-parse --show-toplevel", 128, "", "");
    assert_eq!(repo_root(&mut Session::new(&run), "/tmp"), None);
}

#[test]
fn current_branch_name() {
    let run = FakeRunner::new().on("branch --show-current", 0, "feature\n", "");
    assert_eq!(current_branch(&mut Session::new(&run), "/repo"), "feature");
}

#[test]
fn current_branch_empty_when_detached() {
    let run = FakeRunner::new().on("branch --show-current", 0, "\n", "");
    assert_eq!(current_branch(&mut Session::new(&run), "/repo"), "");
}

#[test]
fn current_branch_empty_on_error() {
    let run = FakeRunner::new().on("branch --show-current", 128, "", "");
    assert_eq!(current_branch(&mut Session::new(&run), "/repo"), "");
}

#[test]
fn default_branch_from_local_symbolic_ref() {
    let run = FakeRunner::new().on("symbolic-ref", 0, "origin/main\n", "");
    assert_eq!(default_branch(&mut Session::new(&run), "/repo"), "main");
}

#[test]
fn default_branch_falls_back_to_remote_symref() {
    let run = FakeRunner::new().on("symbolic-ref", 128, "", "").on(
        "ls-remote --symref",
        0,
        "ref: refs/heads/develop\tHEAD\nabc123\tHEAD\n",
        "",
    );
    assert_eq!(default_branch(&mut Session::new(&run), "/repo"), "develop");
}

#[test]
fn default_branch_empty_when_remote_unreachable() {
    let run = FakeRunner::new()
        .on("symbolic-ref", 128, "", "")
        .on("ls-remote", 128, "", "");
    assert_eq!(default_branch(&mut Session::new(&run), "/repo"), "");
}

#[test]
fn default_branch_empty_when_symref_output_malformed() {
    let run = FakeRunner::new().on("symbolic-ref", 128, "", "").on(
        "ls-remote --symref",
        0,
        "abc123\tHEAD\n",
        "",
    );
    assert_eq!(default_branch(&mut Session::new(&run), "/repo"), "");
}

#[test]
fn github_origin_true_for_github_url() {
    let run = FakeRunner::new().on("remote get-url", 0, "git@github.com:me/repo.git\n", "");
    assert!(github_origin(&mut Session::new(&run), "/repo"));
}

#[test]
fn github_origin_false_for_other_host() {
    let run = FakeRunner::new().on("remote get-url", 0, "https://gitlab.com/me/repo.git\n", "");
    assert!(!github_origin(&mut Session::new(&run), "/repo"));
}

#[test]
fn github_origin_false_without_origin() {
    let run = FakeRunner::new().on("remote get-url", 2, "", "");
    assert!(!github_origin(&mut Session::new(&run), "/repo"));
}

#[test]
fn linked_worktree_false_for_main_checkout() {
    let run = FakeRunner::new().on("--git-dir --git-common-dir", 0, ".git\n.git\n", "");
    assert!(!linked_worktree(&mut Session::new(&run), "/repo"));
}

#[test]
fn linked_worktree_true_when_dirs_differ() {
    let run = FakeRunner::new().on(
        "--git-dir --git-common-dir",
        0,
        "/repo/.git/worktrees/task\n/repo/.git\n",
        "",
    );
    assert!(linked_worktree(&mut Session::new(&run), "/wt"));
}

#[test]
fn linked_worktree_error_treated_as_not_linked() {
    let run = FakeRunner::new().on("--git-dir --git-common-dir", 128, "", "");
    assert!(!linked_worktree(&mut Session::new(&run), "/repo"));
}

#[test]
fn dirty_false_when_clean() {
    let run = FakeRunner::new().on("status --porcelain", 0, "", "");
    assert!(!dirty(&mut Session::new(&run), "/repo"));
}

#[test]
fn dirty_true_with_changes() {
    let run = FakeRunner::new().on("status --porcelain", 0, " M file.rs\n", "");
    assert!(dirty(&mut Session::new(&run), "/repo"));
}

#[test]
fn dirty_true_on_error() {
    let run = FakeRunner::new().on("status --porcelain", 128, "", "");
    assert!(dirty(&mut Session::new(&run), "/repo"));
}

#[test]
fn tip_sha_returned() {
    let run = FakeRunner::new().on("rev-parse HEAD", 0, "abc123\n", "");
    assert_eq!(tip_sha(&mut Session::new(&run), "/repo"), "abc123");
}

#[test]
fn tip_sha_empty_on_error() {
    let run = FakeRunner::new().on("rev-parse HEAD", 128, "", "");
    assert_eq!(tip_sha(&mut Session::new(&run), "/repo"), "");
}

#[test]
fn last_known_remote_sha_returned() {
    let run = FakeRunner::new().on("refs/remotes/origin/feature", 0, "def456\n", "");
    assert_eq!(last_known_remote_sha(&mut Session::new(&run), "/repo", "feature"), "def456");
}

#[test]
fn last_known_remote_sha_empty_when_missing() {
    let run = FakeRunner::new().on("refs/remotes/origin/feature", 128, "", "");
    assert_eq!(last_known_remote_sha(&mut Session::new(&run), "/repo", "feature"), "");
}

#[test]
fn remote_probe_branch_exists_with_default() {
    let output = "ref: refs/heads/main\tHEAD\nabc\tHEAD\ndef\trefs/heads/feature\n";
    let run = FakeRunner::new().on("ls-remote --symref origin HEAD", 0, output, "");
    assert_eq!(
        remote_probe(&mut Session::new(&run), "/repo", "feature"),
        Some(RemoteProbe {
            branch_exists: true,
            default_branch: "main".to_owned(),
        })
    );
}

#[test]
fn remote_probe_branch_deleted() {
    let output = "ref: refs/heads/main\tHEAD\nabc\tHEAD\n";
    let run = FakeRunner::new().on("ls-remote --symref origin HEAD", 0, output, "");
    assert_eq!(
        remote_probe(&mut Session::new(&run), "/repo", "feature"),
        Some(RemoteProbe {
            branch_exists: false,
            default_branch: "main".to_owned(),
        })
    );
}

#[test]
fn remote_probe_none_when_unreachable() {
    let run = FakeRunner::new().on("ls-remote --symref origin HEAD", 128, "", "");
    assert_eq!(remote_probe(&mut Session::new(&run), "/repo", "feature"), None);
}

#[test]
fn remote_probe_missing_symref_yields_empty_default() {
    let output = "abc\tHEAD\ndef\trefs/heads/feature\n";
    let run = FakeRunner::new().on("ls-remote --symref origin HEAD", 0, output, "");
    assert_eq!(
        remote_probe(&mut Session::new(&run), "/repo", "feature"),
        Some(RemoteProbe {
            branch_exists: true,
            default_branch: String::new(),
        })
    );
}

#[test]
fn remote_probe_does_not_confuse_similarly_named_branch() {
    // refs/heads/feature-x must not count as refs/heads/feature.
    let output = "ref: refs/heads/main\tHEAD\nabc\tHEAD\ndef\trefs/heads/feature-x\n";
    let run = FakeRunner::new().on("ls-remote --symref origin HEAD", 0, output, "");
    assert_eq!(
        remote_probe(&mut Session::new(&run), "/repo", "feature").map(|probe| probe.branch_exists),
        Some(false)
    );
}

#[test]
fn merged_pr_head_found() {
    let run = FakeRunner::new().on("gh pr list", 0, r#"[{"headRefOid":"abc123"}]"#, "");
    assert_eq!(merged_pr_head_sha(&mut Session::new(&run), "/repo", "feature"), "abc123");
}

#[test]
fn merged_pr_head_empty_without_pr() {
    let run = FakeRunner::new().on("gh pr list", 0, "[]", "");
    assert_eq!(merged_pr_head_sha(&mut Session::new(&run), "/repo", "feature"), "");
}

#[test]
fn merged_pr_head_empty_on_gh_failure() {
    let run = FakeRunner::new().on("gh pr list", 4, "", "");
    assert_eq!(merged_pr_head_sha(&mut Session::new(&run), "/repo", "feature"), "");
}

#[test]
fn merged_pr_head_empty_on_invalid_json() {
    let run = FakeRunner::new().on("gh pr list", 0, "not json", "");
    assert_eq!(merged_pr_head_sha(&mut Session::new(&run), "/repo", "feature"), "");
}

#[test]
fn merged_pr_head_empty_on_unexpected_shape() {
    let run = FakeRunner::new().on("gh pr list", 0, r#"[{"headRefOid":7}]"#, "");
    assert_eq!(merged_pr_head_sha(&mut Session::new(&run), "/repo", "feature"), "");
}

#[test]
fn merged_pr_query_runs_in_repo_cwd() {
    let run = FakeRunner::new().on("gh pr list", 0, "[]", "");
    merged_pr_head_sha(&mut Session::new(&run), "/repo", "feature");
    assert_eq!(run.calls()[0].1.as_deref(), Some("/repo"));
}

#[test]
fn checkout_default_success() {
    let run = FakeRunner::new()
        .on("checkout main", 0, "", "")
        .on("pull --ff-only", 0, "", "");
    assert_eq!(checkout_default(&mut Session::new(&run), "/repo", "main"), None);
}

#[test]
fn checkout_default_reports_checkout_failure() {
    let run = FakeRunner::new().on("checkout main", 1, "", "conflict");
    assert_eq!(
        checkout_default(&mut Session::new(&run), "/repo", "main").as_deref(),
        Some("checkout failed: conflict")
    );
}

#[test]
fn checkout_default_reports_pull_failure() {
    let run = FakeRunner::new().on("checkout main", 0, "", "").on(
        "pull --ff-only",
        1,
        "",
        "diverged",
    );
    assert_eq!(
        checkout_default(&mut Session::new(&run), "/repo", "main").as_deref(),
        Some("checked out main, but pull failed: diverged")
    );
}

#[test]
fn remote_probe_requires_exact_ref_field() {
    // A branch whose name ends with `refs/heads/feature` is another branch.
    let output = "ref: refs/heads/main\tHEAD\ndef\trefs/heads/x/refs/heads/feature\n";
    let run = FakeRunner::new().on("ls-remote --symref origin HEAD", 0, output, "");
    assert_eq!(
        remote_probe(&mut Session::new(&run), "/repo", "feature"),
        Some(RemoteProbe {
            branch_exists: false,
            default_branch: "main".to_owned(),
        })
    );
    let untabbed = FakeRunner::new().on("ls-remote --symref origin HEAD", 0, "refs/heads/feature\n", "");
    assert_eq!(
        remote_probe(&mut Session::new(&untabbed), "/repo", "feature").map(|probe| probe.branch_exists),
        Some(false)
    );
    let exact = FakeRunner::new().on("ls-remote --symref origin HEAD", 0, "def\trefs/heads/feature\r\n", "");
    assert_eq!(
        remote_probe(&mut Session::new(&exact), "/repo", "feature").map(|probe| probe.branch_exists),
        Some(true)
    );
}

#[test]
fn failed_checkout_is_not_followed_by_pull() {
    let run = FakeRunner::new()
        .on("checkout main", 1, "", "conflict")
        .on("pull --ff-only", 0, "", "");
    checkout_default(&mut Session::new(&run), "/repo", "main");
    let calls = run.calls();
    assert_eq!(calls.len(), 1);
    assert_eq!(calls[0].0, vec!["git", "-C", "/repo", "checkout", "main"]);
}

#[test]
fn local_origin_head_guess_spares_the_remote() {
    let run = FakeRunner::new()
        .on("symbolic-ref", 0, "origin/main\n", "")
        .on("ls-remote --symref origin HEAD", 0, "ref: refs/heads/other\tHEAD\n", "");
    assert_eq!(default_branch(&mut Session::new(&run), "/repo"), "main");
    assert_eq!(run.calls().len(), 1);
}
