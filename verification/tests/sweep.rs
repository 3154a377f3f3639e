use std::cell::RefCell;

use herdr_branch_cleanup::herdrio::Pane;
use herdr_branch_cleanup::json::Json;
use herdr_branch_cleanup::procio::{RunResult, Runner, Session};
use herdr_branch_cleanup::sweep::{
    repos_from_panes, status_from_text, status_json, sweep_once, sweep_repo, Settings,
};

struct FakeRunner {
    responses: Vec<(Vec<String>, RunResult)>,
    calls: RefCell<Vec<(Vec<String>, Option<String>)>>,
}

impl FakeRunner {
    fn new() -> Self {
        FakeRunner {
            responses: Vec::new(),
            calls: RefCell::new(Vec::new()),
        }
    }

    /// Register a response for any command whose joined argv contains every
    /// whitespace-separated needle in `pattern`.
    fn on(mut self, pattern: &str, code: i32, stdout: &str, stderr: &str) -> Self {
        let needles = pattern.split_whitespace().map(str::to_owned).collect();
        self.responses.push((
            needles,
            RunResult {
                code,
                stdout: stdout.to_owned(),
                stderr: stderr.to_owned(),
            },
        ));
        self
    }

    /// Remove the response registered with exactly this pattern.
    #[allow(dead_code)]
    fn drop_response(&mut self, pattern: &str) {
        let target: Vec<String> = pattern.split_whitespace().map(str::to_owned).collect();
        self.responses.retain(|(needles, _)| *needles != target);
    }

    #[allow(dead_code)]
    fn calls(&self) -> Vec<(Vec<String>, Option<String>)> {
        self.calls.borrow().clone()
    }
}

impl Runner for FakeRunner {
    fn run(&self, argv: &[String], cwd: Option<&str>) -> RunResult {
        self.calls
            .borrow_mut()
            .push((argv.to_vec(), cwd.map(|path| path.to_owned())));
        let joined = argv.join(" ");
        for (needles, result) in &self.responses {
            if needles
                .iter()
                .all(|needle| joined.contains(needle.as_str()))
            {
                return result.clone();
            }
        }
        RunResult {
            code: 1,
            stdout: String::new(),
            stderr: format!("no fake response for: {joined}"),
        }
    }
}

fn group<'a>(repos: &'a [(String, Vec<Pane>)], root: &str) -> &'a Vec<Pane> {
    &repos
        .iter()
        .find(|(key, _)| key == root)
        .expect("group for root")
        .1
}

const AUTO: Settings = Settings {
    dry_run: false,
    notify_only: false,
};
const DRY: Settings = Settings {
    dry_run: true,
    notify_only: false,
};
const NOTIFY: Settings = Settings {
    dry_run: false,
    notify_only: true,
};

/// A repo on a clean feature branch whose PR was merged on GitHub.
fn merged_branch_runner() -> FakeRunner {
    FakeRunner::new()
        .on("rev-parse --show-toplevel", 0, "/repo\n", "")
        .on("branch --show-current", 0, "feature\n", "")
        .on("symbolic-ref", 0, "origin/main\n", "")
        .on("remote get-url", 0, "git@github.com:me/repo.git\n", "")
        .on("--git-dir --git-common-dir", 0, ".git\n.git\n", "")
        .on("status --porcelain", 0, "", "")
        .on("rev-parse HEAD", 0, "abc123\n", "")
        .on(
            "ls-remote --symref",
            0,
            "ref: refs/heads/main\tHEAD\nef5b2e9\tHEAD\n",
            "",
        )
        .on("gh pr list", 0, r#"[{"headRefOid":"abc123"}]"#, "")
        .on("refs/remotes/origin/feature", 0, "abc123\n", "")
        .on("checkout main", 0, "", "")
        .on("pull --ff-only", 0, "", "")
}

fn pane(cwd: &str, status: &str, id: &str) -> Pane {
    Pane {
        pane_id: id.to_owned(),
        cwd: cwd.to_owned(),
        agent_status: status.to_owned(),
    }
}

fn called(run: &FakeRunner, needle: &str) -> bool {
    run.calls()
        .iter()
        .any(|(argv, _)| argv.join(" ").contains(needle))
}

#[test]
fn groups_panes_by_repo_root() {
    let run = FakeRunner::new().on("rev-parse --show-toplevel", 0, "/repo\n", "");
    let panes = [
        pane("/repo", "idle", "w1-1"),
        pane("/repo/sub", "idle", "w1-2"),
    ];
    let repos = repos_from_panes(&mut Session::new(&run), &panes);
    assert_eq!(
        repos.iter().map(|(root, _)| root.as_str()).collect::<Vec<_>>(),
        vec!["/repo"]
    );
    assert_eq!(group(&repos, "/repo").len(), 2);
}

#[test]
fn non_repo_panes_dropped() {
    let run = FakeRunner::new().on("rev-parse --show-toplevel", 128, "", "");
    assert!(repos_from_panes(&mut Session::new(&run), &[pane("/tmp", "idle", "w1-1")]).is_empty());
}

#[test]
fn repo_root_resolved_once_per_cwd() {
    let run = FakeRunner::new().on("rev-parse --show-toplevel", 0, "/repo\n", "");
    repos_from_panes(
        &mut Session::new(&run),
        &[pane("/repo", "idle", "a"), pane("/repo", "idle", "b")],
    );
    assert_eq!(run.calls().len(), 1);
}

#[test]
fn checks_out_merged_branch() {
    let run = merged_branch_runner();
    let report = sweep_repo(&mut Session::new(&run), "/repo", &[pane("/repo", "idle", "w1-1")], AUTO);
    assert_eq!(report.action, "checkout");
    assert!(report.checked_out);
    assert!(report.reason.contains("checked out main"));
    assert!(called(&run, "checkout main"));
}

#[test]
fn dry_run_reports_without_acting() {
    let run = merged_branch_runner();
    let report = sweep_repo(&mut Session::new(&run), "/repo", &[pane("/repo", "idle", "w1-1")], DRY);
    assert!(!report.checked_out);
    assert!(report.reason.contains("dry run"));
    assert!(!called(&run, "checkout main"));
}

#[test]
fn notify_only_reports_without_acting() {
    let run = merged_branch_runner();
    let report = sweep_repo(&mut Session::new(&run), "/repo", &[pane("/repo", "idle", "w1-1")], NOTIFY);
    assert!(!report.checked_out);
    assert!(report.reason.contains("notify-only"));
    assert!(!called(&run, "checkout main"));
}

#[test]
fn local_skip_short_circuits_remote_checks() {
    let run = FakeRunner::new()
        .on("branch --show-current", 0, "main\n", "")
        .on("symbolic-ref", 0, "origin/main\n", "")
        .on("remote get-url", 0, "git@github.com:me/repo.git\n", "")
        .on("--git-dir --git-common-dir", 0, ".git\n.git\n", "")
        .on("status --porcelain", 0, "", "")
        .on("rev-parse HEAD", 0, "abc123\n", "");
    let report = sweep_repo(&mut Session::new(&run), "/repo", &[pane("/repo", "idle", "w1-1")], AUTO);
    assert_eq!(report.action, "skip");
    assert_eq!(report.reason, "already on default branch");
    assert!(!called(&run, "ls-remote"));
}

#[test]
fn unreachable_remote_skips() {
    let mut run = merged_branch_runner();
    run.drop_response("ls-remote --symref");
    let run = run.on("ls-remote --symref", 128, "", "");
    let report = sweep_repo(&mut Session::new(&run), "/repo", &[pane("/repo", "idle", "w1-1")], AUTO);
    assert_eq!(report.action, "skip");
    assert_eq!(report.reason, "remote unreachable");
}

#[test]
fn busy_agent_holds() {
    let run = merged_branch_runner();
    let report = sweep_repo(&mut Session::new(&run), "/repo", &[pane("/repo", "working", "w1-1")], AUTO);
    assert_eq!(report.action, "hold");
    assert!(!report.checked_out);
}

#[test]
fn stale_local_origin_head_never_picks_checkout_target() {
    // Regression: clones carried origin/HEAD pointing at a non-default
    // branch, and the sweep checked out that wrong branch. The target
    // must come from the remote probe, not the local symbolic ref.
    let mut run = merged_branch_runner();
    run.drop_response("symbolic-ref");
    run.drop_response("checkout main");
    let run =
        run.on("symbolic-ref", 0, "origin/feature-b\n", "")
            .on("checkout main", 0, "", "");
    let report = sweep_repo(&mut Session::new(&run), "/repo", &[pane("/repo", "idle", "w1-1")], AUTO);
    assert_eq!(report.action, "checkout");
    assert!(report.checked_out);
    assert!(report.reason.contains("checked out main"));
    assert!(called(&run, "checkout main"));
    assert!(!called(&run, "checkout feature-b"));
}

#[test]
fn checkout_failure_reported() {
    let mut run = merged_branch_runner();
    run.drop_response("checkout main");
    let run = run.on("checkout main", 1, "", "conflict");
    let report = sweep_repo(&mut Session::new(&run), "/repo", &[pane("/repo", "idle", "w1-1")], AUTO);
    assert!(!report.checked_out);
    assert!(report.reason.contains("checkout failed"));
}

#[test]
fn sweep_once_writes_status_file() {
    let body = r#"{"id":"x","result":{"panes":[{"pane_id":"w1-1","cwd":"/repo"}]}}"#;
    let run = merged_branch_runner().on("pane list", 0, body, "");
    let reports = sweep_once(&mut Session::new(&run), "herdr", DRY);
    assert_eq!(reports.len(), 1);
    let status = status_json(&reports, DRY);
    assert_eq!(status.get("dry_run"), Some(&Json::Bool(true)));
    let rows = match status.get("reports") {
        Some(Json::Array(rows)) => rows,
        _ => panic!("reports array"),
    };
    assert_eq!(rows[0].get("branch").and_then(|b| b.as_str()), Some("feature"));
}

#[test]
fn sweep_once_with_no_panes_writes_empty_status() {
    let run = FakeRunner::new().on("pane list", 0, r#"{"result":{"panes":[]}}"#, "");
    let reports = sweep_once(&mut Session::new(&run), "herdr", AUTO);
    assert!(reports.is_empty());
    let status = status_json(&reports, AUTO);
    match status.get("reports") {
        Some(Json::Array(rows)) => assert!(rows.is_empty()),
        _ => panic!("reports array"),
    }
}

#[test]
fn read_status_corrupt_file() {
    assert_eq!(status_from_text("not json"), None);
}

#[test]
fn read_status_non_object_payload() {
    assert_eq!(status_from_text("[]"), None);
}
