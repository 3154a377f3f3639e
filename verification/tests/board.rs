use herdr_branch_cleanup::board::{board_frame, reached_limit, render, shorten};
use herdr_branch_cleanup::json::Json;
use herdr_branch_cleanup::sweep::{status_json, RepoReport, Settings};

fn text(value: &str) -> Json {
    Json::Str(value.to_owned())
}

fn object(entries: Vec<(&str, Json)>) -> Json {
    Json::Object(
        entries
            .into_iter()
            .map(|(key, value)| (key.to_owned(), value))
            .collect(),
    )
}

fn row(root: &str, branch: &str, action: &str, reason: &str) -> Json {
    object(vec![
        ("root", text(root)),
        ("branch", text(branch)),
        ("action", text(action)),
        ("reason", text(reason)),
    ])
}

/// A status written just now; the board shows its age as zero seconds.
fn status_with(reports: Vec<Json>) -> Json {
    object(vec![
        ("updated_epoch", Json::Number("1700000000.5".to_owned())),
        ("reports", Json::Array(reports)),
    ])
}

const JUST_NOW: Option<u64> = Some(0);

#[test]
fn no_status_yet() {
    assert!(render(None, None).contains("no sweep has run yet"));
}

#[test]
fn empty_reports() {
    let status = status_with(vec![]);
    assert!(render(Some(&status), JUST_NOW).contains("no git repos in any pane"));
}

#[test]
fn report_rows_with_glyphs() {
    let status = status_with(vec![
        row("/repo", "feature", "checkout", "branch merged, checked out main"),
        row("/other", "fix", "hold", "dirty"),
        row("/third", "main", "skip", "on default"),
    ]);
    let text = render(Some(&status), JUST_NOW);
    assert!(text.contains(" ✓ /repo  [feature]  branch merged, checked out main"));
    assert!(text.contains(" ⏸ /other  [fix]  dirty"));
    assert!(text.contains(" · /third  [main]  on default"));
}

#[test]
fn unknown_action_gets_question_mark() {
    let status = status_with(vec![row("/repo", "b", "wat", "r")]);
    assert!(render(Some(&status), JUST_NOW).contains(" ? /repo"));
}

#[test]
fn detached_branch_label() {
    let status = status_with(vec![row("/repo", "", "skip", "detached HEAD")]);
    assert!(render(Some(&status), JUST_NOW).contains("[(detached)]"));
}

#[test]
fn mode_line_shows_dry_run_and_notify() {
    let status = object(vec![
        ("dry_run", Json::Bool(true)),
        ("notify_only", Json::Bool(true)),
        ("reports", Json::Array(vec![])),
    ]);
    assert!(render(Some(&status), JUST_NOW).contains(" mode: dry run, notify only"));
}

#[test]
fn mode_line_absent_in_auto_mode() {
    let status = status_with(vec![]);
    assert!(!render(Some(&status), JUST_NOW).contains("mode:"));
}

#[test]
fn age_footer_present() {
    let status = status_with(vec![]);
    assert!(render(Some(&status), JUST_NOW).contains("last sweep 0s ago"));
}

#[test]
fn shorten_keeps_short_paths() {
    assert_eq!(shorten("/repo", 40), "/repo");
}

#[test]
fn shorten_keeps_tail_of_long_paths() {
    let path = "/very/long/path/to/some/deeply/nested/repository/checkout";
    let short = shorten(path, 20);
    assert_eq!(short.chars().count(), 20);
    assert!(short.starts_with('…'));
    assert!(short.ends_with("checkout"));
}

#[test]
fn render_whole_board_exactly() {
    let status = object(vec![
        ("dry_run", Json::Bool(true)),
        ("reports", Json::Array(vec![row("/repo", "feature", "hold", "dirty")])),
    ]);
    assert_eq!(
        render(Some(&status), Some(12)),
        "herdr-branch-cleanup\n\n mode: dry run\n ⏸ /repo  [feature]  dirty\n\n last sweep 12s ago · ctrl+c to close"
    );
    assert_eq!(
        render(None, None),
        "herdr-branch-cleanup\n\n no sweep has run yet"
    );
}

#[test]
fn render_without_age_has_no_footer() {
    let status = status_with(vec![]);
    assert_eq!(
        render(Some(&status), None),
        "herdr-branch-cleanup\n\n no git repos in any pane"
    );
}

#[test]
fn shorten_exact_tail() {
    assert_eq!(shorten("abcdef", 4), "…def");
    assert_eq!(shorten("abcd", 4), "abcd");
    assert_eq!(shorten("", 0), "");
}

#[test]
fn board_frame_clears_screen_first() {
    let frame = board_frame(None, None);
    assert_eq!(frame, "\x1b[2J\x1b[Hherdr-branch-cleanup\n\n no sweep has run yet");
}

#[test]
fn frame_limit() {
    assert!(reached_limit(2, Some(2)));
    assert!(!reached_limit(1, Some(2)));
    assert!(!reached_limit(1000, None));
}

#[test]
fn status_written_by_a_sweep_renders_its_rows() {
    let reports = vec![RepoReport {
        root: "/repo".to_owned(),
        branch: "feature".to_owned(),
        fate: "merged",
        action: "checkout",
        reason: "branch merged, checked out main".to_owned(),
        checked_out: true,
    }];
    let settings = Settings {
        dry_run: false,
        notify_only: true,
    };
    let status = status_json(&reports, settings);
    let text = render(Some(&status), None);
    assert!(text.contains(" mode: notify only"));
    assert!(text.contains(" ✓ /repo  [feature]  branch merged, checked out main"));
}
