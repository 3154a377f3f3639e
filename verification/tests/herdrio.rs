use std::cell::RefCell;

use herdr_branch_cleanup::herdrio::{list_panes, Pane};
use herdr_branch_cleanup::procio::{RunResult, Runner, Session};

struct FakeRunner {
    responses: Vec<(Vec<String>, RunResult)>,
    calls: RefCell<Vec<(Vec<String>, Option<String>)>>,
}

impl FakeRunner {
    fn new() -> Self {
        FakeRunner {
            responses: Vec::new(),
            calls: RefCell::new(Vec::new()),
        }
    }

    /// Register a response for any command whose joined argv contains every
    /// whitespace-separated needle in `pattern`.
    fn on(mut self, pattern: &str, code: i32, stdout: &str, stderr: &str) -> Self {
        let needles = pattern.split_whitespace().map(str::to_owned).collect();
        self.responses.push((
            needles,
            RunResult {
                code,
                stdout: stdout.to_owned(),
                stderr: stderr.to_owned(),
            },
        ));
        self
    }

    /// Remove the response registered with exactly this pattern.
    #[allow(dead_code)]
    fn drop_response(&mut self, pattern: &str) {
        let target: Vec<String> = pattern.split_whitespace().map(str::to_owned).collect();
        self.responses.retain(|(needles, _)| *needles != target);
    }

    #[allow(dead_code)]
    fn calls(&self) -> Vec<(Vec<String>, Option<String>)> {
        self.calls.borrow().clone()
    }
}

impl Runner for FakeRunner {
    fn run(&self, argv: &[String], cwd: Option<&str>) -> RunResult {
        self.calls
            .borrow_mut()
            .push((argv.to_vec(), cwd.map(|path| path.to_owned())));
        let joined = argv.join(" ");
        for (needles, result) in &self.responses {
            if needles
                .iter()
                .all(|needle| joined.contains(needle.as_str()))
            {
                return result.clone();
            }
        }
        RunResult {
            code: 1,
            stdout: String::new(),
            stderr: format!("no fake response for: {joined}"),
        }
    }
}

fn payload(panes: &str) -> String {
    format!(r#"{{"id":"cli:pane:list","result":{{"panes":{panes}}}}}"#)
}

#[test]
fn parses_panes_preferring_foreground_cwd() {
    let body = payload(
        r#"[
          {"pane_id":"w1-1","cwd":"/home/me","foreground_cwd":"/home/me/repo","agent_status":"idle"},
          {"pane_id":"w1-2","cwd":"/home/me","agent_status":"working"}
        ]"#,
    );
    let run = FakeRunner::new().on("pane list", 0, &body, "");
    let panes = list_panes(&mut Session::new(&run), "herdr");
    assert_eq!(
        panes,
        vec![
            Pane {
                pane_id: "w1-1".to_owned(),
                cwd: "/home/me/repo".to_owned(),
                agent_status: "idle".to_owned(),
            },
            Pane {
                pane_id: "w1-2".to_owned(),
                cwd: "/home/me".to_owned(),
                agent_status: "working".to_owned(),
            },
        ]
    );
}

#[test]
fn missing_agent_status_defaults_to_unknown() {
    let body = payload(r#"[{"pane_id":"w1-1","cwd":"/a"}]"#);
    let run = FakeRunner::new().on("pane list", 0, &body, "");
    assert_eq!(list_panes(&mut Session::new(&run), "herdr")[0].agent_status, "unknown");
}

#[test]
fn panes_without_cwd_are_dropped() {
    let body = payload(r#"[{"pane_id":"w1-1","agent_status":"idle"}]"#);
    let run = FakeRunner::new().on("pane list", 0, &body, "");
    assert!(list_panes(&mut Session::new(&run), "herdr").is_empty());
}

#[test]
fn non_object_rows_are_dropped() {
    let body = payload(r#"["garbage"]"#);
    let run = FakeRunner::new().on("pane list", 0, &body, "");
    assert!(list_panes(&mut Session::new(&run), "herdr").is_empty());
}

#[test]
fn command_failure_returns_empty() {
    let run = FakeRunner::new().on("pane list", 1, "", "");
    assert!(list_panes(&mut Session::new(&run), "herdr").is_empty());
}

#[test]
fn invalid_json_returns_empty() {
    let run = FakeRunner::new().on("pane list", 0, "not json", "");
    assert!(list_panes(&mut Session::new(&run), "herdr").is_empty());
}

#[test]
fn non_object_payload_returns_empty() {
    let run = FakeRunner::new().on("pane list", 0, "[]", "");
    assert!(list_panes(&mut Session::new(&run), "herdr").is_empty());
}
