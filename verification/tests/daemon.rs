use std::cell::RefCell;

use herdr_branch_cleanup::daemon::{
    loop_command, parse_pid, pid_alive, running_pid, start, status, stop, toggle,
    wait_decision, wait_step_millis, Launcher, Spawner,
};
use herdr_branch_cleanup::procio::{RunResult, Runner, Session};
use herdr_branch_cleanup::text::decimal_string;

struct FakeRunner {
    responses: Vec<(Vec<String>, RunResult)>,
    calls: RefCell<Vec<(Vec<String>, Option<String>)>>,
}

impl FakeRunner {
    fn new() -> Self {
        FakeRunner {
            responses: Vec::new(),
            calls: RefCell::new(Vec::new()),
        }
    }

    /// Register a response for any command whose joined argv contains every
    /// whitespace-separated needle in `pattern`.
    fn on(mut self, pattern: &str, code: i32, stdout: &str, stderr: &str) -> Self {
        let needles = pattern.split_whitespace().map(str::to_owned).collect();
        self.responses.push((
            needles,
            RunResult {
                code,
                stdout: stdout.to_owned(),
                stderr: stderr.to_owned(),
            },
        ));
        self
    }

    /// Remove the response registered with exactly this pattern.
    #[allow(dead_code)]
    fn drop_response(&mut self, pattern: &str) {
        let target: Vec<String> = pattern.split_whitespace().map(str::to_owned).collect();
        self.responses.retain(|(needles, _)| *needles != target);
    }

    #[allow(dead_code)]
    fn calls(&self) -> Vec<(Vec<String>, Option<String>)> {
        self.calls.borrow().clone()
    }
}

impl Runner for FakeRunner {
    fn run(&self, argv: &[String], cwd: Option<&str>) -> RunResult {
        self.calls
            .borrow_mut()
            .push((argv.to_vec(), cwd.map(|path| path.to_owned())));
        let joined = argv.join(" ");
        for (needles, result) in &self.responses {
            if needles
                .iter()
                .all(|needle| joined.contains(needle.as_str()))
            {
                return result.clone();
            }
        }
        RunResult {
            code: 1,
            stdout: String::new(),
            stderr: format!("no fake response for: {joined}"),
        }
    }
}

struct FakeSpawner {
    pid: u32,
    calls: RefCell<Vec<(Vec<String>, String)>>,
    fail: bool,
}

impl FakeSpawner {
    fn new(pid: u32) -> Self {
        FakeSpawner {
            pid,
            calls: RefCell::new(Vec::new()),
            fail: false,
        }
    }
}

impl Spawner for FakeSpawner {
    fn spawn(&self, command: &[String], log_path: &str) -> Result<u32, String> {
        self.calls
            .borrow_mut()
            .push((command.to_vec(), log_path.to_owned()));
        if self.fail {
            Err("spawn refused".to_owned())
        } else {
            Ok(self.pid)
        }
    }
}

fn alive_runner() -> FakeRunner {
    FakeRunner::new().on("kill -0", 0, "", "")
}

fn dead_runner() -> FakeRunner {
    FakeRunner::new()
        .on("kill -0", 1, "", "")
        .on("kill -15", 0, "", "")
}

const LOG: &str = "/state/poller.log";

#[test]
fn read_pid_missing_and_garbage() {
    assert_eq!(parse_pid(""), None);
    assert_eq!(parse_pid("nope"), None);
}

#[test]
fn running_pid_for_live_process() {
    assert_eq!(running_pid(&mut Session::new(&alive_runner()), parse_pid("4321")), Some(4321));
}

#[test]
fn running_pid_for_dead_process() {
    assert_eq!(running_pid(&mut Session::new(&dead_runner()), parse_pid("4321")), None);
}

#[test]
fn start_spawns_and_writes_pidfile() {
    let spawner = FakeSpawner::new(4321);
    let outcome = start(&mut Session::new(&dead_runner()), &mut Launcher::new(&spawner), None, "/plugin/bin/cleanup", LOG);
    assert_eq!(outcome.message, "started (pid 4321)");
    assert_eq!(outcome.record_pid, Some(4321));
    let calls = spawner.calls.borrow();
    assert_eq!(calls[0].0, vec!["/plugin/bin/cleanup", "run"]);
    assert_eq!(calls[0].1, LOG);
}

#[test]
fn start_is_idempotent_when_running() {
    let spawner = FakeSpawner::new(4321);
    let outcome = start(&mut Session::new(&alive_runner()), &mut Launcher::new(&spawner), Some(77), "bin", LOG);
    assert!(outcome.message.starts_with("already running"));
    assert_eq!(outcome.record_pid, None);
    assert!(spawner.calls.borrow().is_empty());
}

#[test]
fn start_reports_spawn_failure() {
    let mut spawner = FakeSpawner::new(0);
    spawner.fail = true;
    let outcome = start(&mut Session::new(&dead_runner()), &mut Launcher::new(&spawner), None, "bin", LOG);
    assert!(outcome.message.contains("failed to start"));
    assert_eq!(outcome.message, "failed to start: spawn refused");
    assert_eq!(outcome.record_pid, None);
}

#[test]
fn stop_when_not_running() {
    let outcome = stop(&mut Session::new(&dead_runner()), None);
    assert_eq!(outcome.message, "not running");
    assert!(!outcome.clear_pid);
}

#[test]
fn stop_kills_and_clears_pidfile() {
    let run = FakeRunner::new()
        .on("kill -0", 0, "", "")
        .on("kill -15", 0, "", "");
    let outcome = stop(&mut Session::new(&run), Some(4321));
    assert_eq!(outcome.message, "stopped (pid 4321)");
    assert!(outcome.clear_pid);
    assert!(run
        .calls()
        .iter()
        .any(|(argv, _)| argv.join(" ") == "kill -15 4321"));
}

#[test]
fn stop_reports_kill_failure() {
    let run = FakeRunner::new()
        .on("kill -0", 0, "", "")
        .on("kill -15", 1, "", "  operation not permitted \n");
    let outcome = stop(&mut Session::new(&run), Some(9));
    assert_eq!(outcome.message, "failed to stop pid 9: operation not permitted");
    assert!(!outcome.clear_pid);
}

#[test]
fn toggle_starts_when_stopped() {
    let spawner = FakeSpawner::new(9);
    let outcome = toggle(&mut Session::new(&dead_runner()), &mut Launcher::new(&spawner), None, "bin", LOG);
    assert!(outcome.message.starts_with("started"));
}

#[test]
fn toggle_stops_when_running() {
    let run = FakeRunner::new()
        .on("kill -0", 0, "", "")
        .on("kill -15", 0, "", "");
    let spawner = FakeSpawner::new(9);
    let outcome = toggle(&mut Session::new(&run), &mut Launcher::new(&spawner), Some(12), "bin", LOG);
    assert_eq!(outcome.message, "stopped (pid 12)");
    assert!(spawner.calls.borrow().is_empty());
}

#[test]
fn status_reports_both_states() {
    assert_eq!(status(&mut Session::new(&dead_runner()), None), "not running");
    assert_eq!(status(&mut Session::new(&alive_runner()), parse_pid("4321")), "running (pid 4321)");
}

#[test]
fn pid_probe_sends_signal_zero() {
    let run = alive_runner();
    assert!(pid_alive(&mut Session::new(&run), 4321));
    assert_eq!(run.calls()[0].0, vec!["kill", "-0", "4321"]);
}

#[test]
fn pid_text_parsing() {
    assert_eq!(parse_pid(" 4321\n"), Some(4321));
    assert_eq!(parse_pid("+7"), Some(7));
    assert_eq!(parse_pid("+"), None);
    assert_eq!(parse_pid("-1"), None);
    assert_eq!(parse_pid("4294967295"), Some(u32::MAX));
    assert_eq!(parse_pid("4294967296"), None);
    assert_eq!(parse_pid("99999999999999999999"), None);
    assert_eq!(parse_pid("12a"), None);
    assert_eq!(parse_pid("123456"), Some(123456));
}

#[test]
fn loop_command_runs_the_entrypoint() {
    assert_eq!(loop_command("/plugin/bin/cleanup"), vec!["/plugin/bin/cleanup", "run"]);
}

#[test]
fn wait_wakes_early_on_nudge() {
    assert_eq!(wait_step_millis(), 500);
    assert_eq!(wait_decision(500, 60_000, 10, 0), Some(10));
}

#[test]
fn wait_runs_full_interval_without_nudge() {
    assert_eq!(wait_decision(1_000, 2_000, 0, 0), None);
    assert_eq!(wait_decision(2_000, 2_000, 0, 0), Some(0));
}

#[test]
fn pid_file_text_round_trips() {
    for pid in [0u32, 1, 9, 10, 4321, 65535, u32::MAX] {
        assert_eq!(parse_pid(&decimal_string(pid as u64)), Some(pid));
    }
}
