//! Background poller lifecycle: which process is running, starting and
//! stopping it, and when the sweep loop wakes.
//!
//! The pid file, the log file and the nudge marker are files the application
//! reads and writes; this module decides what they should say.

use vstd::prelude::*;
use vstd::string::*;

use crate::procio::{argv, run_ok, run_text, Call, RunResult, Runner, Session};
use crate::text::{
    chars_of, concat2, concat3, decimal, decimal_string, digit_text, is_ws, owned, trim, trim_end,
    trim_start, trim_str, views,
};

verus! {

pub open spec fn is_digit(c: char) -> bool {
    48 <= (c as u32) <= 57
}

/// The number that a string of decimal digits denotes.
pub open spec fn digits_value(s: Seq<char>) -> nat
    decreases s.len(),
{
    if s.len() == 0 {
        0
    } else {
        digits_value(s.drop_last()) * 10 + ((s.last() as u32) - 48) as nat
    }
}

/// The text after an optional leading `+`.
pub open spec fn unsigned_digits(s: Seq<char>) -> Seq<char> {
    if s.len() > 0 && s[0] == '+' {
        s.drop_first()
    } else {
        s
    }
}

pub open spec fn all_digits(d: Seq<char>) -> bool {
    forall|i: int| 0 <= i < d.len() ==> is_digit(#[trigger] d[i])
}

/// `u32::from_str`: an optional `+`, then one or more decimal digits whose
/// value fits in a `u32`.
pub open spec fn parse_u32_of(s: Seq<char>) -> Option<u32> {
    let d = unsigned_digits(s);
    if d.len() > 0 && all_digits(d) && digits_value(d) <= u32::MAX {
        Some(digits_value(d) as u32)
    } else {
        None
    }
}

/// The pid written in the pid file: its trimmed text as a `u32`.
pub open spec fn pid_of_text(text: Seq<char>) -> Option<u32> {
    parse_u32_of(trim(text))
}

fn parse_u32(s: &str) -> (res: Option<u32>)
    ensures
        res == parse_u32_of(s@),
{
    let cs = chars_of(s);
    let n = cs.len();
    let start: usize = if n > 0 && cs[0] == '+' {
        1
    } else {
        0
    };
    let ghost d = unsigned_digits(s@);
    assert(d =~= s@.skip(start as int));
    if start == n {
        return None;
    }
    let limit: u64 = 0x1_0000_0000;
    let mut acc: u64 = 0;
    let mut i: usize = start;
    while i < n
        invariant
            n == cs@.len(),
            cs@ == s@,
            d == s@.skip(start as int),
            d == unsigned_digits(s@),
            start <= i <= n,
            forall|j: int| start <= j < i ==> is_digit(#[trigger] cs@[j]),
            acc as int == if digits_value(d.take(i - start)) < limit {
                digits_value(d.take(i - start)) as int
            } else {
                limit as int
            },
            limit == 0x1_0000_0000u64,
        decreases n - i,
    {
        let c = cs[i];
        let code = c as u32;
        assert(code == (cs@[i as int] as u32));
        if code < 48 || code > 57 {
            assert(d[i - start] == c);
            assert(!is_digit(d[i - start]));
            assert(!all_digits(d));
            return None;
        }
        proof {
            let t = d.take(i + 1 - start);
            assert(t.drop_last() =~= d.take(i - start));
            assert(t.last() == c);
        }
        let next = acc * 10 + (code - 48) as u64;
        acc = if next < limit {
            next
        } else {
            limit
        };
        i += 1;
    }
    proof {
        assert(d.take(n - start) =~= d);
        assert forall|j: int| 0 <= j < d.len() implies is_digit(#[trigger] d[j]) by {
            assert(d[j] == cs@[j + start]);
        }
    }
    if acc < limit {
        Some(acc as u32)
    } else {
        None
    }
}

/// The pid recorded in a pid file's text, if it holds one.
pub fn parse_pid(text: &str) -> (res: Option<u32>)
    ensures
        res == pid_of_text(text@),
{
    let t = trim_str(text);
    parse_u32(t.as_str())
}

proof fn lemma_digit_text(d: nat)
    requires
        d < 10,
    ensures
        digit_text(d).len() == 1,
        digit_text(d)[0] as u32 == 48 + d,
{
    reveal_strlit("0");
    reveal_strlit("1");
    reveal_strlit("2");
    reveal_strlit("3");
    reveal_strlit("4");
    reveal_strlit("5");
    reveal_strlit("6");
    reveal_strlit("7");
    reveal_strlit("8");
    reveal_strlit("9");
}

proof fn lemma_decimal_digits(n: nat)
    ensures
        decimal(n).len() > 0,
        all_digits(decimal(n)),
        digits_value(decimal(n)) == n,
    decreases n,
{
    let s = decimal(n);
    if n < 10 {
        lemma_digit_text(n);
        assert(s.drop_last() =~= Seq::<char>::empty());
        assert(digits_value(s) == digits_value(s.drop_last()) * 10 + ((s.last() as u32) - 48) as nat);
    } else {
        lemma_decimal_digits(n / 10);
        lemma_digit_text(n % 10);
        let head = decimal(n / 10);
        let tail = digit_text(n % 10);
        assert(s == head + tail);
        assert(s.drop_last() =~= head);
        assert(s.last() == tail[0]);
        assert(digits_value(s) == digits_value(head) * 10 + ((tail[0] as u32) - 48) as nat);
        assert((n / 10) * 10 + n % 10 == n) by (nonlinear_arith);
        assert forall|i: int| 0 <= i < s.len() implies is_digit(#[trigger] s[i]) by {
            if i < head.len() {
                assert(s[i] == head[i]);
            } else {
                assert(s[i] == tail[0]);
            }
        }
    }
}

/// A pid written as its decimal text reads back as the same pid: the pid
/// file round-trips.
pub proof fn lemma_pid_text_round_trip(pid: u32)
    ensures
        pid_of_text(decimal(pid as nat)) == Some(pid),
{
    let s = decimal(pid as nat);
    lemma_decimal_digits(pid as nat);
    assert(is_digit(s[0]) && is_digit(s.last()));
    assert(!is_ws(s[0]) && !is_ws(s.last()));
    assert(trim_start(s) == s);
    assert(trim_end(s) == s);
    assert(trim(s) == s);
    assert(unsigned_digits(s) == s);
}

/// `kill <signal> <pid>`
pub open spec fn kill_cmd(signal: Seq<char>, pid: u32) -> Seq<Seq<char>> {
    seq!["kill"@, signal, decimal(pid as nat)]
}

/// `alive` is what probing `pid` with signal 0 can yield.
pub open spec fn alive_outcome<R: Runner>(run: &R, pid: u32, alive: bool) -> bool {
    exists|r: RunResult| #[trigger] run.outcome(kill_cmd("-0"@, pid), None, r) && alive == run_ok(r)
}

/// Whether the process `pid` exists and may be signalled.
pub fn pid_alive<R: Runner>(run: &mut Session<R>, pid: u32) -> (res: bool)
    ensures
        final(run).runner() == old(run).runner(),
        final(run).calls() == old(run).calls().push((kill_cmd("-0"@, pid), None)),
        alive_outcome(old(run).runner(), pid, res),
{
    let number = decimal_string(pid as u64);
    let command = argv(&["kill", "-0", number.as_str()]);
    let result = run.run(command.as_slice(), None);
    assert(views(command@) =~= kill_cmd("-0"@, pid));
    assert(run.runner().outcome(kill_cmd("-0"@, pid), None, result));
    result.ok()
}

/// `found` is what checking the recorded pid can yield: the recorded pid
/// when that process is alive, else nothing.
pub open spec fn running_outcome<R: Runner>(run: &R, recorded: Option<u32>, found: Option<u32>) -> bool {
    match recorded {
        None => found is None,
        Some(pid) => alive_outcome(run, pid, found is Some) && (found is None || found == Some(pid)),
    }
}

/// The commands run to check the recorded pid: one `kill -0` of it, if there
/// is one.
pub open spec fn running_calls(recorded: Option<u32>) -> Seq<Call> {
    match recorded {
        Some(pid) => seq![(kill_cmd("-0"@, pid), None::<Seq<char>>)],
        None => Seq::empty(),
    }
}

/// The recorded pid, if that process is still alive.
pub fn running_pid<R: Runner>(run: &mut Session<R>, recorded: Option<u32>) -> (res: Option<u32>)
    ensures
        final(run).runner() == old(run).runner(),
        final(run).calls() == old(run).calls() + running_calls(recorded),
        running_outcome(old(run).runner(), recorded, res),
{
    let ghost before = run.calls();
    match recorded {
        Some(pid) => {
            let alive = pid_alive(run, pid);
            assert(run.calls() =~= before + running_calls(recorded));
            if alive {
                Some(pid)
            } else {
                None
            }
        },
        None => {
            assert(run.calls() =~= before + running_calls(recorded));
            None
        },
    }
}

/// `<entrypoint> run`
pub open spec fn loop_cmd(entrypoint: Seq<char>) -> Seq<Seq<char>> {
    seq![entrypoint, "run"@]
}

/// The command that runs the sweep loop.
pub fn loop_command(entrypoint: &str) -> (res: Vec<String>)
    ensures
        views(res@) == loop_cmd(entrypoint@),
{
    let res = argv(&[entrypoint, "run"]);
    assert(views(res@) =~= loop_cmd(entrypoint@));
    res
}

pub open spec fn pid_message(prefix: Seq<char>, pid: u32) -> Seq<char> {
    prefix + decimal(pid as nat) + ")"@
}

pub open spec fn status_message_of(found: Option<u32>) -> Seq<char> {
    match found {
        Some(pid) => pid_message("running (pid "@, pid),
        None => "not running"@,
    }
}

fn pid_text(prefix: &str, pid: u32) -> (res: String)
    ensures
        res@ == pid_message(prefix@, pid),
{
    let number = decimal_string(pid as u64);
    concat3(prefix, number.as_str(), ")")
}

/// Whether the poller whose pid was recorded is running.
pub fn status<R: Runner>(run: &mut Session<R>, recorded: Option<u32>) -> (res: String)
    ensures
        final(run).runner() == old(run).runner(),
        final(run).calls() == old(run).calls() + running_calls(recorded),
        exists|found: Option<u32>|
            #[trigger] running_outcome(old(run).runner(), recorded, found) && res@ == status_message_of(found),
{
    let found = running_pid(run, recorded);
    match found {
        Some(pid) => pid_text("running (pid ", pid),
        None => owned("not running"),
    }
}

/// Starts processes in the background, writing their output to a log file.
/// Implemented by the application (detached processes) and by tests.
pub trait Spawner {
    /// `result` is what spawning `command` with its output going to
    /// `log_path` can yield with this spawner: a pid, or why it failed.
    /// A spawner that says nothing more admits every result.
    closed spec fn spawned(&self, command: Seq<Seq<char>>, log_path: Seq<char>, result: Result<u32, Seq<char>>) -> bool {
        true
    }

    fn spawn(&self, command: &[String], log_path: &str) -> (res: Result<u32, String>)
        ensures
            self.spawned(
                views(command@),
                log_path@,
                match res {
                    Ok(pid) => Ok(pid),
                    Err(e) => Err(e@),
                },
            ),
    ;
}

/// One process handed to a spawner: its command and its log file.
pub type Spawn = (Seq<Seq<char>>, Seq<char>);

/// The view of a spawn result.
pub open spec fn spawn_view(res: Result<u32, String>) -> Result<u32, Seq<char>> {
    match res {
        Ok(pid) => Ok(pid),
        Err(e) => Err(e@),
    }
}

/// A spawner in use, with the processes the library has asked it to start
/// so far, in order. Every spawn goes through `Launcher::spawn`.
pub struct Launcher<'a, S: Spawner> {
    spawner: &'a S,
    log: Ghost<Seq<Spawn>>,
}

impl<'a, S: Spawner> Launcher<'a, S> {
    /// The spawner the processes go to.
    pub closed spec fn spawner(&self) -> &'a S {
        self.spawner
    }

    /// The processes started so far, oldest first.
    pub closed spec fn spawns(&self) -> Seq<Spawn> {
        self.log@
    }

    /// A launcher on `spawner` that has started nothing yet.
    pub fn new(spawner: &'a S) -> (res: Self)
        ensures
            res.spawner() == spawner,
            res.spawns() == Seq::<Spawn>::empty(),
    {
        Launcher { spawner, log: Ghost(Seq::empty()) }
    }

    /// Start `command` with its output going to `log_path`, and record it.
    pub fn spawn(&mut self, command: &[String], log_path: &str) -> (res: Result<u32, String>)
        ensures
            final(self).spawner() == old(self).spawner(),
            final(self).spawns() == old(self).spawns().push((views(command@), log_path@)),
            old(self).spawner().spawned(views(command@), log_path@, spawn_view(res)),
    {
        let res = self.spawner.spawn(command, log_path);
        self.log = Ghost(self.log@.push((views(command@), log_path@)));
        res
    }
}

/// What a lifecycle command answers, and what it asks of the pid file: a pid
/// to record, or that the record be removed.
pub struct Lifecycle {
    pub message: String,
    pub record_pid: Option<u32>,
    pub clear_pid: bool,
}

impl View for Lifecycle {
    type V = (Seq<char>, Option<u32>, bool);

    open spec fn view(&self) -> (Seq<char>, Option<u32>, bool) {
        (self.message@, self.record_pid, self.clear_pid)
    }
}

/// What `start` does, from whether a poller was found running and what
/// spawning a new one yielded.
pub open spec fn start_result_of(found: Option<u32>, spawned: Result<u32, Seq<char>>) -> (
    Seq<char>,
    Option<u32>,
    bool,
) {
    match found {
        Some(pid) => (pid_message("already running (pid "@, pid), None, false),
        None => match spawned {
            Ok(pid) => (pid_message("started (pid "@, pid), Some(pid), false),
            Err(e) => ("failed to start: "@ + e, None, false),
        },
    }
}

/// `found` and `spawned` are what one `start` can yield: a new poller is
/// spawned only when none is running.
pub open spec fn start_outcome<R: Runner, S: Spawner>(
    run: &R,
    spawner: &S,
    recorded: Option<u32>,
    entrypoint: Seq<char>,
    log_path: Seq<char>,
    found: Option<u32>,
    spawned: Result<u32, Seq<char>>,
) -> bool {
    &&& running_outcome(run, recorded, found)
    &&& found is None ==> spawner.spawned(loop_cmd(entrypoint), log_path, spawned)
}

/// The processes `start` starts: the sweep loop, only when no poller was
/// found running.
pub open spec fn start_spawns(entrypoint: Seq<char>, log_path: Seq<char>, found: Option<u32>) -> Seq<
    Spawn,
> {
    if found is None {
        seq![(loop_cmd(entrypoint), log_path)]
    } else {
        Seq::empty()
    }
}

/// Start the poller unless it is already running.
pub fn start<R: Runner, S: Spawner>(
    run: &mut Session<R>,
    spawner: &mut Launcher<S>,
    recorded: Option<u32>,
    entrypoint: &str,
    log_path: &str,
) -> (res: Lifecycle)
    ensures
        final(run).runner() == old(run).runner(),
        final(spawner).spawner() == old(spawner).spawner(),
        final(run).calls() == old(run).calls() + running_calls(recorded),
        exists|found: Option<u32>, spawned: Result<u32, Seq<char>>|
            #[trigger] start_outcome(
                old(run).runner(),
                old(spawner).spawner(),
                recorded,
                entrypoint@,
                log_path@,
                found,
                spawned,
            ) && res@ == start_result_of(found, spawned) && final(spawner).spawns()
                == old(spawner).spawns() + start_spawns(entrypoint@, log_path@, found),
{
    let ghost spawns_before = spawner.spawns();
    let found = running_pid(run, recorded);
    if let Some(pid) = found {
        let res = Lifecycle {
            message: pid_text("already running (pid ", pid),
            record_pid: None,
            clear_pid: false,
        };
        assert(start_outcome(
            run.runner(),
            spawner.spawner(),
            recorded,
            entrypoint@,
            log_path@,
            found,
            Ok(0u32),
        ));
        assert(spawner.spawns() =~= spawns_before + start_spawns(entrypoint@, log_path@, found));
        return res;
    }
    let command = loop_command(entrypoint);
    let spawned = spawner.spawn(command.as_slice(), log_path);
    assert(start_outcome(
        run.runner(),
        spawner.spawner(),
        recorded,
        entrypoint@,
        log_path@,
        found,
        spawn_view(spawned),
    ));
    assert(spawner.spawns() =~= spawns_before + start_spawns(entrypoint@, log_path@, found));
    match spawned {
        Ok(pid) => Lifecycle {
            message: pid_text("started (pid ", pid),
            record_pid: Some(pid),
            clear_pid: false,
        },
        Err(error) => Lifecycle {
            message: concat2("failed to start: ", error.as_str()),
            record_pid: None,
            clear_pid: false,
        },
    }
}

/// What `stop` does, from whether a poller was found running and what
/// signalling it yielded.
pub open spec fn stop_result_of(found: Option<u32>, killed: RunResult) -> (
    Seq<char>,
    Option<u32>,
    bool,
) {
    match found {
        None => ("not running"@, None, false),
        Some(pid) => if run_ok(killed) {
            (pid_message("stopped (pid "@, pid), None, true)
        } else {
            ("failed to stop pid "@ + decimal(pid as nat) + ": "@ + trim(killed.stderr@), None, false)
        },
    }
}

/// `found` and `killed` are what one `stop` can yield: the poller is sent
/// SIGTERM only when it was found running.
pub open spec fn stop_outcome<R: Runner>(
    run: &R,
    recorded: Option<u32>,
    found: Option<u32>,
    killed: RunResult,
) -> bool {
    &&& running_outcome(run, recorded, found)
    &&& found matches Some(pid) ==> run.outcome(kill_cmd("-15"@, pid), None, killed)
}

/// The commands `stop` runs: the liveness check, then `kill -15` only of a
/// poller found alive.
pub open spec fn stop_calls(recorded: Option<u32>, found: Option<u32>) -> Seq<Call> {
    running_calls(recorded) + match found {
        Some(pid) => seq![(kill_cmd("-15"@, pid), None::<Seq<char>>)],
        None => Seq::empty(),
    }
}

/// Stop the poller if it is running; the pid record goes once it stopped.
pub fn stop<R: Runner>(run: &mut Session<R>, recorded: Option<u32>) -> (res: Lifecycle)
    ensures
        final(run).runner() == old(run).runner(),
        exists|found: Option<u32>, killed: RunResult|
            #[trigger] stop_outcome(old(run).runner(), recorded, found, killed) && res@
                == stop_result_of(found, killed) && final(run).calls() == old(run).calls()
                + stop_calls(recorded, found),
{
    let ghost before = run.calls();
    let found = running_pid(run, recorded);
    let pid = match found {
        Some(pid) => pid,
        None => {
            let res = Lifecycle { message: owned("not running"), record_pid: None, clear_pid: false };
            let ghost any: RunResult = vstd::pervasive::arbitrary();
            assert(stop_outcome(run.runner(), recorded, found, any));
            assert(run.calls() =~= before + stop_calls(recorded, found));
            return res;
        },
    };
    let number = decimal_string(pid as u64);
    let command = argv(&["kill", "-15", number.as_str()]);
    let result = run.run(command.as_slice(), None);
    assert(views(command@) =~= kill_cmd("-15"@, pid));
    assert(stop_outcome(run.runner(), recorded, found, result));
    assert(run.calls() =~= before + stop_calls(recorded, found));
    if !result.ok() {
        let reason = trim_str(result.stderr.as_str());
        let mut message = owned("failed to stop pid ");
        message.append(number.as_str());
        message.append(": ");
        message.append(reason.as_str());
        return Lifecycle { message, record_pid: None, clear_pid: false };
    }
    Lifecycle { message: pid_text("stopped (pid ", pid), record_pid: None, clear_pid: true }
}

/// Stop the poller when it runs, start it otherwise. The spawner is asked
/// only when no poller was found running, and `kill -15` goes only to a
/// poller found alive.
pub fn toggle<R: Runner, S: Spawner>(
    run: &mut Session<R>,
    spawner: &mut Launcher<S>,
    recorded: Option<u32>,
    entrypoint: &str,
    log_path: &str,
) -> (res: Lifecycle)
    ensures
        final(run).runner() == old(run).runner(),
        final(spawner).spawner() == old(spawner).spawner(),
        exists|found: Option<u32>|
            #[trigger] running_outcome(old(run).runner(), recorded, found) && (match found {
                Some(_) => exists|again: Option<u32>, killed: RunResult|
                    #[trigger] stop_outcome(old(run).runner(), recorded, again, killed) && res@
                        == stop_result_of(again, killed) && final(run).calls() == old(run).calls()
                        + running_calls(recorded) + stop_calls(recorded, again)
                        && final(spawner).spawns() == old(spawner).spawns(),
                None => exists|again: Option<u32>, spawned: Result<u32, Seq<char>>|
                    #[trigger] start_outcome(
                        old(run).runner(),
                        old(spawner).spawner(),
                        recorded,
                        entrypoint@,
                        log_path@,
                        again,
                        spawned,
                    ) && res@ == start_result_of(again, spawned) && final(run).calls()
                        == old(run).calls() + running_calls(recorded) + running_calls(recorded)
                        && final(spawner).spawns() == old(spawner).spawns() + start_spawns(
                        entrypoint@,
                        log_path@,
                        again,
                    ),
            }),
{
    let found = running_pid(run, recorded);
    if found.is_some() {
        stop(run, recorded)
    } else {
        start(run, spawner, recorded, entrypoint, log_path)
    }
}

/// How long the sweep loop sleeps between looks at the nudge marker.
pub fn wait_step_millis() -> (res: u64)
    ensures
        res == 500,
{
    500
}

/// After one more sleep step, with `waited` nanoseconds slept of `interval`,
/// and the nudge marker last changed at `stamp` (`seen` being the change
/// already acted on): the stamp to continue with, or none to sleep again.
/// A newer nudge wakes the loop at once; a full interval without one ends
/// the wait.
pub fn wait_decision(waited: u128, interval: u128, stamp: u128, seen: u128) -> (res: Option<u128>)
    ensures
        res == (if stamp > seen {
            Some(stamp)
        } else if waited >= interval {
            Some(seen)
        } else {
            None
        }),
{
    if stamp > seen {
        Some(stamp)
    } else if waited >= interval {
        Some(seen)
    } else {
        None
    }
}

} // verus!
