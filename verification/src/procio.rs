//! The subprocess boundary: what a command returned, and the trait through
//! which every command is run.
//!
//! Spawning real processes is the application's business; the library only
//! builds commands and reads what comes back.

use vstd::prelude::*;
use vstd::string::*;

use crate::text::{owned, trim, trim_str, views};

verus! {

#[derive(Debug, Clone, PartialEq, Eq)]
pub struct RunResult {
    pub code: i32,
    pub stdout: String,
    pub stderr: String,
}

/// The command exited with status 0.
pub open spec fn run_ok(r: RunResult) -> bool {
    r.code == 0
}

/// The command's standard output, trimmed.
pub open spec fn run_text(r: RunResult) -> Seq<char> {
    trim(r.stdout@)
}

impl RunResult {
    /// A result for a command that could not be started at all.
    pub fn failure(message: String) -> (res: Self)
        ensures
            res.code == 127,
            res.stdout@.len() == 0,
            res.stderr@ == message@,
    {
        RunResult { code: 127, stdout: String::new(), stderr: message }
    }

    pub fn ok(&self) -> (res: bool)
        ensures
            res == run_ok(*self),
    {
        self.code == 0
    }

    pub fn text(&self) -> (res: String)
        ensures
            res@ == run_text(*self),
    {
        trim_str(self.stdout.as_str())
    }
}

/// The view of an optional text.
pub open spec fn str_opt_view(o: Option<&str>) -> Option<Seq<char>> {
    match o {
        Some(s) => Some(s@),
        None => None,
    }
}

/// The views of a sequence of texts.
pub open spec fn strs_view(s: Seq<&str>) -> Seq<Seq<char>> {
    s.map_values(|x: &str| x@)
}

/// Runs commands. Implemented by the application (real processes) and by
/// tests (scripted answers).
pub trait Runner {
    /// `result` is an outcome that running `argv` with working directory
    /// `cwd` can have with this runner. A runner that says nothing more
    /// admits every outcome.
    closed spec fn outcome(&self, argv: Seq<Seq<char>>, cwd: Option<Seq<char>>, result: RunResult) -> bool {
        true
    }

    /// Run `argv` (program first) in `cwd`, or in the current directory.
    fn run(&self, argv: &[String], cwd: Option<&str>) -> (result: RunResult)
        ensures
            self.outcome(views(argv@), str_opt_view(cwd), result),
    ;
}

/// One command handed to a runner: its argv and its working directory.
pub type Call = (Seq<Seq<char>>, Option<Seq<char>>);

/// A runner in use, with the commands the library has handed it so far, in
/// order. Every command the library runs goes through `Session::run`, so
/// `calls` is the exact record of what was run.
pub struct Session<'a, R: Runner> {
    runner: &'a R,
    log: Ghost<Seq<Call>>,
}

impl<'a, R: Runner> Session<'a, R> {
    /// The runner the commands go to.
    pub closed spec fn runner(&self) -> &'a R {
        self.runner
    }

    /// The commands run so far, oldest first.
    pub closed spec fn calls(&self) -> Seq<Call> {
        self.log@
    }

    /// A session on `runner` in which nothing has run yet.
    pub fn new(runner: &'a R) -> (res: Self)
        ensures
            res.runner() == runner,
            res.calls() == Seq::<Call>::empty(),
    {
        Session { runner, log: Ghost(Seq::empty()) }
    }

    /// Run `argv` in `cwd` (or in the current directory) and record it.
    pub fn run(&mut self, argv: &[String], cwd: Option<&str>) -> (result: RunResult)
        ensures
            final(self).runner() == old(self).runner(),
            final(self).calls() == old(self).calls().push((views(argv@), str_opt_view(cwd))),
            old(self).runner().outcome(views(argv@), str_opt_view(cwd), result),
    {
        let result = self.runner.run(argv, cwd);
        self.log = Ghost(self.log@.push((views(argv@), str_opt_view(cwd))));
        result
    }
}

/// Owned copies of the parts of a command.
pub fn argv(parts: &[&str]) -> (res: Vec<String>)
    ensures
        views(res@) == strs_view(parts@),
{
    let n = parts.len();
    let mut res: Vec<String> = Vec::new();
    let mut i: usize = 0;
    while i < n
        invariant
            n == parts@.len(),
            i <= n,
            views(res@) == strs_view(parts@.take(i as int)),
        decreases n - i,
    {
        let ghost before = res@;
        res.push(owned(parts[i]));
        proof {
            assert(views(res@) =~= views(before).push(parts@[i as int]@));
            assert(strs_view(parts@.take(i + 1)) =~= strs_view(parts@.take(i as int)).push(
                parts@[i as int]@,
            ));
        }
        i += 1;
    }
    assert(parts@.take(n as int) =~= parts@);
    res
}

} // verus!
