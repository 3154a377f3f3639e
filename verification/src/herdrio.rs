//! Herdr adapter: which panes the live session has, read from
//! `herdr pane list`.

use vstd::prelude::*;
use vstd::string::*;

use crate::policy::AgentStatus;
use crate::json::{get_str, json_get, json_get_str, json_text_value, parse_json, Json};
use crate::procio::{argv, run_ok, str_opt_view, strs_view, RunResult, Runner, Session};
use crate::text::{owned, views};

verus! {

#[derive(Debug, Clone, PartialEq, Eq)]
pub struct Pane {
    pub pane_id: String,
    pub cwd: String,
    pub agent_status: String,
}

impl View for Pane {
    /// `(pane_id, cwd, agent_status)`
    type V = (Seq<char>, Seq<char>, Seq<char>);

    open spec fn view(&self) -> (Seq<char>, Seq<char>, Seq<char>) {
        (self.pane_id@, self.cwd@, self.agent_status@)
    }
}

pub open spec fn pane_views(panes: Seq<Pane>) -> Seq<(Seq<char>, Seq<char>, Seq<char>)> {
    panes.map_values(|p: Pane| p@)
}

/// A string that is present and not empty.
pub open spec fn non_empty(v: Option<Seq<char>>) -> Option<Seq<char>> {
    match v {
        Some(s) => if s.len() > 0 {
            Some(s)
        } else {
            None
        },
        None => None,
    }
}

/// One row of the pane list: the foreground process's directory wins over the
/// shell's; a row without either is dropped; a missing agent status reads
/// as `unknown`.
pub open spec fn pane_of(row: Json) -> Option<(Seq<char>, Seq<char>, Seq<char>)> {
    let cwd = match non_empty(json_get_str(row, "foreground_cwd"@)) {
        Some(c) => Some(c),
        None => non_empty(json_get_str(row, "cwd"@)),
    };
    match cwd {
        None => None,
        Some(c) => {
            let id = match non_empty(json_get_str(row, "pane_id"@)) {
                Some(i) => i,
                None => Seq::empty(),
            };
            let status = match non_empty(json_get_str(row, "agent_status"@)) {
                Some(s) => s,
                None => "unknown"@,
            };
            Some((id, c, status))
        },
    }
}

/// The panes of the rows that describe one, in order.
pub open spec fn panes_of_rows(rows: Seq<Json>) -> Seq<(Seq<char>, Seq<char>, Seq<char>)>
    decreases rows.len(),
{
    if rows.len() == 0 {
        Seq::empty()
    } else {
        let init = panes_of_rows(rows.drop_last());
        match pane_of(rows.last()) {
            Some(p) => init.push(p),
            None => init,
        }
    }
}

/// The panes of a `pane list` reply: `result.panes`, when it is an array.
pub open spec fn panes_of(value: Option<Json>) -> Seq<(Seq<char>, Seq<char>, Seq<char>)> {
    match value {
        Some(v) => match json_get(v, "result"@) {
            Some(r) => match json_get(r, "panes"@) {
                Some(Json::Array(rows)) => panes_of_rows(rows@),
                _ => Seq::empty(),
            },
            None => Seq::empty(),
        },
        None => Seq::empty(),
    }
}

/// One row yields its pane, if it describes one, and nothing else.
pub proof fn lemma_panes_of_rows_single(row: Json)
    ensures
        panes_of_rows(seq![row]) == match pane_of(row) {
            Some(p) => seq![p],
            None => Seq::<(Seq<char>, Seq<char>, Seq<char>)>::empty(),
        },
{
    let one = seq![row];
    assert(one.drop_last() =~= Seq::<Json>::empty());
    assert(one.last() == row);
    assert(panes_of_rows(Seq::<Json>::empty()) =~= Seq::empty());
    assert(panes_of_rows(one) == match pane_of(one.last()) {
        Some(p) => panes_of_rows(one.drop_last()).push(p),
        None => panes_of_rows(one.drop_last()),
    });
    assert(Seq::<(Seq<char>, Seq<char>, Seq<char>)>::empty().push(pane_of(row)->0) =~= seq![
        pane_of(row)->0,
    ]);
}

/// Rows are read independently and in order: the panes of two lists of
/// rows one after the other are the panes of the first, then those of the
/// second. No pane is dropped for what an earlier row held.
pub proof fn lemma_panes_of_rows_concat(a: Seq<Json>, b: Seq<Json>)
    ensures
        panes_of_rows(a + b) == panes_of_rows(a) + panes_of_rows(b),
    decreases b.len(),
{
    if b.len() == 0 {
        assert(a + b =~= a);
        assert(panes_of_rows(a) + panes_of_rows(b) =~= panes_of_rows(a));
    } else {
        lemma_panes_of_rows_concat(a, b.drop_last());
        assert((a + b).drop_last() =~= a + b.drop_last());
        assert((a + b).last() == b.last());
        match pane_of(b.last()) {
            Some(p) => {
                assert(panes_of_rows(a) + panes_of_rows(b.drop_last()).push(p) =~= (panes_of_rows(a)
                    + panes_of_rows(b.drop_last())).push(p));
            },
            None => {},
        }
    }
}

/// A row that names a non-empty directory (`foreground_cwd` first, else
/// `cwd`) describes a pane in that directory; a row that names neither
/// describes none. A missing status reads as `unknown`.
pub proof fn lemma_pane_of_directory(row: Json)
    ensures
        (pane_of(row) is Some) <==> (non_empty(json_get_str(row, "foreground_cwd"@)) is Some
            || non_empty(json_get_str(row, "cwd"@)) is Some),
        non_empty(json_get_str(row, "foreground_cwd"@)) matches Some(fg) ==> (pane_of(row)->0).1 == fg,
        non_empty(json_get_str(row, "foreground_cwd"@)) is None ==> (non_empty(
            json_get_str(row, "cwd"@),
        ) matches Some(c) ==> (pane_of(row)->0).1 == c),
        pane_of(row) is Some && non_empty(json_get_str(row, "agent_status"@)) is None ==> (pane_of(
            row,
        )->0).2 == "unknown"@,
{
}

/// What the pane list yields for a command result: nothing when it failed.
pub open spec fn panes_from(r: RunResult) -> Seq<(Seq<char>, Seq<char>, Seq<char>)> {
    if run_ok(r) {
        panes_of(json_text_value(r.stdout@))
    } else {
        Seq::empty()
    }
}

/// `<herdr> pane list`
pub open spec fn pane_list_cmd(herdr_bin: Seq<char>) -> Seq<Seq<char>> {
    seq![herdr_bin, "pane"@, "list"@]
}

fn non_empty_str(row: &Json, key: &str) -> (res: Option<String>)
    ensures
        match res {
            Some(s) => non_empty(json_get_str(*row, key@)) == Some(s@),
            None => non_empty(json_get_str(*row, key@)) is None,
        },
{
    match get_str(row, key) {
        Some(text) => if text.is_empty() {
            None
        } else {
            Some(owned(text))
        },
        None => None,
    }
}

fn parse_pane(row: &Json) -> (res: Option<Pane>)
    ensures
        match res {
            Some(p) => pane_of(*row) == Some(p@),
            None => pane_of(*row) is None,
        },
{
    let cwd = match non_empty_str(row, "foreground_cwd") {
        Some(c) => c,
        None => match non_empty_str(row, "cwd") {
            Some(c) => c,
            None => return None,
        },
    };
    let pane_id = match non_empty_str(row, "pane_id") {
        Some(i) => i,
        None => String::new(),
    };
    let agent_status = match non_empty_str(row, "agent_status") {
        Some(s) => s,
        None => owned("unknown"),
    };
    Some(Pane { pane_id, cwd, agent_status })
}

fn parse_panes_rows(rows: &Vec<Json>) -> (res: Vec<Pane>)
    ensures
        pane_views(res@) == panes_of_rows(rows@),
{
    let n = rows.len();
    let mut res: Vec<Pane> = Vec::new();
    let mut i: usize = 0;
    while i < n
        invariant
            n == rows@.len(),
            i <= n,
            pane_views(res@) == panes_of_rows(rows@.take(i as int)),
        decreases n - i,
    {
        let ghost before = res@;
        proof {
            assert(rows@.take(i + 1).drop_last() =~= rows@.take(i as int));
            assert(rows@.take(i + 1).last() == rows@[i as int]);
        }
        match parse_pane(&rows[i]) {
            Some(pane) => {
                res.push(pane);
                assert(pane_views(res@) =~= pane_views(before).push(res@.last()@));
            },
            None => {},
        }
        i += 1;
    }
    assert(rows@.take(n as int) =~= rows@);
    res
}

/// The panes of a parsed `pane list` reply.
pub fn panes_of_value(value: &Option<Json>) -> (res: Vec<Pane>)
    ensures
        pane_views(res@) == panes_of(*value),
{
    let empty: Vec<Pane> = Vec::new();
    assert(pane_views(empty@) =~= Seq::empty());
    match value {
        Some(v) => match v.get("result") {
            Some(r) => match r.get("panes") {
                Some(Json::Array(rows)) => parse_panes_rows(rows),
                _ => empty,
            },
            None => empty,
        },
        None => empty,
    }
}

/// The panes described by a `pane list` reply.
pub fn parse_panes(payload: &str) -> (res: Vec<Pane>)
    ensures
        pane_views(res@) == panes_of(json_text_value(payload@)),
{
    let value = parse_json(payload);
    panes_of_value(&value)
}

/// The panes of the live session; none when `herdr` could not be asked.
pub fn list_panes<R: Runner>(run: &mut Session<R>, herdr_bin: &str) -> (res: Vec<Pane>)
    ensures
        final(run).runner() == old(run).runner(),
        final(run).calls() == old(run).calls().push((pane_list_cmd(herdr_bin@), None)),
        exists|r: RunResult|
            #[trigger] old(run).runner().outcome(pane_list_cmd(herdr_bin@), None, r) && pane_views(res@)
                == panes_from(r),
{
    let command = argv(&[herdr_bin, "pane", "list"]);
    let result = run.run(command.as_slice(), None);
    assert(views(command@) =~= pane_list_cmd(herdr_bin@));
    assert(run.runner().outcome(pane_list_cmd(herdr_bin@), None, result));
    if !result.ok() {
        let empty: Vec<Pane> = Vec::new();
        assert(pane_views(empty@) =~= Seq::empty());
        return empty;
    }
    parse_panes(result.stdout.as_str())
}

impl Pane {
    /// A copy of the pane.
    pub fn copy(&self) -> (res: Pane)
        ensures
            res@ == self@,
    {
        Pane {
            pane_id: self.pane_id.clone(),
            cwd: self.cwd.clone(),
            agent_status: self.agent_status.clone(),
        }
    }
}

impl AgentStatus for Pane {
    open spec fn status_view(&self) -> Seq<char> {
        self.agent_status@
    }

    fn status_str(&self) -> (res: &str) {
        self.agent_status.as_str()
    }
}

} // verus!
