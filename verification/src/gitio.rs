//! Git and gh adapters: the commands that are run, and what is read from
//! their output. No decision making.
//!
//! Each function that runs commands states which commands it hands to the
//! runner and that its result is what the matching `*_from` function makes of
//! an outcome of those commands; the `*_from` functions are exact.

use vstd::prelude::*;
use vstd::string::*;

use crate::json::{json_get_str, json_text_value, parse_json, get_str, Json};
use crate::policy::opt_view;
use crate::procio::{argv, run_ok, run_text, strs_view, Call, RunResult, Runner, Session};
use crate::text::{
    chars_of, concat2, concat3, concat4, contains, contains_str, first_where, first_word, is_ws,
    lemma_trim_empty_iff_all_ws, occurs_at,
    first_word_str, lemma_first_where_is, lines, lines_of, owned, same_text, slice_chars,
    strip_prefix, strip_prefix_str, trim, trim_str, views,
};

verus! {

/// `git -C root args...`
pub open spec fn git_cmd(root: Seq<char>, args: Seq<Seq<char>>) -> Seq<Seq<char>> {
    seq!["git"@, "-C"@, root] + args
}

pub(crate) fn git(root: &str, args: &[&str]) -> (res: Vec<String>)
    ensures
        views(res@) == git_cmd(root@, strs_view(args@)),
{
    let mut command = argv(&["git", "-C"]);
    command.push(owned(root));
    let rest = argv(args);
    let ghost head = views(command@);
    let mut i: usize = 0;
    while i < rest.len()
        invariant
            views(command@) == head + views(rest@).take(i as int),
            i <= rest@.len(),
        decreases rest@.len() - i,
    {
        let ghost before = command@;
        command.push(rest[i].clone());
        proof {
            assert(views(command@) =~= views(before).push(rest@[i as int]@));
            assert(views(rest@).take(i + 1) =~= views(rest@).take(i as int).push(rest@[i as int]@));
        }
        i += 1;
    }
    proof {
        assert(views(rest@).take(rest@.len() as int) =~= views(rest@));
        assert(strs_view(seq!["git", "-C"]) =~= seq!["git"@, "-C"@]);
    }
    command
}

// ---------------------------------------------------------------------------
// What is read from each command's output
// ---------------------------------------------------------------------------

/// The trimmed output of a successful command, or nothing.
pub open spec fn text_or_empty(r: RunResult) -> Seq<char> {
    if run_ok(r) {
        run_text(r)
    } else {
        Seq::empty()
    }
}

/// `rev-parse --show-toplevel`: the repo root, unless the command failed or
/// printed nothing.
pub open spec fn root_from(r: RunResult) -> Option<Seq<char>> {
    if run_ok(r) && run_text(r).len() != 0 {
        Some(run_text(r))
    } else {
        None
    }
}

pub open spec fn heads_prefix() -> Seq<char> {
    "ref: refs/heads/"@
}

/// The branch named by the first `ref: refs/heads/<branch>` line of
/// `ls-remote --symref` output, or nothing.
pub open spec fn symref_default(ls: Seq<Seq<char>>) -> Seq<char>
    decreases ls.len(),
{
    if ls.len() == 0 {
        Seq::empty()
    } else {
        match strip_prefix(ls[0], heads_prefix()) {
            Some(rest) => match first_word(rest) {
                Some(branch) => branch,
                None => symref_default(ls.drop_first()),
            },
            None => symref_default(ls.drop_first()),
        }
    }
}

/// The default branch the remote names, asked with `ls-remote --symref`.
pub open spec fn remote_default_from(r: RunResult) -> Seq<char> {
    if !run_ok(r) {
        Seq::empty()
    } else {
        symref_default(lines(r.stdout@))
    }
}

/// The local `origin/HEAD` guess, when it is set: `symbolic-ref` succeeded
/// and printed `origin/<branch>`.
pub open spec fn local_default_from(r: RunResult) -> Option<Seq<char>> {
    if run_ok(r) {
        strip_prefix(run_text(r), "origin/"@)
    } else {
        None
    }
}

/// The default branch: the local `origin/HEAD` guess, or else what the remote
/// names (`fallback` is the outcome of asking the remote).
pub open spec fn default_branch_from(local: RunResult, fallback: RunResult) -> Seq<char> {
    match local_default_from(local) {
        Some(branch) => branch,
        None => remote_default_from(fallback),
    }
}

/// `remote get-url origin` names a GitHub host.
pub open spec fn github_from(r: RunResult) -> bool {
    run_ok(r) && contains(run_text(r), "github.com"@)
}

/// `rev-parse --git-dir --git-common-dir` printed two different directories.
pub open spec fn linked_from(r: RunResult) -> bool {
    run_ok(r) && lines(r.stdout@).len() == 2 && trim(lines(r.stdout@)[0]) != trim(
        lines(r.stdout@)[1],
    )
}

/// `status --porcelain` failed or listed changes.
pub open spec fn dirty_from(r: RunResult) -> bool {
    !run_ok(r) || trim(r.stdout@).len() != 0
}

pub open spec fn is_tab(c: char) -> bool {
    c == '\t'
}

/// The ref field of an `ls-remote` line (`<sha>\t<ref>`): what follows its
/// first tab; nothing when the line has no tab.
pub open spec fn ref_field(line: Seq<char>) -> Option<Seq<char>> {
    let k = first_where(line, |c: char| is_tab(c));
    if k < line.len() {
        Some(line.skip(k + 1 as int))
    } else {
        None
    }
}

/// Any origin URL that names `github.com` anywhere in it (SSH, HTTPS, or
/// any other form) makes the origin GitHub when `remote get-url` succeeds;
/// and the origin is GitHub only then.
pub proof fn lemma_github_origin_any_form(r: RunResult, before: Seq<char>, after: Seq<char>)
    ensures
        run_ok(r) && run_text(r) == before + "github.com"@ + after ==> github_from(r),
        github_from(r) ==> run_ok(r) && exists|i: int|
            0 <= i && i + 10 <= run_text(r).len() && #[trigger] run_text(r).subrange(i, i + 10)
                == "github.com"@,
{
    reveal_strlit("github.com");
    if run_ok(r) && run_text(r) == before + "github.com"@ + after {
        let t = run_text(r);
        let i = before.len() as int;
        assert(t.subrange(i, i + 10) =~= "github.com"@);
        assert(occurs_at(t, "github.com"@, i));
    }
    if github_from(r) {
        let t = run_text(r);
        let i = choose|i: int| occurs_at(t, "github.com"@, i);
        assert(t.subrange(i, i + 10) == "github.com"@);
    }
}

/// A successful `status --porcelain` shows a dirty tree exactly when it
/// printed any non-whitespace character, whatever its lines start with
/// (untracked `??` files included); a failed one counts as dirty.
pub proof fn lemma_dirty_when_anything_listed(r: RunResult)
    ensures
        run_ok(r) ==> (dirty_from(r) <==> exists|i: int|
            0 <= i < r.stdout@.len() && !is_ws(#[trigger] r.stdout@[i])),
        !run_ok(r) ==> dirty_from(r),
{
    lemma_trim_empty_iff_all_ws(r.stdout@);
}

/// One step of reading `ls-remote --symref origin HEAD refs/heads/<branch>`:
/// a symref line names the default branch; any other line whose ref field is
/// exactly the branch's ref shows that the branch exists.
pub open spec fn probe_step(acc: (bool, Seq<char>), line: Seq<char>, reference: Seq<char>) -> (
    bool,
    Seq<char>,
) {
    match strip_prefix(line, heads_prefix()) {
        Some(rest) => match first_word(rest) {
            Some(branch) => (acc.0, branch),
            None => acc,
        },
        None => if ref_field(line) == Some(reference) {
            (true, acc.1)
        } else {
            acc
        },
    }
}

/// What the probe learns from all lines, read in order.
pub open spec fn probe_lines(ls: Seq<Seq<char>>, reference: Seq<char>) -> (bool, Seq<char>)
    decreases ls.len(),
{
    if ls.len() == 0 {
        (false, Seq::empty())
    } else {
        probe_step(probe_lines(ls.drop_last(), reference), ls.last(), reference)
    }
}

/// The repo root is the trimmed output of a successful `rev-parse`, taken as
/// is whenever it holds any non-whitespace character; there is none when
/// the command failed or printed only whitespace.
pub proof fn lemma_root_is_printed_path(r: RunResult)
    ensures
        run_ok(r) && (exists|i: int| 0 <= i < r.stdout@.len() && !is_ws(#[trigger] r.stdout@[i]))
            ==> root_from(r) == Some(trim(r.stdout@)),
        root_from(r) is Some ==> run_ok(r) && (exists|i: int|
            0 <= i < r.stdout@.len() && !is_ws(#[trigger] r.stdout@[i])),
        !run_ok(r) ==> root_from(r) is None,
{
    lemma_trim_empty_iff_all_ws(r.stdout@);
}

/// The local `origin/HEAD` guess is whatever follows `origin/` in the
/// trimmed output of a successful `symbolic-ref`, any branch name at all.
pub proof fn lemma_local_default_is_suffix(r: RunResult, branch: Seq<char>)
    ensures
        run_ok(r) && run_text(r) == "origin/"@ + branch ==> local_default_from(r) == Some(branch),
        local_default_from(r) matches Some(b) ==> run_ok(r) && run_text(r) == "origin/"@ + b,
{
    reveal_strlit("origin/");
    if run_ok(r) && run_text(r) == "origin/"@ + branch {
        let t = run_text(r);
        assert(t.take(7) =~= "origin/"@);
        assert(t.skip(7) =~= branch);
    }
    if local_default_from(r) is Some {
        let t = run_text(r);
        let b = local_default_from(r)->0;
        assert(t =~= t.take(7) + t.skip(7));
    }
}

/// A line of `ls-remote` output that shows the ref exists: it is not the
/// symref line, and its ref field is exactly the ref.
pub open spec fn shows_ref(line: Seq<char>, reference: Seq<char>) -> bool {
    strip_prefix(line, heads_prefix()) is None && ref_field(line) == Some(reference)
}

/// The probe finds the branch exactly when some line, wherever it stands,
/// shows its ref; the order of the lines does not matter for that.
pub proof fn lemma_probe_finds_branch(ls: Seq<Seq<char>>, reference: Seq<char>)
    ensures
        probe_lines(ls, reference).0 <==> exists|i: int|
            0 <= i < ls.len() && #[trigger] shows_ref(ls[i], reference),
    decreases ls.len(),
{
    if ls.len() > 0 {
        let init = ls.drop_last();
        lemma_probe_finds_branch(init, reference);
        let last = ls.len() - 1;
        assert(ls.last() == ls[last]);
        assert(probe_lines(ls, reference) == probe_step(probe_lines(init, reference), ls.last(), reference));
        assert(probe_lines(ls, reference).0 == (probe_lines(init, reference).0 || shows_ref(ls[last], reference)));
        if exists|i: int| 0 <= i < init.len() && #[trigger] shows_ref(init[i], reference) {
            let i = choose|i: int| 0 <= i < init.len() && #[trigger] shows_ref(init[i], reference);
            assert(ls[i] == init[i]);
        }
        if exists|i: int| 0 <= i < ls.len() && #[trigger] shows_ref(ls[i], reference) {
            let i = choose|i: int| 0 <= i < ls.len() && #[trigger] shows_ref(ls[i], reference);
            if i < init.len() {
                assert(init[i] == ls[i]);
            }
        }
    }
}

/// `refs/heads/<branch>`
pub open spec fn heads_ref(branch: Seq<char>) -> Seq<char> {
    "refs/heads/"@ + branch
}

/// The probe: nothing when the remote could not be reached.
pub open spec fn probe_from(r: RunResult, branch: Seq<char>) -> Option<(bool, Seq<char>)> {
    if run_ok(r) {
        Some(probe_lines(lines(r.stdout@), heads_ref(branch)))
    } else {
        None
    }
}

/// The first line of `text`, trimmed.
pub open spec fn first_line_of(text: Seq<char>) -> Seq<char> {
    if lines(text).len() == 0 {
        Seq::empty()
    } else {
        trim(lines(text)[0])
    }
}

/// Why switching failed, if it did: `checkout` is the outcome of
/// `git checkout`, `pull` that of `git pull --ff-only`.
pub open spec fn checkout_error_from(
    default: Seq<char>,
    checkout: RunResult,
    pull: RunResult,
) -> Option<Seq<char>> {
    if !run_ok(checkout) {
        Some("checkout failed: "@ + first_line_of(checkout.stderr@))
    } else if !run_ok(pull) {
        Some("checked out "@ + default + ", but pull failed: "@ + first_line_of(pull.stderr@))
    } else {
        None
    }
}

/// The repo root of `cwd`, read from a `rev-parse --show-toplevel` result.
pub fn repo_root_from(result: &RunResult) -> (res: Option<String>)
    ensures
        opt_view(res) == root_from(*result),
{
    let text = result.text();
    if result.ok() && !text.as_str().is_empty() {
        Some(text)
    } else {
        None
    }
}

/// The trimmed output of a successful command, or the empty string.
pub fn text_or_empty_from(result: &RunResult) -> (res: String)
    ensures
        res@ == text_or_empty(*result),
{
    if result.ok() {
        result.text()
    } else {
        String::new()
    }
}

/// The default branch named by `ls-remote --symref` output.
pub fn remote_default_branch_from(result: &RunResult) -> (res: String)
    ensures
        res@ == remote_default_from(*result),
{
    if !result.ok() {
        return String::new();
    }
    let ls = lines_of(result.stdout.as_str());
    let ghost all = lines(result.stdout@);
    let mut i: usize = 0;
    proof {
        assert(all.skip(0) =~= all);
    }
    while i < ls.len()
        invariant
            views(ls@) == all,
            all == lines(result.stdout@),
            run_ok(*result),
            i <= ls@.len(),
            symref_default(all) == symref_default(all.skip(i as int)),
        decreases ls@.len() - i,
    {
        let ghost rest_lines = all.skip(i as int);
        proof {
            assert(rest_lines[0] == ls@[i as int]@);
            assert(rest_lines.drop_first() =~= all.skip(i + 1));
        }
        if let Some(rest) = strip_prefix_str(ls[i].as_str(), "ref: refs/heads/") {
            if let Some(branch) = first_word_str(rest.as_str()) {
                proof {
                    assert(strip_prefix(rest_lines[0], heads_prefix()) == Some(rest@));
                    assert(symref_default(rest_lines) == branch@);
                }
                return branch;
            }
        }
        i += 1;
    }
    proof {
        assert(all.skip(i as int) =~= Seq::<Seq<char>>::empty());
    }
    String::new()
}

/// The local `origin/HEAD` guess read from a `symbolic-ref` result.
pub fn local_default_branch_from(result: &RunResult) -> (res: Option<String>)
    ensures
        opt_view(res) == local_default_from(*result),
{
    if result.ok() {
        let text = result.text();
        strip_prefix_str(text.as_str(), "origin/")
    } else {
        None
    }
}

/// Whether a `remote get-url origin` result names GitHub.
pub fn github_origin_from(result: &RunResult) -> (res: bool)
    ensures
        res == github_from(*result),
{
    if !result.ok() {
        return false;
    }
    let text = result.text();
    contains_str(text.as_str(), "github.com")
}

/// Whether a `rev-parse --git-dir --git-common-dir` result shows a linked
/// worktree.
pub fn linked_worktree_from(result: &RunResult) -> (res: bool)
    ensures
        res == linked_from(*result),
{
    if !result.ok() {
        return false;
    }
    let ls = lines_of(result.stdout.as_str());
    if ls.len() != 2 {
        return false;
    }
    let first = trim_str(ls[0].as_str());
    let second = trim_str(ls[1].as_str());
    proof {
        assert(views(ls@)[0] == ls@[0]@);
        assert(views(ls@)[1] == ls@[1]@);
    }
    !same_text(first.as_str(), second.as_str())
}

/// Whether a `status --porcelain` result shows a dirty tree.
pub fn dirty_from_result(result: &RunResult) -> (res: bool)
    ensures
        res == dirty_from(*result),
{
    let text = trim_str(result.stdout.as_str());
    !result.ok() || !text.as_str().is_empty()
}

/// One remote round-trip answering both "does the branch still exist" and
/// "what is the authoritative default branch". The local `origin/HEAD` guess
/// can be stale (e.g. after a default-branch rename), so checkout targets
/// must come from here, never from the local symbolic ref.
#[derive(Debug, Clone, PartialEq, Eq)]
pub struct RemoteProbe {
    pub branch_exists: bool,
    pub default_branch: String,
}

impl View for RemoteProbe {
    type V = (bool, Seq<char>);

    open spec fn view(&self) -> (bool, Seq<char>) {
        (self.branch_exists, self.default_branch@)
    }
}

pub open spec fn probe_opt_view(o: Option<RemoteProbe>) -> Option<(bool, Seq<char>)> {
    match o {
        Some(p) => Some(p@),
        None => None,
    }
}

/// The ref field of an `ls-remote` line, if it has one.
fn ref_field_str(line: &str) -> (res: Option<String>)
    ensures
        opt_view(res) == ref_field(line@),
{
    let cs = chars_of(line);
    let n = cs.len();
    let mut k: usize = 0;
    while k < n && cs[k] != '\t'
        invariant
            n == cs@.len(),
            cs@ == line@,
            k <= n,
            forall|j: int| 0 <= j < k ==> !is_tab(#[trigger] cs@[j]),
        decreases n - k,
    {
        k += 1;
    }
    proof {
        lemma_first_where_is(line@, |c: char| is_tab(c), k as int);
    }
    if k < n {
        Some(slice_chars(line, k + 1, n))
    } else {
        None
    }
}

/// The probe read from an `ls-remote --symref origin HEAD refs/heads/<branch>`
/// result; nothing when the command failed.
pub fn remote_probe_from(result: &RunResult, branch: &str) -> (res: Option<RemoteProbe>)
    ensures
        probe_opt_view(res) == probe_from(*result, branch@),
{
    if !result.ok() {
        return None;
    }
    let reference = concat2("refs/heads/", branch);
    let ls = lines_of(result.stdout.as_str());
    let ghost all = lines(result.stdout@);
    let mut probe = RemoteProbe { branch_exists: false, default_branch: String::new() };
    let mut i: usize = 0;
    proof {
        assert(all.take(0) =~= Seq::<Seq<char>>::empty());
    }
    while i < ls.len()
        invariant
            views(ls@) == all,
            i <= ls@.len(),
            reference@ == heads_ref(branch@),
            probe@ == probe_lines(all.take(i as int), heads_ref(branch@)),
        decreases ls@.len() - i,
    {
        let ghost before = probe@;
        let line = ls[i].as_str();
        proof {
            assert(all.take(i + 1).drop_last() =~= all.take(i as int));
            assert(all.take(i + 1).last() == line@);
        }
        match strip_prefix_str(line, "ref: refs/heads/") {
            Some(rest) => {
                if let Some(default) = first_word_str(rest.as_str()) {
                    probe.default_branch = default;
                }
            },
            None => {
                if let Some(field) = ref_field_str(line) {
                    if same_text(field.as_str(), reference.as_str()) {
                        probe.branch_exists = true;
                    }
                }
            },
        }
        i += 1;
    }
    proof {
        assert(all.take(ls@.len() as int) =~= all);
    }
    Some(probe)
}

/// The first line of `text`, trimmed.
pub fn first_line(text: &str) -> (res: String)
    ensures
        res@ == first_line_of(text@),
{
    let ls = lines_of(text);
    if ls.len() == 0 {
        String::new()
    } else {
        proof {
            assert(views(ls@)[0] == ls@[0]@);
        }
        trim_str(ls[0].as_str())
    }
}

/// Why switching failed, read from the `checkout` and `pull` results.
pub fn checkout_error(default: &str, checkout: &RunResult, pull: &RunResult) -> (res: Option<
    String,
>)
    ensures
        opt_view(res) == checkout_error_from(default@, *checkout, *pull),
{
    if !checkout.ok() {
        let line = first_line(checkout.stderr.as_str());
        return Some(concat2("checkout failed: ", line.as_str()));
    }
    if !pull.ok() {
        let line = first_line(pull.stderr.as_str());
        return Some(concat4("checked out ", default, ", but pull failed: ", line.as_str()));
    }
    None
}

// ---------------------------------------------------------------------------
// The commands, and the functions that run them
// ---------------------------------------------------------------------------

pub open spec fn root_cmd(cwd: Seq<char>) -> Seq<Seq<char>> {
    git_cmd(cwd, seq!["rev-parse"@, "--show-toplevel"@])
}

pub open spec fn branch_cmd(root: Seq<char>) -> Seq<Seq<char>> {
    git_cmd(root, seq!["branch"@, "--show-current"@])
}

pub open spec fn symbolic_ref_cmd(root: Seq<char>) -> Seq<Seq<char>> {
    git_cmd(root, seq!["symbolic-ref"@, "--short"@, "refs/remotes/origin/HEAD"@])
}

pub open spec fn ls_remote_head_cmd(root: Seq<char>) -> Seq<Seq<char>> {
    git_cmd(root, seq!["ls-remote"@, "--symref"@, "origin"@, "HEAD"@])
}

pub open spec fn origin_url_cmd(root: Seq<char>) -> Seq<Seq<char>> {
    git_cmd(root, seq!["remote"@, "get-url"@, "origin"@])
}

pub open spec fn git_dirs_cmd(root: Seq<char>) -> Seq<Seq<char>> {
    git_cmd(root, seq!["rev-parse"@, "--git-dir"@, "--git-common-dir"@])
}

pub open spec fn status_cmd(root: Seq<char>) -> Seq<Seq<char>> {
    git_cmd(root, seq!["status"@, "--porcelain"@])
}

pub open spec fn tip_cmd(root: Seq<char>) -> Seq<Seq<char>> {
    git_cmd(root, seq!["rev-parse"@, "HEAD"@])
}

pub open spec fn remote_ref_cmd(root: Seq<char>, branch: Seq<char>) -> Seq<Seq<char>> {
    git_cmd(root, seq!["rev-parse"@, "refs/remotes/origin/"@ + branch])
}

pub open spec fn probe_cmd(root: Seq<char>, branch: Seq<char>) -> Seq<Seq<char>> {
    git_cmd(root, seq!["ls-remote"@, "--symref"@, "origin"@, "HEAD"@, heads_ref(branch)])
}

pub open spec fn checkout_cmd(root: Seq<char>, default: Seq<char>) -> Seq<Seq<char>> {
    git_cmd(root, seq!["checkout"@, default])
}

pub open spec fn pull_cmd(root: Seq<char>) -> Seq<Seq<char>> {
    git_cmd(root, seq!["pull"@, "--ff-only"@])
}

/// The git repo root that `cwd` belongs to, if any.
pub fn repo_root<R: Runner>(run: &mut Session<R>, cwd: &str) -> (res: Option<String>)
    ensures
        final(run).runner() == old(run).runner(),
        final(run).calls() == old(run).calls().push((root_cmd(cwd@), None)),
        exists|r: RunResult|
            #[trigger] old(run).runner().outcome(root_cmd(cwd@), None, r) && opt_view(res) == root_from(r),
{
    let command = git(cwd, &["rev-parse", "--show-toplevel"]);
    let result = run.run(command.as_slice(), None);
    let res = repo_root_from(&result);
    assert(views(command@) =~= root_cmd(cwd@));
    assert(run.runner().outcome(root_cmd(cwd@), None, result));
    res
}

/// The checked-out branch, or the empty string (detached HEAD or error).
pub fn current_branch<R: Runner>(run: &mut Session<R>, root: &str) -> (res: String)
    ensures
        final(run).runner() == old(run).runner(),
        final(run).calls() == old(run).calls().push((branch_cmd(root@), None)),
        exists|r: RunResult|
            #[trigger] old(run).runner().outcome(branch_cmd(root@), None, r) && res@ == text_or_empty(r),
{
    let command = git(root, &["branch", "--show-current"]);
    let result = run.run(command.as_slice(), None);
    let res = text_or_empty_from(&result);
    assert(views(command@) =~= branch_cmd(root@));
    assert(run.runner().outcome(branch_cmd(root@), None, result));
    res
}

/// Ask the remote directly when origin/HEAD was never set locally.
fn default_branch_from_remote<R: Runner>(run: &mut Session<R>, root: &str) -> (res: String)
    ensures
        final(run).runner() == old(run).runner(),
        final(run).calls() == old(run).calls().push((ls_remote_head_cmd(root@), None)),
        exists|r: RunResult|
            #[trigger] old(run).runner().outcome(ls_remote_head_cmd(root@), None, r) && res@
                == remote_default_from(r),
{
    let command = git(root, &["ls-remote", "--symref", "origin", "HEAD"]);
    let result = run.run(command.as_slice(), None);
    let res = remote_default_branch_from(&result);
    assert(views(command@) =~= ls_remote_head_cmd(root@));
    assert(run.runner().outcome(ls_remote_head_cmd(root@), None, result));
    res
}

/// `r1` is an outcome of `symbolic-ref`, and `r2` one of asking the remote,
/// which happens only when the local guess is not set.
pub open spec fn default_branch_outcomes<R: Runner>(
    run: &R,
    root: Seq<char>,
    r1: RunResult,
    r2: RunResult,
) -> bool {
    &&& run.outcome(symbolic_ref_cmd(root), None, r1)
    &&& local_default_from(r1) is None ==> run.outcome(ls_remote_head_cmd(root), None, r2)
}

/// The commands `default_branch` runs when `symbolic-ref` yields `r1`: the
/// remote is asked only when the local guess is not set.
pub open spec fn default_branch_calls(root: Seq<char>, r1: RunResult) -> Seq<Call> {
    if local_default_from(r1) is None {
        seq![(symbolic_ref_cmd(root), None::<Seq<char>>), (ls_remote_head_cmd(root), None::<Seq<char>>)]
    } else {
        seq![(symbolic_ref_cmd(root), None::<Seq<char>>)]
    }
}

/// The default branch: the local `origin/HEAD` guess, or what the remote
/// names when that guess was never set.
pub fn default_branch<R: Runner>(run: &mut Session<R>, root: &str) -> (res: String)
    ensures
        final(run).runner() == old(run).runner(),
        exists|r1: RunResult, r2: RunResult|
            #[trigger] default_branch_outcomes(old(run).runner(), root@, r1, r2) && res@
                == default_branch_from(r1, r2) && final(run).calls() == old(run).calls()
                + default_branch_calls(root@, r1),
{
    let ghost before = run.calls();
    let command = git(root, &["symbolic-ref", "--short", "refs/remotes/origin/HEAD"]);
    let result = run.run(command.as_slice(), None);
    assert(views(command@) =~= symbolic_ref_cmd(root@));
    assert(run.runner().outcome(symbolic_ref_cmd(root@), None, result));
    if let Some(branch) = local_default_branch_from(&result) {
        assert(default_branch_outcomes(run.runner(), root@, result, result));
        assert(branch@ == default_branch_from(result, result));
        assert(run.calls() =~= before + default_branch_calls(root@, result));
        return branch;
    }
    let res = default_branch_from_remote(run, root);
    let ghost r2 = choose|r: RunResult|
        #[trigger] run.runner().outcome(ls_remote_head_cmd(root@), None, r) && res@ == remote_default_from(r);
    assert(default_branch_outcomes(run.runner(), root@, result, r2));
    assert(res@ == default_branch_from(result, r2));
    assert(run.calls() =~= before + default_branch_calls(root@, result));
    res
}

/// Whether origin is a GitHub remote.
pub fn github_origin<R: Runner>(run: &mut Session<R>, root: &str) -> (res: bool)
    ensures
        final(run).runner() == old(run).runner(),
        final(run).calls() == old(run).calls().push((origin_url_cmd(root@), None)),
        exists|r: RunResult|
            #[trigger] old(run).runner().outcome(origin_url_cmd(root@), None, r) && res == github_from(r),
{
    let command = git(root, &["remote", "get-url", "origin"]);
    let result = run.run(command.as_slice(), None);
    let res = github_origin_from(&result);
    assert(views(command@) =~= origin_url_cmd(root@));
    assert(run.runner().outcome(origin_url_cmd(root@), None, result));
    res
}

/// Whether the checkout is a linked git worktree.
pub fn linked_worktree<R: Runner>(run: &mut Session<R>, root: &str) -> (res: bool)
    ensures
        final(run).runner() == old(run).runner(),
        final(run).calls() == old(run).calls().push((git_dirs_cmd(root@), None)),
        exists|r: RunResult|
            #[trigger] old(run).runner().outcome(git_dirs_cmd(root@), None, r) && res == linked_from(r),
{
    let command = git(root, &["rev-parse", "--git-dir", "--git-common-dir"]);
    let result = run.run(command.as_slice(), None);
    let res = linked_worktree_from(&result);
    assert(views(command@) =~= git_dirs_cmd(root@));
    assert(run.runner().outcome(git_dirs_cmd(root@), None, result));
    res
}

/// Whether the working tree has changes (or its status could not be read).
pub fn dirty<R: Runner>(run: &mut Session<R>, root: &str) -> (res: bool)
    ensures
        final(run).runner() == old(run).runner(),
        final(run).calls() == old(run).calls().push((status_cmd(root@), None)),
        exists|r: RunResult|
            #[trigger] old(run).runner().outcome(status_cmd(root@), None, r) && res == dirty_from(r),
{
    let command = git(root, &["status", "--porcelain"]);
    let result = run.run(command.as_slice(), None);
    let res = dirty_from_result(&result);
    assert(views(command@) =~= status_cmd(root@));
    assert(run.runner().outcome(status_cmd(root@), None, result));
    res
}

/// The commit HEAD points at, or the empty string.
pub fn tip_sha<R: Runner>(run: &mut Session<R>, root: &str) -> (res: String)
    ensures
        final(run).runner() == old(run).runner(),
        final(run).calls() == old(run).calls().push((tip_cmd(root@), None)),
        exists|r: RunResult|
            #[trigger] old(run).runner().outcome(tip_cmd(root@), None, r) && res@ == text_or_empty(r),
{
    let command = git(root, &["rev-parse", "HEAD"]);
    let result = run.run(command.as_slice(), None);
    let res = text_or_empty_from(&result);
    assert(views(command@) =~= tip_cmd(root@));
    assert(run.runner().outcome(tip_cmd(root@), None, result));
    res
}

/// The commit the last fetched `origin/<branch>` points at, or the empty
/// string.
pub fn last_known_remote_sha<R: Runner>(run: &mut Session<R>, root: &str, branch: &str) -> (res: String)
    ensures
        final(run).runner() == old(run).runner(),
        final(run).calls() == old(run).calls().push((remote_ref_cmd(root@, branch@), None)),
        exists|r: RunResult|
            #[trigger] old(run).runner().outcome(remote_ref_cmd(root@, branch@), None, r) && res@
                == text_or_empty(r),
{
    let reference = concat2("refs/remotes/origin/", branch);
    let command = git(root, &["rev-parse", reference.as_str()]);
    let result = run.run(command.as_slice(), None);
    let res = text_or_empty_from(&result);
    assert(views(command@) =~= remote_ref_cmd(root@, branch@));
    assert(run.runner().outcome(remote_ref_cmd(root@, branch@), None, result));
    res
}

/// None means the remote could not be reached; callers must not act on it.
pub fn remote_probe<R: Runner>(run: &mut Session<R>, root: &str, branch: &str) -> (res: Option<RemoteProbe>)
    ensures
        final(run).runner() == old(run).runner(),
        final(run).calls() == old(run).calls().push((probe_cmd(root@, branch@), None)),
        exists|r: RunResult|
            #[trigger] old(run).runner().outcome(probe_cmd(root@, branch@), None, r) && probe_opt_view(res)
                == probe_from(r, branch@),
{
    let reference = concat2("refs/heads/", branch);
    let command = git(root, &["ls-remote", "--symref", "origin", "HEAD", reference.as_str()]);
    let result = run.run(command.as_slice(), None);
    let res = remote_probe_from(&result, branch);
    assert(views(command@) =~= probe_cmd(root@, branch@));
    assert(run.runner().outcome(probe_cmd(root@, branch@), None, result));
    res
}

/// `c` is an outcome of `git checkout <default>`, and `p` one of
/// `git pull --ff-only`, which runs only after a successful checkout.
pub open spec fn checkout_outcomes<R: Runner>(
    run: &R,
    root: Seq<char>,
    default: Seq<char>,
    c: RunResult,
    p: RunResult,
) -> bool {
    &&& run.outcome(checkout_cmd(root, default), None, c)
    &&& run_ok(c) ==> run.outcome(pull_cmd(root), None, p)
}

/// The commands `checkout_default` runs when `git checkout` yields `c`:
/// `git pull --ff-only` follows only a successful checkout.
pub open spec fn checkout_calls(root: Seq<char>, default: Seq<char>, c: RunResult) -> Seq<Call> {
    if run_ok(c) {
        seq![(checkout_cmd(root, default), None::<Seq<char>>), (pull_cmd(root), None::<Seq<char>>)]
    } else {
        seq![(checkout_cmd(root, default), None::<Seq<char>>)]
    }
}

/// Switch to the default branch and fast-forward it. None on success.
pub fn checkout_default<R: Runner>(run: &mut Session<R>, root: &str, default: &str) -> (res: Option<String>)
    ensures
        final(run).runner() == old(run).runner(),
        exists|c: RunResult, p: RunResult|
            #[trigger] checkout_outcomes(old(run).runner(), root@, default@, c, p) && opt_view(res)
                == checkout_error_from(default@, c, p) && final(run).calls() == old(run).calls()
                + checkout_calls(root@, default@, c),
{
    let ghost before = run.calls();
    let command = git(root, &["checkout", default]);
    let checkout = run.run(command.as_slice(), None);
    assert(views(command@) =~= checkout_cmd(root@, default@));
    assert(run.runner().outcome(checkout_cmd(root@, default@), None, checkout));
    if !checkout.ok() {
        let res = checkout_error(default, &checkout, &checkout);
        assert(checkout_outcomes(run.runner(), root@, default@, checkout, checkout));
        assert(run.calls() =~= before + checkout_calls(root@, default@, checkout));
        return res;
    }
    let pull_command = git(root, &["pull", "--ff-only"]);
    let pull = run.run(pull_command.as_slice(), None);
    assert(views(pull_command@) =~= pull_cmd(root@));
    let res = checkout_error(default, &checkout, &pull);
    assert(checkout_outcomes(run.runner(), root@, default@, checkout, pull));
    assert(run.calls() =~= before + checkout_calls(root@, default@, checkout));
    res
}

/// The `headRefOid` of the first pull request in `gh pr list --json` output.
pub open spec fn pr_head_of(value: Option<Json>) -> Seq<char> {
    match value {
        Some(Json::Array(rows)) => if rows@.len() > 0 {
            match json_get_str(rows@[0], "headRefOid"@) {
                Some(sha) => sha,
                None => Seq::empty(),
            }
        } else {
            Seq::empty()
        },
        _ => Seq::empty(),
    }
}

/// The head commit of the merged pull request in a parsed `gh` reply, or the
/// empty string when the reply is not a list whose first entry names one.
pub fn pr_head_of_value(value: &Option<Json>) -> (res: String)
    ensures
        res@ == pr_head_of(*value),
{
    match value {
        Some(Json::Array(rows)) => {
            if rows.len() > 0 {
                match get_str(&rows[0], "headRefOid") {
                    Some(sha) => owned(sha),
                    None => String::new(),
                }
            } else {
                String::new()
            }
        },
        _ => String::new(),
    }
}

/// The head commit of the merged pull request named in `gh` output, or the
/// empty string when the output is not that.
pub fn parse_pr_head(payload: &str) -> (res: String)
    ensures
        res@ == pr_head_of(json_text_value(payload@)),
{
    let value = parse_json(payload);
    pr_head_of_value(&value)
}

/// The merged pull request's head, read from a `gh pr list` result.
pub open spec fn pr_head_from(r: RunResult) -> Seq<char> {
    if run_ok(r) {
        pr_head_of(json_text_value(r.stdout@))
    } else {
        Seq::empty()
    }
}

/// `gh pr list --head <branch> --state merged --json headRefOid --limit 1`
pub open spec fn pr_list_cmd(branch: Seq<char>) -> Seq<Seq<char>> {
    seq![
        "gh"@,
        "pr"@,
        "list"@,
        "--head"@,
        branch,
        "--state"@,
        "merged"@,
        "--json"@,
        "headRefOid"@,
        "--limit"@,
        "1"@,
    ]
}

/// The head commit of the merged pull request for `branch`, asked from `gh`
/// in the repo's directory; the empty string when there is none.
pub fn merged_pr_head_sha<R: Runner>(run: &mut Session<R>, root: &str, branch: &str) -> (res: String)
    ensures
        final(run).runner() == old(run).runner(),
        final(run).calls() == old(run).calls().push((pr_list_cmd(branch@), Some(root@))),
        exists|r: RunResult|
            #[trigger] old(run).runner().outcome(pr_list_cmd(branch@), Some(root@), r) && res@ == pr_head_from(
                r,
            ),
{
    let command = argv(
        &[
            "gh",
            "pr",
            "list",
            "--head",
            branch,
            "--state",
            "merged",
            "--json",
            "headRefOid",
            "--limit",
            "1",
        ],
    );
    let result = run.run(command.as_slice(), Some(root));
    assert(views(command@) =~= pr_list_cmd(branch@));
    assert(run.runner().outcome(pr_list_cmd(branch@), Some(root@), result));
    if !result.ok() {
        return String::new();
    }
    parse_pr_head(result.stdout.as_str())
}

} // verus!
