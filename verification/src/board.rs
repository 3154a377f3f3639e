//! Render the sweep status as a small text board for the plugin pane.
//!
//! The status is read from the status file by the application, which also
//! works out how long ago the last sweep ran; rendering is here.

use vstd::prelude::*;
use vstd::string::*;

use crate::json::{get_str, json_get, json_get_str, Json};
use crate::sweep::{is_status, is_status_row, ReportV, Settings};
use crate::text::{chars_of, concat2, decimal, decimal_string, owned, same_text, slice_chars};

verus! {

/// The glyph for a report's action.
pub open spec fn glyph_of(action: Seq<char>) -> Seq<char> {
    if action == "checkout"@ {
        "✓"@
    } else if action == "hold"@ {
        "⏸"@
    } else if action == "skip"@ {
        "·"@
    } else {
        "?"@
    }
}

/// `path` if it has at most `limit` characters, else `…` and its last
/// `limit - 1` characters.
pub open spec fn shorten_of(path: Seq<char>, limit: nat) -> Seq<char> {
    if path.len() <= limit {
        path
    } else {
        "…"@ + path.skip(path.len() - (limit - 1))
    }
}

/// A string member of a row, or the empty string.
pub open spec fn field_of(row: Json, key: Seq<char>) -> Seq<char> {
    match json_get_str(row, key) {
        Some(s) => s,
        None => Seq::empty(),
    }
}

/// One row of the board: ` <glyph> <root>  [<branch>]  <reason>`.
pub open spec fn report_line_of(row: Json) -> Seq<char> {
    let branch = field_of(row, "branch"@);
    let label = if branch.len() == 0 {
        "(detached)"@
    } else {
        branch
    };
    " "@ + glyph_of(field_of(row, "action"@)) + " "@ + shorten_of(field_of(row, "root"@), 40)
        + "  ["@ + label + "]  "@ + field_of(row, "reason"@)
}

/// `ls` joined by `sep`.
pub open spec fn join(ls: Seq<Seq<char>>, sep: Seq<char>) -> Seq<char>
    decreases ls.len(),
{
    if ls.len() == 0 {
        Seq::empty()
    } else if ls.len() == 1 {
        ls[0]
    } else {
        join(ls.drop_last(), sep) + sep + ls.last()
    }
}

pub open spec fn flag_set(status: Json, key: Seq<char>) -> bool {
    json_get(status, key) == Some(Json::Bool(true))
}

/// The modes in force, when any is.
pub open spec fn mode_line_of(status: Json) -> Option<Seq<char>> {
    let dry: Seq<Seq<char>> = if flag_set(status, "dry_run"@) {
        seq!["dry run"@]
    } else {
        Seq::empty()
    };
    let modes = if flag_set(status, "notify_only"@) {
        dry.push("notify only"@)
    } else {
        dry
    };
    if modes.len() == 0 {
        None
    } else {
        Some(" mode: "@ + join(modes, ", "@))
    }
}

/// The report rows of a status: its `reports` array, or none.
pub open spec fn report_rows(status: Json) -> Seq<Json> {
    match json_get(status, "reports"@) {
        Some(Json::Array(rows)) => rows@,
        _ => Seq::empty(),
    }
}

pub open spec fn age_line_of(age: nat) -> Seq<char> {
    " last sweep "@ + decimal(age) + "s ago · ctrl+c to close"@
}

/// The lines of the board for a status (none before the first sweep) whose
/// last sweep was `age` seconds ago, when that is known.
pub open spec fn board_lines(status: Option<Json>, age: Option<u64>) -> Seq<Seq<char>> {
    let head = seq!["herdr-branch-cleanup"@, Seq::<char>::empty()];
    match status {
        None => head.push(" no sweep has run yet"@),
        Some(st) => {
            let with_mode = match mode_line_of(st) {
                Some(m) => head.push(m),
                None => head,
            };
            let rows = report_rows(st);
            let with_empty = if rows.len() == 0 {
                with_mode.push(" no git repos in any pane"@)
            } else {
                with_mode
            };
            let with_rows = with_empty + rows.map_values(|r: Json| report_line_of(r));
            match age {
                Some(a) => with_rows.push(Seq::<char>::empty()).push(age_line_of(a as nat)),
                None => with_rows,
            }
        },
    }
}

fn glyph(action: &str) -> (res: &'static str)
    ensures
        res@ == glyph_of(action@),
{
    if same_text(action, "checkout") {
        "✓"
    } else if same_text(action, "hold") {
        "⏸"
    } else if same_text(action, "skip") {
        "·"
    } else {
        "?"
    }
}

/// Keep the tail of a long path: `…` and its last `limit - 1` characters.
pub fn shorten(path: &str, limit: usize) -> (res: String)
    requires
        limit > 0 || path@.len() == 0,
    ensures
        res@ == shorten_of(path@, limit as nat),
{
    let n = path.unicode_len();
    if n <= limit {
        return owned(path);
    }
    let tail = slice_chars(path, n - (limit - 1), n);
    assert(tail@ == path@.skip(path@.len() - (limit - 1)));
    concat2("…", tail.as_str())
}

/// A shortened path never has more than `limit` characters, and it ends
/// with the path's own last characters.
pub proof fn lemma_shorten_fits(path: Seq<char>, limit: nat)
    requires
        limit > 0,
    ensures
        shorten_of(path, limit).len() <= limit,
        path.len() > limit ==> shorten_of(path, limit).len() == limit
            && shorten_of(path, limit).skip(1) == path.skip(path.len() - (limit - 1)),
        path.len() <= limit ==> shorten_of(path, limit) == path,
{
    reveal_strlit("…");
    if path.len() > limit {
        let out = shorten_of(path, limit);
        assert(out.skip(1) =~= path.skip(path.len() - (limit - 1)));
    }
}

fn field<'a>(row: &'a Json, key: &str) -> (res: &'a str)
    ensures
        res@ == field_of(*row, key@),
{
    match get_str(row, key) {
        Some(s) => s,
        None => {
            proof {
                reveal_strlit("");
            }
            ""
        },
    }
}

fn render_report(row: &Json) -> (res: String)
    ensures
        res@ == report_line_of(*row),
{
    let action = field(row, "action");
    let root = shorten(field(row, "root"), 40);
    let branch = field(row, "branch");
    let branch_label = if branch.is_empty() {
        "(detached)"
    } else {
        branch
    };
    let reason = field(row, "reason");
    let mut line = owned(" ");
    line.append(glyph(action));
    line.append(" ");
    line.append(root.as_str());
    line.append("  [");
    line.append(branch_label);
    line.append("]  ");
    line.append(reason);
    line
}

/// `ls` joined by `sep`.
pub fn join_lines(ls: &Vec<String>, sep: &str) -> (res: String)
    ensures
        res@ == join(crate::text::views(ls@), sep@),
{
    let ghost v = crate::text::views(ls@);
    let mut res = String::new();
    let mut i: usize = 0;
    while i < ls.len()
        invariant
            v == crate::text::views(ls@),
            i <= ls@.len(),
            res@ == join(v.take(i as int), sep@),
        decreases ls@.len() - i,
    {
        proof {
            assert(v.take(i + 1).drop_last() =~= v.take(i as int));
            assert(v.take(i + 1).last() == ls@[i as int]@);
            if i == 0 {
                assert(v.take(1)[0] == ls@[0]@);
            }
        }
        if i > 0 {
            res.append(sep);
        }
        res.append(ls[i].as_str());
        proof {
            if i == 0 {
                assert(res@ =~= ls@[0]@);
            }
        }
        i += 1;
    }
    proof {
        assert(v.take(ls@.len() as int) =~= v);
    }
    res
}

fn flag(status: &Json, key: &str) -> (res: bool)
    ensures
        res == flag_set(*status, key@),
{
    match status.get(key) {
        Some(Json::Bool(b)) => *b,
        _ => false,
    }
}

fn mode_line(status: &Json) -> (res: Option<String>)
    ensures
        match res {
            Some(m) => mode_line_of(*status) == Some(m@),
            None => mode_line_of(*status) is None,
        },
{
    let mut modes: Vec<String> = Vec::new();
    if flag(status, "dry_run") {
        modes.push(owned("dry run"));
    }
    if flag(status, "notify_only") {
        modes.push(owned("notify only"));
    }
    proof {
        let dry: Seq<Seq<char>> = if flag_set(*status, "dry_run"@) {
            seq!["dry run"@]
        } else {
            Seq::empty()
        };
        let expect = if flag_set(*status, "notify_only"@) {
            dry.push("notify only"@)
        } else {
            dry
        };
        assert(crate::text::views(modes@) =~= expect);
    }
    if modes.len() == 0 {
        None
    } else {
        let joined = join_lines(&modes, ", ");
        Some(concat2(" mode: ", joined.as_str()))
    }
}

fn age_line(age: u64) -> (res: String)
    ensures
        res@ == age_line_of(age as nat),
{
    let mut line = owned(" last sweep ");
    let secs = decimal_string(age);
    line.append(secs.as_str());
    line.append("s ago · ctrl+c to close");
    line
}

/// The board for a status (none before the first sweep), with a footer
/// saying how many seconds ago the last sweep ran when that is known.
pub fn render(status: Option<&Json>, age: Option<u64>) -> (res: String)
    ensures
        res@ == join(
            board_lines(
                match status {
                    Some(s) => Some(*s),
                    None => None,
                },
                age,
            ),
            "\n"@,
        ),
{
    let mut lines: Vec<String> = Vec::new();
    lines.push(owned("herdr-branch-cleanup"));
    lines.push(String::new());
    let st = match status {
        None => {
            lines.push(owned(" no sweep has run yet"));
            proof {
                assert(crate::text::views(lines@) =~= board_lines(None, age));
            }
            return join_lines(&lines, "\n");
        },
        Some(s) => s,
    };
    let ghost head = crate::text::views(lines@);
    assert(head =~= seq!["herdr-branch-cleanup"@, Seq::<char>::empty()]);
    if let Some(mode) = mode_line(st) {
        lines.push(mode);
        assert(crate::text::views(lines@) =~= head.push(mode@));
    }
    let ghost after_mode = crate::text::views(lines@);
    assert(after_mode == match mode_line_of(*st) {
        Some(m) => head.push(m),
        None => head,
    });
    let empty: Vec<Json> = Vec::new();
    let rows: &Vec<Json> = match st.get("reports") {
        Some(Json::Array(rows)) => rows,
        _ => &empty,
    };
    assert(rows@ == report_rows(*st));
    if rows.len() == 0 {
        lines.push(owned(" no git repos in any pane"));
        assert(crate::text::views(lines@) =~= after_mode.push(" no git repos in any pane"@));
    }
    let ghost base = crate::text::views(lines@);
    assert(base == if rows@.len() == 0 {
        after_mode.push(" no git repos in any pane"@)
    } else {
        after_mode
    });
    let mut i: usize = 0;
    while i < rows.len()
        invariant
            i <= rows@.len(),
            crate::text::views(lines@) == base + rows@.take(i as int).map_values(
                |r: Json| report_line_of(r),
            ),
        decreases rows@.len() - i,
    {
        let line = render_report(&rows[i]);
        let ghost before = crate::text::views(lines@);
        lines.push(line);
        proof {
            assert(crate::text::views(lines@) =~= before.push(line@));
            assert(rows@.take(i + 1).map_values(|r: Json| report_line_of(r)) =~= rows@.take(
                i as int,
            ).map_values(|r: Json| report_line_of(r)).push(report_line_of(rows@[i as int])));
        }
        i += 1;
    }
    proof {
        assert(rows@.take(rows@.len() as int) =~= rows@);
    }
    let ghost with_rows = crate::text::views(lines@);
    assert(with_rows == base + rows@.map_values(|r: Json| report_line_of(r)));
    if let Some(a) = age {
        lines.push(String::new());
        let footer = age_line(a);
        lines.push(footer);
        assert(crate::text::views(lines@) =~= with_rows.push(Seq::<char>::empty()).push(footer@));
    }
    proof {
        let expect = board_lines(Some(*st), age);
        assert(crate::text::views(lines@) =~= expect);
    }
    join_lines(&lines, "\n")
}

/// What one frame of the board pane shows: clear the screen, then the board.
pub fn board_frame(status: Option<&Json>, age: Option<u64>) -> (res: String)
    ensures
        res@ == "\x1b[2J\x1b[H"@ + join(
            board_lines(
                match status {
                    Some(s) => Some(*s),
                    None => None,
                },
                age,
            ),
            "\n"@,
        ),
{
    let board = render(status, age);
    concat2("\x1b[2J\x1b[H", board.as_str())
}

/// A loop that may run at most `max` times (forever when `max` is none) has
/// run `count` times and stops.
pub fn reached_limit(count: u64, max: Option<u64>) -> (res: bool)
    ensures
        res == (match max {
            Some(m) => count >= m,
            None => false,
        }),
{
    match max {
        Some(m) => count >= m,
        None => false,
    }
}

/// The board row of a report: its glyph, its shortened root, its branch (or
/// `(detached)`) and its reason.
pub open spec fn board_row_of_report(r: ReportV) -> Seq<char> {
    let label = if r.1.len() == 0 {
        "(detached)"@
    } else {
        r.1
    };
    " "@ + glyph_of(r.3) + " "@ + shorten_of(r.0, 40) + "  ["@ + label + "]  "@ + r.4
}

/// What the board shows of a status that a sweep wrote: one row per report,
/// in order, each built from that report, and the mode line of the settings.
pub proof fn lemma_board_shows_status(status: Json, reports: Seq<ReportV>, settings: Settings)
    requires
        is_status(status, reports, settings),
    ensures
        report_rows(status).len() == reports.len(),
        forall|i: int|
            0 <= i < reports.len() ==> report_line_of(#[trigger] report_rows(status)[i])
                == board_row_of_report(reports[i]),
        mode_line_of(status) is Some <==> settings.dry_run || settings.notify_only,
        settings.dry_run && !settings.notify_only ==> mode_line_of(status) == Some(
            " mode: "@ + "dry run"@,
        ),
        settings.dry_run && settings.notify_only ==> mode_line_of(status) == Some(
            " mode: "@ + "dry run"@ + ", "@ + "notify only"@,
        ),
        !settings.dry_run && settings.notify_only ==> mode_line_of(status) == Some(
            " mode: "@ + "notify only"@,
        ),
{
    assert forall|i: int| 0 <= i < reports.len() implies report_line_of(
        #[trigger] report_rows(status)[i],
    ) == board_row_of_report(reports[i]) by {
        assert(is_status_row(report_rows(status)[i], reports[i]));
    }
    let two = seq!["dry run"@, "notify only"@];
    assert(two.drop_last() =~= seq!["dry run"@]);
    assert(seq!["dry run"@].push("notify only"@) =~= two);
    assert(Seq::<Seq<char>>::empty().push("notify only"@) =~= seq!["notify only"@]);
    assert(join(seq!["dry run"@], ", "@) == "dry run"@);
    assert(join(two, ", "@) == "dry run"@ + ", "@ + "notify only"@);
    assert(" mode: "@ + ("dry run"@ + ", "@ + "notify only"@) =~= " mode: "@ + "dry run"@ + ", "@
        + "notify only"@);
}

} // verus!
