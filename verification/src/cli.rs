//! Configuration and command names for the plugin entrypoints.
//!
//! Environment variables and the plugin's `config.env` file are read by the
//! application and handed over as `EnvMap`s; what they mean is decided here.

use vstd::prelude::*;
use vstd::string::*;

use crate::sweep::Settings;
use crate::text::{
    chars_of, first_where, lines, lines_of, owned, same_text, slice_chars, trim, trim_str, views,
};

verus! {

/// A map from variable names to values, with each name at most once.
pub struct EnvMap {
    entries: Vec<(String, String)>,
}

/// The map that a list of entries with distinct names describes.
pub open spec fn entries_map(e: Seq<(String, String)>) -> Map<Seq<char>, Seq<char>>
    decreases e.len(),
{
    if e.len() == 0 {
        Map::empty()
    } else {
        entries_map(e.drop_last()).insert(e.last().0@, e.last().1@)
    }
}

pub open spec fn distinct_names(e: Seq<(String, String)>) -> bool {
    forall|a: int, b: int| 0 <= a < b < e.len() ==> (#[trigger] e[a]).0@ != (#[trigger] e[b]).0@
}

proof fn lemma_entries_map_has(e: Seq<(String, String)>, i: int)
    requires
        distinct_names(e),
        0 <= i < e.len(),
    ensures
        entries_map(e).contains_key(e[i].0@),
        entries_map(e)[e[i].0@] == e[i].1@,
    decreases e.len(),
{
    if i < e.len() - 1 {
        lemma_entries_map_has(e.drop_last(), i);
        assert(e.drop_last()[i] == e[i]);
    }
}

proof fn lemma_entries_map_lacks(e: Seq<(String, String)>, k: Seq<char>)
    requires
        forall|i: int| 0 <= i < e.len() ==> (#[trigger] e[i]).0@ != k,
    ensures
        !entries_map(e).contains_key(k),
    decreases e.len(),
{
    if e.len() > 0 {
        assert forall|i: int| 0 <= i < e.drop_last().len() implies (#[trigger] e.drop_last()[i]).0@
            != k by {
            assert(e.drop_last()[i] == e[i]);
        }
        lemma_entries_map_lacks(e.drop_last(), k);
    }
}

proof fn lemma_entries_map_keys(e: Seq<(String, String)>, k: Seq<char>)
    requires
        entries_map(e).contains_key(k),
    ensures
        exists|i: int| 0 <= i < e.len() && (#[trigger] e[i]).0@ == k,
    decreases e.len(),
{
    if e.len() > 0 && e.last().0@ != k {
        lemma_entries_map_keys(e.drop_last(), k);
        let i = choose|i: int| 0 <= i < e.drop_last().len() && (#[trigger] e.drop_last()[i]).0@ == k;
        assert(e[i] == e.drop_last()[i]);
    }
}

proof fn lemma_entries_map_update(e: Seq<(String, String)>, i: int, v: String)
    requires
        distinct_names(e),
        0 <= i < e.len(),
    ensures
        entries_map(e.update(i, (e[i].0, v))) == entries_map(e).insert(e[i].0@, v@),
    decreases e.len(),
{
    let u = e.update(i, (e[i].0, v));
    if i == e.len() - 1 {
        assert(u.drop_last() =~= e.drop_last());
        assert forall|j: int| 0 <= j < e.drop_last().len() implies (#[trigger] e.drop_last()[j]).0@
            != e[i].0@ by {
            assert(e.drop_last()[j] == e[j]);
        }
        lemma_entries_map_lacks(e.drop_last(), e[i].0@);
        assert(entries_map(u) =~= entries_map(e).insert(e[i].0@, v@));
    } else {
        let d = e.drop_last();
        assert(distinct_names(d)) by {
            assert forall|a: int, b: int| 0 <= a < b < d.len() implies (#[trigger] d[a]).0@ != (
            #[trigger] d[b]).0@ by {
                assert(d[a] == e[a] && d[b] == e[b]);
            }
        }
        assert(d[i] == e[i]);
        lemma_entries_map_update(d, i, v);
        assert(u.drop_last() =~= d.update(i, (d[i].0, v)));
        assert(u.last() == e.last());
        assert(e.last().0@ != e[i].0@);
        assert(entries_map(u) =~= entries_map(e).insert(e[i].0@, v@));
    }
}

proof fn lemma_entries_map_len(e: Seq<(String, String)>)
    requires
        distinct_names(e),
    ensures
        entries_map(e).dom().finite(),
        entries_map(e).len() == e.len(),
    decreases e.len(),
{
    if e.len() > 0 {
        let d = e.drop_last();
        assert(distinct_names(d)) by {
            assert forall|a: int, b: int| 0 <= a < b < d.len() implies (#[trigger] d[a]).0@ != (
            #[trigger] d[b]).0@ by {
                assert(d[a] == e[a] && d[b] == e[b]);
            }
        }
        lemma_entries_map_len(d);
        assert forall|j: int| 0 <= j < d.len() implies (#[trigger] d[j]).0@ != e.last().0@ by {
            assert(d[j] == e[j]);
        }
        lemma_entries_map_lacks(d, e.last().0@);
    }
}

impl View for EnvMap {
    type V = Map<Seq<char>, Seq<char>>;

    closed spec fn view(&self) -> Map<Seq<char>, Seq<char>> {
        entries_map(self.entries@)
    }
}

impl EnvMap {
    #[verifier::type_invariant]
    closed spec fn names_distinct(&self) -> bool {
        distinct_names(self.entries@)
    }

    /// The empty map.
    pub fn new() -> (res: EnvMap)
        ensures
            res@ == Map::<Seq<char>, Seq<char>>::empty(),
    {
        EnvMap { entries: Vec::new() }
    }

    fn find(&self, key: &str) -> (res: Option<usize>)
        ensures
            match res {
                Some(i) => i < self.entries@.len() && self.entries@[i as int].0@ == key@,
                None => forall|i: int| 0 <= i < self.entries@.len() ==> (#[trigger] self.entries@[i]).0@ != key@,
            },
    {
        let mut i: usize = 0;
        while i < self.entries.len()
            invariant
                i <= self.entries@.len(),
                forall|j: int| 0 <= j < i ==> (#[trigger] self.entries@[j]).0@ != key@,
            decreases self.entries@.len() - i,
        {
            if same_text(self.entries[i].0.as_str(), key) {
                return Some(i);
            }
            i += 1;
        }
        None
    }

    /// Set `key` to `value`, replacing any earlier value.
    pub fn insert(&mut self, key: String, value: String)
        ensures
            final(self)@ == old(self)@.insert(key@, value@),
    {
        proof {
            use_type_invariant(&*self);
        }
        match self.find(key.as_str()) {
            Some(i) => {
                let ghost before = self.entries@;
                let mut entries = Vec::new();
                std::mem::swap(&mut entries, &mut self.entries);
                let name = entries[i].0.clone();
                entries.set(i, (name, value));
                proof {
                    assert(entries@ == before.update(i as int, (before[i as int].0, value)));
                    lemma_entries_map_update(before, i as int, value);
                    assert(distinct_names(entries@)) by {
                        assert forall|a: int, b: int| 0 <= a < b < entries@.len() implies (
                        #[trigger] entries@[a]).0@ != (#[trigger] entries@[b]).0@ by {
                            assert(before[a].0@ != before[b].0@);
                        }
                    }
                }
                self.entries = entries;
            },
            None => {
                let ghost before = self.entries@;
                let mut entries = Vec::new();
                std::mem::swap(&mut entries, &mut self.entries);
                entries.push((key, value));
                proof {
                    assert(entries@.drop_last() =~= before);
                    assert(distinct_names(entries@)) by {
                        assert forall|a: int, b: int| 0 <= a < b < entries@.len() implies (
                        #[trigger] entries@[a]).0@ != (#[trigger] entries@[b]).0@ by {
                            if b < before.len() {
                                assert(before[a].0@ != before[b].0@);
                            } else {
                                assert(entries@[a] == before[a]);
                            }
                        }
                    }
                }
                self.entries = entries;
            },
        }
    }

    /// The value of `key`, if it is set.
    pub fn get(&self, key: &str) -> (res: Option<&str>)
        ensures
            match res {
                Some(v) => self@.contains_key(key@) && self@[key@] == v@,
                None => !self@.contains_key(key@),
            },
    {
        proof {
            use_type_invariant(self);
        }
        match self.find(key) {
            Some(i) => {
                proof {
                    lemma_entries_map_has(self.entries@, i as int);
                }
                Some(self.entries[i].1.as_str())
            },
            None => {
                proof {
                    lemma_entries_map_lacks(self.entries@, key@);
                }
                None
            },
        }
    }

    /// How many variables are set.
    pub fn len(&self) -> (res: usize)
        ensures
            res == self@.len(),
    {
        proof {
            use_type_invariant(self);
            lemma_entries_map_len(self.entries@);
        }
        self.entries.len()
    }

    pub fn is_empty(&self) -> (res: bool)
        ensures
            res == (self@.len() == 0),
    {
        self.len() == 0
    }

    /// The name and value of the `i`-th variable, in the order they were
    /// first set.
    pub fn entry(&self, i: usize) -> (res: (&str, &str))
        requires
            i < self@.len(),
        ensures
            self@.contains_key(res.0@),
            self@[res.0@] == res.1@,
    {
        proof {
            use_type_invariant(self);
            lemma_entries_map_len(self.entries@);
            lemma_entries_map_has(self.entries@, i as int);
        }
        (self.entries[i].0.as_str(), self.entries[i].1.as_str())
    }

    /// A copy of the map.
    pub fn copy(&self) -> (res: EnvMap)
        ensures
            res@ == self@,
    {
        proof {
            use_type_invariant(self);
        }
        let mut entries: Vec<(String, String)> = Vec::new();
        let mut i: usize = 0;
        while i < self.entries.len()
            invariant
                i <= self.entries@.len(),
                entries@.len() == i,
                forall|j: int|
                    0 <= j < i ==> (#[trigger] entries@[j]).0@ == self.entries@[j].0@ && entries@[j].1@
                        == self.entries@[j].1@,
            decreases self.entries@.len() - i,
        {
            entries.push((self.entries[i].0.clone(), self.entries[i].1.clone()));
            i += 1;
        }
        proof {
            lemma_entries_map_same(entries@, self.entries@);
            assert(distinct_names(entries@)) by {
                assert forall|a: int, b: int| 0 <= a < b < entries@.len() implies (
                #[trigger] entries@[a]).0@ != (#[trigger] entries@[b]).0@ by {
                    assert(self.entries@[a].0@ != self.entries@[b].0@);
                }
            }
        }
        EnvMap { entries }
    }

    /// Every variable of `other` set here, over what was here.
    pub fn extend(&mut self, other: &EnvMap)
        ensures
            final(self)@ == old(self)@.union_prefer_right(other@),
    {
        proof {
            use_type_invariant(other);
        }
        let n = other.entries.len();
        let mut i: usize = 0;
        proof {
            assert(other.entries@.take(0) =~= Seq::<(String, String)>::empty());
            assert(old(self)@.union_prefer_right(entries_map(other.entries@.take(0))) =~= old(self)@);
        }
        while i < n
            invariant
                n == other.entries@.len(),
                i <= n,
                self@ == old(self)@.union_prefer_right(entries_map(other.entries@.take(i as int))),
            decreases n - i,
        {
            let ghost before = self@;
            self.insert(other.entries[i].0.clone(), other.entries[i].1.clone());
            proof {
                let t = other.entries@.take(i + 1);
                assert(t.drop_last() =~= other.entries@.take(i as int));
                assert(t.last() == other.entries@[i as int]);
                assert(self@ =~= old(self)@.union_prefer_right(entries_map(t)));
            }
            i += 1;
        }
        proof {
            assert(other.entries@.take(n as int) =~= other.entries@);
        }
    }
}

proof fn lemma_entries_map_same(a: Seq<(String, String)>, b: Seq<(String, String)>)
    requires
        a.len() == b.len(),
        forall|j: int| 0 <= j < a.len() ==> (#[trigger] a[j]).0@ == b[j].0@ && a[j].1@ == b[j].1@,
    ensures
        entries_map(a) == entries_map(b),
    decreases a.len(),
{
    if a.len() > 0 {
        assert forall|j: int| 0 <= j < a.drop_last().len() implies (#[trigger] a.drop_last()[j]).0@
            == b.drop_last()[j].0@ && a.drop_last()[j].1@ == b.drop_last()[j].1@ by {
            assert(a.drop_last()[j] == a[j] && b.drop_last()[j] == b[j]);
        }
        lemma_entries_map_same(a.drop_last(), b.drop_last());
    }
}

/// Env vars, with the plugin config file as a lower-priority layer:
/// `config_file` holds the variables of `config.env` (none when there is no
/// config directory), and every variable of `environ` wins over them.
pub fn config_env(environ: &EnvMap, config_file: &EnvMap) -> (res: EnvMap)
    ensures
        res@ == config_file@.union_prefer_right(environ@),
{
    let mut merged = config_file.copy();
    merged.extend(environ);
    merged
}

/// One line of `config.env`: `NAME = value`, trimmed; blank lines, comment
/// lines and lines without `=` say nothing.
pub open spec fn env_line(line: Seq<char>) -> Option<(Seq<char>, Seq<char>)> {
    let t = trim(line);
    if t.len() == 0 || t[0] == '#' {
        None
    } else {
        let k = first_where(t, |c: char| c == '=');
        if k < t.len() {
            Some((trim(t.take(k as int)), trim(t.skip(k + 1 as int))))
        } else {
            None
        }
    }
}

/// The variables that the lines set, a later line winning.
pub open spec fn env_of_lines(ls: Seq<Seq<char>>) -> Map<Seq<char>, Seq<char>>
    decreases ls.len(),
{
    if ls.len() == 0 {
        Map::empty()
    } else {
        let m = env_of_lines(ls.drop_last());
        match env_line(ls.last()) {
            Some(kv) => m.insert(kv.0, kv.1),
            None => m,
        }
    }
}

/// One line sets at most its own variable.
pub proof fn lemma_env_of_line(line: Seq<char>)
    ensures
        env_of_lines(seq![line]) == match env_line(line) {
            Some(kv) => Map::<Seq<char>, Seq<char>>::empty().insert(kv.0, kv.1),
            None => Map::<Seq<char>, Seq<char>>::empty(),
        },
{
    let one = seq![line];
    assert(one.drop_last() =~= Seq::<Seq<char>>::empty());
    assert(one.last() == line);
    assert(env_of_lines(Seq::<Seq<char>>::empty()) == Map::<Seq<char>, Seq<char>>::empty());
}

/// Lines are read in order and a later line wins: the variables of two
/// runs of lines one after the other are those of the first, overridden by
/// those of the second.
pub proof fn lemma_env_of_lines_concat(a: Seq<Seq<char>>, b: Seq<Seq<char>>)
    ensures
        env_of_lines(a + b) == env_of_lines(a).union_prefer_right(env_of_lines(b)),
    decreases b.len(),
{
    if b.len() == 0 {
        assert(a + b =~= a);
        assert(env_of_lines(a).union_prefer_right(env_of_lines(b)) =~= env_of_lines(a));
    } else {
        lemma_env_of_lines_concat(a, b.drop_last());
        assert((a + b).drop_last() =~= a + b.drop_last());
        assert((a + b).last() == b.last());
        match env_line(b.last()) {
            Some(kv) => {
                assert(env_of_lines(a).union_prefer_right(env_of_lines(b.drop_last())).insert(kv.0, kv.1)
                    =~= env_of_lines(a).union_prefer_right(env_of_lines(b.drop_last()).insert(kv.0, kv.1)));
            },
            None => {},
        }
    }
}

fn parse_env_line(line: &str) -> (res: Option<(String, String)>)
    ensures
        match res {
            Some(kv) => env_line(line@) == Some((kv.0@, kv.1@)),
            None => env_line(line@) is None,
        },
{
    let t = trim_str(line);
    let cs = chars_of(t.as_str());
    if cs.len() == 0 || cs[0] == '#' {
        return None;
    }
    let n = cs.len();
    let mut k: usize = 0;
    while k < n && cs[k] != '='
        invariant
            n == cs@.len(),
            k <= n,
            forall|j: int| 0 <= j < k ==> cs@[j] != '=',
        decreases n - k,
    {
        k += 1;
    }
    proof {
        let f = |c: char| c == '=';
        assert forall|j: int| 0 <= j < k implies !f(#[trigger] cs@[j]) by {}
        crate::text::lemma_first_where_is(cs@, f, k as int);
    }
    if k == n {
        return None;
    }
    let key_part = slice_chars(t.as_str(), 0, k);
    let value_part = slice_chars(t.as_str(), k + 1, n);
    proof {
        assert(key_part@ =~= t@.take(k as int));
        assert(value_part@ =~= t@.skip(k + 1));
    }
    Some((trim_str(key_part.as_str()), trim_str(value_part.as_str())))
}

/// The variables set by the text of a `config.env` file.
pub fn parse_env_text(text: &str) -> (res: EnvMap)
    ensures
        res@ == env_of_lines(lines(text@)),
{
    let ls = lines_of(text);
    let ghost all = lines(text@);
    let mut values = EnvMap::new();
    let mut i: usize = 0;
    proof {
        assert(all.take(0) =~= Seq::<Seq<char>>::empty());
    }
    while i < ls.len()
        invariant
            views(ls@) == all,
            i <= ls@.len(),
            values@ == env_of_lines(all.take(i as int)),
        decreases ls@.len() - i,
    {
        proof {
            assert(all.take(i + 1).drop_last() =~= all.take(i as int));
            assert(all.take(i + 1).last() == ls@[i as int]@);
        }
        if let Some((key, value)) = parse_env_line(ls[i].as_str()) {
            values.insert(key, value);
        }
        i += 1;
    }
    proof {
        assert(all.take(ls@.len() as int) =~= all);
    }
    values
}

/// What `str::to_lowercase` returns for a text.
pub uninterp spec fn lowercase(s: Seq<char>) -> Seq<char>;

/// Calls `str::to_lowercase`. The contract claims only that the result
/// depends on the text alone, by naming it `lowercase`; the Unicode case
/// mapping itself is the standard library's.
#[verifier::external_body]
fn to_lowercase(s: &str) -> (res: String)
    ensures
        res@ == lowercase(s@),
{
    s.to_lowercase()
}

/// A lowercased value that switches a flag on.
pub open spec fn truthy_word(v: Seq<char>) -> bool {
    v == "1"@ || v == "true"@ || v == "yes"@ || v == "on"@
}

/// The variable is set to `1`, `true`, `yes` or `on`, in any case.
pub open spec fn truthy_of(env: Map<Seq<char>, Seq<char>>, key: Seq<char>) -> bool {
    env.contains_key(key) && truthy_word(lowercase(env[key]))
}

/// Whether an already lowercased value switches a flag on.
pub fn is_truthy_word(lowered: &str) -> (res: bool)
    ensures
        res == truthy_word(lowered@),
{
    same_text(lowered, "1") || same_text(lowered, "true") || same_text(lowered, "yes")
        || same_text(lowered, "on")
}

fn truthy(env: &EnvMap, key: &str) -> (res: bool)
    ensures
        res == truthy_of(env@, key@),
{
    match env.get(key) {
        Some(value) => {
            let v = to_lowercase(value);
            is_truthy_word(v.as_str())
        },
        None => false,
    }
}

/// The sweep settings the variables ask for.
pub fn settings_from(env: &EnvMap) -> (res: Settings)
    ensures
        res.dry_run == truthy_of(env@, "BRANCH_CLEANUP_DRY_RUN"@),
        res.notify_only == truthy_of(env@, "BRANCH_CLEANUP_NOTIFY_ONLY"@),
{
    Settings {
        dry_run: truthy(env, "BRANCH_CLEANUP_DRY_RUN"),
        notify_only: truthy(env, "BRANCH_CLEANUP_NOTIFY_ONLY"),
    }
}

/// The plugin's state directory: `HERDR_PLUGIN_STATE_DIR`, or `.state`.
pub fn state_dir_from(env: &EnvMap) -> (res: String)
    ensures
        res@ == if env@.contains_key("HERDR_PLUGIN_STATE_DIR"@) {
            env@["HERDR_PLUGIN_STATE_DIR"@]
        } else {
            ".state"@
        },
{
    match env.get("HERDR_PLUGIN_STATE_DIR") {
        Some(dir) => owned(dir),
        None => owned(".state"),
    }
}

/// The plugin entrypoints.
#[derive(Debug, Clone, Copy, PartialEq, Eq, Structural)]
pub enum Command {
    Run,
    Once,
    Start,
    Stop,
    Toggle,
    Status,
    Board,
    Nudge,
    Unknown,
}

pub open spec fn command_of(name: Seq<char>) -> Command {
    if name == "run"@ {
        Command::Run
    } else if name == "once"@ {
        Command::Once
    } else if name == "start"@ {
        Command::Start
    } else if name == "stop"@ {
        Command::Stop
    } else if name == "toggle"@ {
        Command::Toggle
    } else if name == "status"@ {
        Command::Status
    } else if name == "board"@ {
        Command::Board
    } else if name == "nudge"@ {
        Command::Nudge
    } else {
        Command::Unknown
    }
}

/// The entrypoint a command name asks for.
pub fn parse_command(name: &str) -> (res: Command)
    ensures
        res == command_of(name@),
{
    if same_text(name, "run") {
        Command::Run
    } else if same_text(name, "once") {
        Command::Once
    } else if same_text(name, "start") {
        Command::Start
    } else if same_text(name, "stop") {
        Command::Stop
    } else if same_text(name, "toggle") {
        Command::Toggle
    } else if same_text(name, "status") {
        Command::Status
    } else if same_text(name, "board") {
        Command::Board
    } else if same_text(name, "nudge") {
        Command::Nudge
    } else {
        Command::Unknown
    }
}

/// The exit status of an entrypoint: 2 for an unknown command, else 0.
pub fn exit_code(command: Command) -> (res: i32)
    ensures
        res == (if command == Command::Unknown {
            2i32
        } else {
            0i32
        }),
{
    if command == Command::Unknown {
        2
    } else {
        0
    }
}

/// What an unknown command is answered.
pub fn unknown_command_message() -> (res: String)
    ensures
        res@ == "unknown command; expected one of: run once start stop toggle status board nudge"@,
{
    owned("unknown command; expected one of: run once start stop toggle status board nudge")
}

} // verus!
