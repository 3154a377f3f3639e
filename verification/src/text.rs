//! Text primitives over `Seq<char>`: whitespace trimming, line splitting,
//! prefix and suffix tests, substring search and decimal rendering.
//!
//! Each spec function states what the corresponding `str` method of the
//! standard library computes; each exec function is proved against it.

use vstd::prelude::*;
use vstd::string::*;

verus! {

/// The Unicode `White_Space` property, which `char::is_whitespace` tests.
pub open spec fn is_ws(c: char) -> bool {
    let n = c as u32;
    ||| 9 <= n <= 13
    ||| n == 32
    ||| n == 0x85
    ||| n == 0xA0
    ||| n == 0x1680
    ||| 0x2000 <= n <= 0x200A
    ||| n == 0x2028
    ||| n == 0x2029
    ||| n == 0x202F
    ||| n == 0x205F
    ||| n == 0x3000
}

/// `s` with leading whitespace removed (`str::trim_start`).
pub open spec fn trim_start(s: Seq<char>) -> Seq<char>
    decreases s.len(),
{
    if s.len() > 0 && is_ws(s[0]) {
        trim_start(s.drop_first())
    } else {
        s
    }
}

/// `s` with trailing whitespace removed (`str::trim_end`).
pub open spec fn trim_end(s: Seq<char>) -> Seq<char>
    decreases s.len(),
{
    if s.len() > 0 && is_ws(s.last()) {
        trim_end(s.drop_last())
    } else {
        s
    }
}

/// `s` with whitespace removed at both ends (`str::trim`).
pub open spec fn trim(s: Seq<char>) -> Seq<char> {
    trim_end(trim_start(s))
}

/// The index of the first character of `s` that satisfies `f`, or `s.len()`.
pub open spec fn first_where(s: Seq<char>, f: spec_fn(char) -> bool) -> nat
    decreases s.len(),
{
    if s.len() == 0 {
        0
    } else if f(s[0]) {
        0
    } else {
        1 + first_where(s.drop_first(), f)
    }
}

pub open spec fn is_newline(c: char) -> bool {
    c == '\n'
}

/// One line as `str::lines` yields it: a `\r` right before the `\n` is dropped.
pub open spec fn strip_cr(line: Seq<char>) -> Seq<char> {
    if line.len() > 0 && line.last() == '\r' {
        line.drop_last()
    } else {
        line
    }
}

/// The lines of `s`, as `str::lines` yields them: split at `\n`, a `\r`
/// before the `\n` removed, and no empty line after a final line ending.
pub open spec fn lines(s: Seq<char>) -> Seq<Seq<char>>
    decreases s.len(),
{
    if s.len() == 0 {
        seq![]
    } else {
        let k = first_where(s, |c: char| is_newline(c));
        if k < s.len() {
            seq![strip_cr(s.take(k as int))] + lines(s.skip(k + 1 as int))
        } else {
            seq![s]
        }
    }
}

/// The views of a sequence of strings.
pub open spec fn views(v: Seq<String>) -> Seq<Seq<char>> {
    v.map_values(|x: String| x@)
}

pub open spec fn has_prefix(s: Seq<char>, p: Seq<char>) -> bool {
    p.len() <= s.len() && s.take(p.len() as int) == p
}

pub open spec fn has_suffix(s: Seq<char>, p: Seq<char>) -> bool {
    p.len() <= s.len() && s.skip(s.len() - p.len()) == p
}

/// `str::strip_prefix`.
pub open spec fn strip_prefix(s: Seq<char>, p: Seq<char>) -> Option<Seq<char>> {
    if has_prefix(s, p) {
        Some(s.skip(p.len() as int))
    } else {
        None
    }
}

/// `p` occurs in `s` at index `i`.
pub open spec fn occurs_at(s: Seq<char>, p: Seq<char>, i: int) -> bool {
    0 <= i && i + p.len() <= s.len() && s.subrange(i, i + p.len()) == p
}

/// `str::contains` with a string pattern.
pub open spec fn contains(s: Seq<char>, p: Seq<char>) -> bool {
    exists|i: int| occurs_at(s, p, i)
}

/// The first item of `str::split_whitespace`.
pub open spec fn first_word(s: Seq<char>) -> Option<Seq<char>> {
    let t = trim_start(s);
    if t.len() == 0 {
        None
    } else {
        Some(t.take(first_where(t, |c: char| is_ws(c)) as int))
    }
}

// ---------------------------------------------------------------------------
// Lemmas
// ---------------------------------------------------------------------------

pub proof fn lemma_first_where_bound(s: Seq<char>, f: spec_fn(char) -> bool)
    ensures
        first_where(s, f) <= s.len(),
    decreases s.len(),
{
    if s.len() > 0 && !f(s[0]) {
        lemma_first_where_bound(s.drop_first(), f);
    }
}

/// `first_where` is the first index whose character satisfies `f`.
pub proof fn lemma_first_where_is(s: Seq<char>, f: spec_fn(char) -> bool, k: int)
    requires
        0 <= k <= s.len(),
        forall|j: int| 0 <= j < k ==> !f(#[trigger] s[j]),
        k == s.len() || f(s[k]),
    ensures
        first_where(s, f) == k,
    decreases k,
{
    if k > 0 {
        let t = s.drop_first();
        assert forall|j: int| 0 <= j < k - 1 implies !f(#[trigger] t[j]) by {
            assert(t[j] == s[j + 1]);
        }
        if k < s.len() {
            assert(t[k - 1] == s[k]);
        }
        lemma_first_where_is(t, f, k - 1);
    }
}

/// Trimming the start keeps every non-whitespace character: a text with one
/// keeps one.
proof fn lemma_trim_start_keeps(s: Seq<char>, j: int)
    requires
        0 <= j < s.len(),
        !is_ws(s[j]),
    ensures
        exists|k: int| 0 <= k < trim_start(s).len() && !is_ws(#[trigger] trim_start(s)[k]),
    decreases s.len(),
{
    if s.len() > 0 && is_ws(s[0]) {
        assert(j > 0);
        assert(s.drop_first()[j - 1] == s[j]);
        lemma_trim_start_keeps(s.drop_first(), j - 1);
        assert(trim_start(s) == trim_start(s.drop_first()));
        let k = choose|k: int|
            0 <= k < trim_start(s.drop_first()).len() && !is_ws(#[trigger] trim_start(s.drop_first())[k]);
        assert(!is_ws(trim_start(s)[k]));
    } else {
        assert(trim_start(s)[j] == s[j]);
    }
}

/// Trimming the end of a text that holds a non-whitespace character leaves
/// something.
proof fn lemma_trim_end_keeps(s: Seq<char>, j: int)
    requires
        0 <= j < s.len(),
        !is_ws(s[j]),
    ensures
        trim_end(s).len() > 0,
    decreases s.len(),
{
    if is_ws(s.last()) {
        assert(j < s.len() - 1);
        assert(s.drop_last()[j] == s[j]);
        lemma_trim_end_keeps(s.drop_last(), j);
    }
}

/// Trimming the start of an all-whitespace text leaves nothing.
proof fn lemma_trim_start_all_ws(s: Seq<char>)
    requires
        forall|i: int| 0 <= i < s.len() ==> is_ws(#[trigger] s[i]),
    ensures
        trim_start(s).len() == 0,
    decreases s.len(),
{
    if s.len() > 0 {
        let t = s.drop_first();
        assert forall|i: int| 0 <= i < t.len() implies is_ws(#[trigger] t[i]) by {
            assert(t[i] == s[i + 1]);
        }
        lemma_trim_start_all_ws(t);
    }
}

/// A text trims to nothing exactly when all its characters are whitespace.
pub proof fn lemma_trim_empty_iff_all_ws(s: Seq<char>)
    ensures
        trim(s).len() == 0 <==> forall|i: int| 0 <= i < s.len() ==> is_ws(#[trigger] s[i]),
{
    if forall|i: int| 0 <= i < s.len() ==> is_ws(#[trigger] s[i]) {
        lemma_trim_start_all_ws(s);
        assert(trim_start(s) =~= Seq::<char>::empty());
    } else {
        let j = choose|j: int| 0 <= j < s.len() && !is_ws(#[trigger] s[j]);
        lemma_trim_start_keeps(s, j);
        let t = trim_start(s);
        let k = choose|k: int| 0 <= k < t.len() && !is_ws(#[trigger] t[k]);
        lemma_trim_end_keeps(t, k);
    }
}

proof fn lemma_trim_start_skip(s: Seq<char>, a: int)
    requires
        0 <= a <= s.len(),
        forall|j: int| 0 <= j < a ==> is_ws(#[trigger] s[j]),
    ensures
        trim_start(s) == trim_start(s.skip(a)),
    decreases a,
{
    if a == 0 {
        assert(s.skip(0) =~= s);
    } else {
        let t = s.drop_first();
        assert forall|j: int| 0 <= j < a - 1 implies is_ws(#[trigger] t[j]) by {
            assert(t[j] == s[j + 1]);
        }
        lemma_trim_start_skip(t, a - 1);
        assert(t.skip(a - 1) =~= s.skip(a));
    }
}

proof fn lemma_trim_end_take(s: Seq<char>, b: int)
    requires
        0 <= b <= s.len(),
        forall|j: int| b <= j < s.len() ==> is_ws(#[trigger] s[j]),
    ensures
        trim_end(s) == trim_end(s.take(b)),
    decreases s.len() - b,
{
    if b == s.len() {
        assert(s.take(b) =~= s);
    } else {
        let t = s.drop_last();
        assert forall|j: int| b <= j < t.len() implies is_ws(#[trigger] t[j]) by {
            assert(t[j] == s[j]);
        }
        lemma_trim_end_take(t, b);
        assert(t.take(b) =~= s.take(b));
    }
}

// ---------------------------------------------------------------------------
// Executable functions
// ---------------------------------------------------------------------------

/// The characters of `s`.
pub fn chars_of(s: &str) -> (res: Vec<char>)
    ensures
        res@ == s@,
{
    let n = s.unicode_len();
    let mut res: Vec<char> = Vec::new();
    let mut i: usize = 0;
    while i < n
        invariant
            n == s@.len(),
            i <= n,
            res@ == s@.subrange(0, i as int),
        decreases n - i,
    {
        res.push(s.get_char(i));
        i += 1;
        assert(res@ =~= s@.subrange(0, i as int));
    }
    assert(res@ =~= s@);
    res
}

/// `char::is_whitespace`.
pub fn char_is_ws(c: char) -> (b: bool)
    ensures
        b == is_ws(c),
{
    let n = c as u32;
    (9 <= n && n <= 13) || n == 32 || n == 0x85 || n == 0xA0 || n == 0x1680 || (0x2000 <= n
        && n <= 0x200A) || n == 0x2028 || n == 0x2029 || n == 0x202F || n == 0x205F || n
        == 0x3000
}

/// `str::to_owned`, restated so that callers get the view directly.
pub fn owned(s: &str) -> (res: String)
    ensures
        res@ == s@,
{
    s.to_owned()
}

/// The characters `from..to` of `s` as a new string.
pub fn slice_chars(s: &str, from: usize, to: usize) -> (res: String)
    requires
        from <= to <= s@.len(),
    ensures
        res@ == s@.subrange(from as int, to as int),
{
    s.substring_char(from, to).to_owned()
}

/// `str::trim`.
pub fn trim_str(s: &str) -> (res: String)
    ensures
        res@ == trim(s@),
{
    let cs = chars_of(s);
    let n = cs.len();
    let mut a: usize = 0;
    while a < n && char_is_ws(cs[a])
        invariant
            n == cs@.len(),
            cs@ == s@,
            a <= n,
            forall|j: int| 0 <= j < a ==> is_ws(#[trigger] cs@[j]),
        decreases n - a,
    {
        a += 1;
    }
    let mut b: usize = n;
    while b > a && char_is_ws(cs[b - 1])
        invariant
            n == cs@.len(),
            cs@ == s@,
            a <= b <= n,
            forall|j: int| b <= j < n ==> is_ws(#[trigger] cs@[j]),
        decreases b,
    {
        b -= 1;
    }
    proof {
        let ss = s@;
        lemma_trim_start_skip(ss, a as int);
        let t = ss.skip(a as int);
        if t.len() > 0 {
            assert(t[0] == ss[a as int]);
        }
        assert(trim_start(t) == t);
        assert forall|j: int| b - a <= j < t.len() implies is_ws(#[trigger] t[j]) by {
            assert(t[j] == ss[j + a]);
        }
        lemma_trim_end_take(t, b - a);
        let u = t.take(b - a);
        if u.len() > 0 {
            assert(u.last() == ss[b - 1]);
        }
        assert(trim_end(u) == u);
        assert(u =~= ss.subrange(a as int, b as int));
    }
    slice_chars(s, a, b)
}

/// Whether `p` occurs in `cs` at index `i`, with `i + p.len() <= cs.len()`.
fn matches_at(cs: &Vec<char>, p: &Vec<char>, i: usize) -> (b: bool)
    requires
        i + p@.len() <= cs@.len(),
    ensures
        b == (cs@.subrange(i as int, i + p@.len()) == p@),
{
    let m = p.len();
    let cl = cs.len();
    let mut j: usize = 0;
    while j < m
        invariant
            m == p@.len(),
            cl == cs@.len(),
            i + m <= cs@.len(),
            j <= m,
            forall|k: int| 0 <= k < j ==> cs@[i + k] == p@[k],
        decreases m - j,
    {
        if cs[i + j] != p[j] {
            assert(cs@.subrange(i as int, i + m)[j as int] != p@[j as int]);
            return false;
        }
        j += 1;
    }
    assert(cs@.subrange(i as int, i + m) =~= p@);
    true
}

/// `str::starts_with` with a string pattern.
pub fn starts_with(s: &str, p: &str) -> (b: bool)
    ensures
        b == has_prefix(s@, p@),
{
    let cs = chars_of(s);
    let ps = chars_of(p);
    if ps.len() > cs.len() {
        return false;
    }
    let b = matches_at(&cs, &ps, 0);
    assert(cs@.subrange(0, ps@.len() as int) =~= cs@.take(ps@.len() as int));
    b
}

/// `str::ends_with` with a string pattern.
pub fn ends_with(s: &str, p: &str) -> (b: bool)
    ensures
        b == has_suffix(s@, p@),
{
    let cs = chars_of(s);
    let ps = chars_of(p);
    if ps.len() > cs.len() {
        return false;
    }
    let start = cs.len() - ps.len();
    let b = matches_at(&cs, &ps, start);
    assert(cs@.subrange(start as int, cs@.len() as int) =~= cs@.skip(start as int));
    b
}

/// `str::strip_prefix` with a string pattern.
pub fn strip_prefix_str(s: &str, p: &str) -> (res: Option<String>)
    ensures
        match res {
            Some(r) => strip_prefix(s@, p@) == Some(r@),
            None => strip_prefix(s@, p@) is None,
        },
{
    if starts_with(s, p) {
        let n = s.unicode_len();
        let m = p.unicode_len();
        Some(slice_chars(s, m, n))
    } else {
        None
    }
}

/// `str::contains` with a string pattern.
pub fn contains_str(s: &str, p: &str) -> (b: bool)
    ensures
        b == contains(s@, p@),
{
    let cs = chars_of(s);
    let ps = chars_of(p);
    let n = cs.len();
    let m = ps.len();
    if m > n {
        assert forall|i: int| !occurs_at(s@, p@, i) by {}
        return false;
    }
    if m == 0 {
        assert(s@.subrange(0, 0) =~= p@);
        assert(occurs_at(s@, p@, 0));
        return true;
    }
    let mut i: usize = 0;
    while i <= n - m
        invariant
            n == cs@.len(),
            m == ps@.len(),
            1 <= m <= n,
            cs@ == s@,
            ps@ == p@,
            i <= n - m + 1,
            forall|k: int| 0 <= k < i ==> !occurs_at(s@, p@, k),
        decreases n - m + 1 - i,
    {
        if matches_at(&cs, &ps, i) {
            assert(occurs_at(s@, p@, i as int));
            return true;
        }
        i += 1;
    }
    assert forall|k: int| !occurs_at(s@, p@, k) by {
        if 0 <= k < i {
        }
    }
    false
}

/// `str::lines`, each line as a new string.
pub fn lines_of(s: &str) -> (res: Vec<String>)
    ensures
        views(res@) == lines(s@),
{
    let cs = chars_of(s);
    let n = cs.len();
    let mut res: Vec<String> = Vec::new();
    let mut p: usize = 0;
    proof {
        assert(s@.skip(0) =~= s@);
    }
    while p < n
        invariant
            n == cs@.len(),
            cs@ == s@,
            p <= n,
            lines(s@) == views(res@) + lines(s@.skip(p as int)),
        decreases n - p,
    {
        let mut q: usize = p;
        while q < n && cs[q] != '\n'
            invariant
                n == cs@.len(),
                p <= q <= n,
                forall|j: int| p <= j < q ==> cs@[j] != '\n',
            decreases n - q,
        {
            q += 1;
        }
        let ghost t = s@.skip(p as int);
        proof {
            let f = |c: char| is_newline(c);
            assert forall|j: int| 0 <= j < q - p implies !f(#[trigger] t[j]) by {
                assert(t[j] == cs@[p + j]);
            }
            if q < n {
                assert(t[q - p] == cs@[q as int]);
            }
            lemma_first_where_is(t, f, q - p);
        }
        let ghost old_res = res@;
        if q < n {
            let e = if q > p && cs[q - 1] == '\r' {
                q - 1
            } else {
                q
            };
            let line = slice_chars(s, p, e);
            res.push(line);
            proof {
                let tk = t.take(q - p);
                assert(tk =~= s@.subrange(p as int, q as int));
                if q > p {
                    assert(tk.last() == cs@[q - 1]);
                    assert(tk.drop_last() =~= s@.subrange(p as int, q - 1));
                }
                assert(strip_cr(tk) == line@);
                assert(t.skip(q - p + 1) =~= s@.skip(q + 1));
                assert(views(res@) =~= views(old_res) + seq![line@]);
            }
            p = q + 1;
        } else {
            let line = slice_chars(s, p, n);
            res.push(line);
            proof {
                assert(t =~= s@.subrange(p as int, n as int));
                assert(views(res@) =~= views(old_res) + seq![line@]);
                assert(s@.skip(n as int) =~= Seq::<char>::empty());
            }
            p = n;
        }
    }
    proof {
        assert(s@.skip(n as int) =~= Seq::<char>::empty());
        assert(views(res@) + Seq::<Seq<char>>::empty() =~= views(res@));
    }
    res
}

/// The first item of `str::split_whitespace`.
pub fn first_word_str(s: &str) -> (res: Option<String>)
    ensures
        match res {
            Some(r) => first_word(s@) == Some(r@),
            None => first_word(s@) is None,
        },
{
    let cs = chars_of(s);
    let n = cs.len();
    let mut a: usize = 0;
    while a < n && char_is_ws(cs[a])
        invariant
            n == cs@.len(),
            cs@ == s@,
            a <= n,
            forall|j: int| 0 <= j < a ==> is_ws(#[trigger] cs@[j]),
        decreases n - a,
    {
        a += 1;
    }
    let ghost t = s@.skip(a as int);
    proof {
        lemma_trim_start_skip(s@, a as int);
        if t.len() > 0 {
            assert(t[0] == cs@[a as int]);
        }
        assert(trim_start(t) == t);
    }
    if a == n {
        return None;
    }
    let mut b: usize = a;
    while b < n && !char_is_ws(cs[b])
        invariant
            n == cs@.len(),
            a <= b <= n,
            forall|j: int| a <= j < b ==> !is_ws(#[trigger] cs@[j]),
        decreases n - b,
    {
        b += 1;
    }
    proof {
        let f = |c: char| is_ws(c);
        assert forall|j: int| 0 <= j < b - a implies !f(#[trigger] t[j]) by {
            assert(t[j] == cs@[a + j]);
        }
        if b < n {
            assert(t[b - a] == cs@[b as int]);
        }
        lemma_first_where_is(t, f, b - a);
        assert(t.take(b - a) =~= s@.subrange(a as int, b as int));
    }
    Some(slice_chars(s, a, b))
}

/// The text of one decimal digit.
pub open spec fn digit_text(d: nat) -> Seq<char> {
    if d == 0 {
        "0"@
    } else if d == 1 {
        "1"@
    } else if d == 2 {
        "2"@
    } else if d == 3 {
        "3"@
    } else if d == 4 {
        "4"@
    } else if d == 5 {
        "5"@
    } else if d == 6 {
        "6"@
    } else if d == 7 {
        "7"@
    } else if d == 8 {
        "8"@
    } else {
        "9"@
    }
}

/// The decimal text of `n`, as `Display` writes an unsigned integer.
pub open spec fn decimal(n: nat) -> Seq<char>
    decreases n,
{
    if n < 10 {
        digit_text(n)
    } else {
        decimal(n / 10) + digit_text(n % 10)
    }
}

fn digit_str(d: u64) -> (res: &'static str)
    requires
        d < 10,
    ensures
        res@ == digit_text(d as nat),
{
    if d == 0 {
        "0"
    } else if d == 1 {
        "1"
    } else if d == 2 {
        "2"
    } else if d == 3 {
        "3"
    } else if d == 4 {
        "4"
    } else if d == 5 {
        "5"
    } else if d == 6 {
        "6"
    } else if d == 7 {
        "7"
    } else if d == 8 {
        "8"
    } else {
        "9"
    }
}

/// `n.to_string()` for an unsigned integer.
pub fn decimal_string(n: u64) -> (res: String)
    ensures
        res@ == decimal(n as nat),
    decreases n,
{
    if n < 10 {
        owned(digit_str(n))
    } else {
        let mut res = decimal_string(n / 10);
        res.append(digit_str(n % 10));
        res
    }
}

/// `a` followed by `b`.
pub fn concat2(a: &str, b: &str) -> (res: String)
    ensures
        res@ == a@ + b@,
{
    let mut res = owned(a);
    res.append(b);
    res
}

/// `a`, `b` and `c` in a row.
pub fn concat3(a: &str, b: &str, c: &str) -> (res: String)
    ensures
        res@ == a@ + b@ + c@,
{
    let mut res = owned(a);
    res.append(b);
    res.append(c);
    res
}

/// `a` through `d` in a row.
pub fn concat4(a: &str, b: &str, c: &str, d: &str) -> (res: String)
    ensures
        res@ == a@ + b@ + c@ + d@,
{
    let mut res = owned(a);
    res.append(b);
    res.append(c);
    res.append(d);
    res
}

/// Whether two texts are equal.
pub fn same_text(a: &str, b: &str) -> (res: bool)
    ensures
        res == (a@ == b@),
{
    let x = owned(a);
    let y = owned(b);
    x == y
}

/// `a < b` in the order of `str`: lexicographic by code point, which is
/// the byte order of the UTF-8 encodings.
pub open spec fn text_lt(a: Seq<char>, b: Seq<char>) -> bool
    decreases a.len(),
{
    if a.len() == 0 {
        b.len() > 0
    } else if b.len() == 0 {
        false
    } else if (a[0] as u32) < (b[0] as u32) {
        true
    } else if a[0] == b[0] {
        text_lt(a.drop_first(), b.drop_first())
    } else {
        false
    }
}

pub proof fn lemma_text_lt_irreflexive(a: Seq<char>)
    ensures
        !text_lt(a, a),
    decreases a.len(),
{
    if a.len() > 0 {
        lemma_text_lt_irreflexive(a.drop_first());
    }
}

pub proof fn lemma_text_lt_total(a: Seq<char>, b: Seq<char>)
    ensures
        a == b || text_lt(a, b) || text_lt(b, a),
    decreases a.len(),
{
    if a.len() > 0 && b.len() > 0 && a[0] == b[0] {
        lemma_text_lt_total(a.drop_first(), b.drop_first());
        if a.drop_first() == b.drop_first() {
            assert(a =~= seq![a[0]] + a.drop_first());
            assert(b =~= seq![b[0]] + b.drop_first());
        }
    } else if a.len() > 0 && b.len() > 0 {
        if a[0] != b[0] {
            vstd::utf8::char_u32_cast(a[0], a[0] as u32);
            vstd::utf8::char_u32_cast(b[0], b[0] as u32);
        }
    } else if a.len() == 0 && b.len() == 0 {
        assert(a =~= b);
    }
}

pub proof fn lemma_text_lt_asymmetric(a: Seq<char>, b: Seq<char>)
    requires
        text_lt(a, b),
    ensures
        !text_lt(b, a),
    decreases a.len(),
{
    if a.len() > 0 && b.len() > 0 && a[0] == b[0] {
        lemma_text_lt_asymmetric(a.drop_first(), b.drop_first());
    }
}

pub proof fn lemma_text_lt_transitive(a: Seq<char>, b: Seq<char>, c: Seq<char>)
    requires
        text_lt(a, b),
        text_lt(b, c),
    ensures
        text_lt(a, c),
    decreases a.len(),
{
    if a.len() > 0 && b.len() > 0 && c.len() > 0 && a[0] == b[0] && b[0] == c[0] {
        lemma_text_lt_transitive(a.drop_first(), b.drop_first(), c.drop_first());
    }
}

/// `a < b` for texts, by `text_lt`.
pub fn text_less(a: &str, b: &str) -> (res: bool)
    ensures
        res == text_lt(a@, b@),
{
    let x = chars_of(a);
    let y = chars_of(b);
    let mut i: usize = 0;
    proof {
        assert(x@.skip(0) =~= x@);
        assert(y@.skip(0) =~= y@);
    }
    while i < x.len() && i < y.len()
        invariant
            i <= x@.len(),
            i <= y@.len(),
            x@ == a@,
            y@ == b@,
            text_lt(x@, y@) == text_lt(x@.skip(i as int), y@.skip(i as int)),
        decreases x@.len() - i,
    {
        let ghost xs = x@.skip(i as int);
        let ghost ys = y@.skip(i as int);
        proof {
            assert(xs[0] == x@[i as int]);
            assert(ys[0] == y@[i as int]);
            assert(xs.drop_first() =~= x@.skip(i + 1));
            assert(ys.drop_first() =~= y@.skip(i + 1));
        }
        let cx = x[i] as u32;
        let cy = y[i] as u32;
        assert(cx == (xs[0] as u32));
        assert(cy == (ys[0] as u32));

        if cx < cy {
            return true;
        }
        if cx != cy {
            return false;
        }
        proof {
            vstd::utf8::char_u32_cast(xs[0], cx);
            vstd::utf8::char_u32_cast(ys[0], cy);
        }
        i += 1;
    }
    i < y.len()
}

} // verus!
