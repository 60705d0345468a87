//! Character-level text utilities: searching, splitting, trimming and
//! substring tests, each with an exact specification over `Seq<char>`.

use vstd::prelude::*;
use vstd::string::StrSliceExecFns;
use vstd::string::StringExecFns;

verus! {

/// A character matches one of the two separator characters.
pub open spec fn is_sep(c: char, a: char, b: char) -> bool {
    c == a || c == b
}

/// Index of the first separator at or after `from`, or `s.len()` if none.
pub open spec fn spec_find_sep(s: Seq<char>, a: char, b: char, from: int) -> int
    decreases s.len() - from,
{
    if from < 0 || from >= s.len() {
        s.len() as int
    } else if is_sep(s[from], a, b) {
        from
    } else {
        spec_find_sep(s, a, b, from + 1)
    }
}

pub proof fn lemma_find_sep_bounds(s: Seq<char>, a: char, b: char, from: int)
    requires
        0 <= from <= s.len(),
    ensures
        from <= spec_find_sep(s, a, b, from) <= s.len(),
        spec_find_sep(s, a, b, from) < s.len() ==> is_sep(s[spec_find_sep(s, a, b, from)], a, b),
        forall|j: int| from <= j < spec_find_sep(s, a, b, from) ==> !is_sep(s[j], a, b),
    decreases s.len() - from,
{
    if from < s.len() && !is_sep(s[from], a, b) {
        lemma_find_sep_bounds(s, a, b, from + 1);
    }
}

/// The first separator position is `i` exactly when nothing before `i`
/// separates and `i` either separates or is the end.
pub proof fn lemma_find_sep_at(s: Seq<char>, a: char, b: char, from: int, i: int)
    requires
        0 <= from <= i <= s.len(),
        forall|j: int| from <= j < i ==> !is_sep(s[j], a, b),
        i == s.len() || is_sep(s[i], a, b),
    ensures
        spec_find_sep(s, a, b, from) == i,
    decreases i - from,
{
    if from < i {
        lemma_find_sep_at(s, a, b, from + 1, i);
    }
}

/// Exec counterpart of [`spec_find_sep`], scanning from `from`.
pub fn find_sep_from(s: &str, a: char, b: char, from: usize) -> (r: usize)
    requires
        from <= s@.len(),
    ensures
        r == spec_find_sep(s@, a, b, from as int),
        r <= s@.len(),
{
    let n = s.unicode_len();
    let mut i = from;
    while i < n
        invariant
            from <= i <= n,
            n == s@.len(),
            spec_find_sep(s@, a, b, from as int) == spec_find_sep(s@, a, b, i as int),
        decreases n - i,
    {
        let c = s.get_char(i);
        if c == a || c == b {
            return i;
        }
        i = i + 1;
    }
    i
}

/// The segments of `s` between separator characters; separators are dropped,
/// empty segments are kept, and a string with no separator is one segment.
pub open spec fn spec_split(s: Seq<char>, a: char, b: char) -> Seq<Seq<char>>
    decreases s.len(),
    via spec_split_decreases
{
    let e = spec_find_sep(s, a, b, 0);
    if e == s.len() {
        seq![s]
    } else {
        seq![s.subrange(0, e)] + spec_split(s.subrange(e + 1, s.len() as int), a, b)
    }
}

#[via_fn]
proof fn spec_split_decreases(s: Seq<char>, a: char, b: char) {
    lemma_find_sep_bounds(s, a, b, 0);
}

/// Exec counterpart of [`spec_split`].
pub fn split_str(s: &str, a: char, b: char) -> (r: Vec<String>)
    ensures
        r.deep_view() == spec_split(s@, a, b),
    decreases s@.len(),
{
    proof {
        lemma_find_sep_bounds(s@, a, b, 0);
    }
    let n = s.unicode_len();
    let e = find_sep_from(s, a, b, 0);
    if e == n {
        let mut r: Vec<String> = Vec::new();
        r.push(String::from_str(s));
        proof {
            assert(r.deep_view() =~~= spec_split(s@, a, b));
        }
        r
    } else {
        let rest = s.substring_char(e + 1, n);
        let mut r = split_str(rest, a, b);
        let first = s.substring_char(0, e);
        r.insert(0, String::from_str(first));
        proof {
            assert(r.deep_view() =~~= spec_split(s@, a, b));
        }
        r
    }
}

/// A line with a trailing carriage return loses it; any other line is kept.
pub open spec fn spec_trim_cr(l: Seq<char>) -> Seq<char> {
    if l.len() > 0 && l.last() == '\r' {
        l.drop_last()
    } else {
        l
    }
}

/// [`spec_trim_cr`] applied to every element of a sequence of lines.
pub open spec fn spec_trim_cr_all(ls: Seq<Seq<char>>) -> Seq<Seq<char>>
    decreases ls.len(),
{
    if ls.len() == 0 {
        Seq::empty()
    } else {
        spec_trim_cr_all(ls.drop_last()).push(spec_trim_cr(ls.last()))
    }
}

/// The lines of `s`: segments between newline characters, with a final
/// terminating newline producing no extra empty line, and one trailing
/// carriage return removed from each line.
pub open spec fn spec_lines(s: Seq<char>) -> Seq<Seq<char>> {
    if s.len() == 0 {
        Seq::empty()
    } else if s.last() == '\n' {
        spec_trim_cr_all(spec_split(s.drop_last(), '\n', '\n'))
    } else {
        spec_trim_cr_all(spec_split(s, '\n', '\n'))
    }
}

/// Exec counterpart of [`spec_trim_cr`].
pub fn trim_cr(l: &str) -> (r: &str)
    ensures
        r@ == spec_trim_cr(l@),
{
    let n = l.unicode_len();
    if n > 0 && l.get_char(n - 1) == '\r' {
        let r = l.substring_char(0, n - 1);
        proof {
            assert(r@ =~= l@.drop_last());
        }
        r
    } else {
        l
    }
}

/// Exec counterpart of [`spec_lines`].
pub fn split_lines(s: &str) -> (r: Vec<String>)
    ensures
        r.deep_view() == spec_lines(s@),
{
    let n = s.unicode_len();
    if n == 0 {
        let r: Vec<String> = Vec::new();
        proof {
            assert(r.deep_view() =~~= spec_lines(s@));
        }
        return r;
    }
    let body = if s.get_char(n - 1) == '\n' {
        let b = s.substring_char(0, n - 1);
        proof {
            assert(b@ =~= s@.drop_last());
        }
        b
    } else {
        s
    };
    let segs = split_str(body, '\n', '\n');
    let ghost gsegs = segs.deep_view();
    let mut out: Vec<String> = Vec::new();
    let mut i: usize = 0;
    while i < segs.len()
        invariant
            0 <= i <= segs.len(),
            gsegs == segs.deep_view(),
            gsegs == spec_split(body@, '\n', '\n'),
            out.deep_view() == spec_trim_cr_all(gsegs.take(i as int)),
        decreases segs.len() - i,
    {
        let t = trim_cr(segs[i].as_str());
        out.push(String::from_str(t));
        proof {
            assert(gsegs.take(i + 1 as int).drop_last() =~~= gsegs.take(i as int));
            assert(gsegs.take(i + 1 as int).last() == gsegs[i as int]);
            assert(out.deep_view() =~~= spec_trim_cr_all(gsegs.take(i + 1 as int)));
        }
        i = i + 1;
    }
    proof {
        assert(gsegs.take(segs.len() as int) =~~= gsegs);
        assert(out.deep_view() == spec_lines(s@));
    }
    out
}

/// Blank characters that may surround a field value.
pub open spec fn is_blank(c: char) -> bool {
    c == ' ' || c == '\t'
}

/// `t` without its leading blank characters.
pub open spec fn spec_trim_start(t: Seq<char>) -> Seq<char>
    decreases t.len(),
{
    if t.len() > 0 && is_blank(t[0]) {
        spec_trim_start(t.drop_first())
    } else {
        t
    }
}

/// `t` without its trailing blank characters.
pub open spec fn spec_trim_end(t: Seq<char>) -> Seq<char>
    decreases t.len(),
{
    if t.len() > 0 && is_blank(t.last()) {
        spec_trim_end(t.drop_last())
    } else {
        t
    }
}

/// `t` without one surrounding double-quote character on each side,
/// where present.
pub open spec fn spec_strip_quotes(t: Seq<char>) -> Seq<char> {
    let u = if t.len() > 0 && t[0] == '"' {
        t.drop_first()
    } else {
        t
    };
    if u.len() > 0 && u.last() == '"' {
        u.drop_last()
    } else {
        u
    }
}

/// A field value as extracted from a key/value line: surrounding blanks
/// trimmed, then surrounding quote characters stripped.
pub open spec fn spec_clean_value(t: Seq<char>) -> Seq<char> {
    spec_strip_quotes(spec_trim_end(spec_trim_start(t)))
}

/// Exec counterpart of [`spec_trim_start`].
pub fn trim_start(t: &str) -> (r: &str)
    ensures
        r@ == spec_trim_start(t@),
    decreases t@.len(),
{
    let n = t.unicode_len();
    if n > 0 {
        let c = t.get_char(0);
        if c == ' ' || c == '\t' {
            let rest = t.substring_char(1, n);
            proof {
                assert(rest@ =~= t@.drop_first());
            }
            return trim_start(rest);
        }
    }
    t
}

/// Exec counterpart of [`spec_trim_end`].
pub fn trim_end(t: &str) -> (r: &str)
    ensures
        r@ == spec_trim_end(t@),
    decreases t@.len(),
{
    let n = t.unicode_len();
    if n > 0 {
        let c = t.get_char(n - 1);
        if c == ' ' || c == '\t' {
            let rest = t.substring_char(0, n - 1);
            proof {
                assert(rest@ =~= t@.drop_last());
            }
            return trim_end(rest);
        }
    }
    t
}

/// Exec counterpart of [`spec_strip_quotes`].
pub fn strip_quotes(t: &str) -> (r: &str)
    ensures
        r@ == spec_strip_quotes(t@),
{
    let n = t.unicode_len();
    let u = if n > 0 && t.get_char(0) == '"' {
        let u = t.substring_char(1, n);
        proof {
            assert(u@ =~= t@.drop_first());
        }
        u
    } else {
        t
    };
    let m = u.unicode_len();
    if m > 0 && u.get_char(m - 1) == '"' {
        let r = u.substring_char(0, m - 1);
        proof {
            assert(r@ =~= u@.drop_last());
        }
        r
    } else {
        u
    }
}

/// Exec counterpart of [`spec_clean_value`].
pub fn clean_value(t: &str) -> (r: String)
    ensures
        r@ == spec_clean_value(t@),
{
    String::from_str(strip_quotes(trim_end(trim_start(t))))
}

/// The non-empty segments of a split: empty segments are dropped,
/// the order of the rest is kept.
pub open spec fn spec_drop_empty(ts: Seq<Seq<char>>) -> Seq<Seq<char>>
    decreases ts.len(),
{
    if ts.len() == 0 {
        Seq::empty()
    } else if ts.last().len() > 0 {
        spec_drop_empty(ts.drop_last()).push(ts.last())
    } else {
        spec_drop_empty(ts.drop_last())
    }
}

/// The fields of one line: segments between the two separator characters,
/// with empty segments dropped.
pub open spec fn spec_fields(l: Seq<char>, a: char, b: char) -> Seq<Seq<char>> {
    spec_drop_empty(spec_split(l, a, b))
}

/// Exec counterpart of [`spec_fields`].
pub fn fields(l: &str, a: char, b: char) -> (r: Vec<String>)
    ensures
        r.deep_view() == spec_fields(l@, a, b),
{
    let segs = split_str(l, a, b);
    let ghost gsegs = segs.deep_view();
    let mut out: Vec<String> = Vec::new();
    let mut i: usize = 0;
    while i < segs.len()
        invariant
            0 <= i <= segs.len(),
            gsegs == segs.deep_view(),
            gsegs == spec_split(l@, a, b),
            out.deep_view() == spec_drop_empty(gsegs.take(i as int)),
        decreases segs.len() - i,
    {
        proof {
            assert(gsegs.take(i + 1 as int).drop_last() =~~= gsegs.take(i as int));
            assert(gsegs.take(i + 1 as int).last() == gsegs[i as int]);
        }
        if segs[i].as_str().unicode_len() > 0 {
            let s = String::from_str(segs[i].as_str());
            out.push(s);
            proof {
                assert(out.deep_view() =~~= spec_drop_empty(gsegs.take(i + 1 as int)));
            }
        } else {
            proof {
                assert(out.deep_view() =~~= spec_drop_empty(gsegs.take(i + 1 as int)));
            }
        }
        i = i + 1;
    }
    proof {
        assert(gsegs.take(segs.len() as int) =~~= gsegs);
    }
    out
}

/// A decimal digit.
pub open spec fn is_digit(c: char) -> bool {
    '0' <= c && c <= '9'
}

/// Every character of `t` is a decimal digit.
pub open spec fn spec_all_digits(t: Seq<char>) -> bool {
    forall|i: int| 0 <= i < t.len() ==> is_digit(t[i])
}

/// Exec counterpart of [`spec_all_digits`].
pub fn all_digits(t: &str) -> (r: bool)
    ensures
        r == spec_all_digits(t@),
{
    let n = t.unicode_len();
    let mut i: usize = 0;
    while i < n
        invariant
            0 <= i <= n,
            n == t@.len(),
            forall|j: int| 0 <= j < i ==> is_digit(t@[j]),
        decreases n - i,
    {
        let c = t.get_char(i);
        if !(c >= '0' && c <= '9') {
            return false;
        }
        i = i + 1;
    }
    true
}

/// `s` and `p` hold the same characters.
pub fn str_eq(s: &str, p: &str) -> (r: bool)
    ensures
        r == (s@ == p@),
{
    let n = s.unicode_len();
    if n != p.unicode_len() {
        return false;
    }
    let mut i: usize = 0;
    while i < n
        invariant
            0 <= i <= n,
            n == s@.len() == p@.len(),
            forall|j: int| 0 <= j < i ==> s@[j] == p@[j],
        decreases n - i,
    {
        if s.get_char(i) != p.get_char(i) {
            return false;
        }
        i = i + 1;
    }
    proof {
        assert(s@ =~= p@);
    }
    true
}

/// `p` occurs in `s` starting at position `at`.
pub open spec fn spec_matches_at(s: Seq<char>, p: Seq<char>, at: int) -> bool {
    0 <= at && at + p.len() <= s.len() && s.subrange(at, at + p.len()) == p
}

/// Exec counterpart of [`spec_matches_at`].
pub fn matches_at(s: &str, p: &str, at: usize) -> (r: bool)
    requires
        at + p@.len() <= s@.len(),
    ensures
        r == spec_matches_at(s@, p@, at as int),
{
    let n = s.unicode_len();
    let m = p.unicode_len();
    let mut j: usize = 0;
    while j < m
        invariant
            0 <= j <= m,
            m == p@.len(),
            n == s@.len(),
            at + m <= n,
            forall|k: int| 0 <= k < j ==> s@[at + k] == p@[k],
        decreases m - j,
    {
        if s.get_char(at + j) != p.get_char(j) {
            proof {
                assert(s@.subrange(at as int, at + p@.len())[j as int] == s@[at + j]);
            }
            return false;
        }
        j = j + 1;
    }
    proof {
        assert(s@.subrange(at as int, at + p@.len()) =~= p@);
    }
    true
}

/// `s` begins with `p`.
pub open spec fn spec_starts_with(s: Seq<char>, p: Seq<char>) -> bool {
    spec_matches_at(s, p, 0)
}

/// `s` ends with `p`.
pub open spec fn spec_ends_with(s: Seq<char>, p: Seq<char>) -> bool {
    p.len() <= s.len() && spec_matches_at(s, p, s.len() - p.len())
}

/// `p` occurs somewhere in `s`.
pub open spec fn spec_contains(s: Seq<char>, p: Seq<char>) -> bool {
    exists|i: int| spec_matches_at(s, p, i)
}

/// Exec counterpart of [`spec_starts_with`].
pub fn starts_with(s: &str, p: &str) -> (r: bool)
    ensures
        r == spec_starts_with(s@, p@),
{
    if p.unicode_len() > s.unicode_len() {
        return false;
    }
    matches_at(s, p, 0)
}

/// Exec counterpart of [`spec_ends_with`].
pub fn ends_with(s: &str, p: &str) -> (r: bool)
    ensures
        r == spec_ends_with(s@, p@),
{
    let n = s.unicode_len();
    let m = p.unicode_len();
    if m > n {
        return false;
    }
    matches_at(s, p, n - m)
}

/// Exec counterpart of [`spec_contains`].
pub fn contains(s: &str, p: &str) -> (r: bool)
    ensures
        r == spec_contains(s@, p@),
{
    let n = s.unicode_len();
    let m = p.unicode_len();
    if m > n {
        proof {
            assert(forall|i: int| !spec_matches_at(s@, p@, i));
        }
        return false;
    }
    if m == 0 {
        proof {
            assert(s@.subrange(0, 0) =~= p@);
            assert(spec_matches_at(s@, p@, 0));
        }
        return true;
    }
    let mut i: usize = 0;
    while i <= n - m
        invariant
            0 <= i <= n - m + 1,
            0 < m <= n,
            n == s@.len(),
            m == p@.len(),
            forall|k: int| 0 <= k < i ==> !spec_matches_at(s@, p@, k),
        decreases n - i,
    {
        if matches_at(s, p, i) {
            return true;
        }
        i = i + 1;
    }
    proof {
        assert(forall|k: int| !spec_matches_at(s@, p@, k));
    }
    false
}

} // verus!
