//! The exclusion filter: decides whether a manifest entry's display name
//! denotes something other than a launchable game (runtime shims,
//! redistributables, soundtracks) and must be kept out of the catalog.

use vstd::prelude::*;
use vstd::string::StrSliceExecFns;
use crate::text::all_digits;
use crate::text::ends_with;
use crate::text::find_sep_from;
use crate::text::is_digit;
use crate::text::is_sep;
use crate::text::lemma_find_sep_at;
use crate::text::spec_all_digits;
use crate::text::spec_ends_with;
use crate::text::spec_find_sep;
use crate::text::spec_split;
use crate::text::spec_starts_with;
use crate::text::split_str;
use crate::text::starts_with;
use crate::text::str_eq;

verus! {

/// A sign character of a numeric literal.
pub open spec fn is_sign(c: char) -> bool {
    c == '+' || c == '-'
}

/// The ASCII lower-case image of the upper-case letters that occur in the
/// special floating-point words; every other character maps to itself.
pub open spec fn spec_lower(c: char) -> char {
    if c == 'I' {
        'i'
    } else if c == 'N' {
        'n'
    } else if c == 'F' {
        'f'
    } else if c == 'A' {
        'a'
    } else if c == 'T' {
        't'
    } else if c == 'Y' {
        'y'
    } else {
        c
    }
}

/// `u` equals the lower-case word `pat` up to the case of its letters.
pub open spec fn spec_eq_ci(u: Seq<char>, pat: Seq<char>) -> bool {
    u.len() == pat.len() && forall|i: int| 0 <= i < u.len() ==> spec_lower(u[i]) == pat[i]
}

/// One of the special words a floating-point literal may spell: an
/// infinity or a not-a-number, whose value compares unequal to zero.
pub open spec fn spec_is_special(u: Seq<char>) -> bool {
    spec_eq_ci(u, "inf"@) || spec_eq_ci(u, "infinity"@) || spec_eq_ci(u, "nan"@)
}

/// `t` without one leading sign character.
pub open spec fn spec_unsigned(t: Seq<char>) -> Seq<char> {
    if t.len() > 0 && is_sign(t[0]) {
        t.drop_first()
    } else {
        t
    }
}

/// How many times `c` occurs in `t`.
pub open spec fn spec_count_char(t: Seq<char>, c: char) -> int
    decreases t.len(),
{
    if t.len() == 0 {
        0
    } else {
        spec_count_char(t.drop_last(), c) + if t.last() == c {
            1int
        } else {
            0int
        }
    }
}

/// The part of an unsigned literal before its exponent marker.
pub open spec fn spec_mantissa(u: Seq<char>) -> Seq<char> {
    u.take(spec_find_sep(u, 'e', 'E', 0))
}

/// A well-formed mantissa: non-empty, only digits and at most one decimal
/// point, and at least one digit.
pub open spec fn spec_mantissa_ok(m: Seq<char>) -> bool {
    &&& m.len() > 0
    &&& forall|i: int| 0 <= i < m.len() ==> is_digit(m[i]) || m[i] == '.'
    &&& spec_count_char(m, '.') <= 1
    &&& exists|i: int| 0 <= i < m.len() && is_digit(m[i])
}

/// A well-formed exponent: either no exponent marker at all, or the marker
/// followed by an optional sign and at least one digit.
pub open spec fn spec_exponent_ok(u: Seq<char>) -> bool {
    let k = spec_find_sep(u, 'e', 'E', 0);
    if k == u.len() {
        true
    } else {
        let e = u.subrange(k + 1, u.len() as int);
        let d = if e.len() > 0 && is_sign(e[0]) {
            e.drop_first()
        } else {
            e
        };
        d.len() > 0 && spec_all_digits(d)
    }
}

/// The mantissa holds a digit other than zero.
pub open spec fn spec_nonzero_mantissa(m: Seq<char>) -> bool {
    exists|i: int| 0 <= i < m.len() && '1' <= m[i] && m[i] <= '9'
}

/// `t` spells a floating-point number other than zero: an optional sign,
/// then a special word, or a well-formed mantissa and exponent with some
/// digit of the mantissa non-zero.
pub open spec fn spec_parses_nonzero_float(t: Seq<char>) -> bool {
    let u = spec_unsigned(t);
    spec_is_special(u) || (spec_mantissa_ok(spec_mantissa(u)) && spec_exponent_ok(u)
        && spec_nonzero_mantissa(spec_mantissa(u)))
}

/// The name denotes a compatibility-layer runtime version: it begins with
/// the runtime's prefix word and its second space-separated token spells a
/// non-zero floating-point number.
pub open spec fn spec_is_proton(s: Seq<char>) -> bool {
    let toks = spec_split(s, ' ', ' ');
    spec_starts_with(s, "Proton"@) && toks.len() > 1 && spec_parses_nonzero_float(toks[1])
}

/// The name must be excluded from the catalog: it matches one of the known
/// non-game package names, ends with the soundtrack suffix, denotes a
/// compatibility-runtime version, or begins with the containerized runtime
/// prefix.
pub open spec fn spec_is_blacklisted(s: Seq<char>) -> bool {
    ||| s == "Steamworks Common Redistributables"@
    ||| s == "SteamVR"@
    ||| s == "Proton Experimental"@
    ||| spec_ends_with(s, "Soundtrack"@)
    ||| spec_is_proton(s)
    ||| spec_starts_with(s, "Steam Linux Runtime"@)
}

/// Exec counterpart of [`spec_lower`].
fn lower(c: char) -> (r: char)
    ensures
        r == spec_lower(c),
{
    if c == 'I' {
        'i'
    } else if c == 'N' {
        'n'
    } else if c == 'F' {
        'f'
    } else if c == 'A' {
        'a'
    } else if c == 'T' {
        't'
    } else if c == 'Y' {
        'y'
    } else {
        c
    }
}

/// Exec counterpart of [`spec_eq_ci`].
fn eq_ci(u: &str, pat: &str) -> (r: bool)
    ensures
        r == spec_eq_ci(u@, pat@),
{
    let n = u.unicode_len();
    if n != pat.unicode_len() {
        return false;
    }
    let mut i: usize = 0;
    while i < n
        invariant
            0 <= i <= n,
            n == u@.len() == pat@.len(),
            forall|j: int| 0 <= j < i ==> spec_lower(u@[j]) == pat@[j],
        decreases n - i,
    {
        if lower(u.get_char(i)) != pat.get_char(i) {
            return false;
        }
        i = i + 1;
    }
    true
}

/// Exec counterpart of [`spec_mantissa_ok`] and, when the mantissa is
/// well formed, of [`spec_nonzero_mantissa`].
fn check_mantissa(m: &str) -> (r: (bool, bool))
    ensures
        r.0 == spec_mantissa_ok(m@),
        r.0 ==> r.1 == spec_nonzero_mantissa(m@),
{
    let n = m.unicode_len();
    if n == 0 {
        return (false, false);
    }
    let mut dots: usize = 0;
    let mut has_digit = false;
    let mut has_nonzero = false;
    let mut i: usize = 0;
    while i < n
        invariant
            0 <= i <= n,
            n == m@.len(),
            forall|j: int| 0 <= j < i ==> (is_digit(m@[j]) || m@[j] == '.'),
            dots == spec_count_char(m@.take(i as int), '.'),
            dots <= i,
            has_digit == exists|j: int| 0 <= j < i && is_digit(m@[j]),
            has_nonzero == exists|j: int| 0 <= j < i && '1' <= m@[j] && m@[j] <= '9',
        decreases n - i,
    {
        let c = m.get_char(i);
        proof {
            assert(m@.take(i + 1 as int).drop_last() =~= m@.take(i as int));
            assert(m@.take(i + 1 as int).last() == m@[i as int]);
        }
        if c == '.' {
            dots = dots + 1;
        } else if c >= '0' && c <= '9' {
            has_digit = true;
            if c >= '1' {
                has_nonzero = true;
            }
        } else {
            return (false, false);
        }
        i = i + 1;
    }
    proof {
        assert(m@.take(n as int) =~= m@);
    }
    (dots <= 1 && has_digit, has_nonzero)
}

/// Exec counterpart of [`spec_exponent_ok`], given the position of the
/// exponent marker.
fn exponent_ok(u: &str, k: usize) -> (r: bool)
    requires
        k == spec_find_sep(u@, 'e', 'E', 0),
        k <= u@.len(),
    ensures
        r == spec_exponent_ok(u@),
{
    let n = u.unicode_len();
    if k == n {
        return true;
    }
    let e = u.substring_char(k + 1, n);
    let en = e.unicode_len();
    let d = if en > 0 {
        let c = e.get_char(0);
        if c == '+' || c == '-' {
            let d = e.substring_char(1, en);
            proof {
                assert(d@ =~= e@.drop_first());
            }
            d
        } else {
            e
        }
    } else {
        e
    };
    if d.unicode_len() == 0 {
        return false;
    }
    all_digits(d)
}

/// Exec counterpart of [`spec_parses_nonzero_float`].
pub fn parses_nonzero_float(t: &str) -> (r: bool)
    ensures
        r == spec_parses_nonzero_float(t@),
{
    let n = t.unicode_len();
    let u: &str = if n > 0 {
        let c = t.get_char(0);
        if c == '+' || c == '-' {
            let u = t.substring_char(1, n);
            proof {
                assert(u@ =~= t@.drop_first());
            }
            u
        } else {
            t
        }
    } else {
        t
    };
    if eq_ci(u, "inf") || eq_ci(u, "infinity") || eq_ci(u, "nan") {
        return true;
    }
    let k = find_sep_from(u, 'e', 'E', 0);
    let m = u.substring_char(0, k);
    proof {
        assert(m@ =~= spec_mantissa(u@));
    }
    let (ok, nz) = check_mantissa(m);
    ok && nz && exponent_ok(u, k)
}

/// Detect whether an entry is a compatibility-layer runtime version.
pub fn is_proton(app_name: &str) -> (r: bool)
    ensures
        r == spec_is_proton(app_name@),
{
    if !starts_with(app_name, "Proton") {
        return false;
    }
    let toks = split_str(app_name, ' ', ' ');
    if toks.len() > 1 {
        proof {
            assert(toks.deep_view()[1] == toks@[1]@);
        }
        parses_nonzero_float(toks[1].as_str())
    } else {
        false
    }
}

/// Decide whether an entry with this display name stays out of the catalog.
pub fn is_blacklisted(app_name: &str) -> (r: bool)
    ensures
        r == spec_is_blacklisted(app_name@),
{
    str_eq(app_name, "Steamworks Common Redistributables") || str_eq(app_name, "SteamVR")
        || str_eq(app_name, "Proton Experimental") || ends_with(app_name, "Soundtrack")
        || is_proton(app_name) || starts_with(app_name, "Steam Linux Runtime")
}

/// The compatibility-runtime rule in isolation: for a version token `v`
/// holding no space, the name made of the runtime prefix word, one space
/// and `v` denotes a runtime exactly when `v` spells a non-zero
/// floating-point number.
pub proof fn lemma_proton_rule(v: Seq<char>)
    requires
        forall|i: int| 0 <= i < v.len() ==> v[i] != ' ',
    ensures
        spec_is_proton("Proton "@ + v) == spec_parses_nonzero_float(v),
{
    reveal_strlit("Proton ");
    reveal_strlit("Proton");
    let s = "Proton "@ + v;
    assert(forall|j: int| 0 <= j < 6 ==> !is_sep(s[j], ' ', ' '));
    assert(is_sep(s[6], ' ', ' '));
    lemma_find_sep_at(s, ' ', ' ', 0, 6);
    assert(forall|j: int| 0 <= j < v.len() ==> !is_sep(v[j], ' ', ' '));
    lemma_find_sep_at(v, ' ', ' ', 0, v.len() as int);
    let toks = spec_split(s, ' ', ' ');
    assert(s.subrange(7, s.len() as int) =~= v);
    assert(spec_split(v, ' ', ' ') == seq![v]);
    assert(toks == seq![s.subrange(0, 6)] + seq![v]);
    assert(toks.len() == 2);
    assert(toks[1] == v);
    assert(s.subrange(0, 6) =~= "Proton"@);
    assert(spec_starts_with(s, "Proton"@));
}

} // verus!
