//! Parsing of the client's line-oriented, tab-delimited key/value files:
//! the library-folder declarations and the per-game manifests.
//!
//! Both files carry a fixed two-line preamble and a closing line; only the
//! body lines between them hold data.  A library-folder body line counts
//! when its key, quotes stripped, is a non-empty run of decimal digits; a
//! manifest body line assigns the display name or the identifier when its
//! key contains the respective word, and a later assignment overwrites an
//! earlier one.

use vstd::prelude::*;
use vstd::string::StrSliceExecFns;
use crate::text::all_digits;
use crate::text::clean_value;
use crate::text::contains;
use crate::text::fields;
use crate::text::spec_all_digits;
use crate::text::spec_clean_value;
use crate::text::spec_contains;
use crate::text::spec_fields;
use crate::text::spec_lines;
use crate::text::split_lines;

verus! {

/// One catalog entry: a display name and the opaque identifier used to
/// build the launch invocation.
#[derive(Debug)]
pub struct GameEntry {
    pub name: String,
    pub id: String,
}

impl View for GameEntry {
    type V = (Seq<char>, Seq<char>);

    open spec fn view(&self) -> (Seq<char>, Seq<char>) {
        (self.name@, self.id@)
    }
}

impl DeepView for GameEntry {
    type V = (Seq<char>, Seq<char>);

    open spec fn deep_view(&self) -> (Seq<char>, Seq<char>) {
        self.view()
    }
}

/// The data lines of a key/value file: everything after the two preamble
/// lines and before the closing line.
pub open spec fn spec_body_lines(ls: Seq<Seq<char>>) -> Seq<Seq<char>> {
    if ls.len() < 3 {
        Seq::empty()
    } else {
        ls.subrange(2, ls.len() - 1)
    }
}

/// A numeric key: quotes stripped, a non-empty run of decimal digits.
pub open spec fn spec_is_num_key(t: Seq<char>) -> bool {
    spec_clean_value(t).len() > 0 && spec_all_digits(spec_clean_value(t))
}

/// The path a library-folder body line declares, if any: the cleaned
/// second field of a line whose key is numeric.
pub open spec fn spec_entry_path(l: Seq<char>) -> Option<Seq<char>> {
    let ts = spec_fields(l, ' ', '\t');
    if ts.len() >= 2 && spec_is_num_key(ts[0]) {
        Some(spec_clean_value(ts[1]))
    } else {
        None
    }
}

/// The paths declared by a sequence of body lines, in order.
pub open spec fn spec_library_paths(body: Seq<Seq<char>>) -> Seq<Seq<char>>
    decreases body.len(),
{
    if body.len() == 0 {
        Seq::empty()
    } else {
        spec_library_paths(body.drop_last()) + match spec_entry_path(body.last()) {
            Some(p) => seq![p],
            None => Seq::empty(),
        }
    }
}

/// The additional library roots a library-folders file declares.
pub open spec fn spec_parse_library_folders(s: Seq<char>) -> Seq<Seq<char>> {
    spec_library_paths(spec_body_lines(spec_lines(s)))
}

/// The value a manifest body line assigns to `key`, if any: the cleaned
/// second field of a line whose first field contains `key`.
pub open spec fn spec_line_value(l: Seq<char>, key: Seq<char>) -> Option<Seq<char>> {
    let ts = spec_fields(l, '\t', '\t');
    if ts.len() >= 2 && spec_contains(ts[0], key) {
        Some(spec_clean_value(ts[1]))
    } else {
        None
    }
}

/// The final value of `key` over a sequence of body lines: the value of
/// the last line that assigns it, or empty if none does.
pub open spec fn spec_manifest_field(body: Seq<Seq<char>>, key: Seq<char>) -> Seq<char>
    decreases body.len(),
{
    if body.len() == 0 {
        Seq::empty()
    } else {
        match spec_line_value(body.last(), key) {
            Some(v) => v,
            None => spec_manifest_field(body.drop_last(), key),
        }
    }
}

/// The display name a manifest yields.
pub open spec fn spec_manifest_name(s: Seq<char>) -> Seq<char> {
    spec_manifest_field(spec_body_lines(spec_lines(s)), "name"@)
}

/// The identifier a manifest yields.
pub open spec fn spec_manifest_id(s: Seq<char>) -> Seq<char> {
    spec_manifest_field(spec_body_lines(spec_lines(s)), "appid"@)
}

/// Read the additional library roots out of the contents of a
/// library-folders file.
pub fn parse_library_folders(contents: &str) -> (r: Vec<String>)
    ensures
        r.deep_view() == spec_parse_library_folders(contents@),
{
    let lines = split_lines(contents);
    let ghost gl = lines.deep_view();
    let ghost body = spec_body_lines(gl);
    let mut out: Vec<String> = Vec::new();
    if lines.len() < 3 {
        proof {
            assert(out.deep_view() =~~= spec_library_paths(body));
        }
        return out;
    }
    let last = lines.len() - 1;
    let mut i: usize = 2;
    while i < last
        invariant
            2 <= i <= last,
            last == lines.len() - 1,
            3 <= lines.len(),
            gl == lines.deep_view(),
            gl.len() == lines.len(),
            body == spec_body_lines(gl),
            body == gl.subrange(2, gl.len() - 1),
            out.deep_view() == spec_library_paths(body.take(i - 2)),
        decreases last - i,
    {
        let ghost j = i - 2;
        proof {
            assert(body.take(j + 1).drop_last() =~~= body.take(j as int));
            assert(body.take(j + 1).last() == body[j as int]);
            assert(body[j as int] == gl[i as int]);
            assert(gl[i as int] == lines@[i as int]@);
        }
        let ts = fields(lines[i].as_str(), ' ', '\t');
        if ts.len() >= 2 {
            proof {
                assert(ts.deep_view()[0] == ts@[0]@);
                assert(ts.deep_view()[1] == ts@[1]@);
            }
            let key = clean_value(ts[0].as_str());
            if key.as_str().unicode_len() > 0 && all_digits(key.as_str()) {
                let val = clean_value(ts[1].as_str());
                out.push(val);
            }
        }
        proof {
            assert(out.deep_view() =~~= spec_library_paths(body.take(j + 1)));
        }
        i = i + 1;
    }
    proof {
        assert(body.take(last - 2) =~~= body);
    }
    out
}

/// Parse one manifest's contents into its display name and identifier;
/// either field is empty when no body line assigns it.
pub fn parse_manifest(contents: &str) -> (e: GameEntry)
    ensures
        e.name@ == spec_manifest_name(contents@),
        e.id@ == spec_manifest_id(contents@),
{
    let lines = split_lines(contents);
    let ghost gl = lines.deep_view();
    let ghost body = spec_body_lines(gl);
    let mut name = String::new();
    let mut id = String::new();
    if lines.len() < 3 {
        proof {
            assert(body =~~= Seq::<Seq<char>>::empty());
        }
        return GameEntry { name, id };
    }
    let last = lines.len() - 1;
    let mut i: usize = 2;
    while i < last
        invariant
            2 <= i <= last,
            last == lines.len() - 1,
            3 <= lines.len(),
            gl == lines.deep_view(),
            gl.len() == lines.len(),
            body == spec_body_lines(gl),
            body == gl.subrange(2, gl.len() - 1),
            name@ == spec_manifest_field(body.take(i - 2), "name"@),
            id@ == spec_manifest_field(body.take(i - 2), "appid"@),
        decreases last - i,
    {
        let ghost j = i - 2;
        proof {
            assert(body.take(j + 1).drop_last() =~~= body.take(j as int));
            assert(body.take(j + 1).last() == body[j as int]);
            assert(body[j as int] == gl[i as int]);
            assert(gl[i as int] == lines@[i as int]@);
        }
        let ts = fields(lines[i].as_str(), '\t', '\t');
        if ts.len() >= 2 {
            proof {
                assert(ts.deep_view()[0] == ts@[0]@);
                assert(ts.deep_view()[1] == ts@[1]@);
            }
            if contains(ts[0].as_str(), "name") {
                name = clean_value(ts[1].as_str());
            }
            if contains(ts[0].as_str(), "appid") {
                id = clean_value(ts[1].as_str());
            }
        }
        i = i + 1;
    }
    proof {
        assert(body.take(last - 2) =~~= body);
    }
    GameEntry { name, id }
}

/// Completeness of the resolver: the path of every numerically-keyed body
/// line appears among the parsed library paths.
pub proof fn lemma_resolver_complete(body: Seq<Seq<char>>, j: int, p: Seq<char>)
    requires
        0 <= j < body.len(),
        spec_entry_path(body[j]) == Some(p),
    ensures
        spec_library_paths(body).contains(p),
    decreases body.len(),
{
    let pre = spec_library_paths(body.drop_last());
    if j == body.len() - 1 {
        assert(spec_library_paths(body)[pre.len() as int] == p);
    } else {
        lemma_resolver_complete(body.drop_last(), j, p);
        let w = choose|w: int| 0 <= w < pre.len() && pre[w] == p;
        assert(spec_library_paths(body)[w] == p);
    }
}

/// Soundness of the resolver: every parsed library path is the path of
/// some numerically-keyed body line.
pub proof fn lemma_resolver_sound(body: Seq<Seq<char>>, p: Seq<char>)
    requires
        spec_library_paths(body).contains(p),
    ensures
        exists|j: int| 0 <= j < body.len() && spec_entry_path(body[j]) == Some(p),
    decreases body.len(),
{
    if body.len() > 0 {
        let pre = spec_library_paths(body.drop_last());
        let all = spec_library_paths(body);
        let w = choose|w: int| 0 <= w < all.len() && all[w] == p;
        if w < pre.len() {
            assert(pre[w] == p);
            lemma_resolver_sound(body.drop_last(), p);
            let j = choose|j: int|
                0 <= j < body.drop_last().len() && spec_entry_path(body.drop_last()[j]) == Some(p);
            assert(spec_entry_path(body[j]) == Some(p));
        } else {
            assert(spec_entry_path(body[body.len() - 1]) == Some(p));
        }
    }
}

/// Last write wins: when line `j` assigns `key` the value `v` and no later
/// body line assigns `key`, the parsed field is `v`.
pub proof fn lemma_last_write_wins(body: Seq<Seq<char>>, key: Seq<char>, j: int, v: Seq<char>)
    requires
        0 <= j < body.len(),
        spec_line_value(body[j], key) == Some(v),
        forall|k: int| j < k < body.len() ==> spec_line_value(body[k], key) is None,
    ensures
        spec_manifest_field(body, key) == v,
    decreases body.len(),
{
    if j < body.len() - 1 {
        lemma_last_write_wins(body.drop_last(), key, j, v);
    }
}

} // verus!
