//! Building the game catalog out of parsed manifests and drawing one
//! entry at random.

use vstd::prelude::*;
use crate::filter::is_blacklisted;
use crate::filter::spec_is_blacklisted;
use crate::vdf::GameEntry;
use crate::vdf::parse_manifest;
use crate::vdf::spec_manifest_id;
use crate::vdf::spec_manifest_name;

verus! {

/// The entry one manifest contributes: its parsed name and identifier.
pub open spec fn spec_manifest_entry(s: Seq<char>) -> (Seq<char>, Seq<char>) {
    (spec_manifest_name(s), spec_manifest_id(s))
}

/// The catalog one library root contributes, given the contents of its
/// manifest files: each parsed entry whose name passes the exclusion
/// filter, in file order.
pub open spec fn spec_scan(cs: Seq<Seq<char>>) -> Seq<(Seq<char>, Seq<char>)>
    decreases cs.len(),
{
    if cs.len() == 0 {
        Seq::empty()
    } else {
        spec_scan(cs.drop_last()) + if !spec_is_blacklisted(spec_manifest_entry(cs.last()).0) {
            seq![spec_manifest_entry(cs.last())]
        } else {
            Seq::empty()
        }
    }
}

/// The full catalog: the per-root contributions of all library roots,
/// in root order.
pub open spec fn spec_catalog(roots: Seq<Seq<Seq<char>>>) -> Seq<(Seq<char>, Seq<char>)>
    decreases roots.len(),
{
    if roots.len() == 0 {
        Seq::empty()
    } else {
        spec_catalog(roots.drop_last()) + spec_scan(roots.last())
    }
}

/// Parse the given manifest contents and keep the entries whose names
/// pass the exclusion filter.
pub fn scan_manifests(contents: &Vec<String>) -> (r: Vec<GameEntry>)
    ensures
        r.deep_view() == spec_scan(contents.deep_view()),
{
    let ghost gc = contents.deep_view();
    let mut out: Vec<GameEntry> = Vec::new();
    let mut i: usize = 0;
    while i < contents.len()
        invariant
            0 <= i <= contents.len(),
            gc == contents.deep_view(),
            gc.len() == contents.len(),
            out.deep_view() == spec_scan(gc.take(i as int)),
        decreases contents.len() - i,
    {
        proof {
            assert(gc.take(i + 1).drop_last() =~~= gc.take(i as int));
            assert(gc.take(i + 1).last() == gc[i as int]);
            assert(gc[i as int] == contents@[i as int]@);
        }
        let e = parse_manifest(contents[i].as_str());
        if !is_blacklisted(e.name.as_str()) {
            out.push(e);
        }
        proof {
            assert(out.deep_view() =~~= spec_scan(gc.take(i + 1)));
        }
        i = i + 1;
    }
    proof {
        assert(gc.take(contents.len() as int) =~~= gc);
    }
    out
}

/// Aggregate the catalog across all library roots, the default root and
/// the declared additional ones alike.
pub fn build_catalog(roots: &Vec<Vec<String>>) -> (r: Vec<GameEntry>)
    ensures
        r.deep_view() == spec_catalog(roots.deep_view()),
{
    let ghost gr = roots.deep_view();
    let mut out: Vec<GameEntry> = Vec::new();
    let mut i: usize = 0;
    while i < roots.len()
        invariant
            0 <= i <= roots.len(),
            gr == roots.deep_view(),
            gr.len() == roots.len(),
            out.deep_view() == spec_catalog(gr.take(i as int)),
        decreases roots.len() - i,
    {
        proof {
            assert(gr.take(i + 1).drop_last() =~~= gr.take(i as int));
            assert(gr.take(i + 1).last() == gr[i as int]);
            assert(gr[i as int] =~~= roots@[i as int].deep_view());
        }
        let mut part = scan_manifests(&roots[i]);
        out.append(&mut part);
        proof {
            assert(out.deep_view() =~~= spec_catalog(gr.take(i + 1)));
        }
        i = i + 1;
    }
    proof {
        assert(gr.take(roots.len() as int) =~~= gr);
    }
    out
}

/// Relies on rand's `Rng::gen_range` over the half-open range `0..bound`:
/// it returns a uniformly distributed value within the range and panics
/// only when the range is empty, which the precondition rules out.
#[verifier::external_body]
fn random_below(bound: usize) -> (r: usize)
    requires
        bound > 0,
    ensures
        r < bound,
{
    rand::Rng::gen_range(&mut rand::thread_rng(), 0..bound)
}

/// Draw the index of one catalog entry uniformly at random; `None`
/// exactly when the catalog is empty.
pub fn choose_game(catalog: &Vec<GameEntry>) -> (r: Option<usize>)
    ensures
        match r {
            None => catalog@.len() == 0,
            Some(i) => i < catalog@.len(),
        },
{
    if catalog.len() == 0 {
        None
    } else {
        Some(random_below(catalog.len()))
    }
}

/// Membership in one root's contribution: a manifest whose parsed name
/// passes the exclusion filter contributes its entry to the scan.
pub proof fn lemma_scan_complete(cs: Seq<Seq<char>>, j: int)
    requires
        0 <= j < cs.len(),
        !spec_is_blacklisted(spec_manifest_entry(cs[j]).0),
    ensures
        spec_scan(cs).contains(spec_manifest_entry(cs[j])),
    decreases cs.len(),
{
    let pre = spec_scan(cs.drop_last());
    if j == cs.len() - 1 {
        assert(spec_scan(cs)[pre.len() as int] == spec_manifest_entry(cs[j]));
    } else {
        lemma_scan_complete(cs.drop_last(), j);
        let e = spec_manifest_entry(cs.drop_last()[j]);
        let w = choose|w: int| 0 <= w < pre.len() && pre[w] == e;
        assert(spec_scan(cs)[w] == e);
    }
}

/// Soundness of one root's contribution: every entry of the scan is the
/// parsed entry of one of the root's manifests, and its name passes the
/// exclusion filter.
pub proof fn lemma_scan_sound(cs: Seq<Seq<char>>, e: (Seq<char>, Seq<char>))
    requires
        spec_scan(cs).contains(e),
    ensures
        !spec_is_blacklisted(e.0),
        exists|j: int| 0 <= j < cs.len() && e == spec_manifest_entry(cs[j]),
    decreases cs.len(),
{
    if cs.len() > 0 {
        let pre = spec_scan(cs.drop_last());
        let all = spec_scan(cs);
        let w = choose|w: int| 0 <= w < all.len() && all[w] == e;
        if w < pre.len() {
            assert(pre[w] == e);
            lemma_scan_sound(cs.drop_last(), e);
            let j = choose|j: int|
                0 <= j < cs.drop_last().len() && e == spec_manifest_entry(cs.drop_last()[j]);
            assert(e == spec_manifest_entry(cs[j]));
        } else {
            assert(e == spec_manifest_entry(cs[cs.len() - 1]));
        }
    }
}

/// Soundness of aggregation: every catalog entry comes from some root's
/// scan, so its name passes the exclusion filter.
pub proof fn lemma_catalog_sound(roots: Seq<Seq<Seq<char>>>, e: (Seq<char>, Seq<char>))
    requires
        spec_catalog(roots).contains(e),
    ensures
        !spec_is_blacklisted(e.0),
        exists|r: int| 0 <= r < roots.len() && spec_scan(roots[r]).contains(e),
    decreases roots.len(),
{
    if roots.len() > 0 {
        let pre = spec_catalog(roots.drop_last());
        let all = spec_catalog(roots);
        let w = choose|w: int| 0 <= w < all.len() && all[w] == e;
        if w < pre.len() {
            assert(pre[w] == e);
            lemma_catalog_sound(roots.drop_last(), e);
            let r = choose|r: int|
                0 <= r < roots.drop_last().len() && spec_scan(roots.drop_last()[r]).contains(e);
            assert(spec_scan(roots[r]).contains(e));
        } else {
            let last = spec_scan(roots.last());
            assert(last[w - pre.len()] == e);
            assert(spec_scan(roots[roots.len() - 1]).contains(e));
            lemma_scan_sound(roots.last(), e);
        }
    }
}

/// No root is dropped by aggregation: whatever one root's scan contains,
/// the full catalog contains.
pub proof fn lemma_catalog_complete(roots: Seq<Seq<Seq<char>>>, r: int, e: (Seq<char>, Seq<char>))
    requires
        0 <= r < roots.len(),
        spec_scan(roots[r]).contains(e),
    ensures
        spec_catalog(roots).contains(e),
    decreases roots.len(),
{
    let pre = spec_catalog(roots.drop_last());
    if r == roots.len() - 1 {
        let w = choose|w: int| 0 <= w < spec_scan(roots[r]).len() && spec_scan(roots[r])[w] == e;
        assert(spec_catalog(roots)[pre.len() + w] == e);
    } else {
        lemma_catalog_complete(roots.drop_last(), r, e);
        let w = choose|w: int| 0 <= w < pre.len() && pre[w] == e;
        assert(spec_catalog(roots)[w] == e);
    }
}

} // verus!
