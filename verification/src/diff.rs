//! The set difference between two roots' path sets, and the laws it obeys.

use vstd::prelude::*;
use crate::collect::{Entry, collect_paths, kind_matches, selected, selected_paths};
use crate::pathset::PathSet;

verus! {

/// How many paths each side holds exclusively.
pub struct Summary {
    pub unique_in_a: usize,
    pub unique_in_b: usize,
}

/// The outcome of comparing two roots: the paths only the first root holds,
/// the paths only the second holds, and the two counts. The order within each
/// vector carries no meaning.
pub struct DiffResult {
    pub only_in_a: Vec<String>,
    pub only_in_b: Vec<String>,
    pub summary: Summary,
}

/// What `diff` promises of its result for the path sets `a` and `b`: each
/// vector lists one side's exclusive paths, each exactly once, and each count
/// is that side's cardinality.
pub open spec fn diff_result_of(r: DiffResult, a: Set<Seq<char>>, b: Set<Seq<char>>) -> bool {
    &&& r.only_in_a.deep_view().no_duplicates()
    &&& r.only_in_b.deep_view().no_duplicates()
    &&& r.only_in_a.deep_view().to_set() == a.difference(b)
    &&& r.only_in_b.deep_view().to_set() == b.difference(a)
    &&& r.only_in_a@.len() == a.difference(b).len()
    &&& r.only_in_b@.len() == b.difference(a).len()
    &&& r.summary.unique_in_a == a.difference(b).len()
    &&& r.summary.unique_in_b == b.difference(a).len()
}

/// Computes the paths exclusive to each side and their counts.
pub fn diff(a: &PathSet, b: &PathSet) -> (r: DiffResult)
    requires
        a.wf(),
        b.wf(),
    ensures
        diff_result_of(r, a@, b@),
{
    let only_in_a = a.difference(b);
    let only_in_b = b.difference(a);
    let unique_in_a = only_in_a.len();
    let unique_in_b = only_in_b.len();
    DiffResult { only_in_a, only_in_b, summary: Summary { unique_in_a, unique_in_b } }
}

/// The whole comparison on plain values: builds each root's path set from the
/// entries its walk produced, then diffs the two sets.
pub fn compare(
    entries_a: &Vec<Entry>,
    entries_b: &Vec<Entry>,
    dirs_only: bool,
    max_depth: Option<usize>,
) -> (r: DiffResult)
    ensures
        diff_result_of(
            r,
            selected_paths(entries_a@, dirs_only, max_depth),
            selected_paths(entries_b@, dirs_only, max_depth),
        ),
{
    let a = collect_paths(entries_a, dirs_only, max_depth);
    let b = collect_paths(entries_b, dirs_only, max_depth);
    diff(&a, &b)
}

/// Each side's exclusive paths are disjoint from the other side's full path
/// set.
pub proof fn lemma_diff_disjoint(r: DiffResult, a: Set<Seq<char>>, b: Set<Seq<char>>)
    requires
        diff_result_of(r, a, b),
    ensures
        r.only_in_a.deep_view().to_set().disjoint(b),
        r.only_in_b.deep_view().to_set().disjoint(a),
{
}

/// Comparing the same two path sets twice yields the same sets and the same
/// counts, whatever order each run lists them in.
pub proof fn lemma_diff_deterministic(
    r1: DiffResult,
    r2: DiffResult,
    a: Set<Seq<char>>,
    b: Set<Seq<char>>,
)
    requires
        diff_result_of(r1, a, b),
        diff_result_of(r2, a, b),
    ensures
        r1.only_in_a.deep_view().to_set() == r2.only_in_a.deep_view().to_set(),
        r1.only_in_b.deep_view().to_set() == r2.only_in_b.deep_view().to_set(),
        r1.summary.unique_in_a == r2.summary.unique_in_a,
        r1.summary.unique_in_b == r2.summary.unique_in_b,
{
}

/// Swapping the two sides swaps the two exclusive sets and the two counts
/// exactly.
pub proof fn lemma_diff_symmetry(
    r_ab: DiffResult,
    r_ba: DiffResult,
    a: Set<Seq<char>>,
    b: Set<Seq<char>>,
)
    requires
        diff_result_of(r_ab, a, b),
        diff_result_of(r_ba, b, a),
    ensures
        r_ba.only_in_a.deep_view().to_set() == r_ab.only_in_b.deep_view().to_set(),
        r_ba.only_in_b.deep_view().to_set() == r_ab.only_in_a.deep_view().to_set(),
        r_ba.summary.unique_in_a == r_ab.summary.unique_in_b,
        r_ba.summary.unique_in_b == r_ab.summary.unique_in_a,
{
}

/// Comparing a path set against itself yields two empty vectors and two zero
/// counts.
pub proof fn lemma_diff_identity(r: DiffResult, a: Set<Seq<char>>)
    requires
        diff_result_of(r, a, a),
    ensures
        r.only_in_a@.len() == 0,
        r.only_in_b@.len() == 0,
        r.summary.unique_in_a == 0,
        r.summary.unique_in_b == 0,
{
    assert(a.difference(a) =~= Set::<Seq<char>>::empty());
}

/// With the depth bound at zero, every path in either exclusive set stems
/// from an entry directly under its root: an entry two or more levels deep
/// never contributes a path.
pub proof fn lemma_depth_zero_direct_children_only(
    r: DiffResult,
    entries_a: Seq<Entry>,
    entries_b: Seq<Entry>,
    dirs_only: bool,
    p: Seq<char>,
)
    requires
        diff_result_of(
            r,
            selected_paths(entries_a, dirs_only, Some(0)),
            selected_paths(entries_b, dirs_only, Some(0)),
        ),
    ensures
        r.only_in_a.deep_view().to_set().contains(p) ==> exists|i: int|
            #![trigger entries_a[i]]
            0 <= i < entries_a.len() && entries_a[i].depth == 1 && entries_a[i].path@ == p,
        r.only_in_b.deep_view().to_set().contains(p) ==> exists|i: int|
            #![trigger entries_b[i]]
            0 <= i < entries_b.len() && entries_b[i].depth == 1 && entries_b[i].path@ == p,
{
    if r.only_in_a.deep_view().to_set().contains(p) {
        let i = choose|i: int|
            #![trigger entries_a[i]]
            0 <= i < entries_a.len() && selected(entries_a[i], dirs_only, Some(0))
                && entries_a[i].path@ == p;
        assert(entries_a[i].depth == 1);
    }
    if r.only_in_b.deep_view().to_set().contains(p) {
        let i = choose|i: int|
            #![trigger entries_b[i]]
            0 <= i < entries_b.len() && selected(entries_b[i], dirs_only, Some(0))
                && entries_b[i].path@ == p;
        assert(entries_b[i].depth == 1);
    }
}

/// Every path in either exclusive set stems from an entry of the requested
/// kind: with the directories-only flag no regular file's path appears, and
/// without it no directory's path appears.
pub proof fn lemma_kind_filter(
    r: DiffResult,
    entries_a: Seq<Entry>,
    entries_b: Seq<Entry>,
    dirs_only: bool,
    max_depth: Option<usize>,
    p: Seq<char>,
)
    requires
        diff_result_of(
            r,
            selected_paths(entries_a, dirs_only, max_depth),
            selected_paths(entries_b, dirs_only, max_depth),
        ),
    ensures
        r.only_in_a.deep_view().to_set().contains(p) ==> exists|i: int|
            #![trigger entries_a[i]]
            0 <= i < entries_a.len() && kind_matches(entries_a[i].kind, dirs_only)
                && entries_a[i].path@ == p,
        r.only_in_b.deep_view().to_set().contains(p) ==> exists|i: int|
            #![trigger entries_b[i]]
            0 <= i < entries_b.len() && kind_matches(entries_b[i].kind, dirs_only)
                && entries_b[i].path@ == p,
{
    if r.only_in_a.deep_view().to_set().contains(p) {
        let i = choose|i: int|
            #![trigger entries_a[i]]
            0 <= i < entries_a.len() && selected(entries_a[i], dirs_only, max_depth)
                && entries_a[i].path@ == p;
        assert(kind_matches(entries_a[i].kind, dirs_only));
    }
    if r.only_in_b.deep_view().to_set().contains(p) {
        let i = choose|i: int|
            #![trigger entries_b[i]]
            0 <= i < entries_b.len() && selected(entries_b[i], dirs_only, max_depth)
                && entries_b[i].path@ == p;
        assert(kind_matches(entries_b[i].kind, dirs_only));
    }
}

} // verus!
