//! Filtering the entries a walk of one root produced into that root's path set.

use vstd::prelude::*;
use crate::pathset::PathSet;

verus! {

/// What kind of filesystem object an entry is. Anything that is neither a
/// regular file nor a directory (for instance a symlink) is `Other` and is
/// never selected.
#[derive(Clone, Copy, Debug)]
pub enum EntryKind {
    File,
    Dir,
    Other,
}

/// One entry seen while walking a root: its path relative to the root, its
/// kind, and its depth below the root (a direct child of the root has depth
/// 1). The root itself would have depth 0 and is never selected.
pub struct Entry {
    pub path: String,
    pub kind: EntryKind,
    pub depth: usize,
}

/// Whether an entry of kind `kind` passes the kind filter: directories when
/// `dirs_only` is set, regular files otherwise.
pub open spec fn kind_matches(kind: EntryKind, dirs_only: bool) -> bool {
    if dirs_only {
        kind is Dir
    } else {
        kind is File
    }
}

/// Whether an entry at `depth` lies within the depth bound. A bound of 0
/// admits only the root's direct children (depth 1); a bound of `m` admits
/// entries down to depth `m + 1`. No bound admits every depth.
pub open spec fn within_depth(depth: int, max_depth: Option<usize>) -> bool {
    match max_depth {
        Option::None => true,
        Option::Some(m) => depth <= m + 1,
    }
}

/// Whether an entry is retained for comparison: it is below the root, its
/// kind matches the requested kind, and it lies within the depth bound.
pub open spec fn selected(e: Entry, dirs_only: bool, max_depth: Option<usize>) -> bool {
    &&& e.depth >= 1
    &&& kind_matches(e.kind, dirs_only)
    &&& within_depth(e.depth as int, max_depth)
}

/// The set of relative paths of the selected entries.
pub open spec fn selected_paths(
    entries: Seq<Entry>,
    dirs_only: bool,
    max_depth: Option<usize>,
) -> Set<Seq<char>> {
    Set::new(
        |p: Seq<char>|
            exists|i: int|
                #![trigger entries[i]]
                0 <= i < entries.len() && selected(entries[i], dirs_only, max_depth)
                    && entries[i].path@ == p,
    )
}

/// Builds the path set of one root from the entries its walk produced,
/// keeping exactly the selected ones. Duplicate paths collapse.
pub fn collect_paths(entries: &Vec<Entry>, dirs_only: bool, max_depth: Option<usize>) -> (r:
    PathSet)
    ensures
        r.wf(),
        r@ == selected_paths(entries@, dirs_only, max_depth),
{
    let mut r = PathSet::new();
    let n = entries.len();
    let mut i: usize = 0;
    proof {
        assert(r@ =~= selected_paths(entries@.take(0), dirs_only, max_depth));
    }
    while i < n
        invariant
            n == entries.len(),
            i <= n,
            r.wf(),
            r@ == selected_paths(entries@.take(i as int), dirs_only, max_depth),
        decreases n - i,
    {
        let e = &entries[i];
        let kind_ok: bool = match e.kind {
            EntryKind::Dir => dirs_only,
            EntryKind::File => !dirs_only,
            EntryKind::Other => false,
        };
        let depth_ok: bool = e.depth >= 1 && match max_depth {
            Option::Some(m) => e.depth - 1 <= m,
            Option::None => true,
        };
        let ghost taken = entries@.take(i as int);
        let ghost cur = entries@[i as int];
        proof {
            assert(entries@.take(i + 1) =~= taken.push(cur));
        }
        if kind_ok && depth_ok {
            assert(selected(cur, dirs_only, max_depth));
            r.insert(e.path.clone());
            proof {
                lemma_selected_paths_push(taken, cur, dirs_only, max_depth);
            }
        } else {
            assert(!selected(cur, dirs_only, max_depth));
            proof {
                lemma_selected_paths_push(taken, cur, dirs_only, max_depth);
            }
        }
        i += 1;
    }
    proof {
        assert(entries@.take(n as int) =~= entries@);
    }
    r
}

/// Appending one entry adds its path to the selected set when the entry is
/// selected and changes nothing otherwise.
proof fn lemma_selected_paths_push(
    entries: Seq<Entry>,
    e: Entry,
    dirs_only: bool,
    max_depth: Option<usize>,
)
    ensures
        selected(e, dirs_only, max_depth) ==> selected_paths(
            entries.push(e),
            dirs_only,
            max_depth,
        ) == selected_paths(entries, dirs_only, max_depth).insert(e.path@),
        !selected(e, dirs_only, max_depth) ==> selected_paths(
            entries.push(e),
            dirs_only,
            max_depth,
        ) == selected_paths(entries, dirs_only, max_depth),
{
    let with = selected_paths(entries.push(e), dirs_only, max_depth);
    let without = selected_paths(entries, dirs_only, max_depth);
    assert forall|p: Seq<char>| with.contains(p) <==> (without.contains(p) || (selected(
        e,
        dirs_only,
        max_depth,
    ) && e.path@ == p)) by {
        if with.contains(p) {
            let i = choose|i: int|
                #![trigger entries.push(e)[i]]
                0 <= i < entries.push(e).len() && selected(
                    entries.push(e)[i],
                    dirs_only,
                    max_depth,
                ) && entries.push(e)[i].path@ == p;
            if i < entries.len() {
                assert(entries[i] == entries.push(e)[i]);
                assert(without.contains(p));
            } else {
                assert(entries.push(e)[i] == e);
            }
        }
        if without.contains(p) {
            let i = choose|i: int|
                #![trigger entries[i]]
                0 <= i < entries.len() && selected(entries[i], dirs_only, max_depth)
                    && entries[i].path@ == p;
            assert(entries.push(e)[i] == entries[i]);
            assert(with.contains(p));
        }
        if selected(e, dirs_only, max_depth) && e.path@ == p {
            assert(entries.push(e)[entries.len() as int] == e);
            assert(with.contains(p));
        }
    }
    if selected(e, dirs_only, max_depth) {
        assert(with =~= without.insert(e.path@));
    } else {
        assert(with =~= without);
    }
}

} // verus!
