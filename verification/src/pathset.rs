//! A set of relative path strings, the collection one root's walk produces.

use vstd::prelude::*;
use vstd::seq_lib::*;

verus! {

broadcast use vstd::seq_lib::lemma_seq_contains_after_push;

/// The set of relative paths collected from one root, filtered by kind and
/// depth. Backed by a vector that holds each path once; viewed as the set of
/// its character sequences.
pub struct PathSet {
    paths: Vec<String>,
}

impl View for PathSet {
    type V = Set<Seq<char>>;

    closed spec fn view(&self) -> Set<Seq<char>> {
        self.paths.deep_view().to_set()
    }
}

impl PathSet {
    /// No two stored strings hold the same characters.
    pub closed spec fn wf(&self) -> bool {
        self.paths.deep_view().no_duplicates()
    }

    /// The empty path set.
    pub fn new() -> (r: PathSet)
        ensures
            r.wf(),
            r@ == Set::<Seq<char>>::empty(),
    {
        let r = PathSet { paths: Vec::new() };
        proof {
            assert(r@ =~= Set::<Seq<char>>::empty());
        }
        r
    }

    /// Whether `p` is a member of the set.
    pub fn contains(&self, p: &String) -> (r: bool)
        ensures
            r == self@.contains(p@),
    {
        let n = self.paths.len();
        let mut i: usize = 0;
        while i < n
            invariant
                n == self.paths.len(),
                i <= n,
                forall|k: int| 0 <= k < i ==> self.paths.deep_view()[k] != p@,
            decreases n - i,
        {
            if self.paths[i] == *p {
                proof {
                    assert(self.paths.deep_view()[i as int] == p@);
                    assert(self.paths.deep_view().contains(p@));
                }
                return true;
            }
            i += 1;
        }
        proof {
            assert(!self.paths.deep_view().contains(p@));
        }
        false
    }

    /// Adds `p`; a path already present collapses under set membership.
    pub fn insert(&mut self, p: String)
        requires
            old(self).wf(),
        ensures
            final(self).wf(),
            final(self)@ == old(self)@.insert(p@),
    {
        if !self.contains(&p) {
            let ghost before = self.paths.deep_view();
            let ghost pv = p@;
            self.paths.push(p);
            proof {
                assert(self.paths.deep_view() =~= before.push(pv));
                assert(!before.contains(pv));
                assert(self.paths.deep_view().no_duplicates());
                assert(self@ =~= old(self)@.insert(pv));
            }
        } else {
            proof {
                assert(old(self)@.insert(p@) =~= old(self)@);
            }
        }
    }

    /// How many paths the set holds.
    pub fn len(&self) -> (r: usize)
        requires
            self.wf(),
        ensures
            r == self@.len(),
    {
        proof {
            self.paths.deep_view().unique_seq_to_set();
        }
        self.paths.len()
    }

    /// The paths of `self` that `other` does not hold, each exactly once.
    pub fn difference(&self, other: &PathSet) -> (r: Vec<String>)
        requires
            self.wf(),
        ensures
            r.deep_view().no_duplicates(),
            r.deep_view().to_set() == self@.difference(other@),
            r.len() == self@.difference(other@).len(),
    {
        let mut r: Vec<String> = Vec::new();
        let n = self.paths.len();
        let mut i: usize = 0;
        proof {
            assert(r.deep_view() =~= Seq::<Seq<char>>::empty());
            assert(r.deep_view().to_set()
                =~= self.paths.deep_view().take(0).to_set().difference(other@));
        }
        while i < n
            invariant
                n == self.paths.len(),
                i <= n,
                self.wf(),
                r.deep_view().no_duplicates(),
                r.deep_view().to_set()
                    == self.paths.deep_view().take(i as int).to_set().difference(other@),
            decreases n - i,
        {
            let ghost taken = self.paths.deep_view().take(i as int);
            let ghost cur = self.paths.deep_view()[i as int];
            proof {
                assert(self.paths.deep_view().take(i + 1) =~= taken.push(cur));
                // `cur` is new to the prefix: the backing vector has no duplicates.
                assert forall|k: int| 0 <= k < taken.len() implies taken[k] != cur by {
                    assert(self.paths.deep_view()[k] != self.paths.deep_view()[i as int]);
                }
                assert(!taken.contains(cur));
            }
            if !other.contains(&self.paths[i]) {
                let ghost rv = r.deep_view();
                r.push(self.paths[i].clone());
                proof {
                    assert(r.deep_view() =~= rv.push(cur));
                    assert(rv.to_set().contains(cur) == rv.contains(cur));
                    assert(taken.to_set().contains(cur) == taken.contains(cur));
                    assert(!rv.contains(cur));
                    assert(r.deep_view().no_duplicates());
                    assert forall|x: Seq<char>| r.deep_view().to_set().contains(x)
                        <==> taken.push(cur).to_set().difference(other@).contains(x) by {
                        assert(r.deep_view().to_set().contains(x) == rv.push(cur).contains(x));
                        assert(taken.push(cur).to_set().contains(x)
                            == taken.push(cur).contains(x));
                        assert(rv.to_set().contains(x) == rv.contains(x));
                        assert(taken.to_set().contains(x) == taken.contains(x));
                    }
                    assert(r.deep_view().to_set()
                        =~= taken.push(cur).to_set().difference(other@));
                }
            } else {
                proof {
                    assert forall|x: Seq<char>| r.deep_view().to_set().contains(x)
                        <==> taken.push(cur).to_set().difference(other@).contains(x) by {
                        assert(r.deep_view().to_set().contains(x)
                            == r.deep_view().contains(x));
                        assert(taken.push(cur).to_set().contains(x)
                            == taken.push(cur).contains(x));
                        assert(taken.to_set().contains(x) == taken.contains(x));
                    }
                    assert(r.deep_view().to_set()
                        =~= taken.push(cur).to_set().difference(other@));
                }
            }
            i += 1;
        }
        proof {
            assert(self.paths.deep_view().take(n as int) =~= self.paths.deep_view());
            r.deep_view().unique_seq_to_set();
        }
        r
    }
}

} // verus!
