//! What a snapshot of the working copy left untracked.

use crate::repo_path;
use crate::repo_path::RepoPath;
use vstd::prelude::*;

verus! {

/// Why a file stayed untracked.
#[derive(Clone, Copy, Debug, PartialEq, Eq, Structural)]
pub enum UntrackedReason {
    /// The file is larger than files may be.
    FileTooLarge { size: u64, max_size: u64 },
    /// The file is none of those that are tracked by themselves.
    FileNotAutoTracked,
}

/// The paths of a list of entries.
pub open spec fn keys(entries: Seq<(RepoPath, UntrackedReason)>) -> Seq<Seq<Seq<char>>> {
    entries.map_values(|entry: (RepoPath, UntrackedReason)| entry.0@)
}

/// Whether a list of paths ascends, so that no path occurs twice.
pub open spec fn ascends(paths: Seq<Seq<Seq<char>>>) -> bool {
    forall|i: int, j: int|
        0 <= i < j < paths.len() ==> repo_path::path_less(#[trigger] paths[i], #[trigger] paths[j])
}

/// Untracked files with their reasons, in path order.
#[derive(Debug, PartialEq, Eq)]
pub struct UntrackedPaths {
    entries: Vec<(RepoPath, UntrackedReason)>,
}

impl View for UntrackedPaths {
    type V = Map<Seq<Seq<char>>, UntrackedReason>;

    closed spec fn view(&self) -> Map<Seq<Seq<char>>, UntrackedReason> {
        Map::new(
            |path: Seq<Seq<char>>| keys(self.entries@).contains(path),
            |path: Seq<Seq<char>>| self.entries@[keys(self.entries@).index_of(path)].1,
        )
    }
}

impl UntrackedPaths {
    #[verifier::type_invariant]
    spec fn ordered(self) -> bool {
        ascends(keys(self.entries@))
    }

    /// The paths in ascending order.
    pub closed spec fn paths(self) -> Seq<Seq<Seq<char>>> {
        keys(self.entries@)
    }

    proof fn lemma_entry(self, i: int)
        requires
            self.ordered(),
            0 <= i < self.entries@.len(),
        ensures
            self@.contains_key(self.entries@[i].0@),
            self@[self.entries@[i].0@] == self.entries@[i].1,
    {
        let ks = keys(self.entries@);
        let k = ks.index_of(ks[i]);
        assert(ks.contains(ks[i]));
        assert(ks[k] == ks[i]);
        if k != i {
            repo_path::lemma_path_order_irreflexive(ks[i]);
            assert(repo_path::path_less(ks[k], ks[i]) || repo_path::path_less(ks[i], ks[k]));
        }
    }

    /// No untracked files.
    pub fn new() -> (r: UntrackedPaths)
        ensures
            r@ == Map::<Seq<Seq<char>>, UntrackedReason>::empty(),
            r.paths() == Seq::<Seq<Seq<char>>>::empty(),
    {
        let r = UntrackedPaths { entries: Vec::new() };
        assert(r@ =~= Map::empty());
        assert(r.paths() =~= Seq::empty());
        r
    }

    /// How many untracked files there are.
    pub fn len(&self) -> (r: usize)
        ensures
            r == self.paths().len(),
            ascends(self.paths()),
            forall|path: Seq<Seq<char>>|
                self@.contains_key(path) <==> #[trigger] self.paths().contains(path),
    {
        proof {
            use_type_invariant(self);
        }
        self.entries.len()
    }

    /// The file at index `i` in path order.
    pub fn path(&self, i: usize) -> (r: &RepoPath)
        requires
            i < self.paths().len(),
        ensures
            r@ == self.paths()[i as int],
            self@.contains_key(r@),
    {
        proof {
            use_type_invariant(self);
            self.lemma_entry(i as int);
        }
        &self.entries[i].0
    }

    /// The reason of the file at index `i` in path order.
    pub fn reason(&self, i: usize) -> (r: UntrackedReason)
        requires
            i < self.paths().len(),
        ensures
            self@.contains_key(self.paths()[i as int]),
            r == self@[self.paths()[i as int]],
    {
        proof {
            use_type_invariant(self);
            self.lemma_entry(i as int);
        }
        self.entries[i].1
    }

    /// The index of the first file that does not come before `path`.
    fn position(&self, path: &RepoPath) -> (r: usize)
        requires
            self.ordered(),
        ensures
            r <= self.paths().len(),
            forall|i: int|
                0 <= i < r ==> repo_path::path_less(#[trigger] self.paths()[i], path@),
            forall|i: int|
                r <= i < self.paths().len() ==> !repo_path::path_less(
                    #[trigger] self.paths()[i],
                    path@,
                ),
    {
        let mut low: usize = 0;
        let mut high: usize = self.entries.len();
        while low < high
            invariant
                self.ordered(),
                low <= high <= self.paths().len(),
                forall|i: int|
                    0 <= i < low ==> repo_path::path_less(#[trigger] self.paths()[i], path@),
                forall|i: int|
                    high <= i < self.paths().len() ==> !repo_path::path_less(
                        #[trigger] self.paths()[i],
                        path@,
                    ),
            decreases high - low,
        {
            let mid = low + (high - low) / 2;
            let ghost ks = self.paths();
            assert(ks[mid as int] == self.entries@[mid as int].0@);
            if self.entries[mid].0.precedes(path) {
                proof {
                    assert forall|i: int| 0 <= i < mid + 1 implies repo_path::path_less(
                        #[trigger] ks[i],
                        path@,
                    ) by {
                        if i < mid {
                            repo_path::lemma_path_order_transitive(ks[i], ks[mid as int], path@);
                        }
                    }
                }
                low = mid + 1;
            } else {
                proof {
                    assert forall|i: int| mid <= i < ks.len() implies !repo_path::path_less(
                        #[trigger] ks[i],
                        path@,
                    ) by {
                        if i > mid && repo_path::path_less(ks[i], path@) {
                            repo_path::lemma_path_order_transitive(ks[mid as int], ks[i], path@);
                        }
                    }
                }
                high = mid;
            }
        }
        low
    }

    /// Where `path` would be, if it is there at all.
    proof fn lemma_position(self, path: Seq<Seq<char>>, n: int)
        requires
            self.ordered(),
            0 <= n <= self.paths().len(),
            forall|i: int| 0 <= i < n ==> repo_path::path_less(#[trigger] self.paths()[i], path),
            forall|i: int|
                n <= i < self.paths().len() ==> !repo_path::path_less(
                    #[trigger] self.paths()[i],
                    path,
                ),
        ensures
            self@.contains_key(path) <==> n < self.paths().len() && self.paths()[n] == path,
    {
        let ks = self.paths();
        repo_path::lemma_path_order_irreflexive(path);
        if n < ks.len() && ks[n] == path {
            self.lemma_entry(n);
        }
        if self@.contains_key(path) {
            let i = ks.index_of(path);
            assert(ks[i] == path);
            assert(i >= n);
            if i > n {
                assert(repo_path::path_less(ks[n], ks[i]));
            }
        }
    }

    /// The reason of `path`, if it is there.
    pub fn get(&self, path: &RepoPath) -> (r: Option<UntrackedReason>)
        ensures
            r == if self@.contains_key(path@) {
                Some(self@[path@])
            } else {
                None
            },
    {
        proof {
            use_type_invariant(self);
        }
        let i = self.position(path);
        proof {
            self.lemma_position(path@, i as int);
        }
        if i < self.entries.len() && self.entries[i].0.same(path) {
            proof {
                self.lemma_entry(i as int);
            }
            Some(self.entries[i].1)
        } else {
            None
        }
    }

    /// Adds `path`, or changes its reason.
    pub fn insert(&mut self, path: RepoPath, reason: UntrackedReason)
        ensures
            final(self)@ == old(self)@.insert(path@, reason),
    {
        proof {
            use_type_invariant(&*self);
        }
        let ghost before = *self;
        let i = self.position(&path);
        proof {
            before.lemma_position(path@, i as int);
        }
        let mut entries: Vec<(RepoPath, UntrackedReason)> = Vec::new();
        std::mem::swap(&mut self.entries, &mut entries);
        if i < entries.len() && entries[i].0.same(&path) {
            entries[i].1 = reason;
            assert(keys(entries@) =~= keys(before.entries@));
        } else {
            entries.insert(i, (path, reason));
            proof {
                let ks = keys(before.entries@);
                assert(keys(entries@) =~= ks.insert(i as int, path@));
                assert forall|a: int, b: int| 0 <= a < b < keys(entries@).len() implies repo_path::path_less(
                    #[trigger] keys(entries@)[a],
                    #[trigger] keys(entries@)[b],
                ) by {
                    if b == i {
                        assert(repo_path::path_less(ks[a], path@));
                    } else if a == i {
                        let old_b = b - 1;
                        repo_path::lemma_path_order_total(path@, ks[old_b]);
                        if ks[old_b] == path@ {
                            assert(old_b > i);
                            assert(repo_path::path_less(ks[i as int], ks[old_b]));
                        }
                    }
                }
            }
        }
        self.entries = entries;
        proof {
            assert forall|p: Seq<Seq<char>>| #[trigger]
                self@.dom().contains(p) == before@.insert(path@, reason).dom().contains(p) by {
                if before@.dom().contains(p) {
                    let k = keys(before.entries@).index_of(p);
                    let at = if before@.contains_key(path@) || k < i {
                        k
                    } else {
                        k + 1
                    };
                    assert(keys(self.entries@)[at] == p);
                }
                if p == path@ {
                    assert(keys(self.entries@)[i as int] == p);
                }
                if self@.dom().contains(p) && p != path@ {
                    let k = keys(self.entries@).index_of(p);
                    let at = if before@.contains_key(path@) || k < i {
                        k
                    } else {
                        k - 1
                    };
                    assert(keys(before.entries@)[at] == p);
                }
            }
            assert forall|p: Seq<Seq<char>>| #[trigger] self@.dom().contains(p) implies self@[p]
                == before@.insert(path@, reason)[p] by {
                let k = keys(self.entries@).index_of(p);
                self.lemma_entry(k);
                if p != path@ {
                    let at = if before@.contains_key(path@) || k < i {
                        k
                    } else {
                        k - 1
                    };
                    before.lemma_entry(at);
                } else {
                    self.lemma_entry(i as int);
                }
            }
            assert(self@ =~= before@.insert(path@, reason));
        }
    }

    /// Takes `path` out, and gives its reason, if it is there.
    pub fn remove(&mut self, path: &RepoPath) -> (r: Option<UntrackedReason>)
        ensures
            final(self)@ == old(self)@.remove(path@),
            r == if old(self)@.contains_key(path@) {
                Some(old(self)@[path@])
            } else {
                None
            },
    {
        proof {
            use_type_invariant(&*self);
        }
        let ghost before = *self;
        let i = self.position(path);
        proof {
            before.lemma_position(path@, i as int);
        }
        if !(i < self.entries.len() && self.entries[i].0.same(path)) {
            assert(self@ =~= before@.remove(path@));
            return None;
        }
        let mut entries: Vec<(RepoPath, UntrackedReason)> = Vec::new();
        std::mem::swap(&mut self.entries, &mut entries);
        let reason = entries.remove(i).1;
        proof {
            before.lemma_entry(i as int);
            assert(keys(entries@) =~= keys(before.entries@).remove(i as int));
        }
        self.entries = entries;
        proof {
            let ks = keys(before.entries@);
            assert forall|p: Seq<Seq<char>>| #[trigger]
                self@.dom().contains(p) == before@.remove(path@).dom().contains(p) by {
                if before@.dom().contains(p) && p != path@ {
                    let k = ks.index_of(p);
                    assert(k != i);
                    let at = if k < i {
                        k
                    } else {
                        k - 1
                    };
                    assert(keys(self.entries@)[at] == p);
                }
                if self@.dom().contains(p) {
                    let k = keys(self.entries@).index_of(p);
                    let at = if k < i {
                        k
                    } else {
                        k + 1
                    };
                    assert(ks[at] == p);
                    if p == path@ {
                        repo_path::lemma_path_order_irreflexive(p);
                        assert(repo_path::path_less(ks[at], ks[i as int]) || repo_path::path_less(
                            ks[i as int],
                            ks[at],
                        ));
                    }
                }
            }
            assert forall|p: Seq<Seq<char>>| #[trigger] self@.dom().contains(p) implies self@[p]
                == before@.remove(path@)[p] by {
                let k = keys(self.entries@).index_of(p);
                let at = if k < i {
                    k
                } else {
                    k + 1
                };
                self.lemma_entry(k);
                before.lemma_entry(at);
            }
            assert(self@ =~= before@.remove(path@));
        }
        Some(reason)
    }

    /// Changes the reason of the file at index `i` in path order.
    pub fn set_reason(&mut self, i: usize, reason: UntrackedReason)
        requires
            i < old(self).paths().len(),
        ensures
            final(self).paths() == old(self).paths(),
            final(self)@ == old(self)@.insert(old(self).paths()[i as int], reason),
    {
        proof {
            use_type_invariant(&*self);
        }
        let ghost before = *self;
        let mut entries: Vec<(RepoPath, UntrackedReason)> = Vec::new();
        std::mem::swap(&mut self.entries, &mut entries);
        entries[i].1 = reason;
        assert(keys(entries@) =~= keys(before.entries@));
        self.entries = entries;
        proof {
            let path = before.paths()[i as int];
            before.lemma_entry(i as int);
            assert(self@.dom() =~= before@.insert(path, reason).dom());
            assert forall|p: Seq<Seq<char>>| #[trigger] self@.dom().contains(p) implies self@[p]
                == before@.insert(path, reason)[p] by {
                let k = keys(self.entries@).index_of(p);
                self.lemma_entry(k);
                before.lemma_entry(k);
                if k != i {
                    repo_path::lemma_path_order_irreflexive(p);
                    assert(repo_path::path_less(before.paths()[k], before.paths()[i as int])
                        || repo_path::path_less(before.paths()[i as int], before.paths()[k]));
                }
            }
            assert(self@ =~= before@.insert(path, reason));
        }
    }
}

/// What a snapshot of the working copy found.
#[derive(Debug, PartialEq, Eq)]
pub struct SnapshotStats {
    /// New files that are still untracked.
    pub untracked_paths: UntrackedPaths,
}

} // verus!
