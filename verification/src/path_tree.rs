//! A tree of directories with a value at each of them.

use crate::repo_path::RepoPath;
use crate::text;
use vstd::prelude::*;

verus! {

/// A directory of the tree: its own value, and the directories below it.
#[derive(Debug)]
pub struct RepoPathTree<V> {
    entries: Vec<(String, RepoPathTree<V>)>,
    value: V,
}

impl<V> RepoPathTree<V> {
    /// Whether the directory called `name` below this one is entry `i`.
    spec fn is_entry(self, name: Seq<char>, i: int) -> bool {
        &&& 0 <= i < self.entries@.len()
        &&& self.entries@[i].0@ == name
        &&& forall|j: int| 0 <= j < i ==> #[trigger] self.entries@[j].0@ != name
    }

    /// The directory called `name` directly below this one.
    spec fn below(self, name: Seq<char>) -> Option<RepoPathTree<V>> {
        if exists|i: int| self.is_entry(name, i) {
            Some(self.entries@[choose|i: int| self.is_entry(name, i)].1)
        } else {
            None
        }
    }

    proof fn lemma_entry(self, name: Seq<char>, i: int)
        requires
            self.is_entry(name, i),
        ensures
            self.below(name) == Some(self.entries@[i].1),
    {
        let k = choose|k: int| self.is_entry(name, k);
        assert(k == i);
    }

    /// The value at the directory `path`, if the tree has that directory.
    pub closed spec fn at(self, path: Seq<Seq<char>>) -> Option<V>
        decreases path.len(),
    {
        if path.len() == 0 {
            Some(self.value)
        } else {
            match self.below(path[0]) {
                Some(sub) => sub.at(path.skip(1)),
                None => None,
            }
        }
    }

    proof fn lemma_alike(self, other: RepoPathTree<V>, path: Seq<Seq<char>>)
        requires
            path.len() > 0,
            forall|i: int| #[trigger]
                self.is_entry(path[0], i) ==> other.is_entry(path[0], i) && self.entries@[i].1
                    == other.entries@[i].1,
            forall|i: int| #[trigger] other.is_entry(path[0], i) ==> self.is_entry(path[0], i),
        ensures
            self.at(path) == other.at(path),
    {
        if exists|i: int| self.is_entry(path[0], i) {
            let i = choose|i: int| self.is_entry(path[0], i);
            other.lemma_entry(path[0], i);
        }
    }

    /// A tree that has only its top directory.
    pub fn new(value: V) -> (r: RepoPathTree<V>)
        ensures
            r.at(Seq::empty()) == Some(value),
            forall|path: Seq<Seq<char>>| path.len() > 0 ==> #[trigger] r.at(path) is None,
    {
        RepoPathTree { entries: Vec::new(), value }
    }

    /// The value at the top directory.
    pub fn value(&self) -> (r: &V)
        ensures
            self.at(Seq::empty()) == Some(*r),
    {
        &self.value
    }

    /// The index of the entry called `name`, or the number of entries.
    fn position(&self, name: &str) -> (r: usize)
        ensures
            r < self.entries@.len() ==> self.is_entry(name@, r as int),
            r >= self.entries@.len() ==> r == self.entries@.len() && forall|j: int|
                0 <= j < r ==> #[trigger] self.entries@[j].0@ != name@,
    {
        let mut i: usize = 0;
        while i < self.entries.len()
            invariant
                i <= self.entries@.len(),
                forall|j: int| 0 <= j < i ==> #[trigger] self.entries@[j].0@ != name@,
            decreases self.entries@.len() - i,
        {
            if text::same_text(self.entries[i].0.as_str(), name) {
                return i;
            }
            i = i + 1;
        }
        i
    }

    /// The part of the tree at the directory called `name`.
    pub fn child(&self, name: &str) -> (r: Option<&RepoPathTree<V>>)
        ensures
            r is None ==> forall|path: Seq<Seq<char>>|
                path.len() > 0 && path[0] == name@ ==> #[trigger] self.at(path) is None,
            r matches Some(sub) ==> forall|path: Seq<Seq<char>>|
                path.len() > 0 && path[0] == name@ ==> #[trigger] self.at(path) == sub.at(
                    path.skip(1),
                ),
    {
        let i = self.position(name);
        if i < self.entries.len() {
            assert(self.is_entry(name@, i as int));
            Some(&self.entries[i].1)
        } else {
            None
        }
    }
}

impl<V: Default> RepoPathTree<V> {
    /// Sets the value at the directory `path`. Directories on the way that the
    /// tree lacks are added, with default values.
    pub fn insert(&mut self, path: &RepoPath, value: V)
        ensures
            final(self).at(path@) == Some(value),
            forall|p: Seq<Seq<char>>| p != path@ ==> grown(*old(self), *final(self), p, path@),
    {
        self.insert_from(path, 0, value);
        assert(path@.skip(0) =~= path@);
    }

    fn insert_from(&mut self, path: &RepoPath, from: usize, value: V)
        requires
            from <= path@.len(),
        ensures
            final(self).at(path@.skip(from as int)) == Some(value),
            forall|p: Seq<Seq<char>>|
                p != path@.skip(from as int) ==> grown(
                    *old(self),
                    *final(self),
                    p,
                    path@.skip(from as int),
                ),
        decreases path@.len() - from,
    {
        let ghost rest = path@.skip(from as int);
        if from == path.len() {
            self.value = value;
            proof {
                assert(rest =~= Seq::<Seq<char>>::empty());
                assert forall|p: Seq<Seq<char>>| p != rest implies grown(
                    *old(self),
                    *self,
                    p,
                    rest,
                ) by {
                    if p.len() == 0 {
                        assert(p =~= rest);
                    }
                    if p.len() > 0 {
                        assert forall|j: int| #[trigger] old(self).is_entry(p[0], j) implies self.is_entry(
                            p[0],
                            j,
                        ) by {}
                        assert forall|j: int| #[trigger] self.is_entry(p[0], j) implies old(
                            self,
                        ).is_entry(p[0], j) by {}
                        old(self).lemma_alike(*self, p);
                    }
                }
            }
            return ;
        }
        let name = path.component(from);
        let i = self.position(name);
        if i == self.entries.len() {
            let sub = RepoPathTree::new(V::default());
            self.entries.push((name.to_owned(), sub));
        }
        let ghost mid = *self;
        proof {
            assert(mid.is_entry(name@, i as int));
        }
        let sub = &mut self.entries[i].1;
        sub.insert_from(path, from + 1, value);
        proof {
            let deeper = path@.skip(from + 1);
            assert(rest[0] == name@);
            assert(rest.skip(1) =~= deeper);
            assert(self.is_entry(name@, i as int));
            self.lemma_entry(name@, i as int);
            mid.lemma_entry(name@, i as int);
            assert forall|p: Seq<Seq<char>>| p != rest implies grown(
                *old(self),
                *self,
                p,
                rest,
            ) by {
                if p.len() > 0 && p[0] == name@ {
                    let q = p.skip(1);
                    if q == deeper {
                        assert(p =~= seq![name@] + q);
                        assert(rest =~= seq![name@] + deeper);
                    }
                    assert(grown(mid.entries@[i as int].1, self.entries@[i as int].1, q, deeper));
                    assert(p.is_prefix_of(rest) <==> q.is_prefix_of(deeper)) by {
                        assert(p =~= seq![name@] + q);
                        assert(rest =~= seq![name@] + deeper);
                        if q.is_prefix_of(deeper) {
                            assert(p =~= rest.subrange(0, p.len() as int));
                        }
                        if p.is_prefix_of(rest) {
                            assert(q =~= deeper.subrange(0, q.len() as int));
                        }
                    }
                    if i < old(self).entries@.len() {
                        old(self).lemma_entry(name@, i as int);
                    } else {
                        assert(old(self).below(name@) is None);
                    }
                } else if p.len() > 0 {
                    let before = *old(self);
                    assert forall|j: int| #[trigger] before.is_entry(p[0], j) implies self.is_entry(
                        p[0],
                        j,
                    ) && before.entries@[j].1 == self.entries@[j].1 by {
                        assert(before.entries@[j].0@ == p[0]);
                        assert(j != i);
                        assert forall|k: int| 0 <= k < j implies #[trigger] self.entries@[k].0@
                            != p[0] by {
                            assert(before.entries@[k].0@ != p[0]);
                        }
                    }
                    assert forall|j: int| #[trigger] self.is_entry(p[0], j) implies before.is_entry(
                        p[0],
                        j,
                    ) by {
                        assert(j != i);
                        assert forall|k: int| 0 <= k < j implies #[trigger] before.entries@[k].0@
                            != p[0] by {
                            assert(self.entries@[k].0@ != p[0]);
                        }
                    }
                    before.lemma_alike(*self, p);
                }
            }
        }
    }
}

impl<V: Clone> Clone for RepoPathTree<V> {
    fn clone(&self) -> (r: Self)
        ensures
            forall|path: Seq<Seq<char>>| same_at(*self, r, path),
        decreases self,
    {
        let mut entries: Vec<(String, RepoPathTree<V>)> = Vec::new();
        for i in 0..self.entries.len()
            invariant
                entries@.len() == i,
                forall|j: int|
                    0 <= j < i ==> (#[trigger] entries@[j]).0@ == self.entries@[j].0@ && forall|
                        path: Seq<Seq<char>>,
                    |
                        same_at(self.entries@[j].1, entries@[j].1, path),
        {
            let name = self.entries[i].0.clone();
            let sub = self.entries[i].1.clone();
            entries.push((name, sub));
        }
        let r = RepoPathTree { entries, value: self.value.clone() };
        proof {
            assert forall|path: Seq<Seq<char>>| same_at(*self, r, path) by {
                if path.len() > 0 {
                    if exists|i: int| self.is_entry(path[0], i) {
                        let i = choose|i: int| self.is_entry(path[0], i);
                        assert(r.is_entry(path[0], i));
                        self.lemma_entry(path[0], i);
                        r.lemma_entry(path[0], i);
                        assert(same_at(self.entries@[i].1, r.entries@[i].1, path.skip(1)));
                    } else {
                        assert forall|i: int| !r.is_entry(path[0], i) by {
                            if r.is_entry(path[0], i) {
                                assert forall|j: int|
                                    0 <= j < i implies #[trigger] self.entries@[j].0@ != path[0] by {
                                    assert(r.entries@[j].0@ != path[0]);
                                }
                                assert(r.entries@[i].0@ == path[0]);
                                assert(self.is_entry(path[0], i));
                            }
                        }
                    }
                }
            }
        }
        r
    }
}

/// Whether a copy of a tree has what the tree has at `path`.
pub open spec fn same_at<V: Clone>(
    tree: RepoPathTree<V>,
    copy: RepoPathTree<V>,
    path: Seq<Seq<char>>,
) -> bool {
    match (tree.at(path), copy.at(path)) {
        (Some(value), Some(copied)) => cloned(value, copied),
        (None, None) => true,
        _ => false,
    }
}

/// What adding the directory `added` does to another directory `p`: a value
/// that was there stays, a directory on the way to `added` gets a default
/// value if it was missing, and nothing else appears.
pub open spec fn grown<V: Default>(
    before: RepoPathTree<V>,
    after: RepoPathTree<V>,
    p: Seq<Seq<char>>,
    added: Seq<Seq<char>>,
) -> bool {
    if before.at(p) is Some {
        after.at(p) == before.at(p)
    } else if p.is_prefix_of(added) {
        after.at(p) matches Some(v) && call_ensures(V::default, (), v)
    } else {
        after.at(p) is None
    }
}

} // verus!
