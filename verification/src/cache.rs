//! The component cache: maps an artifact path to its loaded artifact.
//! Load-on-miss, no eviction, no reload — one entry per distinct path for
//! the lifetime of a run.

use vstd::prelude::*;

verus! {

/// A path-keyed cache of loaded artifacts, generic in the artifact
/// representation.
pub struct ComponentCache<A> {
    entries: Vec<(String, A)>,
}

impl<A> ComponentCache<A> {
    /// The path-to-artifact association, in insertion order.
    pub closed spec fn pairs(&self) -> Seq<(Seq<char>, A)> {
        self.entries@.map_values(|e: (String, A)| (e.0@, e.1))
    }

    /// The cached paths, in insertion order.
    pub open spec fn keys(&self) -> Seq<Seq<char>> {
        self.pairs().map_values(|p: (Seq<char>, A)| p.0)
    }

    /// No path occurs twice.
    pub open spec fn wf(&self) -> bool {
        forall|i: int, j: int|
            #![trigger self.keys()[i], self.keys()[j]]
            0 <= i < j < self.keys().len() ==> self.keys()[i] != self.keys()[j]
    }

    /// Some artifact is cached under `k`.
    pub open spec fn contains_key(&self, k: Seq<char>) -> bool {
        self.keys().contains(k)
    }

    /// The artifact cached under `k`.
    pub open spec fn value_for(&self, k: Seq<char>) -> A {
        self.pairs()[choose|i: int| 0 <= i && i < self.keys().len() && self.keys()[i] == k].1
    }

    /// An empty cache.
    pub fn new() -> (r: Self)
        ensures
            r.keys().len() == 0,
            r.wf(),
    {
        ComponentCache { entries: Vec::new() }
    }

    /// Whether `path` is already cached.
    pub fn contains(&self, path: &String) -> (r: bool)
        ensures
            r == self.contains_key(path@),
    {
        let mut i: usize = 0;
        while i < self.entries.len()
            invariant
                i <= self.entries@.len(),
                forall|k: int| 0 <= k < i ==> self.keys()[k] != path@,
            decreases self.entries@.len() - i,
        {
            let e = &self.entries[i];
            if e.0 == *path {
                assert(self.keys()[i as int] == path@);
                return true;
            }
            i = i + 1;
        }
        assert(!self.keys().contains(path@));
        false
    }

    /// The artifact cached under `path`, if any.
    pub fn get(&self, path: &String) -> (r: Option<&A>)
        requires
            self.wf(),
        ensures
            r is Some <==> self.contains_key(path@),
            r is Some ==> *r->0 == self.value_for(path@),
    {
        let mut i: usize = 0;
        while i < self.entries.len()
            invariant
                self.wf(),
                i <= self.entries@.len(),
                forall|k: int| 0 <= k < i ==> self.keys()[k] != path@,
            decreases self.entries@.len() - i,
        {
            let e = &self.entries[i];
            if e.0 == *path {
                assert(self.keys()[i as int] == path@);
                proof {
                    assert(self.keys().len() == self.entries@.len());
                    assert(exists|k: int|
                        0 <= k && k < self.keys().len() && self.keys()[k] == path@) by {
                        assert(0 <= i as int && (i as int) < self.keys().len() && self.keys()[i as int] == path@);
                    }
                    let c = choose|k: int|
                        0 <= k && k < self.keys().len() && self.keys()[k] == path@;
                    assert(0 <= c && c < self.keys().len() && self.keys()[c] == path@);
                    if c < i as int {
                        assert(self.keys()[c] != self.keys()[i as int]);
                    } else if c > i as int {
                        assert(self.keys()[i as int] != self.keys()[c]);
                    }
                    assert(c == i as int);
                }
                return Some(&self.entries[i].1);
            }
            i = i + 1;
        }
        assert(!self.keys().contains(path@));
        None
    }

    /// Caches `artifact` under `path`, which must not be cached yet. Every
    /// entry already cached stays in place, mapped to the same artifact.
    pub fn insert(&mut self, path: String, artifact: A)
        requires
            old(self).wf(),
            !old(self).contains_key(path@),
        ensures
            final(self).pairs() == old(self).pairs().push((path@, artifact)),
            final(self).keys() == old(self).keys().push(path@),
            final(self).wf(),
            forall|k: Seq<char>|
                #[trigger] old(self).contains_key(k) ==> final(self).contains_key(k)
                    && final(self).value_for(k) == old(self).value_for(k),
    {
        let ghost old_keys = self.keys();
        let ghost old_pairs = self.pairs();
        self.entries.push((path, artifact));
        proof {
            assert(self.pairs() =~= old_pairs.push((path@, artifact)));
            assert(self.keys() =~= old_keys.push(path@));
            assert forall|i: int, j: int|
                0 <= i < j < self.keys().len() implies self.keys()[i] != self.keys()[j] by {
                if j < old_keys.len() {
                } else {
                    assert(self.keys()[j] == path@);
                    assert(old_keys.contains(old_keys[i]));
                    assert(!old_keys.contains(path@));
                }
            }
            assert forall|k: Seq<char>| #[trigger] old(self).contains_key(k) implies self
                .contains_key(k) && self.value_for(k) == old(self).value_for(k) by {
                assert(exists|j: int|
                    0 <= j && j < old(self).keys().len() && old(self).keys()[j] == k);
                let i = choose|j: int|
                    0 <= j && j < old(self).keys().len() && old(self).keys()[j] == k;
                assert(self.keys()[i] == k);
                assert(self.keys().contains(k));
                assert(exists|j: int| 0 <= j && j < self.keys().len() && self.keys()[j] == k);
                let c = choose|j: int| 0 <= j && j < self.keys().len() && self.keys()[j] == k;
                assert(0 <= c && c < self.keys().len() && self.keys()[c] == k);
                if c < i {
                    assert(self.keys()[c] != self.keys()[i]);
                } else if c > i {
                    assert(self.keys()[i] != self.keys()[c]);
                }
                assert(c == i);
                assert(self.pairs()[i] == old(self).pairs()[i]);
            }
        }
    }
}

} // verus!
