//! The swap registry: a priority-ordered index of memory-preferred files
//! that an external eviction policy may flush.
//!
//! Entries are non-owning: they name a file by `(priority, path)` and carry
//! no reference to it.  A consumer must check liveness against the file
//! registry and skip entries whose file is gone.  Iteration order is the
//! eviction candidate order: entries of lower priority come first.

use vstd::prelude::*;

verus! {

/// A non-owning reference to an eviction-eligible file.
pub struct SwapEntry {
    pub priority: usize,
    pub path: String,
}

/// Priority-ordered set of `(priority, path)` entries, each registered at
/// most once.
pub struct SwapRegistry {
    pub entries: Vec<SwapEntry>,
}

impl SwapRegistry {
    /// Entries are sorted by priority (ties keep registration order) and
    /// `(priority, path)` keys are unique.
    pub open spec fn inv(&self) -> bool {
        &&& forall|i: int, j: int|
            0 <= i < j < self.entries@.len() ==> self.entries@[i].priority
                <= self.entries@[j].priority
        &&& forall|i: int, j: int|
            0 <= i < j < self.entries@.len() ==> !(self.entries@[i].priority
                == self.entries@[j].priority && self.entries@[i].path@ == self.entries@[j].path@)
    }

    /// Entry `i` carries the key `(pr, p)`.
    pub open spec fn valid_at(&self, i: int, pr: usize, p: Seq<char>) -> bool {
        0 <= i < self.entries@.len() && self.entries@[i].priority == pr && self.entries@[i].path@
            == p
    }

    /// The key `(pr, p)` is registered.
    pub open spec fn spec_has(&self, pr: usize, p: Seq<char>) -> bool {
        exists|i: int| self.valid_at(i, pr, p)
    }

    /// An empty registry.
    pub fn new() -> (r: SwapRegistry)
        ensures
            r.inv(),
            r.entries@.len() == 0,
            forall|pr: usize, p: Seq<char>| !r.spec_has(pr, p),
    {
        SwapRegistry { entries: Vec::new() }
    }

    /// Number of registered entries.
    pub fn count(&self) -> (r: usize)
        ensures
            r == self.entries@.len(),
    {
        self.entries.len()
    }

    /// The entry at iteration position `i`; lower positions are better
    /// eviction candidates.
    pub fn entry_at(&self, i: usize) -> (r: &SwapEntry)
        requires
            i < self.entries@.len(),
        ensures
            *r == self.entries@[i as int],
    {
        &self.entries[i]
    }

    /// Index of the entry with key `(pr, p)`, if registered.
    fn find(&self, pr: usize, p: &String) -> (r: Option<usize>)
        ensures
            match r {
                Some(i) => self.valid_at(i as int, pr, p@),
                None => !self.spec_has(pr, p@),
            },
    {
        let n: usize = self.entries.len();
        let mut i: usize = 0;
        while i < n
            invariant
                i <= n,
                n == self.entries@.len(),
                forall|j: int|
                    0 <= j < i ==> !(self.entries@[j].priority == pr && self.entries@[j].path@
                        == p@),
            decreases n - i,
        {
            if self.entries[i].priority == pr && self.entries[i].path == *p {
                return Some(i);
            }
            i = i + 1;
        }
        None
    }

    /// Whether the key `(pr, p)` is registered.
    pub fn has(&self, pr: usize, p: &String) -> (r: bool)
        ensures
            r == self.spec_has(pr, p@),
    {
        self.find(pr, p).is_some()
    }

    /// Registers the key `(pr, path)`, keeping the priority order; a key
    /// already registered stays as it is.
    pub fn insert(&mut self, pr: usize, path: &String)
        requires
            old(self).inv(),
        ensures
            final(self).inv(),
            final(self).spec_has(pr, path@),
            forall|qr: usize, q: Seq<char>|
                !(qr == pr && q == path@) ==> final(self).spec_has(qr, q) == old(self).spec_has(
                    qr,
                    q,
                ),
            old(self).spec_has(pr, path@) ==> *final(self) == *old(self),
    {
        match self.find(pr, path) {
            Some(_) => {},
            None => {
                // Find the first position whose priority is strictly larger,
                // so equal priorities keep their registration order.
                let n: usize = self.entries.len();
                let mut pos: usize = 0;
                while pos < n && self.entries[pos].priority <= pr
                    invariant
                        pos <= n,
                        n == self.entries@.len(),
                        forall|j: int| 0 <= j < pos ==> self.entries@[j].priority <= pr,
                    decreases n - pos,
                {
                    pos = pos + 1;
                }
                proof {
                    assert(pos < n ==> self.entries@[pos as int].priority > pr);
                    assert forall|j: int|
                        pos <= j < n implies self.entries@[j].priority >= pr || j == pos by {}
                }
                let entry = SwapEntry { priority: pr, path: path.clone() };
                self.entries.insert(pos, entry);
                proof {
                    let oldv = old(self).entries@;
                    let newv = self.entries@;
                    let p = pos as int;
                    assert(newv == oldv.insert(p, SwapEntry { priority: pr, path: *path }));
                    // Order: entries before `pos` have priority <= pr, the
                    // one at `pos` (if any) has priority > pr, and the old
                    // order is kept elsewhere.
                    assert forall|a: int, b: int|
                        0 <= a < b < newv.len() implies newv[a].priority <= newv[b].priority by {
                        if a < p && b == p {
                        } else if a == p && b > p {
                            assert(newv[b] == oldv[b - 1]);
                            assert(b - 1 >= p);
                            if b - 1 == p {
                                assert(oldv[p].priority > pr);
                            } else {
                                assert(oldv[p].priority <= oldv[b - 1].priority);
                                assert(oldv[p].priority > pr);
                            }
                        } else if a < p && b > p {
                            assert(newv[a] == oldv[a]);
                            assert(newv[b] == oldv[b - 1]);
                            assert(oldv[a].priority <= oldv[b - 1].priority || a == b - 1);
                        } else {
                            assert(a != p && b != p);
                            let a2 = if a < p {
                                a
                            } else {
                                a - 1
                            };
                            let b2 = if b < p {
                                b
                            } else {
                                b - 1
                            };
                            assert(newv[a] == oldv[a2]);
                            assert(newv[b] == oldv[b2]);
                        }
                    }
                    // Uniqueness: the new key was absent.
                    assert forall|a: int, b: int|
                        0 <= a < b < newv.len() implies !(newv[a].priority == newv[b].priority
                            && newv[a].path@ == newv[b].path@) by {
                        if a == p {
                            assert(newv[b] == oldv[b - 1]);
                            if newv[b].priority == pr && newv[b].path@ == path@ {
                                assert(old(self).valid_at(b - 1, pr, path@));
                            }
                        } else if b == p {
                            assert(newv[a] == oldv[a]);
                            if newv[a].priority == pr && newv[a].path@ == path@ {
                                assert(old(self).valid_at(a, pr, path@));
                            }
                        } else {
                            let a2 = if a < p {
                                a
                            } else {
                                a - 1
                            };
                            let b2 = if b < p {
                                b
                            } else {
                                b - 1
                            };
                            assert(newv[a] == oldv[a2]);
                            assert(newv[b] == oldv[b2]);
                            assert(a2 < b2);
                        }
                    }
                    assert(self.valid_at(p, pr, path@));
                    // Other keys are unchanged.
                    assert forall|qr: usize, q: Seq<char>|
                        !(qr == pr && q == path@) && old(self).spec_has(qr, q) implies self
                        .spec_has(qr, q) by {
                        let j = choose|j: int| old(self).valid_at(j, qr, q);
                        let j2 = if j < p {
                            j
                        } else {
                            j + 1
                        };
                        assert(self.valid_at(j2, qr, q));
                    }
                    assert forall|qr: usize, q: Seq<char>|
                        !(qr == pr && q == path@) && self.spec_has(qr, q) implies old(
                        self,
                    ).spec_has(qr, q) by {
                        let j = choose|j: int| self.valid_at(j, qr, q);
                        assert(j != p);
                        let j2 = if j < p {
                            j
                        } else {
                            j - 1
                        };
                        assert(old(self).valid_at(j2, qr, q));
                    }
                }
            },
        }
    }

    /// Removes the key `(pr, path)`; reports whether it was registered.
    pub fn remove(&mut self, pr: usize, path: &String) -> (r: bool)
        requires
            old(self).inv(),
        ensures
            final(self).inv(),
            r == old(self).spec_has(pr, path@),
            !final(self).spec_has(pr, path@),
            forall|qr: usize, q: Seq<char>|
                !(qr == pr && q == path@) ==> final(self).spec_has(qr, q) == old(self).spec_has(
                    qr,
                    q,
                ),
    {
        match self.find(pr, path) {
            Some(i) => {
                self.entries.remove(i);
                proof {
                    let p = i as int;
                    let oldv = old(self).entries@;
                    assert(self.entries@ == oldv.remove(p));
                    assert forall|qr: usize, q: Seq<char>|
                        !(qr == pr && q == path@) && old(self).spec_has(qr, q) implies self
                        .spec_has(qr, q) by {
                        let j = choose|j: int| old(self).valid_at(j, qr, q);
                        assert(j != p);
                        let j2 = if j < p {
                            j
                        } else {
                            j - 1
                        };
                        assert(self.valid_at(j2, qr, q));
                    }
                    assert forall|qr: usize, q: Seq<char>|
                        self.spec_has(qr, q) implies old(self).spec_has(qr, q) && !(qr == pr && q
                        == path@) by {
                        let j = choose|j: int| self.valid_at(j, qr, q);
                        let j2 = if j < p {
                            j
                        } else {
                            j + 1
                        };
                        assert(old(self).valid_at(j2, qr, q));
                        assert(j2 != p);
                        if qr == pr && q == path@ {
                            assert(old(self).valid_at(j2, pr, path@));
                            assert(old(self).valid_at(p, pr, path@));
                        }
                    }
                }
                true
            },
            None => false,
        }
    }
}

} // verus!
