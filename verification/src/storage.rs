//! The backing storage: a set of flat, append-order byte streams keyed by
//! path.
//!
//! This is the resource behind disk-backed files: the flush pipeline appends
//! chunk bytes to a stream, the read path maps a stream into a read view, and
//! `delete` unlinks a stream.  It is an explicitly constructed service handed
//! to the operations that need it.

use vstd::prelude::*;

verus! {

/// One backing file: a path and its byte stream.
pub struct StoredFile {
    pub path: String,
    pub data: Vec<u8>,
}

/// All backing files, keyed by path.
pub struct Storage {
    pub files: Vec<StoredFile>,
}

impl Storage {
    /// Paths are unique.
    pub open spec fn inv(&self) -> bool {
        forall|i: int, j: int|
            0 <= i < j < self.files@.len() ==> self.files@[i].path@ != self.files@[j].path@
    }

    /// Entry `i` holds the stream for path `p`.
    pub open spec fn valid_at(&self, i: int, p: Seq<char>) -> bool {
        0 <= i < self.files@.len() && self.files@[i].path@ == p
    }

    /// A stream for path `p` exists.
    pub open spec fn spec_contains(&self, p: Seq<char>) -> bool {
        exists|i: int| self.valid_at(i, p)
    }

    /// The bytes of the stream for path `p` (meaningful when it exists).
    pub open spec fn spec_data(&self, p: Seq<char>) -> Seq<u8> {
        self.files@[choose|i: int| self.valid_at(i, p)].data@
    }

    /// Under the uniqueness invariant, any entry holding `p` holds the
    /// stream that `spec_data` denotes.
    pub proof fn lemma_data_at(&self, i: int, p: Seq<char>)
        requires
            self.inv(),
            self.valid_at(i, p),
        ensures
            self.spec_contains(p),
            self.spec_data(p) == self.files@[i].data@,
    {
        let j = choose|j: int| self.valid_at(j, p);
        if i != j {
            assert(self.files@[i].path@ == self.files@[j].path@);
        }
    }

    /// An empty storage.
    pub fn new() -> (r: Storage)
        ensures
            r.inv(),
            r.files@.len() == 0,
            forall|p: Seq<char>| !r.spec_contains(p),
    {
        Storage { files: Vec::new() }
    }

    /// Index of the entry for `path`, if one exists.
    fn find(&self, path: &String) -> (r: Option<usize>)
        ensures
            match r {
                Some(i) => self.valid_at(i as int, path@),
                None => !self.spec_contains(path@),
            },
    {
        let n: usize = self.files.len();
        let mut i: usize = 0;
        while i < n
            invariant
                i <= n,
                n == self.files@.len(),
                forall|j: int| 0 <= j < i ==> self.files@[j].path@ != path@,
            decreases n - i,
        {
            if self.files[i].path == *path {
                return Some(i);
            }
            i = i + 1;
        }
        None
    }

    /// Whether a stream for `path` exists.
    pub fn exists_file(&self, path: &String) -> (r: bool)
        ensures
            r == self.spec_contains(path@),
    {
        self.find(path).is_some()
    }

    /// Length in bytes of the stream for `path`.
    pub fn file_len(&self, path: &String) -> (r: Option<usize>)
        requires
            self.inv(),
        ensures
            match r {
                Some(n) => self.spec_contains(path@) && n == self.spec_data(path@).len(),
                None => !self.spec_contains(path@),
            },
    {
        match self.find(path) {
            Some(i) => {
                proof {
                    self.lemma_data_at(i as int, path@);
                }
                Some(self.files[i].data.len())
            },
            None => None,
        }
    }

    /// A copy of the stream for `path`.
    pub fn read_file(&self, path: &String) -> (r: Option<Vec<u8>>)
        requires
            self.inv(),
        ensures
            match r {
                Some(v) => self.spec_contains(path@) && v@ == self.spec_data(path@),
                None => !self.spec_contains(path@),
            },
    {
        match self.find(path) {
            Some(i) => {
                proof {
                    self.lemma_data_at(i as int, path@);
                }
                Some(crate::copy_bytes(&self.files[i].data))
            },
            None => None,
        }
    }

    /// Ensures a stream for `path` exists, creating an empty one if absent;
    /// an existing stream keeps its bytes.
    pub fn create_file(&mut self, path: &String)
        requires
            old(self).inv(),
        ensures
            final(self).inv(),
            final(self).spec_contains(path@),
            old(self).spec_contains(path@) ==> *final(self) == *old(self),
            !old(self).spec_contains(path@) ==> final(self).spec_data(path@) == Seq::<u8>::empty(),
            forall|q: Seq<char>|
                q != path@ ==> final(self).spec_contains(q) == old(self).spec_contains(q),
            forall|q: Seq<char>|
                q != path@ && old(self).spec_contains(q) ==> final(self).spec_data(q) == old(
                    self,
                ).spec_data(q),
    {
        match self.find(path) {
            Some(_) => {},
            None => {
                let entry = StoredFile { path: path.clone(), data: Vec::new() };
                self.files.push(entry);
                proof {
                    let n = old(self).files@.len() as int;
                    assert forall|a: int, b: int|
                        0 <= a < b < self.files@.len() implies self.files@[a].path@
                        != self.files@[b].path@ by {
                        if b == n {
                            if self.files@[a].path@ == path@ {
                                assert(old(self).valid_at(a, path@));
                            }
                        } else {
                            assert(old(self).files@[a].path@ != old(self).files@[b].path@);
                        }
                    }
                    assert(self.inv());
                    assert(self.valid_at(n, path@));
                    self.lemma_data_at(n, path@);
                    assert forall|q: Seq<char>|
                        q != path@ && old(self).spec_contains(q) implies self.spec_contains(q)
                        && self.spec_data(q) == old(self).spec_data(q) by {
                        let i = choose|i: int| old(self).valid_at(i, q);
                        assert(self.valid_at(i, q));
                        self.lemma_data_at(i, q);
                        old(self).lemma_data_at(i, q);
                    }
                    assert forall|q: Seq<char>|
                        q != path@ && self.spec_contains(q) implies old(self).spec_contains(
                        q,
                    ) by {
                        let i = choose|i: int| self.valid_at(i, q);
                        assert(old(self).valid_at(i, q));
                    }
                }
            },
        }
    }

    /// Writes `data` into the stream for `path` at byte offset `offset`,
    /// zero-extending the stream if the write reaches past its end.
    pub fn write_at(&mut self, path: &String, offset: usize, data: &Vec<u8>)
        requires
            old(self).inv(),
            old(self).spec_contains(path@),
            offset + data@.len() <= usize::MAX,
        ensures
            final(self).inv(),
            final(self).spec_contains(path@),
            final(self).spec_data(path@) == crate::overwrite_bytes(
                old(self).spec_data(path@),
                offset as int,
                data@,
            ),
            forall|q: Seq<char>|
                q != path@ ==> final(self).spec_contains(q) == old(self).spec_contains(q),
            forall|q: Seq<char>|
                q != path@ && old(self).spec_contains(q) ==> final(self).spec_data(q) == old(
                    self,
                ).spec_data(q),
    {
        let i = match self.find(path) {
            Some(i) => i,
            None => {
                proof {
                    assert(false);
                }
                0
            },
        };
        proof {
            self.lemma_data_at(i as int, path@);
        }
        let dlen: usize = data.len();
        let entry = &mut self.files[i];
        let ghost old_entry = *entry;
        // Zero-extend the stream to cover the written range.
        while entry.data.len() < offset + dlen
            invariant
                offset + dlen <= usize::MAX,
                dlen == data@.len(),
                entry.path == old_entry.path,
                entry.data@.len() >= old_entry.data@.len(),
                entry.data@.len() <= offset + dlen || entry.data@.len()
                    == old_entry.data@.len(),
                entry.data@.take(old_entry.data@.len() as int) == old_entry.data@,
                forall|j: int|
                    old_entry.data@.len() <= j < entry.data@.len() ==> entry.data@[j] == 0u8,
            decreases offset + dlen - entry.data@.len(),
        {
            entry.data.push(0);
            proof {
                assert(entry.data@.take(old_entry.data@.len() as int) =~= old_entry.data@);
            }
        }
        // Overwrite the covered range with the written bytes.
        let plen: usize = entry.data.len();
        let mut k: usize = 0;
        let ghost padded = entry.data@;
        while k < dlen
            invariant
                k <= dlen,
                dlen == data@.len(),
                entry.path == old_entry.path,
                entry.data@.len() == plen,
                padded.len() == plen,
                offset + dlen <= plen,
                forall|j: int| offset <= j < offset + k ==> entry.data@[j] == data@[j - offset],
                forall|j: int|
                    0 <= j < plen && !(offset <= j < offset + k) ==> entry.data@[j] == padded[j],
            decreases dlen - k,
        {
            let b = data[k];
            entry.data[offset + k] = b;
            k = k + 1;
        }
        proof {
            let old_d = old_entry.data@;
            let target = crate::overwrite_bytes(old_d, offset as int, data@);
            assert(entry.data@.len() == target.len());
            assert forall|j: int|
                0 <= j < entry.data@.len() implies entry.data@[j] == target[j] by {
                if offset <= j < offset + dlen {
                    assert(entry.data@[j] == data@[j - offset]);
                    assert(target[j] == data@[j - offset]);
                } else if j < old_d.len() {
                    assert(padded.take(old_d.len() as int)[j] == old_d[j]);
                    assert(padded[j] == old_d[j]);
                    assert(entry.data@[j] == padded[j]);
                    assert(target[j] == old_d[j]);
                } else {
                    assert(old_d.len() <= j < plen);
                    assert(padded[j] == 0u8);
                    assert(entry.data@[j] == padded[j]);
                    assert(target[j] == 0u8);
                }
            }
            assert(entry.data@ =~= target);
            assert(entry.path@ == path@);
        }
        proof {
            assert(self.files@ == old(self).files@.update(
                i as int,
                self.files@[i as int],
            ));
            assert(self.files@[i as int].path@ == path@);
            assert(self.files@[i as int].data@ == crate::overwrite_bytes(
                old(self).spec_data(path@),
                offset as int,
                data@,
            ));
            assert forall|a: int, b: int|
                0 <= a < b < self.files@.len() implies self.files@[a].path@ != self.files@[b].path@
            by {
                assert(old(self).files@[a].path@ != old(self).files@[b].path@);
            }
            assert(self.valid_at(i as int, path@));
            self.lemma_data_at(i as int, path@);
            assert forall|q: Seq<char>|
                q != path@ && old(self).spec_contains(q) implies self.spec_contains(q) && self
                .spec_data(q) == old(self).spec_data(q) by {
                let j = choose|j: int| old(self).valid_at(j, q);
                assert(j != i as int);
                assert(self.valid_at(j, q));
                self.lemma_data_at(j, q);
                old(self).lemma_data_at(j, q);
            }
            assert forall|q: Seq<char>|
                q != path@ && self.spec_contains(q) implies old(self).spec_contains(q) by {
                let j = choose|j: int| self.valid_at(j, q);
                assert(j != i as int);
                assert(old(self).valid_at(j, q));
            }
        }
    }

    /// Removes the stream for `path`; reports whether one existed.
    pub fn unlink(&mut self, path: &String) -> (r: bool)
        requires
            old(self).inv(),
        ensures
            final(self).inv(),
            r == old(self).spec_contains(path@),
            !final(self).spec_contains(path@),
            forall|q: Seq<char>|
                q != path@ ==> final(self).spec_contains(q) == old(self).spec_contains(q),
            forall|q: Seq<char>|
                q != path@ && old(self).spec_contains(q) ==> final(self).spec_data(q) == old(
                    self,
                ).spec_data(q),
    {
        match self.find(path) {
            Some(i) => {
                self.files.remove(i);
                proof {
                    let removed = old(self).files@.remove(i as int);
                    assert(self.files@ == removed);
                    assert forall|q: Seq<char>|
                        q != path@ && old(self).spec_contains(q) implies self.spec_contains(q)
                        && self.spec_data(q) == old(self).spec_data(q) by {
                        let j = choose|j: int| old(self).valid_at(j, q);
                        let j2 = if j < i as int {
                            j
                        } else {
                            j - 1
                        };
                        assert(self.valid_at(j2, q));
                        self.lemma_data_at(j2, q);
                        old(self).lemma_data_at(j, q);
                    }
                    assert forall|q: Seq<char>| self.spec_contains(q) implies old(
                        self,
                    ).spec_contains(q) by {
                        let j = choose|j: int| self.valid_at(j, q);
                        let j2 = if j < i as int {
                            j
                        } else {
                            j + 1
                        };
                        assert(old(self).valid_at(j2, q));
                    }
                    assert forall|q: Seq<char>| self.spec_contains(q) implies q != path@ by {
                        let j = choose|j: int| self.valid_at(j, q);
                        let j2 = if j < i as int {
                            j
                        } else {
                            j + 1
                        };
                        assert(old(self).valid_at(j2, q));
                        assert(j2 != i as int);
                    }
                }
                true
            },
            None => false,
        }
    }

    /// Number of backing files.
    pub fn count(&self) -> (r: usize)
        ensures
            r == self.files@.len(),
    {
        self.files.len()
    }
}

} // verus!
