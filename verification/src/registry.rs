//! The global file registry: one virtual file per path, with create,
//! retrieve and delete.
//!
//! The registry owns the files; callers address a file by the index a
//! lookup returns.  It is an explicitly constructed service, handed to the
//! operations that need it.

use vstd::prelude::*;

use crate::chunk::ChunkEntry;
use crate::chunk::FileChunk;
use crate::file::MemoryFileInternal;
use crate::file::MemoryFileMode;
use crate::file::OpenMode;
use crate::file::UnderlyingFile;
use crate::storage::Storage;
use crate::swap::SwapRegistry;

verus! {

/// All living virtual files, keyed by path.
pub struct FileRegistry {
    pub files: Vec<MemoryFileInternal>,
}

impl FileRegistry {
    /// Paths are unique and every file is well formed.
    pub open spec fn inv(&self) -> bool {
        &&& forall|i: int, j: int|
            0 <= i < j < self.files@.len() ==> self.files@[i].path@ != self.files@[j].path@
        &&& forall|i: int| 0 <= i < self.files@.len() ==> (#[trigger] self.files@[i]).inv()
    }

    /// Entry `i` holds the file for path `p`.
    pub open spec fn valid_at(&self, i: int, p: Seq<char>) -> bool {
        0 <= i < self.files@.len() && self.files@[i].path@ == p
    }

    /// A file for path `p` is registered.
    pub open spec fn spec_contains(&self, p: Seq<char>) -> bool {
        exists|i: int| self.valid_at(i, p)
    }

    /// The file registered for path `p` (meaningful when one exists).
    pub open spec fn spec_file(&self, p: Seq<char>) -> MemoryFileInternal {
        self.files@[choose|i: int| self.valid_at(i, p)]
    }

    /// Under the uniqueness invariant, any entry holding `p` holds the file
    /// that `spec_file` denotes.
    pub proof fn lemma_file_at(&self, i: int, p: Seq<char>)
        requires
            self.inv(),
            self.valid_at(i, p),
        ensures
            self.spec_contains(p),
            self.spec_file(p) == self.files@[i],
    {
        let j = choose|j: int| self.valid_at(j, p);
        if i != j {
            assert(self.files@[i].path@ == self.files@[j].path@);
        }
    }

    /// An empty registry.
    pub fn new() -> (r: FileRegistry)
        ensures
            r.inv(),
            r.files@.len() == 0,
            forall|p: Seq<char>| !r.spec_contains(p),
    {
        FileRegistry { files: Vec::new() }
    }

    /// Index of the entry for `path`, if one exists.
    fn find(&self, path: &String) -> (r: Option<usize>)
        ensures
            match r {
                Some(i) => self.valid_at(i as int, path@),
                None => !self.spec_contains(path@),
            },
    {
        let n: usize = self.files.len();
        let mut i: usize = 0;
        while i < n
            invariant
                i <= n,
                n == self.files@.len(),
                forall|j: int| 0 <= j < i ==> self.files@[j].path@ != path@,
            decreases n - i,
        {
            if self.files[i].path == *path {
                return Some(i);
            }
            i = i + 1;
        }
        None
    }

    /// The file at index `i`.
    pub fn file_at(&self, i: usize) -> (r: &MemoryFileInternal)
        requires
            i < self.files@.len(),
        ensures
            *r == self.files@[i as int],
    {
        &self.files[i]
    }

    /// Mutable access to the file at index `i`.  The caller must keep the
    /// file's path unchanged, or lookups lose their meaning.
    pub fn file_at_mut(&mut self, i: usize) -> (r: &mut MemoryFileInternal)
        requires
            i < old(self).files@.len(),
        ensures
            *r == old(self).files@[i as int],
            final(self).files@ == old(self).files@.update(i as int, *final(r)),
    {
        &mut self.files[i]
    }
}

impl MemoryFileInternal {
    /// Creates a fresh virtual file for `path` with the given memory mode
    /// and registers it, replacing any file by the same path (last writer
    /// wins).  Returns the file's registry index.
    pub fn create_new(registry: &mut FileRegistry, path: String, mode: MemoryFileMode) -> (i:
        usize)
        requires
            old(registry).inv(),
        ensures
            final(registry).inv(),
            i < final(registry).files@.len(),
            final(registry).valid_at(i as int, path@),
            final(registry).files@[i as int] == (MemoryFileInternal {
                path: path,
                file: UnderlyingFile::NotOpened,
                memory_mode: mode,
                open_mode: OpenMode::Closed,
                open_count: 0,
                chunks: final(registry).files@[i as int].chunks,
                on_swap_list: false,
                can_flush: true,
            }),
            final(registry).files@[i as int].chunks@.len() == 0,
            forall|q: Seq<char>|
                q != path@ ==> final(registry).spec_contains(q) == old(registry).spec_contains(q),
            forall|q: Seq<char>|
                q != path@ && old(registry).spec_contains(q) ==> final(registry).spec_file(q)
                    == old(registry).spec_file(q),
    {
        let new_file = MemoryFileInternal {
            path,
            file: UnderlyingFile::NotOpened,
            memory_mode: mode,
            open_mode: OpenMode::Closed,
            open_count: 0,
            chunks: Vec::new(),
            on_swap_list: false,
            can_flush: true,
        };
        FileRegistry::install(registry, new_file)
    }

    /// Adopts an existing backing file: absent when `path` has no stream in
    /// storage; otherwise a disk-only file of a single disk chunk spanning
    /// the whole stream, never flushable and never swappable, registered
    /// under `path` (replacing any file by the same path).
    pub fn create_from_fs(registry: &mut FileRegistry, storage: &Storage, path: String) -> (r:
        Option<usize>)
        requires
            old(registry).inv(),
            storage.inv(),
        ensures
            final(registry).inv(),
            r is Some <==> storage.spec_contains(path@),
            match r {
                Some(i) => {
                    &&& (i as int) < final(registry).files@.len()
                    &&& final(registry).valid_at(i as int, path@)
                    &&& final(registry).files@[i as int] == (MemoryFileInternal {
                        path: path,
                        file: UnderlyingFile::NotOpened,
                        memory_mode: MemoryFileMode::DiskOnly,
                        open_mode: OpenMode::Closed,
                        open_count: 0,
                        chunks: final(registry).files@[i as int].chunks,
                        on_swap_list: false,
                        can_flush: false,
                    })
                    &&& final(registry).files@[i as int].chunks@ =~= seq![
                        ChunkEntry {
                            chunk: FileChunk::OnDisk {
                                offset: 0,
                                len: storage.spec_data(path@).len() as usize,
                            },
                            readers: 0,
                            exclusive: false,
                        },
                    ]
                    &&& final(registry).files@[i as int].total_len() == storage.spec_data(
                        path@,
                    ).len()
                    &&& forall|q: Seq<char>|
                        q != path@ ==> final(registry).spec_contains(q) == old(registry).spec_contains(q)
                    &&& forall|q: Seq<char>|
                        q != path@ && old(registry).spec_contains(q) ==> final(registry).spec_file(q) == old(registry).spec_file(q)
                },
                None => *final(registry) == *old(registry),
            },
    {
        let n = match storage.file_len(&path) {
            Some(n) => n,
            None => {
                return None;
            },
        };
        let entry = ChunkEntry {
            chunk: FileChunk::OnDisk { offset: 0, len: n },
            readers: 0,
            exclusive: false,
        };
        let mut chunks: Vec<ChunkEntry> = Vec::new();
        chunks.push(entry);
        let new_file = MemoryFileInternal {
            path,
            file: UnderlyingFile::NotOpened,
            memory_mode: MemoryFileMode::DiskOnly,
            open_mode: OpenMode::Closed,
            open_count: 0,
            chunks,
            on_swap_list: false,
            can_flush: false,
        };
        proof {
            crate::file::lemma_total_len_push(Seq::<ChunkEntry>::empty(), entry);
            assert(new_file.chunks@.drop_last() =~= Seq::<ChunkEntry>::empty());
            assert(new_file.total_len() == n);
        }
        Some(FileRegistry::install(registry, new_file))
    }

    /// Shared-ownership lookup: the registry index of the file for `path`,
    /// or absence.
    pub fn retrieve_reference(registry: &FileRegistry, path: &String) -> (r: Option<usize>)
        ensures
            match r {
                Some(i) => registry.valid_at(i as int, path@),
                None => !registry.spec_contains(path@),
            },
    {
        registry.find(path)
    }

    /// Number of registered files.
    pub fn active_files_count(registry: &FileRegistry) -> (r: usize)
        ensures
            r == registry.files@.len(),
    {
        registry.files.len()
    }

    /// Each registered path with its current chunk count, for diagnostics.
    pub fn debug_dump_files(registry: &FileRegistry) -> (r: Vec<(String, usize)>)
        ensures
            r@.len() == registry.files@.len(),
            forall|i: int|
                0 <= i < r@.len() ==> (#[trigger] r@[i]).0 == registry.files@[i].path && r@[i].1
                    == registry.files@[i].chunks@.len(),
    {
        let n: usize = registry.files.len();
        let mut out: Vec<(String, usize)> = Vec::new();
        let mut i: usize = 0;
        while i < n
            invariant
                i <= n,
                n == registry.files@.len(),
                out@.len() == i,
                forall|j: int|
                    0 <= j < i ==> (#[trigger] out@[j]).0 == registry.files@[j].path && out@[j].1
                        == registry.files@[j].chunks@.len(),
            decreases n - i,
        {
            let pair = (registry.files[i].path.clone(), registry.files[i].chunks.len());
            out.push(pair);
            i = i + 1;
        }
        out
    }

    /// Removes the file for `path` from the registry; reports whether one
    /// was registered.  With `remove_fs`, the file's residue outside the
    /// registry is removed as well: a memory-preferred file leaves the swap
    /// registry (its backing stream, if any, stays), a disk-only file's
    /// backing stream is unlinked (a missing stream is ignored), and an
    /// always-memory file has nothing to remove.
    pub fn delete(
        registry: &mut FileRegistry,
        swap: &mut SwapRegistry,
        storage: &mut Storage,
        path: &String,
        remove_fs: bool,
    ) -> (r: bool)
        requires
            old(registry).inv(),
            old(swap).inv(),
            old(storage).inv(),
        ensures
            final(registry).inv(),
            final(swap).inv(),
            final(storage).inv(),
            r == old(registry).spec_contains(path@),
            !final(registry).spec_contains(path@),
            forall|q: Seq<char>|
                q != path@ ==> final(registry).spec_contains(q) == old(registry).spec_contains(q),
            forall|q: Seq<char>|
                q != path@ && old(registry).spec_contains(q) ==> final(registry).spec_file(q)
                    == old(registry).spec_file(q),
            (r && remove_fs) ==> match old(registry).spec_file(path@).memory_mode {
                MemoryFileMode::AlwaysMemory => *final(storage) == *old(storage) && *final(swap)
                    == *old(swap),
                MemoryFileMode::PreferMemory { swap_priority } => {
                    &&& *final(storage) == *old(storage)
                    &&& !final(swap).spec_has(swap_priority, path@)
                    &&& forall|qr: usize, q: Seq<char>|
                        !(qr == swap_priority && q == path@) ==> final(swap).spec_has(qr, q)
                            == old(swap).spec_has(qr, q)
                },
                MemoryFileMode::DiskOnly => {
                    &&& *final(swap) == *old(swap)
                    &&& !final(storage).spec_contains(path@)
                    &&& forall|q: Seq<char>|
                        q != path@ ==> final(storage).spec_contains(q) == old(storage).spec_contains(q)
                    &&& forall|q: Seq<char>|
                        q != path@ && old(storage).spec_contains(q) ==> final(storage).spec_data(
                            q,
                        ) == old(storage).spec_data(q)
                },
            },
            (!r || !remove_fs) ==> (*final(storage) == *old(storage) && *final(swap) == *old(swap)),
    {
        let i = match registry.find(path) {
            Some(i) => i,
            None => {
                return false;
            },
        };
        proof {
            registry.lemma_file_at(i as int, path@);
        }
        let mode = registry.files[i].memory_mode;
        registry.files.remove(i);
        proof {
            let p = i as int;
            let oldv = old(registry).files@;
            assert(registry.files@ == oldv.remove(p));
            assert forall|q: Seq<char>|
                q != path@ && old(registry).spec_contains(q) implies registry.spec_contains(q)
                && registry.spec_file(q) == old(registry).spec_file(q) by {
                let j = choose|j: int| old(registry).valid_at(j, q);
                assert(j != p);
                let j2 = if j < p {
                    j
                } else {
                    j - 1
                };
                assert(registry.valid_at(j2, q));
                registry.lemma_file_at(j2, q);
                old(registry).lemma_file_at(j, q);
            }
            assert forall|q: Seq<char>| registry.spec_contains(q) implies old(registry).spec_contains(q) && q != path@ by {
                let j = choose|j: int| registry.valid_at(j, q);
                let j2 = if j < p {
                    j
                } else {
                    j + 1
                };
                assert(old(registry).valid_at(j2, q));
                assert(j2 != p);
                if q == path@ {
                    assert(old(registry).valid_at(j2, path@));
                    assert(old(registry).valid_at(p, path@));
                }
            }
        }
        if remove_fs {
            match mode {
                MemoryFileMode::AlwaysMemory => {},
                MemoryFileMode::PreferMemory { swap_priority } => {
                    swap.remove(swap_priority, path);
                },
                MemoryFileMode::DiskOnly => {
                    // Unlink failure (a stream that never existed) is
                    // ignored.
                    let _ = storage.unlink(path);
                },
            }
        }
        true
    }
}

impl FileRegistry {
    /// Registers `new_file` under its path, replacing any file by the same
    /// path, and returns its index.
    fn install(registry: &mut FileRegistry, new_file: MemoryFileInternal) -> (i: usize)
        requires
            old(registry).inv(),
            new_file.inv(),
        ensures
            final(registry).inv(),
            i < final(registry).files@.len(),
            final(registry).files@[i as int] == new_file,
            final(registry).valid_at(i as int, new_file.path@),
            forall|q: Seq<char>|
                q != new_file.path@ ==> final(registry).spec_contains(q) == old(registry).spec_contains(q),
            forall|q: Seq<char>|
                q != new_file.path@ && old(registry).spec_contains(q) ==> final(registry).spec_file(q) == old(registry).spec_file(q),
    {
        match registry.find(&new_file.path) {
            Some(i) => {
                registry.files[i] = new_file;
                proof {
                    let p = i as int;
                    assert(registry.files@ == old(registry).files@.update(p, new_file));
                    assert forall|a: int, b: int|
                        0 <= a < b < registry.files@.len() implies registry.files@[a].path@
                        != registry.files@[b].path@ by {
                        assert(old(registry).files@[a].path@ != old(registry).files@[b].path@);
                    }
                    assert(registry.valid_at(p, new_file.path@));
                    assert forall|q: Seq<char>|
                        q != new_file.path@ && old(registry).spec_contains(q) implies registry
                        .spec_contains(q) && registry.spec_file(q) == old(registry).spec_file(
                        q,
                    ) by {
                        let j = choose|j: int| old(registry).valid_at(j, q);
                        assert(j != p);
                        assert(registry.valid_at(j, q));
                        registry.lemma_file_at(j, q);
                        old(registry).lemma_file_at(j, q);
                    }
                    assert forall|q: Seq<char>|
                        q != new_file.path@ && registry.spec_contains(q) implies old(registry).spec_contains(q) by {
                        let j = choose|j: int| registry.valid_at(j, q);
                        assert(j != p);
                        assert(old(registry).valid_at(j, q));
                    }
                }
                i
            },
            None => {
                let i = registry.files.len();
                registry.files.push(new_file);
                proof {
                    let n = old(registry).files@.len() as int;
                    assert forall|a: int, b: int|
                        0 <= a < b < registry.files@.len() implies registry.files@[a].path@
                        != registry.files@[b].path@ by {
                        if b == n {
                            if registry.files@[a].path@ == new_file.path@ {
                                assert(old(registry).valid_at(a, new_file.path@));
                            }
                        } else {
                            assert(old(registry).files@[a].path@ != old(registry).files@[b].path@);
                        }
                    }
                    assert(registry.valid_at(n, new_file.path@));
                    assert forall|q: Seq<char>|
                        q != new_file.path@ && old(registry).spec_contains(q) implies registry
                        .spec_contains(q) && registry.spec_file(q) == old(registry).spec_file(
                        q,
                    ) by {
                        let j = choose|j: int| old(registry).valid_at(j, q);
                        assert(registry.valid_at(j, q));
                        registry.lemma_file_at(j, q);
                        old(registry).lemma_file_at(j, q);
                    }
                    assert forall|q: Seq<char>|
                        q != new_file.path@ && registry.spec_contains(q) implies old(registry).spec_contains(q) by {
                        let j = choose|j: int| registry.valid_at(j, q);
                        assert(j != n);
                        assert(old(registry).valid_at(j, q));
                    }
                }
                i
            },
        }
    }
}

} // verus!
