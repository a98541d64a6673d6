//! The flush pipeline boundary: an ordered queue of append requests.
//!
//! `flush_chunks` publishes chunks here in strict append order, each locked
//! exclusively while in flight; processing a request appends the chunk's
//! bytes to the file's backing stream, replaces the memory chunk with the
//! disk range it was written to, and releases the lock.

use vstd::prelude::*;

use crate::chunk::ChunkEntry;
use crate::chunk::FileChunk;
use crate::file::UnderlyingFile;
use crate::registry::FileRegistry;
use crate::storage::Storage;

verus! {

/// One append request: which file, and which of its chunks, to persist
/// next.
pub struct FlushRequest {
    pub path: String,
    pub chunk_index: usize,
}

/// The ordered flush queue; requests of one file are processed in append
/// order.
pub struct FlushQueue {
    pub items: Vec<FlushRequest>,
}

impl FlushQueue {
    /// An empty queue.
    pub fn new() -> (r: FlushQueue)
        ensures
            r.items@.len() == 0,
    {
        FlushQueue { items: Vec::new() }
    }

    /// Number of requests waiting.
    pub fn pending_count(&self) -> (r: usize)
        ensures
            r == self.items@.len(),
    {
        self.items.len()
    }

    /// Hands one request to the queue.
    pub fn add_item_to_flush_queue(&mut self, item: FlushRequest)
        ensures
            final(self).items@ == old(self).items@.push(item),
    {
        self.items.push(item);
    }

    /// Takes the oldest request.
    fn pop_front(&mut self) -> (r: Option<FlushRequest>)
        ensures
            match r {
                Some(item) => old(self).items@.len() > 0 && item == old(self).items@.first()
                    && final(self).items@ == old(self).items@.drop_first(),
                None => old(self).items@.len() == 0 && final(self).items@ == old(self).items@,
            },
    {
        if self.items.len() == 0 {
            None
        } else {
            let item = self.items.remove(0);
            proof {
                assert(self.items@ =~= old(self).items@.drop_first());
            }
            Some(item)
        }
    }
}

/// A request can be performed: its file is registered, a disk writer with
/// room for the chunk exists, and the chunk is a memory chunk held under
/// the exclusive lock the flush path took, over an existing backing stream.
pub open spec fn request_applies(reg: &FileRegistry, st: &Storage, req: FlushRequest) -> bool {
    let p = req.path@;
    let idx = req.chunk_index as int;
    &&& reg.spec_contains(p)
    &&& st.spec_contains(p)
    &&& reg.spec_file(p).file matches UnderlyingFile::WriteMode { write_pos, .. } && {
        &&& idx < reg.spec_file(p).chunks@.len()
        &&& reg.spec_file(p).chunks@[idx].exclusive
        &&& reg.spec_file(p).chunks@[idx].chunk matches FileChunk::OnMemory { chunk } && write_pos
            + chunk.spec_len() <= usize::MAX
    }
}

impl FlushQueue {
    /// Performs the oldest request: appends the chunk's bytes to the
    /// backing stream at the file's disk writer position, replaces the
    /// memory chunk with the exact disk range it was written to, advances
    /// the writer position, and releases the chunk's exclusive lock.
    ///
    /// Returns `true` when a request was performed.  A stale request — its
    /// file deleted, no disk writer or backing stream, the chunk missing,
    /// not held, or already on disk — is discarded and nothing is written.
    pub fn process_one(&mut self, registry: &mut FileRegistry, storage: &mut Storage) -> (r: bool)
        requires
            old(registry).inv(),
            old(storage).inv(),
        ensures
            final(registry).inv(),
            final(storage).inv(),
            old(self).items@.len() == 0 ==> (!r && final(self).items@ == old(self).items@
                && final(registry).files@ == old(registry).files@ && final(storage).files@
                == old(storage).files@),
            old(self).items@.len() > 0 ==> {
                let req = old(self).items@.first();
                let p = req.path@;
                let idx = req.chunk_index as int;
                &&& final(self).items@ == old(self).items@.drop_first()
                &&& r == request_applies(old(registry), old(storage), req)
                &&& !r ==> (final(registry).files@ == old(registry).files@
                    && final(storage).files@ == old(storage).files@)
                &&& r ==> {
                    let f0 = old(registry).spec_file(p);
                    let f1 = final(registry).spec_file(p);
                    &&& final(registry).spec_contains(p)
                    &&& forall|q: Seq<char>|
                        q != p ==> final(registry).spec_contains(q) == old(registry).spec_contains(q)
                    &&& forall|q: Seq<char>|
                        q != p && old(registry).spec_contains(q) ==> final(registry).spec_file(q)
                            == old(registry).spec_file(q)
                    &&& f0.file matches UnderlyingFile::WriteMode { chunk_position, write_pos }
                        && (f0.chunks@[idx].chunk matches FileChunk::OnMemory { chunk } && {
                        // The recorded disk range is exactly the byte range
                        // appended to the backing stream: offsets and
                        // lengths match, with no gaps or padding.
                        &&& f1.chunks@ == f0.chunks@.update(
                            idx,
                            ChunkEntry {
                                chunk: FileChunk::OnDisk {
                                    offset: write_pos as u64,
                                    len: chunk.spec_len() as usize,
                                },
                                readers: 0,
                                exclusive: false,
                            },
                        )
                        &&& f1.file == (UnderlyingFile::WriteMode {
                            chunk_position,
                            write_pos: (write_pos + chunk.spec_len()) as usize,
                        })
                        &&& f1.path == f0.path
                        &&& f1.memory_mode == f0.memory_mode
                        &&& f1.open_mode == f0.open_mode
                        &&& f1.open_count == f0.open_count
                        &&& f1.on_swap_list == f0.on_swap_list
                        &&& f1.can_flush == f0.can_flush
                        &&& f1.total_len() == f0.total_len()
                        &&& final(storage).spec_data(p) == crate::overwrite_bytes(
                            old(storage).spec_data(p),
                            write_pos as int,
                            chunk.bytes@,
                        )
                        &&& forall|q: Seq<char>|
                            q != p ==> final(storage).spec_contains(q) == old(storage).spec_contains(q)
                        &&& forall|q: Seq<char>|
                            q != p && old(storage).spec_contains(q) ==> final(storage).spec_data(q) == old(storage).spec_data(q)
                    })
                }
            },
    {
        let req = match self.pop_front() {
            Some(req) => req,
            None => {
                return false;
            },
        };
        let i = match crate::file::MemoryFileInternal::retrieve_reference(registry, &req.path) {
            Some(i) => i,
            None => {
                return false;
            },
        };
        proof {
            registry.lemma_file_at(i as int, req.path@);
        }
        if !storage.exists_file(&req.path) {
            return false;
        }
        let ghost reg0 = *registry;
        let file = &mut registry.files[i];
        let ghost f0 = *file;
        let (cursor, wp) = match &file.file {
            UnderlyingFile::WriteMode { chunk_position, write_pos } => (
                *chunk_position,
                *write_pos,
            ),
            _ => {
                proof {
                    assert(registry.files@ =~= reg0.files@);
                }
                return false;
            },
        };
        if req.chunk_index >= file.chunks.len() {
            proof {
                assert(registry.files@ =~= reg0.files@);
            }
            return false;
        }
        let entry = &file.chunks[req.chunk_index];
        if !entry.exclusive {
            proof {
                assert(registry.files@ =~= reg0.files@);
            }
            return false;
        }
        let data = match &entry.chunk {
            FileChunk::OnMemory { chunk } => crate::copy_bytes(&chunk.bytes),
            FileChunk::OnDisk { .. } => {
                proof {
                    assert(registry.files@ =~= reg0.files@);
                }
                return false;
            },
        };
        let clen = data.len();
        if wp > usize::MAX - clen {
            proof {
                assert(registry.files@ =~= reg0.files@);
            }
            return false;
        }
        storage.write_at(&req.path, wp, &data);
        let new_entry = ChunkEntry {
            chunk: FileChunk::OnDisk { offset: wp as u64, len: clen },
            readers: 0,
            exclusive: false,
        };
        let ghost chunks_pre = file.chunks@;
        file.chunks[req.chunk_index] = new_entry;
        file.file = UnderlyingFile::WriteMode { chunk_position: cursor, write_pos: wp + clen };
        proof {
            let idx = req.chunk_index as int;
            assert(file.chunks@ == chunks_pre.update(idx, new_entry));
            crate::file::lemma_total_len_update(chunks_pre, idx, new_entry);
        }
        proof {
            let p = req.path@;
            let idx = req.chunk_index as int;
            assert(registry.files@ == reg0.files@.update(i as int, registry.files@[i as int]));
            assert forall|a: int, b: int|
                0 <= a < b < registry.files@.len() implies registry.files@[a].path@
                != registry.files@[b].path@ by {
                assert(reg0.files@[a].path@ != reg0.files@[b].path@);
            }
            assert(registry.valid_at(i as int, p));
            registry.lemma_file_at(i as int, p);
            assert forall|q: Seq<char>|
                q != p && reg0.spec_contains(q) implies registry.spec_contains(q) && registry
                .spec_file(q) == reg0.spec_file(q) by {
                let j = choose|j: int| reg0.valid_at(j, q);
                assert(j != i as int);
                assert(registry.valid_at(j, q));
                registry.lemma_file_at(j, q);
                reg0.lemma_file_at(j, q);
            }
            assert forall|q: Seq<char>|
                q != p && registry.spec_contains(q) implies reg0.spec_contains(q) by {
                let j = choose|j: int| registry.valid_at(j, q);
                assert(j != i as int);
                assert(reg0.valid_at(j, q));
            }
        }
        true
    }
}

} // verus!
