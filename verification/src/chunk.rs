//! Chunks: the storage units of a virtual file.
//!
//! A chunk either still lives in allocator memory or has become a byte range
//! of the file's backing storage stream.  A chunk's length never changes once
//! the chunk is part of a file, and its storage kind changes only when the
//! flush pipeline replaces a memory chunk with the disk range it wrote.

use vstd::prelude::*;

use crate::FsError;
use crate::allocator::AllocatedChunk;
use crate::file::UnderlyingFile;

verus! {

/// One unit of file content: a byte range of the backing storage, or a
/// memory region granted by the chunk allocator.
pub enum FileChunk {
    OnDisk { offset: u64, len: usize },
    OnMemory { chunk: AllocatedChunk },
}

impl FileChunk {
    pub open spec fn inv(&self) -> bool {
        match self {
            FileChunk::OnDisk { .. } => true,
            FileChunk::OnMemory { chunk } => chunk.inv(),
        }
    }

    /// Length in bytes of this chunk's content.
    pub open spec fn spec_length(&self) -> nat {
        match self {
            FileChunk::OnDisk { len, .. } => *len as nat,
            FileChunk::OnMemory { chunk } => chunk.spec_len(),
        }
    }

    /// The chunk's content as far as `file` gives access to it: memory chunks
    /// carry their own bytes; disk chunks are resolved through a mapped read
    /// view, and yield nothing without one (or when the recorded range lies
    /// outside the view).
    pub open spec fn spec_content(&self, file: &UnderlyingFile) -> Option<Seq<u8>> {
        match self {
            FileChunk::OnMemory { chunk } => Some(chunk.bytes@),
            FileChunk::OnDisk { offset, len } => match file {
                UnderlyingFile::ReadMode { view: Some(v) } => {
                    if *offset + *len <= v@.len() {
                        Some(v@.subrange(*offset as int, *offset + *len))
                    } else {
                        None
                    }
                },
                _ => None,
            },
        }
    }

    pub fn get_length(&self) -> (r: usize)
        ensures
            r == self.spec_length(),
    {
        match self {
            FileChunk::OnDisk { len, .. } => *len,
            FileChunk::OnMemory { chunk } => chunk.len(),
        }
    }

    /// Returns a copy of the chunk's content, resolved against `file`.
    ///
    /// Reading a disk chunk is a capability of read mode: without a usable
    /// read view the call reports [`FsError::NoReadView`] instead of
    /// presuming one.
    pub fn get_content(&self, file: &UnderlyingFile) -> (r: Result<Vec<u8>, FsError>)
        ensures
            match r {
                Ok(v) => self.spec_content(file) matches Some(c) && c == v@,
                Err(e) => self.spec_content(file) is None && e == FsError::NoReadView,
            },
    {
        match self {
            FileChunk::OnMemory { chunk } => {
                let clen: usize = chunk.bytes.len();
                let mut out: Vec<u8> = Vec::new();
                let mut i: usize = 0;
                while i < clen
                    invariant
                        i <= clen,
                        clen == chunk.bytes@.len(),
                        out@ == chunk.bytes@.take(i as int),
                    decreases clen - i,
                {
                    let b = chunk.bytes[i];
                    out.push(b);
                    i = i + 1;
                    proof {
                        assert(out@ =~= chunk.bytes@.take(i as int));
                    }
                }
                proof {
                    assert(out@ =~= chunk.bytes@);
                }
                Ok(out)
            },
            FileChunk::OnDisk { offset, len } => match file {
                UnderlyingFile::ReadMode { view: Some(v) } => {
                    let vlen: usize = v.len();
                    if *offset <= usize::MAX as u64 && (*offset as usize) <= vlen && *len <= vlen
                        - (*offset as usize) {
                        let start: usize = *offset as usize;
                        let mut out: Vec<u8> = Vec::new();
                        let mut i: usize = 0;
                        while i < *len
                            invariant
                                i <= *len,
                                vlen == v@.len(),
                                start + *len <= vlen,
                                out@ == v@.subrange(start as int, start + i),
                            decreases *len - i,
                        {
                            let b = v[start + i];
                            out.push(b);
                            i = i + 1;
                            proof {
                                assert(out@ =~= v@.subrange(start as int, start + i));
                            }
                        }
                        Ok(out)
                    } else {
                        Err(FsError::NoReadView)
                    }
                },
                _ => Err(FsError::NoReadView),
            },
        }
    }
}

/// A chunk entry of a virtual file: the chunk together with the state of its
/// reader/writer lock.  Readers (producers still filling returned ranges)
/// hold the shared side; the flush pipeline holds the exclusive side while a
/// chunk is in flight.
pub struct ChunkEntry {
    pub chunk: FileChunk,
    /// Number of shared (read) guards currently held on this chunk.
    pub readers: usize,
    /// True while an exclusive (write) guard is held on this chunk.
    pub exclusive: bool,
}

impl ChunkEntry {
    pub open spec fn inv(&self) -> bool {
        &&& self.chunk.inv()
        &&& !(self.readers > 0 && self.exclusive)
    }

    /// True when no guard of either kind is held: a non-blocking exclusive
    /// acquisition would succeed.
    pub open spec fn spec_lock_free(&self) -> bool {
        self.readers == 0 && !self.exclusive
    }

    pub fn lock_free(&self) -> (r: bool)
        ensures
            r == self.spec_lock_free(),
    {
        self.readers == 0 && !self.exclusive
    }
}

} // verus!
