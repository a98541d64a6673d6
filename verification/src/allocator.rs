//! The chunk allocator boundary: fixed-capacity memory chunks with bump-style
//! sub-allocation.
//!
//! A chunk is a bounds-checked byte region: `bytes` holds the sub-allocated
//! prefix, `capacity` the full size granted by the allocator.  Reserving bytes
//! only ever appends; written content never moves, so byte ranges handed out
//! by earlier reservations stay valid and disjoint from later ones.

use vstd::prelude::*;

verus! {

/// A fixed-capacity memory region granted by the [`ChunkAllocator`],
/// sub-allocated in bump style.
pub struct AllocatedChunk {
    /// The sub-allocated prefix of the region; its length is the bump cursor.
    pub bytes: Vec<u8>,
    /// Total size of the region in bytes.
    pub capacity: usize,
}

impl AllocatedChunk {
    /// The bump cursor never passes the capacity.
    pub open spec fn inv(&self) -> bool {
        self.bytes@.len() <= self.capacity
    }

    pub open spec fn spec_len(&self) -> nat {
        self.bytes@.len()
    }

    /// Number of bytes sub-allocated so far.
    pub fn len(&self) -> (r: usize)
        ensures
            r == self.spec_len(),
    {
        self.bytes.len()
    }

    /// Total capacity of the region.
    pub fn max_len(&self) -> (r: usize)
        ensures
            r == self.capacity,
    {
        self.capacity
    }

    /// Bytes still available for sub-allocation.
    pub fn remaining_bytes(&self) -> (r: usize)
        requires
            self.inv(),
        ensures
            r == self.capacity - self.spec_len(),
    {
        self.capacity - self.bytes.len()
    }

    /// Bump-allocates `n` bytes and returns the start of the granted range
    /// `[start, start + n)`.  The new bytes read as zero until written.
    ///
    /// Ranges granted by successive calls never overlap: each starts exactly
    /// where the previous one ended.
    pub fn prealloc_bytes_single_thread(&mut self, n: usize) -> (start: usize)
        requires
            old(self).inv(),
            old(self).spec_len() + n <= old(self).capacity,
        ensures
            final(self).inv(),
            start == old(self).spec_len(),
            final(self).capacity == old(self).capacity,
            final(self).spec_len() == old(self).spec_len() + n,
            final(self).bytes@ == old(self).bytes@ + Seq::new(n as nat, |i: int| 0u8),
    {
        let start = self.bytes.len();
        let mut i: usize = 0;
        while i < n
            invariant
                i <= n,
                self.capacity == old(self).capacity,
                old(self).spec_len() + n <= old(self).capacity,
                self.bytes@ == old(self).bytes@ + Seq::new(i as nat, |j: int| 0u8),
            decreases n - i,
        {
            self.bytes.push(0);
            i = i + 1;
            proof {
                assert(self.bytes@ =~= old(self).bytes@ + Seq::new(i as nat, |j: int| 0u8));
            }
        }
        start
    }

    /// Writes `data` into the already-allocated range starting at `start`.
    pub fn write_at(&mut self, start: usize, data: &Vec<u8>)
        requires
            old(self).inv(),
            start + data@.len() <= old(self).spec_len(),
        ensures
            final(self).inv(),
            final(self).capacity == old(self).capacity,
            final(self).bytes@ == crate::overwrite_bytes(old(self).bytes@, start as int, data@),
    {
        let dlen: usize = data.len();
        let blen: usize = self.bytes.len();
        let mut i: usize = 0;
        while i < dlen
            invariant
                i <= dlen,
                dlen == data@.len(),
                blen == self.bytes@.len(),
                start + dlen <= blen,
                self.capacity == old(self).capacity,
                self.bytes@.len() == old(self).bytes@.len(),
                forall|j: int| start <= j < start + i ==> self.bytes@[j] == data@[j - start],
                forall|j: int|
                    0 <= j < self.bytes@.len() && !(start <= j < start + i) ==> self.bytes@[j]
                        == old(self).bytes@[j],
            decreases dlen - i,
        {
            let b = data[i];
            self.bytes[start + i] = b;
            i = i + 1;
        }
        proof {
            assert(self.bytes@ =~= crate::overwrite_bytes(old(self).bytes@, start as int, data@));
        }
    }
}

/// The process-wide chunk allocator: grants fresh memory chunks of a fixed
/// size against a global budget.
pub struct ChunkAllocator {
    /// Capacity of every chunk this allocator grants.
    pub chunk_size: usize,
}

impl ChunkAllocator {
    pub open spec fn inv(&self) -> bool {
        self.chunk_size >= 1
    }

    /// A new allocator granting chunks of `chunk_size` bytes.
    pub fn new(chunk_size: usize) -> (r: ChunkAllocator)
        requires
            chunk_size >= 1,
        ensures
            r.inv(),
            r.chunk_size == chunk_size,
    {
        ChunkAllocator { chunk_size }
    }

    /// Grants a fresh, empty chunk of the configured capacity.
    pub fn request_chunk(&self) -> (r: AllocatedChunk)
        requires
            self.inv(),
        ensures
            r.inv(),
            r.capacity == self.chunk_size,
            r.spec_len() == 0,
    {
        AllocatedChunk { bytes: Vec::new(), capacity: self.chunk_size }
    }
}

} // verus!
