//! The virtual file: an ordered chunk sequence, a memory-mode policy, a
//! reference-counted open-mode state machine, and flush bookkeeping.

use vstd::prelude::*;

use crate::FsError;
use crate::chunk::ChunkEntry;
use crate::storage::Storage;
use crate::swap::SwapRegistry;

verus! {

/// Where a file's content should preferably live.
#[derive(Copy, Clone, Debug, Eq, PartialEq, Structural)]
pub enum MemoryFileMode {
    /// Content always stays in memory; no backing file is ever created.
    AlwaysMemory,
    /// Content stays in memory while the budget allows; eligible for
    /// eviction through the swap registry at the given priority.
    PreferMemory { swap_priority: usize },
    /// Content is flushed to backing storage.
    DiskOnly,
}

/// The mode a file is currently opened in.  `Closed` is the resting state:
/// no mode is held and the reference count is zero.
#[derive(Copy, Clone, Debug, Eq, PartialEq, Structural)]
pub enum OpenMode {
    Closed,
    Read,
    Write,
}

/// The concrete backing resource for the current open state.
pub enum UnderlyingFile {
    /// No backing resource has been set up yet.
    NotOpened,
    /// Content is served from memory chunks alone.
    MemoryOnly,
    /// Content stays in memory for now, but a disk writer may be created
    /// later by the flush path.
    MemoryPreferred,
    /// An append-order disk writer: `chunk_position` is the flush cursor
    /// (index of the next chunk to hand to the flush queue), `write_pos` the
    /// byte position in the backing stream where the next chunk lands.
    WriteMode { chunk_position: usize, write_pos: usize },
    /// A finalized read-only view of the backing file, or `None` when the
    /// view could not be mapped.
    ReadMode { view: Option<Vec<u8>> },
}

/// The open/close state machine: the state a successful `open(mode)` moves
/// `(mode, count)` to, or `None` when the call must be rejected because a
/// different mode is held with live references.
pub open spec fn open_step(cur: OpenMode, count: nat, mode: OpenMode) -> Option<(OpenMode, nat)> {
    if cur == mode {
        Some((cur, (count + 1) as nat))
    } else if !(cur is Closed) {
        None
    } else {
        Some((mode, 1nat))
    }
}

/// The state a successful `close` moves `(mode, count)` to, or `None` when
/// there is no open reference to give back.
pub open spec fn close_step(cur: OpenMode, count: nat) -> Option<(OpenMode, nat)> {
    if count == 0 {
        None
    } else if count == 1 {
        Some((OpenMode::Closed, 0nat))
    } else {
        Some((cur, (count - 1) as nat))
    }
}

/// Sum of the chunk lengths of `s`: the file's length in bytes.
pub open spec fn total_len_rec(s: Seq<ChunkEntry>) -> int
    decreases s.len(),
{
    if s.len() == 0 {
        0
    } else {
        total_len_rec(s.drop_last()) + s.last().chunk.spec_length()
    }
}

pub proof fn lemma_total_len_push(s: Seq<ChunkEntry>, e: ChunkEntry)
    ensures
        total_len_rec(s.push(e)) == total_len_rec(s) + e.chunk.spec_length(),
{
    assert(s.push(e).drop_last() =~= s);
    assert(s.push(e).last() == e);
}

pub proof fn lemma_total_len_prefix(s: Seq<ChunkEntry>, i: int)
    requires
        0 <= i < s.len(),
    ensures
        total_len_rec(s.take(i + 1)) == total_len_rec(s.take(i)) + s[i].chunk.spec_length(),
{
    assert(s.take(i + 1).drop_last() =~= s.take(i));
    assert(s.take(i + 1).last() == s[i]);
}

pub proof fn lemma_total_len_nonneg(s: Seq<ChunkEntry>)
    ensures
        total_len_rec(s) >= 0,
    decreases s.len(),
{
    if s.len() > 0 {
        lemma_total_len_nonneg(s.drop_last());
    }
}

/// A prefix sum never exceeds the whole sum.
pub proof fn lemma_total_len_prefix_le(s: Seq<ChunkEntry>, i: int)
    requires
        0 <= i <= s.len(),
    ensures
        total_len_rec(s.take(i)) <= total_len_rec(s),
        total_len_rec(s.take(i)) >= 0,
    decreases s.len() - i,
{
    lemma_total_len_nonneg(s.take(i));
    if i == s.len() {
        assert(s.take(i) =~= s);
    } else {
        lemma_total_len_prefix(s, i);
        lemma_total_len_prefix_le(s, i + 1);
    }
}

pub proof fn lemma_total_len_update(s: Seq<ChunkEntry>, i: int, e: ChunkEntry)
    requires
        0 <= i < s.len(),
    ensures
        total_len_rec(s.update(i, e)) == total_len_rec(s) - s[i].chunk.spec_length()
            + e.chunk.spec_length(),
    decreases s.len(),
{
    if i == s.len() - 1 {
        assert(s.update(i, e).drop_last() =~= s.drop_last());
        assert(s.update(i, e).last() == e);
    } else {
        assert(s.update(i, e).drop_last() =~= s.drop_last().update(i, e));
        lemma_total_len_update(s.drop_last(), i, e);
        assert(s.update(i, e).last() == s.last());
    }
}

/// The backing resource set up when a file of the given memory mode enters
/// write mode.
pub open spec fn write_underlying(mode: MemoryFileMode) -> UnderlyingFile {
    match mode {
        MemoryFileMode::AlwaysMemory => UnderlyingFile::MemoryOnly,
        MemoryFileMode::PreferMemory { .. } => UnderlyingFile::MemoryPreferred,
        MemoryFileMode::DiskOnly => UnderlyingFile::WriteMode {
            chunk_position: 0,
            write_pos: 0,
        },
    }
}

/// How many chunks one `flush_chunks(limit)` call hands to the flush queue
/// from `cursor` on: sequential chunks are taken while the limit is not
/// reached and each chunk's lock is free; the first held chunk stops the
/// scan — chunks are never skipped or flushed out of order.
pub open spec fn flush_advance(chunks: Seq<ChunkEntry>, cursor: int, limit: int) -> int
    decreases limit,
{
    if limit <= 0 || cursor < 0 || cursor >= chunks.len() || !chunks[cursor].spec_lock_free() {
        0
    } else {
        1 + flush_advance(chunks, cursor + 1, limit - 1)
    }
}

/// `flush_advance` is what any scan satisfying the flush rules counts:
/// `n` chunks taken in order, all free, stopped only by the limit, the end
/// of the file, or a held chunk.
pub proof fn lemma_flush_advance_characterize(
    chunks: Seq<ChunkEntry>,
    c0: int,
    limit: int,
    n: int,
)
    requires
        0 <= c0,
        0 <= n,
        c0 + n <= chunks.len(),
        n <= limit,
        forall|k: int| c0 <= k < c0 + n ==> (#[trigger] chunks[k]).spec_lock_free(),
        n == limit || c0 + n == chunks.len() || !chunks[c0 + n].spec_lock_free(),
    ensures
        n == flush_advance(chunks, c0, limit),
    decreases n,
{
    if n == 0 {
    } else {
        assert(chunks[c0].spec_lock_free());
        lemma_flush_advance_characterize(chunks, c0 + 1, limit - 1, n - 1);
    }
}

/// The file content that the chunk sequence `s` presents through the
/// backing resource `u`: the concatenation of every chunk's content, or
/// nothing when some chunk cannot be resolved (a disk chunk without a
/// usable read view).
pub open spec fn contents_rec(s: Seq<ChunkEntry>, u: UnderlyingFile) -> Option<Seq<u8>>
    decreases s.len(),
{
    if s.len() == 0 {
        Some(Seq::<u8>::empty())
    } else {
        match (contents_rec(s.drop_last(), u), s.last().chunk.spec_content(&u)) {
            (Some(a), Some(b)) => Some(a + b),
            _ => None,
        }
    }
}

/// When the whole content resolves, its length is the file's length: the
/// sum of the chunk lengths, wherever each chunk resides.
pub proof fn lemma_contents_len(s: Seq<ChunkEntry>, u: UnderlyingFile)
    requires
        contents_rec(s, u) is Some,
    ensures
        contents_rec(s, u) matches Some(c) && c.len() == total_len_rec(s),
    decreases s.len(),
{
    if s.len() > 0 {
        lemma_contents_len(s.drop_last(), u);
    }
}

/// One unresolvable chunk makes the whole content unresolvable.
pub proof fn lemma_contents_none(s: Seq<ChunkEntry>, u: UnderlyingFile, i: int)
    requires
        0 <= i < s.len(),
        s[i].chunk.spec_content(&u) is None,
    ensures
        contents_rec(s, u) is None,
    decreases s.len(),
{
    if i < s.len() - 1 {
        assert(s.drop_last()[i] == s[i]);
        lemma_contents_none(s.drop_last(), u, i);
    }
}

/// Which chunk a reserved byte range lives in.
pub enum RangeTarget {
    /// The chunk at this index of the file's chunk sequence; the range
    /// holds a shared guard on it until the range is written.
    Committed { index: usize },
    /// The still-open chunk that the reservation returned.
    Open,
}

/// A byte range granted by `reserve_space`, to be filled by exactly one
/// producer.
pub struct ReservedRange {
    pub target: RangeTarget,
    /// Byte offset of the range within its chunk.
    pub start: usize,
    /// Length of the range in bytes.
    pub len: usize,
    /// Position of the range's first byte in the file's logical stream.
    pub log_off: usize,
}

/// Sum of the lengths of the ranges of `rs`.
pub open spec fn sum_range_lens(rs: Seq<ReservedRange>) -> int
    decreases rs.len(),
{
    if rs.len() == 0 {
        0
    } else {
        rs.first().len + sum_range_lens(rs.drop_first())
    }
}

/// The ranges of `rs` tile the logical stream gaplessly from `start` on:
/// each is nonempty and begins exactly where its predecessor ended.
pub open spec fn tiles(rs: Seq<ReservedRange>, start: int) -> bool
    decreases rs.len(),
{
    if rs.len() == 0 {
        true
    } else {
        &&& rs.first().len > 0
        &&& rs.first().log_off == start
        &&& tiles(rs.drop_first(), start + rs.first().len)
    }
}

pub proof fn lemma_sum_range_lens_push(rs: Seq<ReservedRange>, r: ReservedRange)
    ensures
        sum_range_lens(rs.push(r)) == sum_range_lens(rs) + r.len,
    decreases rs.len(),
{
    let p = rs.push(r);
    assert(p.len() == rs.len() + 1);
    assert(sum_range_lens(p) == p.first().len + sum_range_lens(p.drop_first()));
    if rs.len() == 0 {
        assert(p.drop_first() =~= Seq::<ReservedRange>::empty());
        assert(p.first() == r);
        assert(sum_range_lens(p.drop_first()) == 0);
    } else {
        assert(p.first() == rs.first());
        assert(p.drop_first() =~= rs.drop_first().push(r));
        lemma_sum_range_lens_push(rs.drop_first(), r);
    }
}

pub proof fn lemma_tiles_push(rs: Seq<ReservedRange>, r: ReservedRange, start: int)
    requires
        tiles(rs, start),
        r.len > 0,
        r.log_off == start + sum_range_lens(rs),
    ensures
        tiles(rs.push(r), start),
    decreases rs.len(),
{
    let p = rs.push(r);
    assert(tiles(p, start) == (p.first().len > 0 && p.first().log_off == start && tiles(
        p.drop_first(),
        start + p.first().len,
    )));
    if rs.len() == 0 {
        assert(p.drop_first() =~= Seq::<ReservedRange>::empty());
        assert(p.first() == r);
        assert(tiles(p.drop_first(), start + r.len));
    } else {
        assert(p.first() == rs.first());
        assert(p.drop_first() =~= rs.drop_first().push(r));
        lemma_tiles_push(rs.drop_first(), r, start + rs.first().len);
    }
}

/// Walks a file's chunk contents in order, one chunk at a time.
pub struct MemoryFileChunksIterator {
    /// The content of each chunk, in chunk order.
    pub contents: Vec<Vec<u8>>,
    /// Index of the next chunk content to yield.
    pub pos: usize,
}

impl MemoryFileChunksIterator {
    /// The next chunk's content, or nothing once every chunk was yielded.
    pub fn next(&mut self) -> (r: Option<Vec<u8>>)
        ensures
            final(self).contents@ == old(self).contents@,
            match r {
                Some(v) => old(self).pos < old(self).contents@.len() && v@ == old(
                    self,
                ).contents@[old(self).pos as int]@ && final(self).pos == old(self).pos + 1,
                None => old(self).pos >= old(self).contents@.len() && final(self).pos == old(
                    self,
                ).pos,
            },
    {
        if self.pos < self.contents.len() {
            let v = crate::copy_bytes(&self.contents[self.pos]);
            self.pos = self.pos + 1;
            Some(v)
        } else {
            None
        }
    }
}

/// A virtual file: a logical byte stream held as an ordered sequence of
/// chunks, each living in memory or on backing storage.
pub struct MemoryFileInternal {
    /// Path associated with the current file.
    pub path: String,
    /// Disk read/write state.
    pub file: UnderlyingFile,
    /// Memory mode.
    pub memory_mode: MemoryFileMode,
    /// Current open mode.
    pub open_mode: OpenMode,
    /// Number of open references held in the current mode.
    pub open_count: usize,
    /// The chunk sequence; append order is both logical byte order and
    /// flush order.
    pub chunks: Vec<ChunkEntry>,
    /// True once the file has been registered in the swap registry.
    pub on_swap_list: bool,
    /// False once the file has been opened for reading: such a file is
    /// never flushed again.
    pub can_flush: bool,
}

impl MemoryFileInternal {
    /// The file's length in bytes.
    pub open spec fn total_len(&self) -> int {
        total_len_rec(self.chunks@)
    }

    pub open spec fn inv(&self) -> bool {
        &&& forall|i: int| 0 <= i < self.chunks@.len() ==> (#[trigger] self.chunks@[i]).inv()
        &&& self.total_len() <= usize::MAX
        &&& match self.file {
            UnderlyingFile::WriteMode { chunk_position, .. } => chunk_position
                <= self.chunks@.len(),
            _ => true,
        }
    }

    /// True when the disk-only read transition may run: no chunk is held
    /// exclusively (the transition drains every chunk lock).
    pub open spec fn chunks_drained(&self) -> bool {
        forall|i: int| 0 <= i < self.chunks@.len() ==> !(#[trigger] self.chunks@[i]).exclusive
    }

    /// Whether the file's content is flushed to backing storage.
    pub fn is_on_disk(&self) -> (r: bool)
        ensures
            r == (self.memory_mode is DiskOnly),
    {
        self.memory_mode == MemoryFileMode::DiskOnly
    }

    /// Whether the file prefers memory and may be evicted.
    pub fn is_memory_preferred(&self) -> (r: bool)
        ensures
            r == (self.memory_mode is PreferMemory),
    {
        match self.memory_mode {
            MemoryFileMode::PreferMemory { .. } => true,
            _ => false,
        }
    }

    /// The chunk entry at `index`.
    pub fn get_chunk(&self, index: usize) -> (r: &ChunkEntry)
        requires
            index < self.chunks@.len(),
        ensures
            *r == self.chunks@[index as int],
    {
        &self.chunks[index]
    }

    /// Number of chunks of the file.
    pub fn get_chunks_count(&self) -> (r: usize)
        ensures
            r == self.chunks@.len(),
    {
        self.chunks.len()
    }

    /// The file's path.
    pub fn get_path(&self) -> (r: &String)
        ensures
            *r == self.path,
    {
        &self.path
    }

    /// The current backing resource.
    pub fn get_underlying_file(&self) -> (r: &UnderlyingFile)
        ensures
            *r == self.file,
    {
        &self.file
    }

    /// Whether the file holds exactly one chunk.
    pub fn has_only_one_chunk(&self) -> (r: bool)
        ensures
            r == (self.chunks@.len() == 1),
    {
        self.chunks.len() == 1
    }

    /// Permanently downgrades a memory-preferred file to disk-only; any
    /// other mode is kept.
    pub fn change_to_disk_only(&mut self)
        ensures
            final(self).memory_mode == (if old(self).memory_mode is PreferMemory {
                MemoryFileMode::DiskOnly
            } else {
                old(self).memory_mode
            }),
            final(self).path == old(self).path,
            final(self).file == old(self).file,
            final(self).open_mode == old(self).open_mode,
            final(self).open_count == old(self).open_count,
            final(self).chunks@ == old(self).chunks@,
            final(self).on_swap_list == old(self).on_swap_list,
            final(self).can_flush == old(self).can_flush,
            old(self).inv() ==> final(self).inv(),
    {
        if self.is_memory_preferred() {
            self.memory_mode = MemoryFileMode::DiskOnly;
        }
    }

    /// The file's length in bytes: the sum of its chunk lengths.
    pub fn len(&self) -> (r: usize)
        requires
            self.inv(),
        ensures
            r == self.total_len(),
    {
        let n: usize = self.chunks.len();
        let mut acc: usize = 0;
        let mut i: usize = 0;
        proof {
            assert(self.chunks@.take(0) =~= Seq::<ChunkEntry>::empty());
        }
        while i < n
            invariant
                i <= n,
                n == self.chunks@.len(),
                self.inv(),
                acc == total_len_rec(self.chunks@.take(i as int)),
            decreases n - i,
        {
            proof {
                lemma_total_len_prefix(self.chunks@, i as int);
                lemma_total_len_prefix_le(self.chunks@, i as int + 1);
            }
            acc = acc + self.chunks[i].chunk.get_length();
            i = i + 1;
        }
        proof {
            assert(self.chunks@.take(n as int) =~= self.chunks@);
        }
        acc
    }

    /// Opens the file in `mode`.
    ///
    /// Repeated opens in the currently held mode add a reference; an open in
    /// a different mode while references remain is rejected with
    /// [`FsError::AlreadyOpen`].  A fresh open sets up the backing resource:
    /// entering read mode permanently clears `can_flush` and, for a
    /// disk-only file, maps a read view of the backing stream (a missing
    /// stream gives an absent view rather than an error); entering write
    /// mode on a disk-only file creates the backing stream and an
    /// append-order writer with its flush cursor at the start.
    pub fn open(&mut self, storage: &mut Storage, mode: OpenMode) -> (r: Result<(), FsError>)
        requires
            old(self).inv(),
            old(storage).inv(),
            old(self).open_count < usize::MAX,
            (mode is Read && old(self).open_mode is Closed && old(self).memory_mode is DiskOnly)
                ==> old(self).chunks_drained(),
        ensures
            final(self).inv(),
            final(storage).inv(),
            final(self).path == old(self).path,
            final(self).memory_mode == old(self).memory_mode,
            final(self).chunks@ == old(self).chunks@,
            final(self).on_swap_list == old(self).on_swap_list,
            match open_step(old(self).open_mode, old(self).open_count as nat, mode) {
                Some(st) => r is Ok && final(self).open_mode == st.0 && final(self).open_count
                    == st.1,
                None => r == Err::<(), FsError>(FsError::AlreadyOpen) && final(self).open_mode
                    == old(self).open_mode && final(self).open_count == old(self).open_count,
            },
            // A repeated or rejected open changes nothing else.
            (old(self).open_mode == mode || open_step(
                old(self).open_mode,
                old(self).open_count as nat,
                mode,
            ) is None) ==> (final(self).file == old(self).file && final(self).can_flush == old(self).can_flush && *final(storage) == *old(storage)),
            // Fresh transition into read mode.
            (old(self).open_mode is Closed && mode is Read) ==> {
                &&& final(self).can_flush == false
                &&& *final(storage) == *old(storage)
                &&& if old(self).memory_mode is DiskOnly {
                    match final(self).file {
                        UnderlyingFile::ReadMode { view } => match view {
                            Some(v) => old(storage).spec_contains(old(self).path@) && v@ == old(storage).spec_data(old(self).path@),
                            None => !old(storage).spec_contains(old(self).path@),
                        },
                        _ => false,
                    }
                } else {
                    final(self).file is MemoryOnly
                }
            },
            // Fresh transition into write mode.
            (old(self).open_mode is Closed && mode is Write) ==> {
                &&& final(self).can_flush == old(self).can_flush
                &&& final(self).file == write_underlying(old(self).memory_mode)
                &&& if old(self).memory_mode is DiskOnly {
                    let p = old(self).path@;
                    &&& final(storage).spec_contains(p)
                    &&& (old(storage).spec_contains(p) ==> *final(storage) == *old(storage))
                    &&& (!old(storage).spec_contains(p) ==> final(storage).spec_data(p)
                        == Seq::<u8>::empty())
                    &&& forall|q: Seq<char>|
                        q != p ==> final(storage).spec_contains(q) == old(storage).spec_contains(
                            q,
                        )
                    &&& forall|q: Seq<char>|
                        q != p && old(storage).spec_contains(q) ==> final(storage).spec_data(q)
                            == old(storage).spec_data(q)
                } else {
                    *final(storage) == *old(storage)
                }
            },
    {
        if self.open_mode == mode {
            self.open_count = self.open_count + 1;
            return Ok(());
        }
        if self.open_mode != OpenMode::Closed {
            return Err(FsError::AlreadyOpen);
        }
        match mode {
            OpenMode::Closed => {
                // Unreachable: a closed file re-opened as closed is the
                // same-mode case above.
                proof {
                    assert(false);
                }
                Ok(())
            },
            OpenMode::Read => {
                self.open_count = 1;
                self.can_flush = false;
                if !self.is_on_disk() {
                    self.file = UnderlyingFile::MemoryOnly;
                } else {
                    // All chunk locks are drained (no chunk is in flight),
                    // any buffered writer is flushed, and the backing stream
                    // is mapped into a read view; a missing stream yields an
                    // absent view that readers must check.
                    let view = storage.read_file(&self.path);
                    self.file = UnderlyingFile::ReadMode { view };
                }
                self.open_mode = OpenMode::Read;
                Ok(())
            },
            OpenMode::Write => {
                self.open_count = 1;
                match self.memory_mode {
                    MemoryFileMode::AlwaysMemory => {
                        self.file = UnderlyingFile::MemoryOnly;
                    },
                    MemoryFileMode::PreferMemory { .. } => {
                        self.file = UnderlyingFile::MemoryPreferred;
                    },
                    MemoryFileMode::DiskOnly => {
                        storage.create_file(&self.path);
                        self.file = UnderlyingFile::WriteMode {
                            chunk_position: 0,
                            write_pos: 0,
                        };
                    },
                }
                self.open_mode = OpenMode::Write;
                Ok(())
            },
        }
    }

    /// Gives back one open reference.
    ///
    /// When the count reaches zero the mode returns to `Closed` (a buffered
    /// disk writer is flushed on the way out).  A close without a matching
    /// open is rejected with [`FsError::NotOpen`].
    pub fn close(&mut self) -> (r: Result<(), FsError>)
        requires
            old(self).inv(),
        ensures
            final(self).inv(),
            final(self).path == old(self).path,
            final(self).memory_mode == old(self).memory_mode,
            final(self).chunks@ == old(self).chunks@,
            final(self).on_swap_list == old(self).on_swap_list,
            final(self).can_flush == old(self).can_flush,
            final(self).file == old(self).file,
            match close_step(old(self).open_mode, old(self).open_count as nat) {
                Some(st) => r is Ok && final(self).open_mode == st.0 && final(self).open_count
                    == st.1,
                None => r == Err::<(), FsError>(FsError::NotOpen) && final(self).open_mode == old(self).open_mode && final(self).open_count == old(self).open_count,
            },
    {
        if self.open_count == 0 {
            return Err(FsError::NotOpen);
        }
        self.open_count = self.open_count - 1;
        if self.open_count == 0 {
            self.open_mode = OpenMode::Closed;
            // A buffered disk writer is flushed before the last reference
            // goes away; the writer itself stays available for later
            // flushing.
        }
        Ok(())
    }

    /// Registers a memory-preferred file in the swap registry, at most once.
    pub(crate) fn put_on_swappable_list(&mut self, swap: &mut SwapRegistry)
        requires
            old(self).inv(),
            old(swap).inv(),
        ensures
            final(self).inv(),
            final(swap).inv(),
            final(self).path == old(self).path,
            final(self).file == old(self).file,
            final(self).memory_mode == old(self).memory_mode,
            final(self).open_mode == old(self).open_mode,
            final(self).open_count == old(self).open_count,
            final(self).chunks@ == old(self).chunks@,
            final(self).can_flush == old(self).can_flush,
            match old(self).memory_mode {
                MemoryFileMode::PreferMemory { swap_priority } => {
                    if !old(self).on_swap_list {
                        &&& final(self).on_swap_list
                        &&& final(swap).spec_has(swap_priority, old(self).path@)
                        &&& forall|qr: usize, q: Seq<char>|
                            !(qr == swap_priority && q == old(self).path@)
                                ==> final(swap).spec_has(qr, q) == old(swap).spec_has(qr, q)
                    } else {
                        final(self).on_swap_list == old(self).on_swap_list && *final(swap)
                            == *old(swap)
                    }
                },
                _ => final(self).on_swap_list == old(self).on_swap_list
                    && *final(swap) == *old(swap),
            },
    {
        match self.memory_mode {
            MemoryFileMode::PreferMemory { swap_priority } => {
                if !self.on_swap_list {
                    self.on_swap_list = true;
                    swap.insert(swap_priority, &self.path);
                }
            },
            _ => {},
        }
    }

    /// Appends a memory chunk to the file and registers the file for
    /// swapping when it is memory-preferred.
    pub fn add_chunk(&mut self, swap: &mut SwapRegistry, chunk: crate::allocator::AllocatedChunk)
        requires
            old(self).inv(),
            old(swap).inv(),
            chunk.inv(),
            old(self).total_len() + chunk.spec_len() <= usize::MAX,
        ensures
            final(self).inv(),
            final(swap).inv(),
            final(self).path == old(self).path,
            final(self).file == old(self).file,
            final(self).memory_mode == old(self).memory_mode,
            final(self).open_mode == old(self).open_mode,
            final(self).open_count == old(self).open_count,
            final(self).can_flush == old(self).can_flush,
            final(self).chunks@ == old(self).chunks@.push(
                ChunkEntry {
                    chunk: crate::chunk::FileChunk::OnMemory { chunk },
                    readers: 0,
                    exclusive: false,
                },
            ),
            final(self).total_len() == old(self).total_len() + chunk.spec_len(),
            match old(self).memory_mode {
                MemoryFileMode::PreferMemory { swap_priority } => {
                    if !old(self).on_swap_list {
                        &&& final(self).on_swap_list
                        &&& final(swap).spec_has(swap_priority, old(self).path@)
                        &&& forall|qr: usize, q: Seq<char>|
                            !(qr == swap_priority && q == old(self).path@)
                                ==> final(swap).spec_has(qr, q) == old(swap).spec_has(qr, q)
                    } else {
                        final(self).on_swap_list == old(self).on_swap_list && *final(swap)
                            == *old(swap)
                    }
                },
                _ => final(self).on_swap_list == old(self).on_swap_list
                    && *final(swap) == *old(swap),
            },
    {
        proof {
            lemma_total_len_push(
                self.chunks@,
                ChunkEntry {
                    chunk: crate::chunk::FileChunk::OnMemory { chunk },
                    readers: 0,
                    exclusive: false,
                },
            );
        }
        let entry = ChunkEntry {
            chunk: crate::chunk::FileChunk::OnMemory { chunk },
            readers: 0,
            exclusive: false,
        };
        self.chunks.push(entry);
        self.put_on_swappable_list(swap);
    }

    /// A range returned by `reserve_space` points at real, guarded bytes:
    /// a committed range lies within a memory chunk of the file that its
    /// shared guard still protects, at the logical position the chunk order
    /// gives it; an open range lies within the returned open chunk, past
    /// every committed byte.
    /// Validity of a range whose chunk is already committed to the file.
    pub open spec fn committed_range_valid(&self, r: ReservedRange) -> bool {
        match r.target {
            RangeTarget::Committed { index } => {
                &&& index < self.chunks@.len()
                &&& self.chunks@[index as int].chunk matches crate::chunk::FileChunk::OnMemory {
                    chunk,
                } && r.start + r.len <= chunk.spec_len()
                &&& self.chunks@[index as int].readers > 0
                &&& r.log_off == total_len_rec(self.chunks@.take(index as int)) + r.start
            },
            RangeTarget::Open => false,
        }
    }

    pub open spec fn range_valid(
        &self,
        open_chunk: crate::allocator::AllocatedChunk,
        r: ReservedRange,
    ) -> bool {
        match r.target {
            RangeTarget::Committed { .. } => self.committed_range_valid(r),
            RangeTarget::Open => {
                &&& r.start + r.len <= open_chunk.spec_len()
                &&& r.log_off == self.total_len() + r.start
            },
        }
    }

    /// Reserves `size` bytes for elements of `el_size` bytes, bump-allocating
    /// from `last_chunk` and requesting fresh chunks from the allocator
    /// whenever the current chunk cannot fit another whole element.
    ///
    /// Exhausted chunks are committed to the file's chunk sequence (which
    /// registers a memory-preferred file in the swap registry), and each
    /// granted byte range is appended to `out_chunks`: ranges in committed
    /// chunks carry a shared guard released by `write_range`; the final
    /// range lives in the still-open chunk that is returned for the next
    /// reservation.  The granted ranges tile the file's logical byte stream
    /// gaplessly, so ranges of successive reservations never overlap.
    pub fn reserve_space(
        &mut self,
        swap: &mut SwapRegistry,
        alloc: &crate::allocator::ChunkAllocator,
        last_chunk: crate::allocator::AllocatedChunk,
        out_chunks: &mut Vec<ReservedRange>,
        size: usize,
        el_size: usize,
    ) -> (res: crate::allocator::AllocatedChunk)
        requires
            old(self).inv(),
            old(swap).inv(),
            alloc.inv(),
            el_size >= 1,
            last_chunk.inv(),
            last_chunk.capacity >= el_size,
            alloc.chunk_size >= el_size,
            old(self).total_len() + last_chunk.spec_len() + size <= usize::MAX,
        ensures
            final(self).inv(),
            final(swap).inv(),
            res.inv(),
            res.capacity >= el_size,
            // The granted ranges are appended to `out_chunks` ...
            final(out_chunks)@.len() >= old(out_chunks)@.len(),
            final(out_chunks)@.take(old(out_chunks)@.len() as int) == old(out_chunks)@,
            // ... their lengths sum to exactly `size` ...
            sum_range_lens(final(out_chunks)@.skip(old(out_chunks)@.len() as int)) == size,
            // ... and they tile the logical stream from its old end on.
            tiles(
                final(out_chunks)@.skip(old(out_chunks)@.len() as int),
                old(self).total_len() + last_chunk.spec_len(),
            ),
            forall|k: int|
                old(out_chunks)@.len() <= k < final(out_chunks)@.len() ==> final(self).range_valid(
                    res,
                    #[trigger] final(out_chunks)@[k],
                ),
            // The logical stream grows by exactly `size` bytes.
            final(self).total_len() + res.spec_len() == old(self).total_len()
                + last_chunk.spec_len() + size,
            // Chunks are only appended, as exhausted chunks are committed.
            final(self).chunks@.len() >= old(self).chunks@.len(),
            final(self).chunks@.take(old(self).chunks@.len() as int) == old(self).chunks@,
            forall|k: int|
                old(self).chunks@.len() <= k < final(self).chunks@.len() ==> (#[trigger] final(self).chunks@[k]).chunk is OnMemory && !final(self).chunks@[k].exclusive,
            final(self).path == old(self).path,
            final(self).file == old(self).file,
            final(self).memory_mode == old(self).memory_mode,
            final(self).open_mode == old(self).open_mode,
            final(self).open_count == old(self).open_count,
            final(self).can_flush == old(self).can_flush,
            // A memory-preferred file is registered for swapping when a
            // chunk is committed.
            match old(self).memory_mode {
                MemoryFileMode::PreferMemory { swap_priority } => {
                    if final(self).chunks@.len() > old(self).chunks@.len() && !old(self).on_swap_list {
                        &&& final(self).on_swap_list
                        &&& final(swap).spec_has(swap_priority, old(self).path@)
                        &&& forall|qr: usize, q: Seq<char>|
                            !(qr == swap_priority && q == old(self).path@)
                                ==> final(swap).spec_has(qr, q) == old(swap).spec_has(qr, q)
                    } else {
                        *final(swap) == *old(swap) && final(self).on_swap_list == old(self).on_swap_list
                    }
                },
                _ => *final(swap) == *old(swap) && final(self).on_swap_list == old(self).on_swap_list,
            },
    {
        let ghost end0 = old(self).total_len() + last_chunk.spec_len();
        let ghost out0 = old(out_chunks)@;
        let ghost chunks0 = old(self).chunks@;
        let mut chunk = last_chunk;
        let mut remaining: usize = size;
        let mut committed: usize = self.len();
        proof {
            assert(out_chunks@.skip(out0.len() as int) =~= Seq::<ReservedRange>::empty());
            assert(out_chunks@.take(out0.len() as int) =~= out0);
            assert(self.chunks@.take(chunks0.len() as int) =~= chunks0);
        }
        loop
            invariant
                self.inv(),
                swap.inv(),
                chunk.inv(),
                alloc.inv(),
                el_size >= 1,
                alloc.chunk_size >= el_size,
                chunk.capacity >= el_size,
                remaining <= size,
                committed == self.total_len(),
                committed + chunk.spec_len() + remaining <= usize::MAX,
                committed + chunk.spec_len() == end0 + (size - remaining),
                end0 == old(self).total_len() + last_chunk.spec_len(),
                out_chunks@.len() >= out0.len(),
                out_chunks@.take(out0.len() as int) == out0,
                out0 == old(out_chunks)@,
                sum_range_lens(out_chunks@.skip(out0.len() as int)) == size - remaining,
                tiles(out_chunks@.skip(out0.len() as int), end0),
                forall|k: int|
                    out0.len() <= k < out_chunks@.len() ==> (#[trigger] out_chunks@[k]).target
                        is Committed,
                forall|k: int|
                    out0.len() <= k < out_chunks@.len() ==> self.committed_range_valid(
                        #[trigger] out_chunks@[k],
                    ),
                self.chunks@.len() >= chunks0.len(),
                self.chunks@.take(chunks0.len() as int) == chunks0,
                chunks0 == old(self).chunks@,
                forall|k: int|
                    chunks0.len() <= k < self.chunks@.len() ==> (#[trigger] self.chunks@[k]).chunk
                        is OnMemory && !self.chunks@[k].exclusive,
                self.path == old(self).path,
                self.file == old(self).file,
                self.memory_mode == old(self).memory_mode,
                self.open_mode == old(self).open_mode,
                self.open_count == old(self).open_count,
                self.can_flush == old(self).can_flush,
                match old(self).memory_mode {
                    MemoryFileMode::PreferMemory { swap_priority } => {
                        if self.chunks@.len() > chunks0.len() && !old(self).on_swap_list {
                            &&& self.on_swap_list
                            &&& swap.spec_has(swap_priority, old(self).path@)
                            &&& forall|qr: usize, q: Seq<char>|
                                !(qr == swap_priority && q == old(self).path@)
                                    ==> swap.spec_has(qr, q) == old(swap).spec_has(qr, q)
                        } else {
                            *swap == *old(swap) && self.on_swap_list == old(self).on_swap_list
                        }
                    },
                    _ => *swap == *old(swap) && self.on_swap_list == old(self).on_swap_list,
                },
            decreases remaining * 2 + (if chunk.spec_len() + el_size <= chunk.capacity {
                0int
            } else {
                1int
            }),
        {
            let rem_bytes = chunk.remaining_bytes();
            let rem_elements = rem_bytes / el_size;
            proof {
                assert(rem_elements * el_size <= rem_bytes) by (nonlinear_arith)
                    requires
                        rem_elements == rem_bytes / el_size,
                        el_size >= 1,
                        rem_bytes >= 0,
                ;
            }
            let el_avail = rem_elements * el_size;
            let el_bytes = if remaining < el_avail {
                remaining
            } else {
                el_avail
            };
            proof {
                if el_bytes == 0 && remaining > 0 {
                    // The chunk cannot fit a whole element; the fresh chunk
                    // requested below can, which bounds the loop.
                    assert(el_avail == 0);
                    assert(rem_elements == 0) by (nonlinear_arith)
                        requires
                            rem_elements * el_size == 0,
                            el_size >= 1,
                            rem_elements >= 0,
                    ;
                    vstd::arithmetic::div_mod::lemma_small_div_converse(
                        rem_bytes as int,
                        el_size as int,
                    );
                    assert(rem_bytes < el_size);
                }
            }
            let start = if el_bytes > 0 {
                chunk.prealloc_bytes_single_thread(el_bytes)
            } else {
                0
            };
            remaining = remaining - el_bytes;
            if remaining > 0 {
                let cl = chunk.len();
                let idx = self.chunks.len();
                let entry = ChunkEntry {
                    chunk: crate::chunk::FileChunk::OnMemory { chunk },
                    readers: if el_bytes > 0 {
                        1
                    } else {
                        0
                    },
                    exclusive: false,
                };
                let ghost pre = self.chunks@;
                proof {
                    lemma_total_len_push(pre, entry);
                }
                self.chunks.push(entry);
                proof {
                    assert(self.chunks@.take(chunks0.len() as int) =~= chunks0);
                    assert(self.chunks@.take(idx as int) =~= pre);
                    assert forall|k: int|
                        out0.len() <= k < out_chunks@.len() implies self.committed_range_valid(
                        #[trigger] out_chunks@[k],
                    ) by {
                        let r = out_chunks@[k];
                        match r.target {
                            RangeTarget::Committed { index } => {
                                assert(self.chunks@[index as int] == pre[index as int]);
                                assert(self.chunks@.take(index as int) =~= pre.take(index as int));
                            },
                            RangeTarget::Open => {},
                        }
                    }
                }
                if el_bytes > 0 {
                    let r = ReservedRange {
                        target: RangeTarget::Committed { index: idx },
                        start,
                        len: el_bytes,
                        log_off: committed + start,
                    };
                    let ghost rs_pre = out_chunks@.skip(out0.len() as int);
                    proof {
                        lemma_sum_range_lens_push(rs_pre, r);
                        lemma_tiles_push(rs_pre, r, end0);
                    }
                    out_chunks.push(r);
                    proof {
                        assert(out_chunks@.skip(out0.len() as int) =~= rs_pre.push(r));
                        assert(out_chunks@.take(out0.len() as int) =~= out0);
                        assert(self.chunks@.take(idx as int) =~= pre);
                    }
                }
                committed = committed + cl;
                self.put_on_swappable_list(swap);
                chunk = alloc.request_chunk();
            } else {
                if el_bytes > 0 {
                    let r = ReservedRange {
                        target: RangeTarget::Open,
                        start,
                        len: el_bytes,
                        log_off: committed + start,
                    };
                    let ghost rs_pre = out_chunks@.skip(out0.len() as int);
                    proof {
                        lemma_sum_range_lens_push(rs_pre, r);
                        lemma_tiles_push(rs_pre, r, end0);
                    }
                    out_chunks.push(r);
                    proof {
                        assert(out_chunks@.skip(out0.len() as int) =~= rs_pre.push(r));
                        assert(out_chunks@.take(out0.len() as int) =~= out0);
                    }
                }
                return chunk;
            }
        }
    }

    /// Writes `data` into a range of a committed chunk and releases the
    /// range's shared guard.  The chunk's length, and so the file's logical
    /// stream, is unchanged: only the reserved bytes are filled in.
    pub fn write_range(&mut self, r: ReservedRange, data: &Vec<u8>)
        requires
            old(self).inv(),
            old(self).committed_range_valid(r),
            data@.len() == r.len,
        ensures
            final(self).inv(),
            final(self).path == old(self).path,
            final(self).file == old(self).file,
            final(self).memory_mode == old(self).memory_mode,
            final(self).open_mode == old(self).open_mode,
            final(self).open_count == old(self).open_count,
            final(self).on_swap_list == old(self).on_swap_list,
            final(self).can_flush == old(self).can_flush,
            final(self).total_len() == old(self).total_len(),
            final(self).chunks@.len() == old(self).chunks@.len(),
            match r.target {
                RangeTarget::Committed { index } => {
                    &&& forall|j: int|
                        0 <= j < old(self).chunks@.len() && j != index ==> final(self).chunks@[j]
                            == old(self).chunks@[j]
                    &&& final(self).chunks@[index as int].readers == old(self).chunks@[
                        index as int
                    ].readers - 1
                    &&& final(self).chunks@[index as int].exclusive == old(self).chunks@[
                        index as int
                    ].exclusive
                    &&& final(self).chunks@[index as int].chunk
                        matches crate::chunk::FileChunk::OnMemory { chunk: c2 } && (old(self).chunks@[index as int].chunk matches crate::chunk::FileChunk::OnMemory {
                        chunk: c1,
                    } && c2.bytes@ == crate::overwrite_bytes(c1.bytes@, r.start as int, data@)
                        && c2.capacity == c1.capacity)
                },
                RangeTarget::Open => true,
            },
    {
        let index = match r.target {
            RangeTarget::Committed { index } => index,
            RangeTarget::Open => {
                proof {
                    assert(false);
                }
                0
            },
        };
        let ghost pre = self.chunks@;
        let entry = &mut self.chunks[index];
        match &mut entry.chunk {
            crate::chunk::FileChunk::OnMemory { chunk } => {
                chunk.write_at(r.start, data);
            },
            crate::chunk::FileChunk::OnDisk { .. } => {
                proof {
                    assert(false);
                }
            },
        }
        entry.readers = entry.readers - 1;
        proof {
            assert(self.chunks@ == pre.update(index as int, self.chunks@[index as int]));
            lemma_total_len_update(pre, index as int, self.chunks@[index as int]);
        }
    }

    /// Attempts a non-blocking exclusive lock on the chunk at `index`, as
    /// the flush path does before handing a chunk to the flush queue.
    /// Succeeds exactly when no guard of either kind is held.
    pub fn try_lock_chunk_exclusive(&mut self, index: usize) -> (r: bool)
        requires
            old(self).inv(),
            index < old(self).chunks@.len(),
        ensures
            final(self).inv(),
            r == old(self).chunks@[index as int].spec_lock_free(),
            final(self).path == old(self).path,
            final(self).file == old(self).file,
            final(self).memory_mode == old(self).memory_mode,
            final(self).open_mode == old(self).open_mode,
            final(self).open_count == old(self).open_count,
            final(self).on_swap_list == old(self).on_swap_list,
            final(self).can_flush == old(self).can_flush,
            final(self).total_len() == old(self).total_len(),
            final(self).chunks@.len() == old(self).chunks@.len(),
            forall|j: int|
                0 <= j < old(self).chunks@.len() && j != index ==> final(self).chunks@[j] == old(self).chunks@[j],
            r ==> final(self).chunks@[index as int] == (ChunkEntry {
                exclusive: true,
                ..old(self).chunks@[index as int]
            }),
            !r ==> final(self).chunks@[index as int] == old(self).chunks@[index as int],
    {
        let ghost pre = self.chunks@;
        let entry = &mut self.chunks[index];
        let free = entry.readers == 0 && !entry.exclusive;
        if free {
            entry.exclusive = true;
        }
        proof {
            assert(self.chunks@ == pre.update(index as int, self.chunks@[index as int]));
            lemma_total_len_update(pre, index as int, self.chunks@[index as int]);
        }
        free
    }

    /// Releases an exclusive lock on the chunk at `index`, as the flush
    /// pipeline does once the chunk's bytes are persisted.
    pub fn unlock_chunk_exclusive(&mut self, index: usize)
        requires
            old(self).inv(),
            index < old(self).chunks@.len(),
            old(self).chunks@[index as int].exclusive,
        ensures
            final(self).inv(),
            final(self).path == old(self).path,
            final(self).file == old(self).file,
            final(self).memory_mode == old(self).memory_mode,
            final(self).open_mode == old(self).open_mode,
            final(self).open_count == old(self).open_count,
            final(self).on_swap_list == old(self).on_swap_list,
            final(self).can_flush == old(self).can_flush,
            final(self).total_len() == old(self).total_len(),
            final(self).chunks@.len() == old(self).chunks@.len(),
            forall|j: int|
                0 <= j < old(self).chunks@.len() && j != index ==> final(self).chunks@[j] == old(self).chunks@[j],
            final(self).chunks@[index as int] == (ChunkEntry {
                exclusive: false,
                ..old(self).chunks@[index as int]
            }),
    {
        let ghost pre = self.chunks@;
        let entry = &mut self.chunks[index];
        entry.exclusive = false;
        proof {
            assert(self.chunks@ == pre.update(index as int, self.chunks@[index as int]));
            lemma_total_len_update(pre, index as int, self.chunks@[index as int]);
        }
    }

    /// Takes a shared guard on the chunk at `index` (non-blocking): what a
    /// producer holds while it still fills a committed chunk.  Fails when
    /// the chunk is held exclusively.
    pub fn acquire_chunk_read(&mut self, index: usize) -> (r: bool)
        requires
            old(self).inv(),
            index < old(self).chunks@.len(),
            old(self).chunks@[index as int].readers < usize::MAX,
        ensures
            final(self).inv(),
            r == !old(self).chunks@[index as int].exclusive,
            final(self).path == old(self).path,
            final(self).file == old(self).file,
            final(self).memory_mode == old(self).memory_mode,
            final(self).open_mode == old(self).open_mode,
            final(self).open_count == old(self).open_count,
            final(self).on_swap_list == old(self).on_swap_list,
            final(self).can_flush == old(self).can_flush,
            final(self).total_len() == old(self).total_len(),
            final(self).chunks@.len() == old(self).chunks@.len(),
            forall|j: int|
                0 <= j < old(self).chunks@.len() && j != index ==> final(self).chunks@[j] == old(self).chunks@[j],
            r ==> final(self).chunks@[index as int] == (ChunkEntry {
                readers: (old(self).chunks@[index as int].readers + 1) as usize,
                ..old(self).chunks@[index as int]
            }),
            !r ==> final(self).chunks@[index as int] == old(self).chunks@[index as int],
    {
        let ghost pre = self.chunks@;
        let entry = &mut self.chunks[index];
        let ok = !entry.exclusive;
        if ok {
            entry.readers = entry.readers + 1;
        }
        proof {
            assert(self.chunks@ == pre.update(index as int, self.chunks@[index as int]));
            lemma_total_len_update(pre, index as int, self.chunks@[index as int]);
        }
        ok
    }

    /// Chunks not yet handed to the flush queue: none for memory-only or
    /// read states; all of them for a memory-preferred file without a disk
    /// writer; the ones past the flush cursor once a writer exists.
    pub open spec fn spec_flush_pending(&self) -> int {
        match self.file {
            UnderlyingFile::NotOpened => 0,
            UnderlyingFile::MemoryOnly => 0,
            UnderlyingFile::ReadMode { .. } => 0,
            UnderlyingFile::WriteMode { chunk_position, .. } => self.chunks@.len()
                - chunk_position,
            UnderlyingFile::MemoryPreferred => self.chunks@.len() as int,
        }
    }

    /// Number of chunks not yet handed to the flush queue.
    pub fn flush_pending_chunks_count(&self) -> (r: usize)
        requires
            self.inv(),
        ensures
            r == self.spec_flush_pending(),
    {
        match &self.file {
            UnderlyingFile::NotOpened => 0,
            UnderlyingFile::MemoryOnly => 0,
            UnderlyingFile::ReadMode { .. } => 0,
            UnderlyingFile::WriteMode { chunk_position, .. } => self.chunks.len()
                - *chunk_position,
            UnderlyingFile::MemoryPreferred => self.chunks.len(),
        }
    }

    /// Whether any chunk still awaits flushing.
    pub fn has_flush_pending_chunks(&self) -> (r: bool)
        requires
            self.inv(),
        ensures
            r == (self.spec_flush_pending() > 0),
    {
        self.flush_pending_chunks_count() > 0
    }

    /// Attempts to hand up to `limit` sequential unflushed chunks to the
    /// flush queue, in append order.
    ///
    /// Returns 0 at once when flushing is disabled (the file was opened for
    /// reading) or no disk writer can serve the file (memory-only or read
    /// state).  A missing writer (not-opened or memory-preferred state) is
    /// created first.  Starting at the flush cursor, each chunk whose lock
    /// is free is locked exclusively and queued, and the cursor advances;
    /// the first chunk held by another party stops the scan — chunks are
    /// never skipped or flushed out of order.  Returns the number of chunks
    /// handed off.
    pub fn flush_chunks(
        &mut self,
        limit: usize,
        queue: &mut crate::flush::FlushQueue,
        storage: &mut Storage,
    ) -> (n: usize)
        requires
            old(self).inv(),
            old(storage).inv(),
        ensures
            final(self).inv(),
            final(storage).inv(),
            n <= limit,
            final(self).path == old(self).path,
            final(self).memory_mode == old(self).memory_mode,
            final(self).open_mode == old(self).open_mode,
            final(self).open_count == old(self).open_count,
            final(self).on_swap_list == old(self).on_swap_list,
            final(self).can_flush == old(self).can_flush,
            final(self).total_len() == old(self).total_len(),
            final(self).chunks@.len() == old(self).chunks@.len(),
            // Disabled or unservable: nothing happens.
            (!old(self).can_flush || old(self).file is MemoryOnly || old(self).file is ReadMode)
                ==> (n == 0 && final(self).chunks@ == old(self).chunks@ && final(self).file
                == old(self).file && *final(storage) == *old(storage) && *final(queue) == *old(queue)),
            // A flushable state: the cursor advances over exactly the freely
            // lockable chunks, which are locked and queued in order.
            (old(self).can_flush && !(old(self).file is MemoryOnly) && !(old(self).file is ReadMode)) ==> {
                let c0 = match old(self).file {
                    UnderlyingFile::WriteMode { chunk_position, .. } => chunk_position as int,
                    _ => 0int,
                };
                let wp = match old(self).file {
                    UnderlyingFile::WriteMode { write_pos, .. } => write_pos as int,
                    _ => 0int,
                };
                &&& n == flush_advance(old(self).chunks@, c0, limit as int)
                &&& c0 + n <= old(self).chunks@.len()
                &&& final(self).file == (UnderlyingFile::WriteMode {
                    chunk_position: (c0 + n) as usize,
                    write_pos: wp as usize,
                })
                &&& forall|k: int|
                    c0 <= k < c0 + n ==> (#[trigger] old(self).chunks@[k]).spec_lock_free()
                &&& forall|k: int|
                    c0 <= k < c0 + n ==> #[trigger] final(self).chunks@[k] == (ChunkEntry {
                        exclusive: true,
                        ..old(self).chunks@[k]
                    })
                &&& forall|k: int|
                    0 <= k < old(self).chunks@.len() && !(c0 <= k < c0 + n) ==> final(self).chunks@[k] == old(self).chunks@[k]
                &&& (n == limit || c0 + n == old(self).chunks@.len() || !old(self).chunks@[c0
                    + n].spec_lock_free())
                &&& final(queue).items@.len() == old(queue).items@.len() + n
                &&& final(queue).items@.take(old(queue).items@.len() as int) == old(queue).items@
                &&& forall|i: int|
                    0 <= i < n ==> (#[trigger] final(queue).items@[old(queue).items@.len() + i]).path
                        == old(self).path && final(queue).items@[old(queue).items@.len()
                        + i].chunk_index == c0 + i
                &&& if old(self).file is WriteMode {
                    *final(storage) == *old(storage)
                } else {
                    // A fresh writer creates the backing stream if absent.
                    let p = old(self).path@;
                    &&& final(storage).spec_contains(p)
                    &&& (old(storage).spec_contains(p) ==> *final(storage) == *old(storage))
                    &&& (!old(storage).spec_contains(p) ==> final(storage).spec_data(p)
                        == Seq::<u8>::empty())
                    &&& forall|q: Seq<char>|
                        q != p ==> final(storage).spec_contains(q) == old(storage).spec_contains(
                            q,
                        )
                    &&& forall|q: Seq<char>|
                        q != p && old(storage).spec_contains(q) ==> final(storage).spec_data(q)
                            == old(storage).spec_data(q)
                }
            },
    {
        // The underlying-file lock is taken without blocking; in this
        // sequential setting it is never contended.
        if !self.can_flush {
            return 0;
        }
        match &self.file {
            UnderlyingFile::NotOpened | UnderlyingFile::MemoryPreferred => {
                storage.create_file(&self.path);
                self.file = UnderlyingFile::WriteMode { chunk_position: 0, write_pos: 0 };
            },
            _ => {},
        }
        let (cursor0, wp) = match &self.file {
            UnderlyingFile::WriteMode { chunk_position, write_pos } => (
                *chunk_position,
                *write_pos,
            ),
            _ => {
                return 0;
            },
        };
        let total = self.chunks.len();
        let ghost chunks1 = self.chunks@;
        let ghost q0 = queue.items@;
        let ghost storage1 = *storage;
        let mut cursor = cursor0;
        let mut flushed: usize = 0;
        loop
            invariant
                self.inv(),
                cursor == cursor0 + flushed,
                flushed <= limit,
                cursor0 <= cursor <= total,
                total == self.chunks@.len(),
                chunks1 == old(self).chunks@,
                self.chunks@.len() == chunks1.len(),
                self.path == old(self).path,
                self.file == (UnderlyingFile::WriteMode {
                    chunk_position: cursor0,
                    write_pos: wp,
                }),
                self.memory_mode == old(self).memory_mode,
                self.open_mode == old(self).open_mode,
                self.open_count == old(self).open_count,
                self.on_swap_list == old(self).on_swap_list,
                self.can_flush == old(self).can_flush,
                self.total_len() == total_len_rec(chunks1),
                *storage == storage1,
                forall|k: int|
                    cursor0 <= k < cursor ==> (#[trigger] chunks1[k]).spec_lock_free(),
                forall|k: int|
                    cursor0 <= k < cursor ==> #[trigger] self.chunks@[k] == (ChunkEntry {
                        exclusive: true,
                        ..chunks1[k]
                    }),
                forall|k: int|
                    0 <= k < chunks1.len() && !(cursor0 <= k < cursor) ==> self.chunks@[k]
                        == chunks1[k],
                queue.items@.len() == q0.len() + flushed,
                queue.items@.take(q0.len() as int) == q0,
                forall|i: int|
                    0 <= i < flushed ==> (#[trigger] queue.items@[q0.len() + i]).path == old(self).path && queue.items@[q0.len() + i].chunk_index == cursor0 + i,
            ensures
                flushed == limit || cursor == total || !chunks1[cursor as int].spec_lock_free(),
            decreases limit - flushed,
        {
            if flushed >= limit {
                break ;
            }
            if cursor >= total {
                break ;
            }
            let ok = self.try_lock_chunk_exclusive(cursor);
            if !ok {
                break ;
            }
            let item = crate::flush::FlushRequest {
                path: self.get_path().clone(),
                chunk_index: cursor,
            };
            queue.add_item_to_flush_queue(item);
            cursor = cursor + 1;
            flushed = flushed + 1;
            proof {
                assert(queue.items@.take(q0.len() as int) =~= q0);
            }
        }
        self.file = UnderlyingFile::WriteMode { chunk_position: cursor, write_pos: wp };
        proof {
            lemma_flush_advance_characterize(
                chunks1,
                cursor0 as int,
                limit as int,
                flushed as int,
            );
        }
        flushed
    }

    /// The file's whole content, chunk by chunk in order, regardless of
    /// where each chunk resides — provided every chunk can be resolved
    /// through the current backing resource.
    pub fn read_all(&self) -> (r: Result<Vec<u8>, FsError>)
        ensures
            match r {
                Ok(v) => contents_rec(self.chunks@, self.file) matches Some(c) && c == v@,
                Err(e) => contents_rec(self.chunks@, self.file) is None && e
                    == FsError::NoReadView,
            },
    {
        let n: usize = self.chunks.len();
        let mut acc: Vec<u8> = Vec::new();
        let mut i: usize = 0;
        proof {
            assert(self.chunks@.take(0) =~= Seq::<ChunkEntry>::empty());
        }
        while i < n
            invariant
                i <= n,
                n == self.chunks@.len(),
                contents_rec(self.chunks@.take(i as int), self.file) matches Some(c) && c
                    == acc@,
            decreases n - i,
        {
            let piece = match self.chunks[i].chunk.get_content(&self.file) {
                Ok(piece) => piece,
                Err(e) => {
                    proof {
                        lemma_contents_none(self.chunks@, self.file, i as int);
                    }
                    return Err(e);
                },
            };
            let ghost acc0 = acc@;
            let plen: usize = piece.len();
            let mut j: usize = 0;
            while j < plen
                invariant
                    j <= plen,
                    plen == piece@.len(),
                    acc@ == acc0 + piece@.take(j as int),
                decreases plen - j,
            {
                let b = piece[j];
                acc.push(b);
                j = j + 1;
                proof {
                    assert(acc@ =~= acc0 + piece@.take(j as int));
                }
            }
            proof {
                assert(self.chunks@.take(i + 1).drop_last() =~= self.chunks@.take(i as int));
                assert(self.chunks@.take(i + 1).last() == self.chunks@[i as int]);
                assert(piece@.take(plen as int) =~= piece@);
            }
            i = i + 1;
        }
        proof {
            assert(self.chunks@.take(n as int) =~= self.chunks@);
        }
        Ok(acc)
    }

    /// The file's content chunk by chunk, for a reader that walks the
    /// chunks in order.
    pub fn chunks_iter(&self) -> (r: Result<MemoryFileChunksIterator, FsError>)
        ensures
            match r {
                Ok(it) => {
                    &&& it.pos == 0
                    &&& it.contents@.len() == self.chunks@.len()
                    &&& forall|i: int|
                        0 <= i < self.chunks@.len() ==> ((#[trigger] self.chunks@[i]).chunk
                            .spec_content(&self.file) matches Some(c) && it.contents@[i]@ == c)
                },
                Err(e) => (exists|i: int|
                    0 <= i < self.chunks@.len() && (#[trigger] self.chunks@[i]).chunk
                        .spec_content(&self.file) is None) && e == FsError::NoReadView,
            },
    {
        let n: usize = self.chunks.len();
        let mut contents: Vec<Vec<u8>> = Vec::new();
        let mut i: usize = 0;
        while i < n
            invariant
                i <= n,
                n == self.chunks@.len(),
                contents@.len() == i,
                forall|k: int|
                    0 <= k < i ==> ((#[trigger] self.chunks@[k]).chunk.spec_content(&self.file)
                        matches Some(c) && contents@[k]@ == c),
            decreases n - i,
        {
            let piece = match self.chunks[i].chunk.get_content(&self.file) {
                Ok(piece) => piece,
                Err(e) => {
                    return Err(e);
                },
            };
            contents.push(piece);
            i = i + 1;
        }
        Ok(MemoryFileChunksIterator { contents, pos: 0 })
    }

    /// Gives back a shared guard on the chunk at `index`.
    pub fn release_chunk_read(&mut self, index: usize)
        requires
            old(self).inv(),
            index < old(self).chunks@.len(),
            old(self).chunks@[index as int].readers > 0,
        ensures
            final(self).inv(),
            final(self).path == old(self).path,
            final(self).file == old(self).file,
            final(self).memory_mode == old(self).memory_mode,
            final(self).open_mode == old(self).open_mode,
            final(self).open_count == old(self).open_count,
            final(self).on_swap_list == old(self).on_swap_list,
            final(self).can_flush == old(self).can_flush,
            final(self).total_len() == old(self).total_len(),
            final(self).chunks@.len() == old(self).chunks@.len(),
            forall|j: int|
                0 <= j < old(self).chunks@.len() && j != index ==> final(self).chunks@[j] == old(self).chunks@[j],
            final(self).chunks@[index as int] == (ChunkEntry {
                readers: (old(self).chunks@[index as int].readers - 1) as usize,
                ..old(self).chunks@[index as int]
            }),
    {
        let ghost pre = self.chunks@;
        let entry = &mut self.chunks[index];
        entry.readers = entry.readers - 1;
        proof {
            assert(self.chunks@ == pre.update(index as int, self.chunks@[index as int]));
            lemma_total_len_update(pre, index as int, self.chunks@[index as int]);
        }
    }
}

} // verus!
