//! Laws of the file abstraction, proved from the contracts the operations
//! carry: how reserved ranges relate across reservations, how the open/close
//! reference counting balances out, and how repeated flushing drains a file.

use vstd::prelude::*;

use crate::chunk::ChunkEntry;
use crate::file::OpenMode;
use crate::file::ReservedRange;
use crate::file::close_step;
use crate::file::flush_advance;
use crate::file::open_step;
use crate::file::sum_range_lens;
use crate::file::tiles;

verus! {

/// Two byte ranges of the logical stream do not overlap.
pub open spec fn ranges_disjoint(a: ReservedRange, b: ReservedRange) -> bool {
    a.log_off + a.len <= b.log_off || b.log_off + b.len <= a.log_off
}

/// Range lengths never sum to a negative number.
pub proof fn lemma_sum_range_lens_nonneg(rs: Seq<ReservedRange>)
    ensures
        sum_range_lens(rs) >= 0,
    decreases rs.len(),
{
    if rs.len() > 0 {
        lemma_sum_range_lens_nonneg(rs.drop_first());
    }
}

/// Ranges that tile the stream from `start` lie within
/// `[start, start + sum)` and come in strictly increasing positions: an
/// earlier range ends before a later one begins.
pub proof fn lemma_tiles_bounds(rs: Seq<ReservedRange>, start: int)
    requires
        tiles(rs, start),
    ensures
        forall|i: int|
            0 <= i < rs.len() ==> start <= (#[trigger] rs[i]).log_off && rs[i].log_off + rs[i].len
                <= start + sum_range_lens(rs),
        forall|i: int, j: int| 0 <= i < j < rs.len() ==> rs[i].log_off + rs[i].len <= rs[j].log_off,
    decreases rs.len(),
{
    if rs.len() > 0 {
        lemma_tiles_bounds(rs.drop_first(), start + rs.first().len);
        lemma_sum_range_lens_nonneg(rs.drop_first());
        assert forall|i: int|
            0 <= i < rs.len() implies start <= (#[trigger] rs[i]).log_off && rs[i].log_off
            + rs[i].len <= start + sum_range_lens(rs) by {
            if i > 0 {
                assert(rs[i] == rs.drop_first()[i - 1]);
            }
        }
        assert forall|i: int, j: int|
            0 <= i < j < rs.len() implies rs[i].log_off + rs[i].len <= rs[j].log_off by {
            assert(rs[j] == rs.drop_first()[j - 1]);
            if i > 0 {
                assert(rs[i] == rs.drop_first()[i - 1]);
            }
        }
    }
}

/// The ranges of one reservation never overlap: `reserve_space` grants
/// ranges that tile the logical stream, and tiling ranges are pairwise
/// disjoint.
pub proof fn lemma_tiling_ranges_disjoint(rs: Seq<ReservedRange>, start: int)
    requires
        tiles(rs, start),
    ensures
        forall|i: int, j: int|
            0 <= i < rs.len() && 0 <= j < rs.len() && i != j ==> ranges_disjoint(rs[i], rs[j]),
{
    lemma_tiles_bounds(rs, start);
}

/// Reservations compose: the ranges of one `reserve_space` call followed by
/// those of the next (which starts where the first ended) tile the stream
/// as one sequence — so ranges of successive reservations, taken together,
/// are pairwise disjoint, and their lengths sum to the sum of the requested
/// sizes.
pub proof fn lemma_tiles_concat(rs1: Seq<ReservedRange>, rs2: Seq<ReservedRange>, start: int)
    requires
        tiles(rs1, start),
        tiles(rs2, start + sum_range_lens(rs1)),
    ensures
        tiles(rs1 + rs2, start),
        sum_range_lens(rs1 + rs2) == sum_range_lens(rs1) + sum_range_lens(rs2),
    decreases rs1.len(),
{
    if rs1.len() == 0 {
        assert(rs1 + rs2 =~= rs2);
    } else {
        assert((rs1 + rs2).first() == rs1.first());
        assert((rs1 + rs2).drop_first() =~= rs1.drop_first() + rs2);
        lemma_tiles_concat(rs1.drop_first(), rs2, start + rs1.first().len);
        assert(sum_range_lens(rs1 + rs2) == (rs1 + rs2).first().len + sum_range_lens(
            (rs1 + rs2).drop_first(),
        ));
    }
}

/// Open/close reference counting balances: `n` opens in one mode from the
/// closed state are all accepted and leave the count at `n`.
pub open spec fn open_n(mode: OpenMode, n: nat) -> Option<(OpenMode, nat)>
    decreases n,
{
    if n == 0 {
        Some((OpenMode::Closed, 0nat))
    } else {
        match open_n(mode, (n - 1) as nat) {
            Some(st) => open_step(st.0, st.1, mode),
            None => None,
        }
    }
}

/// `n` closes from a state with `n` references.
pub open spec fn close_n(st: (OpenMode, nat), n: nat) -> Option<(OpenMode, nat)>
    decreases n,
{
    if n == 0 {
        Some(st)
    } else {
        match close_step(st.0, st.1) {
            Some(st2) => close_n(st2, (n - 1) as nat),
            None => None,
        }
    }
}

/// `n` calls to `open(mode)` on a closed file all succeed and hold `n`
/// references in that mode.
pub proof fn lemma_open_n(mode: OpenMode, n: nat)
    requires
        n > 0,
    ensures
        open_n(mode, n) == Some((mode, n)),
    decreases n,
{
    if n == 1 {
    } else {
        lemma_open_n(mode, (n - 1) as nat);
    }
}

/// `n` matching closes return the file to the closed state with no
/// references — and one close more than was opened is rejected, since
/// `close_step` of the closed state is nothing.
pub proof fn lemma_open_close_balance(mode: OpenMode, n: nat)
    requires
        n > 0,
    ensures
        open_n(mode, n) == Some((mode, n)),
        close_n((mode, n), n) == Some((OpenMode::Closed, 0nat)),
        close_step(OpenMode::Closed, 0nat) is None,
    decreases n,
{
    lemma_open_n(mode, n);
    lemma_close_n(mode, n);
}

proof fn lemma_close_n(mode: OpenMode, n: nat)
    requires
        n > 0,
    ensures
        close_n((mode, n), n) == Some((OpenMode::Closed, 0nat)),
    decreases n,
{
    if n == 1 {
    } else {
        lemma_close_n(mode, (n - 1) as nat);
    }
}

/// Opening for reading while write references remain is rejected; once the
/// count has returned to zero, it succeeds.
pub proof fn lemma_write_then_read(count: nat)
    ensures
        count > 0 ==> open_step(OpenMode::Write, count, OpenMode::Read) is None,
        open_step(OpenMode::Closed, 0nat, OpenMode::Read) == Some((OpenMode::Read, 1nat)),
{
}

/// The flush cursor never advances past a held chunk: however large the
/// limit, the advance from `c` stops at or before the first chunk whose
/// lock is not free.
pub proof fn lemma_flush_stops_at_locked(chunks: Seq<ChunkEntry>, c: int, limit: int, j: int)
    requires
        0 <= c,
        c <= j < chunks.len(),
        !chunks[j].spec_lock_free(),
    ensures
        c + flush_advance(chunks, c, limit) <= j,
    decreases limit,
{
    if limit > 0 && c < chunks.len() && chunks[c].spec_lock_free() {
        lemma_flush_stops_at_locked(chunks, c + 1, limit - 1, j);
    }
}

/// A large enough limit takes every remaining free chunk.
pub proof fn lemma_flush_advance_all(chunks: Seq<ChunkEntry>, c: int, limit: int)
    requires
        0 <= c <= chunks.len(),
        chunks.len() - c <= limit,
        forall|k: int| c <= k < chunks.len() ==> (#[trigger] chunks[k]).spec_lock_free(),
    ensures
        flush_advance(chunks, c, limit) == chunks.len() - c,
    decreases chunks.len() - c,
{
    if c < chunks.len() {
        lemma_flush_advance_all(chunks, c + 1, limit - 1);
    }
}

/// The chunk sequence after the flush path locks chunk `i` exclusively.
pub open spec fn mark_flushed(chunks: Seq<ChunkEntry>, i: int) -> Seq<ChunkEntry> {
    chunks.update(i, ChunkEntry { exclusive: true, ..chunks[i] })
}

/// The state `(chunks, cursor)` after `steps` calls of `flush_chunks` with
/// limit 1, each of which locks the chunk at the cursor and advances by one
/// while chunks remain free.
pub open spec fn single_flush_rounds(chunks: Seq<ChunkEntry>, c: int, steps: nat) -> (
    Seq<ChunkEntry>,
    int,
)
    decreases steps,
{
    if steps == 0 || c < 0 || c >= chunks.len() || !chunks[c].spec_lock_free() {
        (chunks, c)
    } else {
        single_flush_rounds(mark_flushed(chunks, c), c + 1, (steps - 1) as nat)
    }
}

/// Calling `flush_chunks` with limit 1, repeatedly, on a file whose
/// remaining chunks are all fully written (no guards held) flushes them
/// all: each call takes exactly the chunk at the cursor, in order, and
/// after as many calls as there are chunks left the cursor stands at the
/// end.
pub proof fn lemma_repeated_single_flush(chunks: Seq<ChunkEntry>, c: int)
    requires
        0 <= c <= chunks.len(),
        forall|k: int| c <= k < chunks.len() ==> (#[trigger] chunks[k]).spec_lock_free(),
    ensures
        c < chunks.len() ==> flush_advance(chunks, c, 1) == 1,
        single_flush_rounds(chunks, c, (chunks.len() - c) as nat).1 == chunks.len(),
        single_flush_rounds(chunks, c, (chunks.len() - c) as nat).0.len() == chunks.len(),
        forall|k: int|
            c <= k < chunks.len() ==> (#[trigger] single_flush_rounds(
                chunks,
                c,
                (chunks.len() - c) as nat,
            ).0[k]).exclusive,
        forall|k: int|
            0 <= k < c ==> #[trigger] single_flush_rounds(chunks, c, (chunks.len() - c) as nat).0[k]
                == chunks[k],
    decreases chunks.len() - c,
{
    if c < chunks.len() {
        assert(flush_advance(chunks, c + 1, 0) == 0);
        let marked = mark_flushed(chunks, c);
        assert forall|k: int|
            c + 1 <= k < marked.len() implies (#[trigger] marked[k]).spec_lock_free() by {
            assert(marked[k] == chunks[k]);
        }
        lemma_repeated_single_flush(marked, c + 1);
        let rounds = single_flush_rounds(marked, c + 1, (marked.len() - (c + 1)) as nat);
        assert(single_flush_rounds(chunks, c, (chunks.len() - c) as nat) == rounds);
        assert(rounds.0[c] == marked[c]);
        assert(marked[c].exclusive);
        assert forall|k: int| 0 <= k < c implies #[trigger] rounds.0[k] == chunks[k] by {
            assert(rounds.0[k] == marked[k]);
            assert(marked[k] == chunks[k]);
        }
    }
}

} // verus!
