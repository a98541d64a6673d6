use memory_fs::FsError;
use memory_fs::allocator::ChunkAllocator;
use memory_fs::file::MemoryFileChunksIterator;
use memory_fs::file::MemoryFileInternal;
use memory_fs::file::MemoryFileMode;
use memory_fs::file::OpenMode;
use memory_fs::file::RangeTarget;
use memory_fs::file::UnderlyingFile;
use memory_fs::flush::FlushQueue;
use memory_fs::registry::FileRegistry;
use memory_fs::storage::Storage;
use memory_fs::swap::SwapRegistry;

fn fresh_services() -> (FileRegistry, SwapRegistry, Storage, FlushQueue) {
    (FileRegistry::new(), SwapRegistry::new(), Storage::new(), FlushQueue::new())
}

#[test]
fn reserve_space_lengths_sum_to_request() {
    let (mut registry, mut swap, _storage, _queue) = fresh_services();
    let alloc = ChunkAllocator::new(8);
    let i = MemoryFileInternal::create_new(
        &mut registry,
        String::from("a"),
        MemoryFileMode::AlwaysMemory,
    );
    let mut out = Vec::new();
    let chunk = alloc.request_chunk();
    let file = registry.file_at_mut(i);
    let open_chunk = file.reserve_space(&mut swap, &alloc, chunk, &mut out, 20, 4);
    let total: usize = out.iter().map(|r| r.len).sum();
    assert_eq!(total, 20);
    // Ranges tile the logical stream gaplessly from offset 0.
    let mut expected_off = 0;
    for r in &out {
        assert_eq!(r.log_off, expected_off);
        assert!(r.len > 0);
        expected_off += r.len;
    }
    // A second reservation continues exactly where the first ended, so no
    // two ranges ever returned overlap.
    let mut out2 = Vec::new();
    let file = registry.file_at_mut(i);
    let _open_chunk = file.reserve_space(&mut swap, &alloc, open_chunk, &mut out2, 12, 4);
    let total2: usize = out2.iter().map(|r| r.len).sum();
    assert_eq!(total2, 12);
    for r2 in &out2 {
        assert!(r2.log_off >= expected_off);
        for r1 in &out {
            assert!(r1.log_off + r1.len <= r2.log_off || r2.log_off + r2.len <= r1.log_off);
        }
    }
}

#[test]
fn reserve_space_element_alignment_forces_new_chunk() {
    // A chunk of 10 bytes fits two 4-byte elements; the third element goes
    // to a fresh chunk and the 2 leftover bytes are not part of the file.
    let (mut registry, mut swap, _storage, _queue) = fresh_services();
    let alloc = ChunkAllocator::new(10);
    let i = MemoryFileInternal::create_new(
        &mut registry,
        String::from("align"),
        MemoryFileMode::AlwaysMemory,
    );
    let mut out = Vec::new();
    let chunk = alloc.request_chunk();
    let file = registry.file_at_mut(i);
    let open_chunk = file.reserve_space(&mut swap, &alloc, chunk, &mut out, 12, 4);
    let total: usize = out.iter().map(|r| r.len).sum();
    assert_eq!(total, 12);
    assert_eq!(file.get_chunks_count(), 1);
    assert_eq!(file.len(), 8);
    assert_eq!(open_chunk.len(), 4);
}

#[test]
fn write_then_read_is_rejected_until_count_reaches_zero() {
    let (mut registry, _swap, mut storage, _queue) = fresh_services();
    let i = MemoryFileInternal::create_new(
        &mut registry,
        String::from("w"),
        MemoryFileMode::AlwaysMemory,
    );
    let file = registry.file_at_mut(i);
    assert_eq!(file.open(&mut storage, OpenMode::Write), Ok(()));
    assert_eq!(file.open(&mut storage, OpenMode::Read), Err(FsError::AlreadyOpen));
    assert_eq!(file.open(&mut storage, OpenMode::Write), Ok(()));
    assert_eq!(file.close(), Ok(()));
    assert_eq!(file.open(&mut storage, OpenMode::Read), Err(FsError::AlreadyOpen));
    assert_eq!(file.close(), Ok(()));
    // The write count is back at zero: reading may start.
    assert_eq!(file.open(&mut storage, OpenMode::Read), Ok(()));
}

#[test]
fn open_close_reference_counting_balances() {
    let (mut registry, _swap, mut storage, _queue) = fresh_services();
    let i = MemoryFileInternal::create_new(
        &mut registry,
        String::from("rc"),
        MemoryFileMode::AlwaysMemory,
    );
    let file = registry.file_at_mut(i);
    for _ in 0..5 {
        assert_eq!(file.open(&mut storage, OpenMode::Write), Ok(()));
    }
    assert_eq!(file.open_count, 5);
    for _ in 0..5 {
        assert_eq!(file.close(), Ok(()));
    }
    assert_eq!(file.open_mode, OpenMode::Closed);
    assert_eq!(file.open_count, 0);
    // One close more than was opened is an explicit error.
    assert_eq!(file.close(), Err(FsError::NotOpen));
}

fn written_chunk(alloc: &ChunkAllocator, data: &[u8]) -> memory_fs::allocator::AllocatedChunk {
    let mut chunk = alloc.request_chunk();
    let start = chunk.prealloc_bytes_single_thread(data.len());
    chunk.write_at(start, &data.to_vec());
    chunk
}

#[test]
fn flush_never_passes_a_locked_chunk() {
    let (mut registry, mut swap, mut storage, mut queue) = fresh_services();
    let alloc = ChunkAllocator::new(4);
    let i = MemoryFileInternal::create_new(
        &mut registry,
        String::from("f"),
        MemoryFileMode::DiskOnly,
    );
    let file = registry.file_at_mut(i);
    for b in 0..3u8 {
        let chunk = written_chunk(&alloc, &[b; 4]);
        file.add_chunk(&mut swap, chunk);
    }
    // A concurrent party holds chunk 1 exclusively.
    assert!(file.try_lock_chunk_exclusive(1));
    let n = file.flush_chunks(10, &mut queue, &mut storage);
    assert_eq!(n, 1);
    assert_eq!(file.flush_pending_chunks_count(), 2);
    // Once released, repeated single-chunk flushes drain the rest in order.
    file.unlock_chunk_exclusive(1);
    assert_eq!(file.flush_chunks(1, &mut queue, &mut storage), 1);
    assert_eq!(file.flush_chunks(1, &mut queue, &mut storage), 1);
    assert_eq!(file.flush_chunks(1, &mut queue, &mut storage), 0);
    assert!(!file.has_flush_pending_chunks());
    assert_eq!(queue.pending_count(), 3);
    for (k, item) in queue.items.iter().enumerate() {
        assert_eq!(item.chunk_index, k);
        assert_eq!(item.path, String::from("f"));
    }
}

#[test]
fn delete_disk_only_unlinks_backing_file() {
    let (mut registry, mut swap, mut storage, _queue) = fresh_services();
    let path = String::from("d");
    let i = MemoryFileInternal::create_new(&mut registry, path.clone(), MemoryFileMode::DiskOnly);
    let file = registry.file_at_mut(i);
    assert_eq!(file.open(&mut storage, OpenMode::Write), Ok(()));
    assert_eq!(file.close(), Ok(()));
    assert!(storage.exists_file(&path));
    assert!(MemoryFileInternal::delete(&mut registry, &mut swap, &mut storage, &path, true));
    assert!(!storage.exists_file(&path));
    assert_eq!(MemoryFileInternal::active_files_count(&registry), 0);
    // Deleting a path that is gone reports absence.
    assert!(!MemoryFileInternal::delete(&mut registry, &mut swap, &mut storage, &path, true));
}

#[test]
fn delete_always_memory_leaves_no_backing_trace() {
    let (mut registry, mut swap, mut storage, _queue) = fresh_services();
    let path = String::from("m");
    let _ = MemoryFileInternal::create_new(&mut registry, path.clone(), MemoryFileMode::AlwaysMemory);
    assert!(MemoryFileInternal::delete(&mut registry, &mut swap, &mut storage, &path, true));
    assert!(!storage.exists_file(&path));
    assert_eq!(storage.count(), 0);
    assert_eq!(swap.count(), 0);
}

#[test]
fn delete_memory_preferred_removes_swap_entry() {
    let (mut registry, mut swap, mut storage, _queue) = fresh_services();
    let alloc = ChunkAllocator::new(4);
    let path = String::from("p");
    let i = MemoryFileInternal::create_new(
        &mut registry,
        path.clone(),
        MemoryFileMode::PreferMemory { swap_priority: 2 },
    );
    let file = registry.file_at_mut(i);
    file.add_chunk(&mut swap, alloc.request_chunk());
    assert!(file.on_swap_list);
    assert!(swap.has(2, &path));
    assert!(MemoryFileInternal::delete(&mut registry, &mut swap, &mut storage, &path, true));
    assert!(!swap.has(2, &path));
    assert_eq!(swap.count(), 0);
}

#[test]
fn round_trip_across_three_chunk_boundaries() {
    let (mut registry, mut swap, mut storage, mut queue) = fresh_services();
    let alloc = ChunkAllocator::new(4);
    let path = String::from("rt");
    let i = MemoryFileInternal::create_new(&mut registry, path.clone(), MemoryFileMode::DiskOnly);
    let file = registry.file_at_mut(i);
    assert_eq!(file.open(&mut storage, OpenMode::Write), Ok(()));

    let content: Vec<u8> = (0..14u8).collect();
    let mut out = Vec::new();
    let chunk = alloc.request_chunk();
    let mut open_chunk = file.reserve_space(&mut swap, &alloc, chunk, &mut out, 14, 1);
    // Fill every granted range with the matching slice of the content; the
    // logical offset of each range says which bytes belong to it.
    for r in out {
        let piece = content[r.log_off..r.log_off + r.len].to_vec();
        match r.target {
            RangeTarget::Committed { .. } => {
                file.write_range(r, &piece);
            }
            RangeTarget::Open => {
                open_chunk.write_at(r.start, &piece);
            }
        }
    }
    file.add_chunk(&mut swap, open_chunk);
    assert!(file.get_chunks_count() >= 4);
    assert_eq!(file.len(), 14);
    assert_eq!(file.close(), Ok(()));

    let flushed = file.flush_chunks(100, &mut queue, &mut storage);
    assert_eq!(flushed, file.get_chunks_count());
    while queue.process_one(&mut registry, &mut storage) {}
    assert_eq!(storage.read_file(&path).unwrap(), content);

    let file = registry.file_at_mut(i);
    assert_eq!(file.open(&mut storage, OpenMode::Read), Ok(()));
    assert_eq!(file.read_all(), Ok(content));
}

#[test]
fn create_from_fs_absent_and_present() {
    let (mut registry, _swap, mut storage, _queue) = fresh_services();
    let path = String::from("fs");
    assert!(MemoryFileInternal::create_from_fs(&mut registry, &storage, path.clone()).is_none());

    storage.create_file(&path);
    storage.write_at(&path, 0, &vec![9, 8, 7, 6, 5]);
    let i = MemoryFileInternal::create_from_fs(&mut registry, &storage, path.clone()).unwrap();
    let file = registry.file_at(i);
    assert!(file.is_on_disk());
    assert!(file.has_only_one_chunk());
    assert_eq!(file.len(), 5);
    assert!(!file.can_flush);
    assert!(!file.on_swap_list);
}

#[test]
fn read_without_view_reports_no_read_view() {
    let (mut registry, _swap, mut storage, _queue) = fresh_services();
    let path = String::from("nv");
    storage.create_file(&path);
    storage.write_at(&path, 0, &vec![1, 2, 3]);
    let i = MemoryFileInternal::create_from_fs(&mut registry, &storage, path.clone()).unwrap();
    // Before read mode there is no view to resolve the disk chunk through.
    assert_eq!(registry.file_at(i).read_all(), Err(FsError::NoReadView));
}

#[test]
fn read_view_of_missing_backing_file_is_absent() {
    let (mut registry, _swap, mut storage, _queue) = fresh_services();
    let path = String::from("gone");
    let i = MemoryFileInternal::create_new(&mut registry, path.clone(), MemoryFileMode::DiskOnly);
    // Open for reading with no backing stream: the transition succeeds, the
    // view is simply absent and reads must check.
    let file = registry.file_at_mut(i);
    storage.unlink(&path);
    assert_eq!(file.open(&mut storage, OpenMode::Read), Ok(()));
    match &file.file {
        UnderlyingFile::ReadMode { view } => assert!(view.is_none()),
        _ => panic!("expected a read view"),
    }
    // The file has no chunks, so its (empty) content is still readable.
    assert_eq!(file.read_all(), Ok(Vec::new()));
}

#[test]
fn create_new_replaces_file_of_same_path() {
    let (mut registry, _swap, _storage, _queue) = fresh_services();
    let path = String::from("dup");
    let _ = MemoryFileInternal::create_new(&mut registry, path.clone(), MemoryFileMode::DiskOnly);
    let i = MemoryFileInternal::create_new(
        &mut registry,
        path.clone(),
        MemoryFileMode::AlwaysMemory,
    );
    assert_eq!(MemoryFileInternal::active_files_count(&registry), 1);
    assert!(!registry.file_at(i).is_on_disk());
    assert_eq!(
        MemoryFileInternal::retrieve_reference(&registry, &path),
        Some(i)
    );
    assert!(MemoryFileInternal::retrieve_reference(&registry, &String::from("other")).is_none());
}

#[test]
fn swap_registry_orders_by_priority() {
    let mut swap = SwapRegistry::new();
    swap.insert(2, &String::from("b"));
    swap.insert(1, &String::from("z"));
    swap.insert(3, &String::from("a"));
    swap.insert(1, &String::from("z"));
    assert_eq!(swap.count(), 3);
    assert_eq!(swap.entry_at(0).priority, 1);
    assert_eq!(swap.entry_at(1).priority, 2);
    assert_eq!(swap.entry_at(2).priority, 3);
    assert!(swap.remove(2, &String::from("b")));
    assert!(!swap.remove(2, &String::from("b")));
    assert_eq!(swap.count(), 2);
}

#[test]
fn memory_preferred_counts_all_chunks_pending() {
    let (mut registry, mut swap, mut storage, _queue) = fresh_services();
    let alloc = ChunkAllocator::new(4);
    let i = MemoryFileInternal::create_new(
        &mut registry,
        String::from("pend"),
        MemoryFileMode::PreferMemory { swap_priority: 0 },
    );
    let file = registry.file_at_mut(i);
    assert_eq!(file.open(&mut storage, OpenMode::Write), Ok(()));
    file.add_chunk(&mut swap, alloc.request_chunk());
    file.add_chunk(&mut swap, alloc.request_chunk());
    // No disk writer exists yet: every chunk is still unflushed.
    assert_eq!(file.flush_pending_chunks_count(), 2);
    assert!(file.has_flush_pending_chunks());
}

#[test]
fn flush_disabled_after_read_mode() {
    let (mut registry, mut swap, mut storage, mut queue) = fresh_services();
    let alloc = ChunkAllocator::new(4);
    let i = MemoryFileInternal::create_new(
        &mut registry,
        String::from("ro"),
        MemoryFileMode::PreferMemory { swap_priority: 0 },
    );
    let file = registry.file_at_mut(i);
    file.add_chunk(&mut swap, alloc.request_chunk());
    assert_eq!(file.open(&mut storage, OpenMode::Read), Ok(()));
    assert!(!file.can_flush);
    assert_eq!(file.flush_chunks(10, &mut queue, &mut storage), 0);
    assert_eq!(queue.pending_count(), 0);
}

#[test]
fn change_to_disk_only_downgrades_only_memory_preferred() {
    let (mut registry, _swap, _storage, _queue) = fresh_services();
    let i = MemoryFileInternal::create_new(
        &mut registry,
        String::from("c1"),
        MemoryFileMode::PreferMemory { swap_priority: 7 },
    );
    let j = MemoryFileInternal::create_new(
        &mut registry,
        String::from("c2"),
        MemoryFileMode::AlwaysMemory,
    );
    let file = registry.file_at_mut(i);
    assert!(file.is_memory_preferred());
    file.change_to_disk_only();
    assert!(file.is_on_disk());
    let file = registry.file_at_mut(j);
    file.change_to_disk_only();
    assert!(!file.is_on_disk());
}

#[test]
fn debug_dump_lists_paths_and_chunk_counts() {
    let (mut registry, mut swap, _storage, _queue) = fresh_services();
    let alloc = ChunkAllocator::new(4);
    let i = MemoryFileInternal::create_new(
        &mut registry,
        String::from("one"),
        MemoryFileMode::AlwaysMemory,
    );
    let _ = MemoryFileInternal::create_new(
        &mut registry,
        String::from("two"),
        MemoryFileMode::AlwaysMemory,
    );
    registry.file_at_mut(i).add_chunk(&mut swap, alloc.request_chunk());
    let dump = MemoryFileInternal::debug_dump_files(&registry);
    assert_eq!(dump.len(), 2);
    assert_eq!(dump[0], (String::from("one"), 1));
    assert_eq!(dump[1], (String::from("two"), 0));
}

#[test]
fn chunks_iterator_walks_contents_in_order() {
    let (mut registry, mut swap, _storage, _queue) = fresh_services();
    let alloc = ChunkAllocator::new(4);
    let i = MemoryFileInternal::create_new(
        &mut registry,
        String::from("it"),
        MemoryFileMode::AlwaysMemory,
    );
    let file = registry.file_at_mut(i);
    file.add_chunk(&mut swap, written_chunk(&alloc, &[1, 2]));
    file.add_chunk(&mut swap, written_chunk(&alloc, &[3, 4, 5]));
    let mut iter: MemoryFileChunksIterator = file.chunks_iter().unwrap();
    assert_eq!(iter.next(), Some(vec![1, 2]));
    assert_eq!(iter.next(), Some(vec![3, 4, 5]));
    assert_eq!(iter.next(), None);
    assert_eq!(file.get_chunk(0).chunk.get_length(), 2);
    assert_eq!(file.len(), 5);
}

#[test]
fn reserve_space_of_zero_bytes_grants_nothing() {
    let (mut registry, mut swap, _storage, _queue) = fresh_services();
    let alloc = ChunkAllocator::new(8);
    let i = MemoryFileInternal::create_new(
        &mut registry,
        String::from("zero"),
        MemoryFileMode::AlwaysMemory,
    );
    let mut out = Vec::new();
    let chunk = alloc.request_chunk();
    let file = registry.file_at_mut(i);
    let open_chunk = file.reserve_space(&mut swap, &alloc, chunk, &mut out, 0, 4);
    assert!(out.is_empty());
    assert_eq!(open_chunk.len(), 0);
    assert_eq!(file.get_chunks_count(), 0);
}

#[test]
fn stale_flush_request_is_discarded() {
    let (mut registry, mut swap, mut storage, mut queue) = fresh_services();
    let alloc = ChunkAllocator::new(4);
    let path = String::from("stale");
    let i = MemoryFileInternal::create_new(&mut registry, path.clone(), MemoryFileMode::DiskOnly);
    let file = registry.file_at_mut(i);
    file.add_chunk(&mut swap, written_chunk(&alloc, &[1, 2, 3]));
    assert_eq!(file.flush_chunks(1, &mut queue, &mut storage), 1);
    // The file disappears before the pipeline runs: the request is dropped
    // and nothing is written.
    assert!(MemoryFileInternal::delete(&mut registry, &mut swap, &mut storage, &path, false));
    assert!(!queue.process_one(&mut registry, &mut storage));
    assert_eq!(queue.pending_count(), 0);
    assert!(!queue.process_one(&mut registry, &mut storage));
}

#[test]
fn whole_chunk_elements_fill_chunks_exactly() {
    // Elements as large as a chunk: each element takes a whole chunk.
    let (mut registry, mut swap, _storage, _queue) = fresh_services();
    let alloc = ChunkAllocator::new(4);
    let i = MemoryFileInternal::create_new(
        &mut registry,
        String::from("whole"),
        MemoryFileMode::AlwaysMemory,
    );
    let mut out = Vec::new();
    let chunk = alloc.request_chunk();
    let file = registry.file_at_mut(i);
    let open_chunk = file.reserve_space(&mut swap, &alloc, chunk, &mut out, 8, 4);
    let total: usize = out.iter().map(|r| r.len).sum();
    assert_eq!(total, 8);
    assert_eq!(file.get_chunks_count(), 1);
    assert_eq!(file.len(), 4);
    assert_eq!(open_chunk.len(), 4);
    assert_eq!(open_chunk.remaining_bytes(), 0);
}

#[test]
fn flush_with_zero_limit_hands_off_nothing() {
    let (mut registry, mut swap, mut storage, mut queue) = fresh_services();
    let alloc = ChunkAllocator::new(4);
    let i = MemoryFileInternal::create_new(
        &mut registry,
        String::from("zl"),
        MemoryFileMode::DiskOnly,
    );
    let file = registry.file_at_mut(i);
    file.add_chunk(&mut swap, written_chunk(&alloc, &[1]));
    assert_eq!(file.flush_chunks(0, &mut queue, &mut storage), 0);
    assert_eq!(queue.pending_count(), 0);
    assert_eq!(file.flush_pending_chunks_count(), 1);
}

#[test]
fn reads_span_disk_and_memory_chunks() {
    // Only the first chunk is persisted before reading: the read path
    // resolves it through the mapped view and serves the others straight
    // from memory, so the content comes back whole either way.
    let (mut registry, mut swap, mut storage, mut queue) = fresh_services();
    let alloc = ChunkAllocator::new(4);
    let path = String::from("mix");
    let i = MemoryFileInternal::create_new(&mut registry, path.clone(), MemoryFileMode::DiskOnly);
    let file = registry.file_at_mut(i);
    file.add_chunk(&mut swap, written_chunk(&alloc, &[1, 2, 3, 4]));
    file.add_chunk(&mut swap, written_chunk(&alloc, &[5, 6, 7]));
    assert_eq!(file.flush_chunks(1, &mut queue, &mut storage), 1);
    assert!(queue.process_one(&mut registry, &mut storage));
    let file = registry.file_at_mut(i);
    assert_eq!(file.open(&mut storage, OpenMode::Read), Ok(()));
    assert_eq!(file.read_all(), Ok(vec![1, 2, 3, 4, 5, 6, 7]));
}

#[test]
fn downgraded_file_leaves_stale_swap_entry() {
    // A memory-preferred file that was downgraded to disk-only is deleted
    // as a disk-only file: its swap entry stays behind, and an eviction
    // policy must skip it after the liveness check fails.
    let (mut registry, mut swap, mut storage, _queue) = fresh_services();
    let alloc = ChunkAllocator::new(4);
    let path = String::from("down");
    let i = MemoryFileInternal::create_new(
        &mut registry,
        path.clone(),
        MemoryFileMode::PreferMemory { swap_priority: 1 },
    );
    let file = registry.file_at_mut(i);
    file.add_chunk(&mut swap, alloc.request_chunk());
    file.change_to_disk_only();
    assert!(MemoryFileInternal::delete(&mut registry, &mut swap, &mut storage, &path, true));
    assert!(swap.has(1, &path));
    // The liveness check: the file behind the stale entry is gone.
    assert!(MemoryFileInternal::retrieve_reference(&registry, &path).is_none());
}
