use ds41rt_daemon::device::{DeviceBuffer, DeviceCopy};
use ds41rt_daemon::error::{Error, SourcePoolExhausted};
use ds41rt_daemon::page_pool::PagePool;
use ds41rt_daemon::source_cache::layout::{MetadataValue, SourceBuffers};
use ds41rt_daemon::source_cache::replica::{Device, ReplicaBuffers, SourceReplica};
use ds41rt_daemon::source_cache::{pages_for_rows, SourceCache, SourcePrefix};

const PACKED: usize = 0x10_0000;

fn buffer(address: usize, bytes: usize) -> DeviceBuffer {
    DeviceBuffer { device: 0, address, bytes }
}

fn buffers(cache: &SourceCache) -> SourceBuffers {
    SourceBuffers {
        packed: buffer(PACKED, cache.capacity * 64),
        scales: buffer(0x2000_0000, cache.capacity * 4),
        kv_values: buffer(0x3000_0000, cache.capacity * 256),
        kv_scales: buffer(0x4000_0000, cache.capacity * 32),
        page_table: buffer(0x5000_0000, cache.slots * cache.stride * 4),
        lengths: buffer(0x6000_0000, cache.slots * 8),
    }
}

/// A cache with what its packed rows hold.
struct Rows {
    cache: SourceCache,
    memory: Vec<u8>,
}

impl Rows {
    fn new(pages: usize, slots: usize) -> Rows {
        Rows {
            cache: SourceCache::new(7, pages, slots).ok().unwrap(),
            memory: vec![0; pages * 256],
        }
    }

    fn copy(&mut self, copies: &[DeviceCopy]) {
        for copy in copies {
            if copy.source.address < PACKED + self.memory.len() * 64 {
                let from = (copy.source.address - PACKED) / 64;
                let to = (copy.destination.address - PACKED) / 64;
                self.memory.copy_within(from..from + copy.source.bytes / 64, to);
            }
        }
    }

    fn append(&mut self, appends: &[(usize, usize, usize, u8)]) -> Result<(), Error> {
        let wanted: Vec<(usize, usize, usize)> =
            appends.iter().map(|append| (append.0, append.1, append.2)).collect();
        let plan = self.cache.reserve(&wanted)?;
        let copies = self.cache.copy_shared_tails(&buffers(&self.cache), &plan);
        self.copy(&copies);
        for (slot, start, end, value) in appends {
            for row in *start..*end {
                let at = self.cache.destination(&plan, *slot, row)?;
                self.memory[at as usize] = *value;
            }
        }
        self.cache.apply(plan);
        Ok(())
    }

    fn read(&self, slot: usize, rows: usize) -> Vec<u8> {
        (0..rows)
            .map(|row| {
                self.memory[self.cache.pages[slot][row / 256] as usize * 256 + row % 256]
            })
            .collect()
    }

    fn free(&self) -> usize {
        self.cache.pool.free.len()
    }
}

#[test]
fn prefix_eviction_frees_only_pages_without_active_owners() {
    let mut pool = PagePool::new(3);
    let pages = vec![pool.free.pop().unwrap(), pool.free.pop().unwrap()];
    pool.retain(&pages);
    pool.retain(&pages);
    let prefix = SourcePrefix { pool: 0, pages: pages.clone(), rows: 300 };
    assert!(pool.shared(pages[0]));
    pool.release(&pages[..1]);
    assert_eq!(pool.free.len(), 1);
    pool.release(prefix.pages());
    assert_eq!(pool.free.len(), 2);
    assert!(!pool.shared(pages[1]));
    pool.release(&pages[1..]);
    let mut free = pool.free.clone();
    free.sort_unstable();
    assert_eq!(free, vec![0, 1, 2]);
}

#[test]
fn freed_pages_change_their_generation() {
    let mut pool = PagePool::new(2);
    assert_eq!(pool.capacity(), 2);
    let pages = pool.allocate(1).unwrap();
    assert_eq!(pages, vec![0]);
    assert_eq!(pool.references(0), 1);
    assert_eq!(pool.generation(0), 0);
    pool.release(&pages);
    assert_eq!(pool.generation(0), 1);
    assert_eq!(pool.generation(1), 0);
    assert!(pool.allocate(3).is_none());
    assert_eq!(pool.free.len(), 2);
}

#[test]
fn replica_budget_counts_only_fp4_payload_and_metadata() {
    assert_eq!(
        SourceReplica::device_bytes(4096, 16).unwrap(),
        4096 * 256 * 288 + 16 * (4096 * 4 + 8)
    );
    assert!(SourceReplica::device_bytes(0, 16).is_err());
}

#[test]
fn source_budgets_have_limits() {
    assert_eq!(SourceCache::device_bytes(3, 2).unwrap(), 3 * 256 * 356 + 2 * (3 * 4 + 8));
    assert_eq!(
        SourceCache::device_bytes(8192, 1).unwrap(),
        8192 * 256 * 356 + (4096 * 4 + 8)
    );
    assert_eq!(SourceCache::device_bytes(0, 1).unwrap_err(), Error::InvalidPageCount);
    assert_eq!(SourceCache::device_bytes(262145, 1).unwrap_err(), Error::InvalidPageCount);
    assert_eq!(SourceCache::device_bytes(1, 17).unwrap_err(), Error::InvalidSlotCount);
    assert_eq!(SourceCache::new(0, 1, 0).err(), Some(Error::InvalidSlotCount));
    assert_eq!(pages_for_rows(0), 0);
    assert_eq!(pages_for_rows(256), 1);
    assert_eq!(pages_for_rows(257), 2);
}

#[test]
fn truncated_prefixes_keep_future_rows_after_release() {
    let mut rows = Rows::new(3, 2);
    rows.append(&[(0, 0, 300, 0x11)]).unwrap();
    let saved = rows.cache.retain_prefix(0, 300).ok().unwrap();
    rows.cache.release(0).unwrap();
    assert_eq!(saved.truncate(&mut rows.cache, 301).err(), Some(Error::PrefixTruncation));
    let empty = saved.truncate(&mut rows.cache, 0).ok().unwrap();
    assert!(empty.pages().is_empty());
    let short = saved.truncate(&mut rows.cache, 100).ok().unwrap();
    assert_eq!((short.pages().len(), short.rows()), (1, 100));
    rows.cache.restore_prefix(1, &short).unwrap();
    assert_eq!(rows.cache.retain_prefix(1, 101).err(), Some(Error::PrefixExceedsTable));
    rows.append(&[(1, 100, 130, 0x22)]).unwrap();
    rows.cache.restore_prefix(0, &saved).unwrap();
    assert_eq!(rows.read(0, 300), vec![0x11; 300]);
    let branch = rows.read(1, 130);
    assert!(branch[..100].iter().all(|value| *value == 0x11));
    assert!(branch[100..].iter().all(|value| *value == 0x22));
    rows.cache.evict_prefix(short);
    rows.cache.evict_prefix(saved);
    rows.cache.evict_prefix(empty);
    rows.cache.release(0).unwrap();
    rows.cache.release(1).unwrap();
    assert_eq!(rows.free(), 3);
}

#[test]
fn shared_writers_fit_the_pool_exactly() {
    for nonwriter in [false, true] {
        let mut rows = Rows::new(3, 3);
        rows.append(&[(0, 0, 6, 0x11)]).unwrap();
        let short = rows.cache.retain_prefix(0, 3).ok().unwrap();
        rows.cache.restore_prefix(1, &short).unwrap();
        rows.cache.restore_prefix(2, &short).unwrap();
        let original = rows.cache.pages[0][0];
        assert!(rows.cache.reserve(&[(0, 6, 7), (1, 3, 4), (2, 3, 4)]).is_err());
        assert_eq!(rows.free(), 2);
        rows.cache.evict_prefix(short);
        assert_eq!(
            rows.cache.reserve(&[(0, 6, 7), (0, 6, 7)]).err(),
            Some(Error::AppendSlot)
        );
        assert_eq!(rows.cache.reserve(&[(16, 6, 7)]).err(), Some(Error::AppendSlot));
        let end = if nonwriter { 3 } else { 4 };
        rows.append(&[(0, 6, 7, 0x22), (1, 3, 4, 0x33), (2, 3, end, 0x44)]).unwrap();
        assert_eq!(rows.free(), 0);
        assert_eq!(rows.cache.pages[2][0], original);
        assert_ne!(rows.cache.pages[0][0], original);
        assert_ne!(rows.cache.pages[1][0], original);
        assert_ne!(rows.cache.pages[0][0], rows.cache.pages[1][0]);
        for (slot, old, new, value) in [(0, 6, 7, 0x22), (1, 3, 4, 0x33), (2, 3, end, 0x44)] {
            let held = rows.read(slot, new);
            assert!(held[..old].iter().all(|byte| *byte == 0x11));
            assert!(held[old..].iter().all(|byte| *byte == value));
            rows.cache.release(slot).unwrap();
        }
        assert_eq!(rows.free(), 3);
    }
}

#[test]
fn appends_copy_shared_tails_before_writing() {
    let mut rows = Rows::new(5, 2);
    rows.append(&[(0, 0, 270, 0x31)]).unwrap();
    let original = rows.read(0, 270);
    assert_eq!(rows.cache.retain_prefix(0, 271).err(), Some(Error::PrefixExceedsTable));
    let prefix = rows.cache.retain_prefix(0, 270).ok().unwrap();
    rows.cache.restore_prefix(1, &prefix).unwrap();
    let original_pages = rows.cache.pages[0].clone();
    rows.append(&[(1, 270, 300, 0x72)]).unwrap();
    assert_eq!(rows.cache.pages[1][0], original_pages[0]);
    assert_ne!(rows.cache.pages[1][1], original_pages[1]);
    assert_eq!(rows.read(0, 270), original);
    let branch = rows.read(1, 300);
    assert_eq!(&branch[..270], original.as_slice());
    assert!(branch[270..].iter().all(|byte| *byte == 0x72));
    let shorter = rows.cache.retain_prefix(0, 259).ok().unwrap();
    rows.cache.release(1).unwrap();
    rows.cache.restore_prefix(1, &shorter).unwrap();
    rows.append(&[(1, 259, 280, 0x53)]).unwrap();
    assert_eq!(rows.read(0, 270), original);
    let branch = rows.read(1, 280);
    assert!(branch[..259].iter().all(|byte| *byte == 0x31));
    assert!(branch[259..].iter().all(|byte| *byte == 0x53));
    rows.cache.release(0).unwrap();
    rows.cache.release(1).unwrap();
    assert_eq!(rows.free(), 3);
    rows.cache.evict_prefix(shorter);
    assert_eq!(rows.free(), 3);
    rows.cache.restore_prefix(1, &prefix).unwrap();
    assert_eq!(rows.read(1, 270), original);
    rows.cache.evict_prefix(prefix);
    assert_eq!(rows.free(), 3);
    rows.cache.release(1).unwrap();
    assert_eq!(rows.free(), 5);
}

#[test]
fn an_exhausted_pool_says_what_was_missing() {
    let mut rows = Rows::new(2, 2);
    rows.append(&[(0, 0, 256, 0x11)]).unwrap();
    let prefix = rows.cache.retain_prefix(0, 256).ok().unwrap();
    rows.cache.restore_prefix(1, &prefix).unwrap();
    let full = rows.cache.pages[0][0];
    rows.append(&[(1, 256, 257, 0x22)]).unwrap();
    assert_eq!(rows.cache.pages[1][0], full);
    let partial = rows.cache.retain_prefix(1, 257).ok().unwrap();
    assert_eq!(
        rows.cache.reserve(&[(1, 257, 258)]).err(),
        Some(Error::PoolExhausted(SourcePoolExhausted {
            work_index: 0,
            needed: 1,
            available: 0
        }))
    );
    match rows.cache.reserve(&[(0, 256, 256), (1, 257, 513)]).err() {
        Some(Error::PoolExhausted(pressure)) => assert_eq!(pressure.work_index, 1),
        other => panic!("{other:?}"),
    }
    assert_eq!(rows.cache.reserve(&[(1, 256, 258)]).err(), Some(Error::AppendBinding));
    let before = rows.read(1, 257);
    rows.cache.evict_prefix(partial);
    rows.append(&[(1, 257, 258, 0x33)]).unwrap();
    assert_eq!(rows.read(1, 257), before);
    rows.cache.release(0).unwrap();
    rows.cache.release(1).unwrap();
    rows.cache.evict_prefix(prefix);
    assert_eq!(rows.free(), 2);
}

#[test]
fn discarding_a_reservation_undoes_it() {
    let mut rows = Rows::new(4, 2);
    rows.append(&[(0, 0, 300, 1)]).unwrap();
    let free = rows.cache.pool.free.clone();
    let plan = rows.cache.reserve(&[(0, 300, 600), (1, 0, 1)]).ok().unwrap();
    assert_eq!(rows.free(), 0);
    assert_eq!(rows.cache.ensure_idle(0).unwrap_err(), Error::PendingAppend);
    assert_eq!(rows.cache.reserve(&[(0, 300, 301)]).err(), Some(Error::PendingAppend));
    assert_eq!(rows.cache.release(0).unwrap_err(), Error::PendingAppend);
    rows.cache.discard(plan);
    assert_eq!(rows.cache.pool.free, free);
    assert_eq!(rows.cache.rows[0], 300);
    assert!(rows.cache.ensure_idle(0).is_ok());
    assert_eq!(rows.cache.page_generation(0), 0);
}

#[test]
fn plans_apply_in_either_order() {
    for swapped in [false, true] {
        let mut rows = Rows::new(4, 2);
        let first = rows.cache.reserve(&[(0, 0, 300)]).ok().unwrap();
        let second = rows.cache.reserve(&[(1, 0, 257)]).ok().unwrap();
        if swapped {
            rows.cache.apply(second);
            rows.cache.apply(first);
        } else {
            rows.cache.apply(first);
            rows.cache.apply(second);
        }
        assert_eq!(rows.cache.pages[0], vec![0, 1]);
        assert_eq!(rows.cache.pages[1], vec![2, 3]);
        assert_eq!((rows.cache.rows[0], rows.cache.rows[1]), (300, 257));
    }
}

#[test]
fn metadata_uploads_end_with_the_row_count() {
    let mut cache = SourceCache::new(7, 4, 2).ok().unwrap();
    let layout = buffers(&cache);
    let plan = cache.reserve(&[(1, 0, 300)]).ok().unwrap();
    assert!(cache.validate_plan(&plan).is_ok());
    assert_eq!(
        cache.upload_staged(&layout, &plan, 15).err(),
        Some(Error::StagingTooSmall)
    );
    assert_eq!(cache.upload(&layout, &plan).ok().unwrap().len(), 2);
    let writes = cache.upload_staged(&layout, &plan, 16).ok().unwrap();
    assert_eq!(writes.len(), 2);
    assert!(matches!(&writes[0].value, MetadataValue::Pages(pages) if *pages == vec![0, 1]));
    assert_eq!(writes[0].destination, buffer(0x5000_0000 + 16, 8));
    assert!(matches!(writes[1].value, MetadataValue::Rows(300)));
    assert_eq!((writes[1].destination, writes[1].offset), (buffer(0x6000_0000 + 8, 8), 8));
    assert_eq!(cache.destination(&plan, 1, 257).unwrap(), 257);
    assert_eq!(
        cache.destination(&plan, 1, 512).unwrap_err(),
        Error::AppendOutsideReservation
    );
    assert_eq!(cache.destination(&plan, 0, 0).unwrap_err(), Error::AppendMissing);
    assert_eq!(cache.reset(&layout, 1).err(), Some(Error::PendingAppend));
    let reset = cache.reset(&layout, 0).ok().unwrap();
    assert!(matches!(reset.value, MetadataValue::Rows(0)));
    assert_eq!(reset.destination, buffer(0x6000_0000, 8));

    let mut other = SourceCache::new(8, 4, 2).ok().unwrap();
    assert!(other.validate_plan(&plan).is_err());
    cache.apply(plan);
    let prefix = cache.retain_prefix(1, 300).ok().unwrap();
    assert_eq!(other.restore_prefix(0, &prefix).unwrap_err(), Error::ForeignPrefix);
    assert_eq!(cache.restore_uploads(&layout, 1, &prefix).err(), Some(Error::ForeignPrefix));
    let uploads = cache.restore_uploads(&layout, 0, &prefix).ok().unwrap();
    assert_eq!(uploads.len(), 2);
    assert!(matches!(uploads[1].value, MetadataValue::Rows(300)));

    let view = cache.view(&layout, 1, 300);
    assert_eq!((view.pages, view.rows), ([0u32, 1].as_slice(), 300));
    let view = cache.kv_view(&layout, 1, 257);
    assert_eq!(view.rows, 257);
    assert_eq!(
        cache.page_segments(&layout, 1)[2],
        buffer(0x3000_0000 + 256 * 256, 256 * 256)
    );
}

#[test]
fn host_prefixes_own_fresh_pages() {
    let mut cache = SourceCache::new(7, 2, 1).ok().unwrap();
    assert_eq!(cache.allocate_prefix(1, 257).err(), Some(Error::PrefixRowsExceedPages));
    assert_eq!(
        cache.allocate_prefix(3, 300).err(),
        Some(Error::PoolExhausted(SourcePoolExhausted {
            work_index: 0,
            needed: 3,
            available: 2
        }))
    );
    let prefix = cache.allocate_prefix(2, 300).ok().unwrap();
    assert_eq!(cache.pool.free.len(), 0);
    cache.restore_prefix(0, &prefix).unwrap();
    assert_eq!(cache.rows[0], 300);
    cache.evict_prefix(prefix);
    cache.release(0).unwrap();
    assert_eq!(cache.pool.free.len(), 2);
}

#[test]
fn replicas_mirror_payload_then_tables_then_lengths() {
    let mut cache = SourceCache::new(7, 4, 2).ok().unwrap();
    let home = Device { library: 1, id: 0 };
    let peer = Device { library: 1, id: 1 };
    let copy = |address: usize, bytes: usize| DeviceBuffer { device: 1, address, bytes };
    let mirrored = ReplicaBuffers {
        values: copy(0x1000, cache.capacity * 256),
        scales: copy(0x9000_0000, cache.capacity * 32),
        pages: copy(0xa000_0000, cache.slots * cache.stride * 4),
        lengths: copy(0xb000_0000, cache.slots * 8),
    };
    assert_eq!(
        SourceReplica::check_peer(&cache, home, home).unwrap_err(),
        Error::ReplicaPeer
    );
    let foreign = Device { library: 2, id: 1 };
    assert_eq!(
        SourceReplica::check_peer(&cache, home, foreign).unwrap_err(),
        Error::ReplicaPeer
    );
    assert!(cache.enable_replica(home, peer, mirrored).is_ok());
    assert!(cache.enable_replica(home, peer, mirrored).is_err());

    let layout = buffers(&cache);
    let plan = cache.reserve(&[(1, 0, 300)]).ok().unwrap();
    let replica = SourceReplica::new(
        &SourceCache::new(7, 4, 2).ok().unwrap(),
        home,
        peer,
        mirrored,
    )
    .ok()
    .unwrap();
    assert_eq!(replica.device(), peer);
    assert!(replica.validate_owner(&cache).is_ok());
    let (table, length) = replica.install_metadata(1, &[0; 8], 300).unwrap();
    assert_eq!(table, Some(copy(0xa000_0000 + cache.stride * 4, 8)));
    assert_eq!(length, copy(0xb000_0000 + 8, 8));
    assert_eq!(replica.install_metadata(0, &[], 0).unwrap(), (None, copy(0xb000_0000, 8)));
    for (slot, bytes, rows) in [(2, 8, 300), (1, 6, 0), (1, 4, 300), (1, 20, 0)] {
        assert_eq!(
            replica.install_metadata(slot, &vec![0; bytes], rows).unwrap_err(),
            Error::ReplicaMetadata
        );
    }
    let copies = replica.copy_append(&cache, &layout, &plan).ok().unwrap();
    let last = copies.last().unwrap();
    assert_eq!(last.destination, copy(0xb000_0000 + 8, 8));
    assert_eq!(last.source, buffer(0x6000_0000 + 8, 8));
    let payload: usize = copies
        .iter()
        .filter(|copy| copy.source.address >= 0x3000_0000 && copy.source.address < 0x4000_0000)
        .map(|copy| copy.source.bytes)
        .sum();
    assert_eq!(payload, 300 * 256);
    assert_eq!(
        SourceReplica::check_peer(&cache, home, peer).unwrap_err(),
        Error::ReplicaPopulated
    );
}
