use ds41rt_daemon::backbone_cache::placement::CachePlacement;
use ds41rt_daemon::backbone_cache::plan::{BatchIds, CacheBatch, CacheWork, WorkKind};
use ds41rt_daemon::backbone_cache::prefix::BackbonePrefix;
use ds41rt_daemon::backbone_cache::{BackboneCache, CacheLease, SnapshotPool};
use ds41rt_daemon::cache_phase::CacheStage;
use ds41rt_daemon::compressor::prefix::CarryBuffers;
use ds41rt_daemon::compressor::wave::{CompressorWave, WaveBuffers};
use ds41rt_daemon::device::DeviceBuffer;
use ds41rt_daemon::error::{Error, SourcePoolExhausted};
use ds41rt_daemon::source_cache::replica::ReplicaBuffers;
use ds41rt_daemon::window::WindowWave;

const SOURCES: [usize; 4] = [2, 8, 14, 20];
const WINDOW_BYTES: usize = 4096;

fn buffer(address: usize, bytes: usize) -> DeviceBuffer {
    DeviceBuffer { device: 0, address, bytes }
}

fn work(lease: CacheLease, tokens: u32) -> CacheWork {
    CacheWork { lease, tokens, kind: WorkKind::Prefill }
}

fn ids() -> BatchIds {
    BatchIds { next_batch: 1, next_snapshot: 1 }
}

fn small_bank(next_id: &mut u64, slots: usize, pages: [usize; 4]) -> BackboneCache {
    BackboneCache::new(next_id, 7, 0, slots, pages, WINDOW_BYTES, usize::MAX).ok().unwrap()
}

/// One lane's waves over a bank whose components lie on `devices`.
struct Lane {
    windows: Vec<WindowWave>,
    sources: Vec<CompressorWave>,
    snapshot: u64,
}

impl Lane {
    fn new(bank: &BackboneCache) -> Lane {
        let windows = (0..40)
            .map(|layer| WindowWave {
                layer,
                device: bank.windows[layer].device,
                prepared: None,
                pending: None,
            })
            .collect();
        let sources = SOURCES
            .iter()
            .map(|layer| {
                let at = |address: usize| DeviceBuffer {
                    device: bank.windows[*layer].device,
                    address,
                    bytes: 4096 * 10240,
                };
                let buffers = WaveBuffers {
                    input: at(0x1_0000_0000),
                    output: at(0x2_0000_0000),
                    frequencies: at(0x3_0000_0000),
                    index_key: at(0x4_0000_0000),
                    index_packed: at(0x5_0000_0000),
                    index_scales: at(0x6_0000_0000),
                    kv_values: at(0x7_0000_0000),
                    kv_scales: at(0x8_0000_0000),
                };
                CompressorWave::new(*layer, 4096, 0, usize::MAX, buffers).ok().unwrap()
            })
            .collect();
        Lane { windows, sources, snapshot: 1 }
    }

    fn produce(&mut self, bank: &BackboneCache, batch: &CacheBatch) {
        for layer in 0..40 {
            bank.produce_window(batch, layer, &mut self.windows[layer], Ok(())).unwrap();
        }
        for (index, layer) in SOURCES.iter().enumerate() {
            let chunks = batch.source_chunks(*layer).unwrap();
            let wave = &mut self.sources[index];
            let home = wave.buffers.input.device;
            let carry = if *layer == 20 { None } else { Some(home) };
            let prepared = wave
                .prepare(&bank.sources[index], home, carry, &chunks, &mut self.snapshot)
                .ok()
                .unwrap();
            wave.execute(prepared, true).unwrap();
        }
    }

    fn commit(
        &mut self,
        bank: &mut BackboneCache,
        batch: &CacheBatch,
        accepted: &[u32],
    ) -> Result<(), Error> {
        bank.enqueue_cache_commit(batch, &mut self.windows, &mut self.sources, accepted)?;
        bank.commit(
            batch,
            &mut self.windows,
            &mut self.sources,
            accepted,
            &[true; 40],
            &[true; 4],
        )
    }

    fn advance(&mut self, bank: &mut BackboneCache, ids: &mut BatchIds, lease: CacheLease, tokens: u32) {
        let batch = bank.plan(ids, &[work(lease, tokens)]).ok().unwrap();
        self.produce(bank, &batch);
        self.commit(bank, &batch, &[tokens]).unwrap();
    }
}

fn carries(slots: usize) -> Vec<Option<CarryBuffers>> {
    SOURCES
        .iter()
        .enumerate()
        .map(|(index, layer)| {
            if *layer == 20 {
                None
            } else {
                Some(CarryBuffers {
                    projected: buffer(0x1000_0000 + index * 0x10_0000, slots * 2048),
                    scores: buffer(0x2000_0000 + index * 0x10_0000, slots * 2048),
                })
            }
        })
        .collect()
}

fn tail() -> DeviceBuffer {
    buffer(0x4000_0000, BackbonePrefix::device_bytes(WINDOW_BYTES).unwrap())
}

#[test]
fn request_bank_lifecycle_and_batch_isolation() {
    let pages = [1, 2, 3, 4];
    let bytes = WINDOW_BYTES;
    let budget = BackboneCache::device_bytes(16, pages, bytes).unwrap();
    assert!(BackboneCache::device_bytes(0, pages, bytes).is_err());
    assert!(BackboneCache::device_bytes(17, pages, bytes).is_err());
    assert!(BackboneCache::device_bytes(16, [0, 1, 1, 1], bytes).is_err());
    assert!(BackboneCache::device_bytes(16, [1, 1, 1, 65537], bytes).is_ok());
    assert!(BackboneCache::device_bytes(16, [1, 1, 1, 262145], bytes).is_err());
    let mut next: u64 = 1;
    assert!(BackboneCache::new(&mut next, 7, 0, 16, pages, bytes, budget - 1).is_err());
    let mut bank = BackboneCache::new(&mut next, 7, 0, 16, pages, bytes, budget).ok().unwrap();
    let mut other = BackboneCache::new(&mut next, 7, 0, 16, pages, bytes, budget).ok().unwrap();
    let mut ids = ids();
    let foreign = other.begin_request(0, 100).unwrap();
    for _cycle in 0..2 {
        let leases: Vec<CacheLease> =
            (0..16).map(|slot| bank.begin_request(slot, 100 + slot as u64).unwrap()).collect();
        assert!(bank.begin_request(16, 999).is_err());
        assert!(bank.begin_request(0, 999).is_err());
        let work: Vec<CacheWork> = leases
            .iter()
            .enumerate()
            .map(|(i, lease)| CacheWork {
                lease: *lease,
                tokens: (i + 1) as u32,
                kind: WorkKind::Prefill,
            })
            .collect();
        let batch = bank.plan(&mut ids, &work).ok().unwrap();
        assert_ne!(batch.identity(), bank.plan(&mut ids, &work).ok().unwrap().identity());
        bank.validate_batch(&batch).unwrap();
        assert!(other.validate_batch(&batch).is_err());
        assert!(bank.request_id(foreign).is_err());
        assert!(bank.plan(&mut ids, &[]).is_err());
        assert!(bank.plan(&mut ids, &[work[0], work[0]]).is_err());
        assert!(bank.plan(&mut ids, &[CacheWork { tokens: 0, ..work[0] }]).is_err());
        assert!(bank.plan(&mut ids, &[CacheWork { tokens: 4097, ..work[0] }]).is_err());
        assert!(bank
            .plan(&mut ids, &[CacheWork { tokens: 4096, ..work[0] }, work[1]])
            .is_err());
        assert_eq!(
            bank.plan(&mut ids, &[CacheWork { tokens: 4096, ..work[0] }])
                .ok()
                .unwrap()
                .positions()
                .len(),
            4096
        );
        let positions: Vec<u64> = work.iter().flat_map(|w| 0..u64::from(w.tokens)).collect();
        assert_eq!(batch.positions(), positions);
        let rows = batch.expert_rows();
        assert_eq!(rows.len(), 136);
        let mut offset = 0;
        for (i, w) in work.iter().enumerate() {
            assert_eq!(bank.request_id(w.lease).unwrap(), 100 + i as u64);
            assert_eq!(bank.committed_end(w.lease).unwrap(), 0);
            for row in &rows[offset..offset + w.tokens as usize] {
                assert_eq!(row.request_id, 100 + i as u64);
                assert_eq!(row.kind, WorkKind::Prefill);
            }
            offset += w.tokens as usize;
        }
        for layer in 0..40 {
            let state = bank.window(&batch, layer).ok().unwrap();
            for (i, chunk) in batch.window_chunks(layer).unwrap().iter().enumerate() {
                assert_eq!(state.request_id(chunk.lease).unwrap(), 100 + i as u64);
                assert_eq!(state.end(chunk.lease).unwrap(), chunk.position);
                assert_eq!(chunk.tokens, (i + 1) as u32);
            }
        }
        for layer in SOURCES {
            let state = bank.source(&batch, layer).ok().unwrap();
            for (i, chunk) in batch.source_chunks(layer).unwrap().iter().enumerate() {
                assert_eq!(state.request_id(chunk.lease).unwrap(), 100 + i as u64);
                assert_eq!(state.committed_end(chunk.lease).unwrap(), chunk.position);
                assert_eq!(chunk.tokens, (i + 1) as u32);
            }
        }
        assert!(batch.window_chunks(40).is_err());
        assert!(batch.source_chunks(21).is_err());
        assert!(bank.window(&batch, 40).is_err());
        assert!(bank.source(&batch, 21).is_err());
        assert!(bank.release(&[leases[0], foreign]).is_err());
        assert!(bank.release(&[leases[0], leases[0]]).is_err());
        bank.validate_batch(&batch).unwrap();
        assert!(bank
            .commit(&batch, &mut vec![], &mut vec![], &[0; 16], &[true; 40], &[true; 4])
            .is_err());
        bank.validate_batch(&batch).unwrap();
        bank.release(&leases[..1]).unwrap();
        assert!(bank.validate_batch(&batch).is_err());
        assert!(bank.window(&batch, 0).is_err());
        assert!(bank.source(&batch, 2).is_err());
        assert!(bank.begin_request(0, 101).is_err());
        let replacement = bank.begin_request(0, 100).unwrap();
        assert_ne!(replacement, leases[0]);
        assert!(bank.request_id(leases[0]).is_err());
        assert!(bank.plan(&mut ids, &work).is_err());
        assert_eq!(bank.committed_end(replacement).unwrap(), 0);
        let surviving = bank.plan(&mut ids, &work[1..]).ok().unwrap();
        bank.validate_batch(&surviving).unwrap();
        bank.release(&leases[1..]).unwrap();
        bank.release(&[replacement]).unwrap();
        assert!(bank.validate_batch(&surviving).is_err());
    }
    other.release(&[foreign]).unwrap();
}

#[test]
fn context_pool_provisions_each_slot_and_compression_ratio() {
    assert_eq!(BackboneCache::pages_for_context(16, 32768).unwrap(), [1024, 1024, 1024, 2048]);
    assert_eq!(BackboneCache::pages_for_context(3, 513).unwrap(), [6, 6, 6, 9]);
    assert_eq!(
        BackboneCache::pages_for_context(16, 1048576).unwrap(),
        [32768, 32768, 32768, 65536]
    );
    assert!(BackboneCache::pages_for_context(0, 32768).is_err());
    assert!(BackboneCache::pages_for_context(17, 32768).is_err());
    assert!(BackboneCache::pages_for_context(1, 0).is_err());
    assert!(BackboneCache::pages_for_context(1, 1048577).is_err());
}

#[test]
fn placement_keeps_sources_with_consumers_and_allows_rebalancing() {
    let initial = CachePlacement::encoder_decoder();
    assert_eq!(initial.sources(), [0, 0, 0, 1]);
    let mut rebalanced = initial.attention;
    rebalanced[14..20].fill(1);
    assert_eq!(CachePlacement::new(rebalanced).ok().unwrap().sources(), [0, 0, 1, 1]);
    rebalanced[19] = 0;
    assert!(CachePlacement::new(rebalanced).is_err());
    rebalanced[19] = 1;
    rebalanced[0] = 2;
    assert!(CachePlacement::new(rebalanced).is_err());
    assert!(initial.attention(40).is_err());
}

#[test]
fn placement_keeps_the_total_budget() {
    let placement = CachePlacement::encoder_decoder();
    let pages = [4, 5, 6, 7];
    let whole = BackboneCache::device_bytes(3, pages, WINDOW_BYTES).unwrap();
    let placed =
        BackboneCache::distributed_device_bytes(placement, 3, pages, WINDOW_BYTES).unwrap();
    assert_eq!(placed[0] + placed[1], whole);
    assert_eq!(placement.attention(19).unwrap(), 0);
    assert_eq!(placement.attention(20).unwrap(), 1);
    let replicated =
        BackboneCache::replicated_device_bytes(placement, 3, pages, WINDOW_BYTES).unwrap();
    let copy = |pages: usize| pages * 256 * 288 + 3 * (pages * 4 + 8);
    assert_eq!(replicated[0] - placed[0], 20 * WINDOW_BYTES + copy(7));
    assert_eq!(
        replicated[1] - placed[1],
        20 * WINDOW_BYTES + copy(4) + copy(5) + copy(6)
    );
}

#[test]
fn banks_of_two_devices_follow_their_placement() {
    let placement = CachePlacement::encoder_decoder();
    let pages = [2, 2, 2, 4];
    let needed =
        BackboneCache::distributed_device_bytes(placement, 2, pages, WINDOW_BYTES).unwrap();
    let mut next: u64 = 1;
    assert_eq!(
        BackboneCache::new_distributed(
            &mut next,
            7,
            placement,
            2,
            pages,
            WINDOW_BYTES,
            [needed[0], needed[1] - 1]
        )
        .err(),
        Some(Error::CacheBudget)
    );
    assert_eq!(next, 1);
    let bank =
        BackboneCache::new_distributed(&mut next, 7, placement, 2, pages, WINDOW_BYTES, needed)
            .ok()
            .unwrap();
    assert_eq!(next, 46);
    assert_eq!(bank.attention_device(19).unwrap(), 0);
    assert_eq!(bank.attention_device(20).unwrap(), 1);
    assert_eq!(bank.attention_device(40).unwrap_err(), Error::AttentionLayer);

    let budgets =
        BackboneCache::replicated_device_bytes(placement, 2, pages, WINDOW_BYTES).unwrap();
    let copies: Vec<ReplicaBuffers> = pages
        .iter()
        .enumerate()
        .map(|(index, count)| {
            let at = |address: usize, bytes: usize| DeviceBuffer {
                device: if index == 3 { 0 } else { 1 },
                address: address + index * 0x1000_0000,
                bytes,
            };
            ReplicaBuffers {
                values: at(0x1_0000_0000, count * 65536),
                scales: at(0x2_0000_0000, count * 8192),
                pages: at(0x3_0000_0000, 2 * count * 4),
                lengths: at(0x4_0000_0000, 16),
            }
        })
        .collect();
    let mirrored = BackboneCache::new_replicated(
        &mut next,
        7,
        placement,
        2,
        pages,
        WINDOW_BYTES,
        budgets,
        &copies,
    )
    .ok()
    .unwrap();
    assert_eq!(next, 91);
    assert_eq!(
        BackboneCache::new_replicated(
            &mut next,
            7,
            placement,
            2,
            pages,
            WINDOW_BYTES,
            [budgets[0] - 1, budgets[1]],
            &copies,
        )
        .err(),
        Some(Error::ReplicatedBudget)
    );
    assert_eq!(next, 91);
    let placed: Vec<i32> =
        mirrored.sources().iter().map(|s| s.index.replica.as_ref().unwrap().device().id).collect();
    assert_eq!(placed, vec![1, 1, 1, 0]);
    let mut lane = Lane::new(&mirrored);
    mirrored.configure_producer_replicas(&lane.windows, &mut lane.sources, 7).unwrap();
    assert!(mirrored.configure_producer_replicas(&lane.windows, &mut lane.sources, 8).is_err());
}

#[test]
fn commits_move_every_component_in_step_and_spare_the_rest() {
    let mut next: u64 = 1;
    let mut bank = small_bank(&mut next, 2, [4, 4, 4, 8]);
    let mut ids = ids();
    let first = bank.begin_request(0, 10).unwrap();
    let second = bank.begin_request(1, 11).unwrap();
    let mut lane = Lane::new(&bank);
    lane.advance(&mut bank, &mut ids, second, 3);

    let batch = bank.plan(&mut ids, &[work(first, 5)]).ok().unwrap();
    assert_eq!(batch.stage(), CacheStage::Full);
    assert!(!batch.is_reserved());
    assert_eq!(batch.request_ids(), vec![10]);
    lane.produce(&bank, &batch);
    assert_eq!(
        bank.validate_commit(&batch, &lane.windows, &lane.sources, &[6]).unwrap_err(),
        Error::AcceptedPrefix
    );
    assert_eq!(bank.validate_commit(&batch, &lane.windows, &lane.sources, &[4]).unwrap(), (0, 0));
    lane.commit(&mut bank, &batch, &[4]).unwrap();
    assert_eq!(bank.committed_end(first).unwrap(), 4);
    assert_eq!(bank.history_end(first).unwrap(), 4);
    assert_eq!(bank.committed_end(second).unwrap(), 3);
    for window in &bank.windows {
        assert_eq!((window.slots[0].end, window.slots[1].end), (4, 3));
    }
    for (index, source) in bank.sources().iter().enumerate() {
        assert_eq!((source.slots[0].end, source.slots[1].end), (4, 3));
        let rows = if index == 3 { (4, 3) } else { (2, 1) };
        assert_eq!((source.index.rows[0], source.index.rows[1]), rows);
        assert_eq!(source.committed_rows(0), rows.0);
    }
    assert!(bank.validate_batch(&batch).is_err());

    let batch = bank.plan(&mut ids, &[work(first, 2), work(second, 1)]).ok().unwrap();
    assert_eq!(batch.positions(), vec![4, 5, 3]);
    lane.produce(&bank, &batch);
    lane.commit(&mut bank, &batch, &[0, 1]).unwrap();
    assert_eq!(bank.committed_end(first).unwrap(), 4);
    assert_eq!(bank.committed_end(second).unwrap(), 4);
}

#[test]
fn an_incomplete_commit_withdraws_the_batch_only() {
    let mut next: u64 = 1;
    let mut bank = small_bank(&mut next, 2, [4, 4, 4, 8]);
    let mut ids = ids();
    let first = bank.begin_request(0, 10).unwrap();
    let second = bank.begin_request(1, 11).unwrap();
    let mut lane = Lane::new(&bank);
    let batch = bank.plan(&mut ids, &[work(first, 2)]).ok().unwrap();
    lane.produce(&bank, &batch);
    bank.enqueue_cache_commit(&batch, &mut lane.windows, &mut lane.sources, &[2]).ok().unwrap();
    let mut done = [true; 40];
    done[39] = false;
    assert_eq!(
        bank.commit(&batch, &mut lane.windows, &mut lane.sources, &[2], &done, &[true; 4])
            .unwrap_err(),
        Error::WindowCommitIncomplete
    );
    assert!(bank.request_id(first).is_err());
    assert_eq!(bank.request_id(second).unwrap(), 11);
    lane.advance(&mut bank, &mut ids, second, 2);
    assert_eq!(bank.committed_end(second).unwrap(), 2);
}

/// What the bank holds for the request at `slot`.
fn held(bank: &BackboneCache, slot: usize) -> Vec<(Option<u64>, u64, bool, Vec<u32>, usize)> {
    let windows = bank
        .windows
        .iter()
        .map(|w| (w.slots[slot].request, w.slots[slot].end, w.writing[slot], vec![], 0));
    let sources = bank.sources().iter().map(|s| {
        let index = &s.index;
        let at = &s.slots[slot];
        (at.request, at.end, index.writing[slot], index.pages[slot].clone(), index.rows[slot])
    });
    windows.chain(sources).collect()
}

#[test]
fn a_failed_commit_spares_the_rows_of_others() {
    let mut next: u64 = 1;
    let mut bank = small_bank(&mut next, 2, [4, 4, 4, 8]);
    let mut ids = ids();
    let first = bank.begin_request(0, 10).unwrap();
    let second = bank.begin_request(1, 11).unwrap();
    let mut lane = Lane::new(&bank);
    lane.advance(&mut bank, &mut ids, second, 5);
    lane.advance(&mut bank, &mut ids, first, 3);
    let before = held(&bank, 1);
    let batch = bank.plan(&mut ids, &[work(first, 2)]).ok().unwrap();
    lane.produce(&bank, &batch);
    bank.enqueue_cache_commit(&batch, &mut lane.windows, &mut lane.sources, &[2]).ok().unwrap();
    let done = [true, true, false, true];
    assert_eq!(
        bank.commit(&batch, &mut lane.windows, &mut lane.sources, &[2], &[true; 40], &done)
            .unwrap_err(),
        Error::SourceCommitIncomplete
    );
    assert_eq!(held(&bank, 1), before);
    assert!(held(&bank, 0).iter().all(|(request, _, writing, pages, rows)| {
        request.is_none() && !writing && pages.is_empty() && *rows == 0
    }));
    for window in &lane.windows {
        assert!(window.prepared.is_none() && window.pending.is_none());
    }
    assert_eq!(bank.committed_end(second).unwrap(), 5);
    assert!(bank.committed_end(first).is_err());
}

#[test]
fn a_direct_commit_publishes_what_was_written() {
    let mut next: u64 = 1;
    let mut bank = small_bank(&mut next, 1, [4, 4, 4, 8]);
    let mut ids = ids();
    let lease = bank.begin_request(0, 10).unwrap();
    let mut lane = Lane::new(&bank);
    let batch = bank.plan(&mut ids, &[work(lease, 6)]).ok().unwrap();
    lane.produce(&bank, &batch);
    let work = bank
        .begin_direct_commit(&batch, &mut lane.windows, &mut lane.sources, &[5])
        .ok()
        .unwrap();
    assert_eq!(work.iter().map(|(source, _)| *source).collect::<Vec<_>>(), vec![0, 1, 2, 3]);
    assert_eq!(bank.committed_end(lease).unwrap(), 0);
    bank.finish_direct_commit(&batch, &mut lane.windows, &mut lane.sources, &[5], Ok(()))
        .unwrap();
    assert_eq!(bank.committed_end(lease).unwrap(), 5);
    assert_eq!(bank.sources()[3].index.rows[0], 5);
}

#[test]
fn a_direct_commit_whose_work_fails_ends_the_batch() {
    let mut next: u64 = 1;
    let mut bank = small_bank(&mut next, 2, [4, 4, 4, 8]);
    let mut ids = ids();
    let first = bank.begin_request(0, 10).unwrap();
    let second = bank.begin_request(1, 11).unwrap();
    let mut lane = Lane::new(&bank);
    lane.advance(&mut bank, &mut ids, second, 4);
    let before = held(&bank, 1);
    let batch = bank.plan(&mut ids, &[work(first, 6)]).ok().unwrap();
    lane.produce(&bank, &batch);
    bank.begin_direct_commit(&batch, &mut lane.windows, &mut lane.sources, &[6]).ok().unwrap();
    assert_eq!(
        bank.finish_direct_commit(
            &batch,
            &mut lane.windows,
            &mut lane.sources,
            &[6],
            Err(Error::Device { code: 700 })
        )
        .unwrap_err(),
        Error::Device { code: 700 }
    );
    assert!(bank.request_id(first).is_err());
    assert_eq!(held(&bank, 1), before);
    for source in &lane.sources {
        assert!(source.pending_commit.is_none() && source.ready.is_none());
    }
}

#[test]
fn a_direct_commit_without_pages_ends_the_batch() {
    let mut next: u64 = 1;
    let mut bank = small_bank(&mut next, 2, [1, 1, 1, 2]);
    let mut ids = ids();
    let first = bank.begin_request(0, 10).unwrap();
    let second = bank.begin_request(1, 11).unwrap();
    let mut lane = Lane::new(&bank);
    lane.advance(&mut bank, &mut ids, second, 4);
    let before = held(&bank, 1);
    let batch = bank.plan(&mut ids, &[work(first, 2)]).ok().unwrap();
    lane.produce(&bank, &batch);
    assert_eq!(
        bank.begin_direct_commit(&batch, &mut lane.windows, &mut lane.sources, &[2]).err(),
        Some(Error::PoolExhausted(SourcePoolExhausted {
            work_index: 0,
            needed: 1,
            available: 0
        }))
    );
    assert!(bank.request_id(first).is_err());
    assert_eq!(held(&bank, 1), before);
    assert!(lane.sources[0].ready.is_none());
    assert!(lane.sources[1].ready.is_some());
    assert!(lane.windows.iter().all(|w| w.pending.is_none() && w.prepared.is_some()));
}

#[test]
fn queueing_stops_at_the_first_source_without_pages() {
    let mut next: u64 = 1;
    let mut bank = small_bank(&mut next, 2, [2, 1, 2, 2]);
    let mut ids = ids();
    let first = bank.begin_request(0, 10).unwrap();
    let second = bank.begin_request(1, 11).unwrap();
    let mut lane = Lane::new(&bank);
    lane.advance(&mut bank, &mut ids, second, 4);
    let batch = bank.plan(&mut ids, &[work(first, 2)]).ok().unwrap();
    lane.produce(&bank, &batch);
    assert!(bank
        .enqueue_cache_commit(&batch, &mut lane.windows, &mut lane.sources, &[2])
        .is_err());
    let queued: Vec<bool> = lane.sources.iter().map(|s| s.pending_commit.is_some()).collect();
    assert_eq!(queued, vec![true, false, false, false]);
    let ready: Vec<bool> = lane.sources.iter().map(|s| s.ready.is_some()).collect();
    assert_eq!(ready, vec![false, false, true, true]);
    assert!(lane.windows.iter().all(|w| w.pending.is_some()));
    bank.abort_cache_commit(&mut lane.windows, &mut lane.sources);
    bank.release(&[first]).unwrap();
}

#[test]
fn leases_die_with_their_requests() {
    let mut next: u64 = 1;
    let mut bank = small_bank(&mut next, 2, [2, 2, 2, 2]);
    let mut other = small_bank(&mut next, 2, [2, 2, 2, 2]);
    let first = bank.begin_request(0, 10).unwrap();
    let foreign = other.begin_request(0, 10).unwrap();
    assert_eq!(bank.request_id(first).unwrap(), 10);
    assert!(bank.request_id(foreign).is_err());
    bank.release(&[first]).unwrap();
    assert_eq!(bank.request_id(first).unwrap_err(), Error::CacheRequestReleased);
    let again = bank.begin_request(0, 10).unwrap();
    assert_eq!(bank.request_id(first).unwrap_err(), Error::ForeignCacheLease);
    assert_eq!(bank.request_id(again).unwrap(), 10);
}

#[test]
fn a_refused_admission_poisons_the_bank_and_gives_back_its_slots() {
    let mut next: u64 = 1;
    let mut bank = small_bank(&mut next, 2, [1, 1, 1, 1]);
    bank.windows[3].slots[0].request = Some(99);
    assert!(bank.begin_request(0, 5).is_err());
    assert!(bank.poisoned);
    let state = |layer: usize| {
        let slot = &bank.windows[layer].slots[0];
        (slot.generation, slot.request)
    };
    assert_eq!(state(2), (1, None));
    assert_eq!(state(3), (0, Some(99)));
    assert_eq!(state(4), (0, None));
    assert_eq!(bank.sources()[0].slots[0].generation, 0);
    assert_eq!(bank.begin_request(1, 6).unwrap_err(), Error::CachePoisoned);
}

#[test]
fn a_request_is_frozen_while_its_prefix_is_copied() {
    let mut next: u64 = 1;
    let mut bank = small_bank(&mut next, 2, [8, 8, 8, 16]);
    let mut ids = ids();
    let mut lane = Lane::new(&bank);
    let lease = bank.begin_request(0, 10).unwrap();
    lane.advance(&mut bank, &mut ids, lease, 9);
    bank.queue_prefix(0, lease, usize::MAX, tail(), WINDOW_BYTES, &carries(2)).ok().unwrap();
    let other = bank.begin_request(1, 11).unwrap();
    lane.advance(&mut bank, &mut ids, other, 3);
    bank.release(&[other]).unwrap();
    assert_eq!(bank.committed_end(lease).unwrap_err(), Error::SnapshotPending);
    assert_eq!(bank.stage(lease).err(), Some(Error::SnapshotPending));
    assert_eq!(bank.release(&[lease]).unwrap_err(), Error::SnapshotPending);
    assert_eq!(bank.request_id(lease).unwrap(), 10);
    assert!(bank.finish_prefix(0, other, true).is_err());
    assert!(bank.finish_prefix(2, lease, true).is_err());
    assert!(bank.finish_prefix(0, lease, false).is_err());
    let kept = bank.finish_prefix(0, lease, true).ok().unwrap();
    assert_eq!((kept.owner, kept.end), (bank.owner(), 9));
    assert_eq!(bank.committed_end(lease).unwrap(), 9);
    assert!(bank.queue_prefix(0, lease, usize::MAX, tail(), WINDOW_BYTES, &carries(2)).is_ok());
    bank.abort_prefix(0).unwrap();
    bank.evict_prefix(kept);
}

#[test]
fn page_generations_count_frees() {
    let mut next: u64 = 1;
    let mut bank = small_bank(&mut next, 1, [1, 1, 1, 1]);
    let mut ids = ids();
    let mut lane = Lane::new(&bank);
    let mut seen = vec![];
    for id in 0..3 {
        let lease = bank.begin_request(0, id).unwrap();
        lane.advance(&mut bank, &mut ids, lease, 2);
        let index = bank.sources()[0].source_cache();
        let page = index.pages[0][0];
        let pair = (page, index.page_generation(page));
        assert!(!seen.contains(&pair));
        seen.push(pair);
        lane.advance(&mut bank, &mut ids, lease, 2);
        assert_eq!(bank.sources()[0].source_cache().page_generation(page), pair.1);
        bank.release(&[lease]).unwrap();
        assert_eq!(bank.sources()[0].source_cache().page_generation(page), pair.1 + 1);
    }
    assert_eq!(seen.iter().map(|pair| pair.1).collect::<Vec<_>>(), vec![0, 1, 2]);
}

#[test]
fn aborted_commits_free_their_pages() {
    let mut next: u64 = 1;
    let mut bank = small_bank(&mut next, 1, [1, 1, 1, 1]);
    let mut ids = ids();
    let lease = bank.begin_request(0, 10).unwrap();
    let mut lane = Lane::new(&bank);
    let batch = bank.plan(&mut ids, &[work(lease, 2)]).ok().unwrap();
    lane.produce(&bank, &batch);
    bank.enqueue_cache_commit(&batch, &mut lane.windows, &mut lane.sources, &[2]).ok().unwrap();
    assert!(bank.ensure_releasable(lease).is_err());
    bank.abort_cache_commit(&mut lane.windows, &mut lane.sources);
    for source in bank.sources() {
        assert_eq!(source.index.pool.free.len(), 1);
    }
}

#[test]
fn capacity_is_checked_without_claiming_pages() {
    let mut next: u64 = 1;
    let mut bank = small_bank(&mut next, 2, [1, 1, 1, 1]);
    let first = bank.begin_request(0, 10).unwrap();
    let second = bank.begin_request(1, 11).unwrap();
    bank.check_append_capacity(&[(first, 256)]).unwrap();
    assert_eq!(
        bank.check_append_capacity(&[(first, 1), (second, 2)]).unwrap_err(),
        Error::PoolExhausted(SourcePoolExhausted { work_index: 1, needed: 1, available: 0 })
    );
    for source in bank.sources() {
        assert_eq!(source.index.pool.free.len(), 1);
    }
}

#[test]
fn retained_prefixes_give_back_their_frontier() {
    let mut next: u64 = 1;
    let mut bank = small_bank(&mut next, 3, [8, 8, 8, 16]);
    let mut ids = ids();
    let mut lane = Lane::new(&bank);
    let lease = bank.begin_request(0, 10).unwrap();
    assert_eq!(
        bank.retain_prefix(lease, usize::MAX, tail(), WINDOW_BYTES, &carries(3)).err(),
        Some(Error::PrefixFrontier)
    );
    lane.advance(&mut bank, &mut ids, lease, 301);
    assert_eq!(
        bank.retain_prefix(lease, 1, tail(), WINDOW_BYTES, &carries(3)).err(),
        Some(Error::PrefixBudget)
    );
    let free: Vec<usize> = bank.sources().iter().map(|s| s.index.pool.free.len()).collect();
    let (kept, copies) =
        bank.retain_prefix(lease, usize::MAX, tail(), WINDOW_BYTES, &carries(3)).ok().unwrap();
    assert_eq!(kept.end(), 301);
    assert_eq!(copies.windows.len(), 40);
    assert_eq!(copies.windows[1], buffer(0x4000_0000 + WINDOW_BYTES, WINDOW_BYTES));
    assert_eq!(copies.carries.len(), 6);
    bank.release(&[lease]).unwrap();

    let resumed = bank.begin_request(1, 11).unwrap();
    let (pending, restored) =
        bank.restore_prefix(resumed, &kept, WINDOW_BYTES, &carries(3)).ok().unwrap();
    assert_eq!(restored.carries.len(), 6);
    // Until the copies are made the request is not at its frontier.
    assert!(bank.committed_end(resumed).is_err());
    assert_eq!(bank.finish_restore(pending, Ok(())).unwrap(), 301);
    assert_eq!(bank.finish_restore(pending, Ok(())).unwrap_err(), Error::PrefixAdmission);
    assert_eq!(bank.committed_end(resumed).unwrap(), 301);
    for source in bank.sources() {
        assert_eq!(source.slots[1].end, 301);
    }
    assert!(bank.restore_prefix(resumed, &kept, WINDOW_BYTES, &carries(3)).is_err());
    lane.advance(&mut bank, &mut ids, resumed, 7);
    assert_eq!(bank.committed_end(resumed).unwrap(), 308);

    let encoder = bank.begin_request(2, 12).unwrap();
    let pending = bank.restore_encoder_prefix(encoder, &kept, 300, 1000).unwrap();
    assert_eq!(bank.finish_restore(pending, Ok(())).unwrap(), 172);
    assert_eq!(bank.stage(encoder).unwrap(), CacheStage::EncoderReplay);
    bank.release(&[encoder, resumed]).unwrap();

    let continued = bank.begin_request(0, 13).unwrap();
    assert_eq!(
        bank.restore_encoder_continuation(continued, &kept, 400, WINDOW_BYTES, &carries(3)).err(),
        Some(Error::EncoderContinuation)
    );
    let (pending, _) = bank
        .restore_encoder_continuation(continued, &kept, 429, WINDOW_BYTES, &carries(3))
        .ok()
        .unwrap();
    assert_eq!(bank.finish_restore(pending, Ok(())).unwrap(), 301);
    assert_eq!(bank.stage(continued).unwrap(), CacheStage::Encoder);
    bank.release(&[continued]).unwrap();

    // A failed copy ends the request.
    let failed = bank.begin_request(0, 14).unwrap();
    let (pending, _) =
        bank.restore_prefix(failed, &kept, WINDOW_BYTES, &carries(3)).ok().unwrap();
    assert_eq!(
        bank.finish_restore(pending, Err(Error::Device { code: 2 })).unwrap_err(),
        Error::Device { code: 2 }
    );
    assert_eq!(bank.committed_end(failed).unwrap_err(), Error::CacheRequestReleased);
    bank.evict_prefix(kept);
    for (index, source) in bank.sources().iter().enumerate() {
        assert!(source.index.pool.free.len() > free[index]);
        assert_eq!(source.index.pool.free.len(), source.index.pool.capacity());
    }
}

#[test]
fn encoder_chunks_may_be_reserved_ahead() {
    let mut next: u64 = 1;
    let mut bank = small_bank(&mut next, 2, [8, 8, 8, 16]);
    let mut ids = ids();
    let mut lane = Lane::new(&bank);
    let lease = bank.begin_request(0, 10).unwrap();
    lane.advance(&mut bank, &mut ids, lease, 4);
    let (kept, _) =
        bank.retain_prefix(lease, usize::MAX, tail(), WINDOW_BYTES, &carries(2)).ok().unwrap();
    let encoder = bank.begin_request(1, 11).unwrap();
    let (pending, _) = bank
        .restore_encoder_continuation(encoder, &kept, 200, WINDOW_BYTES, &carries(2))
        .ok()
        .unwrap();
    bank.finish_restore(pending, Ok(())).unwrap();
    assert_eq!(
        bank.plan_stage(&mut ids, &[work(lease, 1)], false, true).err(),
        Some(Error::EncoderReservation)
    );
    assert_eq!(
        bank.plan(&mut ids, &[work(encoder, 197)]).err(),
        Some(Error::PhaseTokens)
    );
    assert_eq!(
        bank.plan(&mut ids, &[CacheWork { kind: WorkKind::Decode, ..work(encoder, 1) }]).err(),
        Some(Error::PhaseNeedsPrefill)
    );
    assert_eq!(
        bank.plan(&mut ids, &[work(lease, 1), work(encoder, 1)]).err(),
        Some(Error::MixedPhases)
    );
    assert_eq!(
        bank.plan_replay(&mut ids, &[work(encoder, 1)]).err(),
        Some(Error::PlanningPhase)
    );
    let batch = bank.plan_stage(&mut ids, &[work(encoder, 100)], false, true).ok().unwrap();
    assert!(batch.is_reserved());
    assert_eq!(batch.stage(), CacheStage::Encoder);
}

#[test]
fn snapshot_lanes_copy_one_prefix_each() {
    let mut next: u64 = 1;
    let mut bank = small_bank(&mut next, 2, [8, 8, 8, 16]);
    let mut ids = ids();
    let mut lane = Lane::new(&bank);
    let lease = bank.begin_request(0, 10).unwrap();
    lane.advance(&mut bank, &mut ids, lease, 9);
    assert_eq!(
        bank.queue_prefix(2, lease, usize::MAX, tail(), WINDOW_BYTES, &carries(2)).err(),
        Some(Error::SnapshotLane)
    );
    assert!(bank.queue_prefix(0, lease, usize::MAX, tail(), WINDOW_BYTES, &carries(2)).is_ok());
    assert_eq!(
        bank.queue_prefix(0, lease, usize::MAX, tail(), WINDOW_BYTES, &carries(2)).err(),
        Some(Error::SnapshotOccupied)
    );
    assert!(!bank.prefix_ready(0, lease, false).unwrap());
    assert_eq!(bank.prefix_ready(1, lease, true).unwrap_err(), Error::SnapshotOwner);
    assert!(bank.finish_prefix(0, lease, false).is_err());
    let kept = bank.finish_prefix(0, lease, true).ok().unwrap();
    assert_eq!(kept.end(), 9);
    assert!(bank.queue_prefix(1, lease, usize::MAX, tail(), WINDOW_BYTES, &carries(2)).is_ok());
    bank.abort_prefix(1).unwrap();
    bank.evict_prefix(kept);
    bank.release(&[lease]).unwrap();
    for source in bank.sources() {
        assert_eq!(source.index.pool.free.len(), source.index.pool.capacity());
    }
    let pool = SnapshotPool {
        device: 0,
        slot_bytes: BackbonePrefix::device_bytes(WINDOW_BYTES).unwrap(),
        slots: 4,
    };
    bank.install_prefix_pool(pool).unwrap();
    assert_eq!(bank.prefix_pool(), Some(pool));
    assert!(bank.install_prefix_pool(pool).is_err());
    assert_eq!((bank.prefix_library(), bank.owner()), (7, 1));
}

#[test]
fn prefix_parts_round_trip() {
    let kept = BackbonePrefix::from_parts(3, 9, tail(), vec![], vec![]);
    let (owner, end, stored, windows, sources) = kept.parts();
    assert_eq!((owner, end, stored), (3, 9, tail()));
    assert!(windows.is_empty() && sources.is_empty());
}
