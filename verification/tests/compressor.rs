use ds41rt_daemon::attention_binding::QueryBinding;
use ds41rt_daemon::attention_query::AttentionQueryOutput;
use ds41rt_daemon::compressor::prefix::{CarryBuffers, CompressorPrefix};
use ds41rt_daemon::compressor::upload::CompressorWeights;
use ds41rt_daemon::compressor::wave::{CompressorWave, WaveBuffers};
use ds41rt_daemon::compressor::{
    ratio, reserve_source_snapshot, CompressorChunk, CompressorLease, CompressorState,
};
use ds41rt_daemon::device::DeviceBuffer;
use ds41rt_daemon::draft_window::{DsparkPrefix, DsparkWindow};
use ds41rt_daemon::error::Error;
use ds41rt_daemon::source_cache::layout::SourceBuffers;
use ds41rt_daemon::source_cache::SourceCache;
use ds41rt_daemon::window::{WindowLease, WindowState, WindowWave};

fn buffer(address: usize, bytes: usize) -> DeviceBuffer {
    DeviceBuffer { device: 0, address, bytes }
}

fn layout(cache: &SourceCache) -> SourceBuffers {
    SourceBuffers {
        packed: buffer(0x1_0000_0000, cache.capacity * 64),
        scales: buffer(0x2_0000_0000, cache.capacity * 4),
        kv_values: buffer(0x3_0000_0000, cache.capacity * 256),
        kv_scales: buffer(0x4_0000_0000, cache.capacity * 32),
        page_table: buffer(0x5_0000_0000, cache.slots * cache.stride * 4),
        lengths: buffer(0x6_0000_0000, cache.slots * 8),
    }
}

fn wave(layer: usize) -> CompressorWave {
    let at = |address: usize| buffer(address, 4096 * 10240);
    let buffers = WaveBuffers {
        input: at(0x10_0000_0000),
        output: at(0x20_0000_0000),
        frequencies: at(0x30_0000_0000),
        index_key: at(0x40_0000_0000),
        index_packed: at(0x50_0000_0000),
        index_scales: at(0x60_0000_0000),
        kv_values: at(0x70_0000_0000),
        kv_scales: at(0x80_0000_0000),
    };
    CompressorWave::new(layer, 4096, 0, usize::MAX, buffers).ok().unwrap()
}

fn carry_device(layer: usize) -> Option<i32> {
    if layer == 20 { None } else { Some(0) }
}

fn advance(state: &mut CompressorState, lease: CompressorLease, tokens: u32) {
    let mut lane = wave(state.layer);
    let mut left = tokens;
    let mut snapshot: u64 = 1;
    while left > 0 {
        let step = left.min(4096);
        let position = state.committed_end(lease).unwrap();
        let chunks = [CompressorChunk { lease, position, tokens: step }];
        let carry = carry_device(state.layer);
        let prepared = lane.prepare(state, 0, carry, &chunks, &mut snapshot).ok().unwrap();
        lane.execute(prepared, true).unwrap();
        lane.enqueue_commit(state, &[step]).ok().unwrap();
        lane.commit(state, &[step], true).ok().unwrap();
        left -= step;
    }
}

#[test]
fn ratios_belong_to_source_layers() {
    assert_eq!(ratio(2).unwrap(), 2);
    assert_eq!(ratio(8).unwrap(), 2);
    assert_eq!(ratio(14).unwrap(), 2);
    assert_eq!(ratio(20).unwrap(), 1);
    assert_eq!(ratio(3).unwrap_err(), Error::NotASource);
    assert_eq!(CompressorState::pages_for_context(2, 3, 513).unwrap(), 6);
    assert_eq!(CompressorState::pages_for_context(20, 3, 513).unwrap(), 9);
    let mut next: u64 = 8;
    assert_eq!(reserve_source_snapshot(&mut next).unwrap(), 8);
    assert_eq!(next, 9);
    next = u64::MAX;
    assert_eq!(reserve_source_snapshot(&mut next).unwrap_err(), Error::ProposalsExhausted);
}

#[test]
fn compressor_tensors_carry_their_names() {
    let names = CompressorWeights::names(2).ok().unwrap();
    assert_eq!(names.len(), 5);
    assert_eq!(names[0], "layers.2.attn.compressor.wkv.weight");
    assert_eq!(names[2], "layers.2.attn.compressor.wgate.weight");
    let names = CompressorWeights::names(20).ok().unwrap();
    assert_eq!(names.len(), 4);
    assert_eq!(names[3], "layers.20.attn.indexer.k_norm.weight");
    assert!(CompressorWeights::names(5).is_err());
    assert_eq!(CompressorWeights::load(8).unwrap().ratio, 2);
}

#[test]
fn compressed_restores_need_complete_groups() {
    for layer in [2usize, 20] {
        let mut state = CompressorState::new(3, layer, 2, 4, usize::MAX).ok().unwrap();
        let original = state.begin_request(0, 1).unwrap();
        advance(&mut state, original, 601);
        let carry = if layer == 2 {
            Some(CarryBuffers { projected: buffer(0, 4096), scores: buffer(8192, 4096) })
        } else {
            None
        };
        let saved = buffer(0x9000, 4096);
        let (prefix, copies) = state.retain_prefix(original, &carry, &saved).ok().unwrap();
        assert_eq!(copies.len(), if layer == 2 { 2 } else { 0 });
        state.release(original).unwrap();
        let resumed = state.begin_request(1, 2).unwrap();
        assert!(state.restore_compressed_prefix(resumed, &prefix, 602).is_err());
        if layer == 2 {
            assert!(state.restore_compressed_prefix(resumed, &prefix, 513).is_err());
        }
        let end = if layer == 2 { 514 } else { 513 };
        state.restore_compressed_prefix(resumed, &prefix, end).unwrap();
        assert_eq!(state.committed_end(resumed).unwrap(), end);
        let step = ratio(layer).unwrap();
        let place = layout(state.source_cache());
        assert_eq!(state.index_cache(&place, resumed).ok().unwrap().rows, end as usize / step);
        assert_eq!(state.kv_cache(&place, resumed).ok().unwrap().rows, end as usize / step);
        assert!(state.committed_proposal(&place, resumed, 0, end + 1, 1).is_err());
        let proposal = state.committed_proposal(&place, resumed, end - 128, end, 1).ok().unwrap();
        let rows = end as usize / step;
        let table = state.index.stride * 4;
        assert_eq!((proposal.cache.rows, proposal.kv_cache.rows), (rows, rows));
        assert_eq!((proposal.cache.packed, proposal.cache.scales), (place.packed, place.scales));
        assert_eq!(
            (proposal.kv_cache.values, proposal.kv_cache.scales),
            (place.kv_values, place.kv_scales)
        );
        for pages in [proposal.cache.device_pages, proposal.kv_cache.device_pages] {
            assert_eq!(pages, buffer(0x5_0000_0000 + table, table));
        }
        for lengths in [proposal.cache.device_rows, proposal.kv_cache.device_rows] {
            assert_eq!(lengths, buffer(0x6_0000_0008, 8));
        }
        assert_eq!((proposal.step, proposal.offset, proposal.capacity), (step as u64, 0, 1));
        assert_eq!((proposal.start, proposal.count), (rows as u64, 0));
        assert!(state.restore_compressed_prefix(resumed, &prefix, end).is_err());
        state.release(resumed).unwrap();
        state.evict_pages(prefix);
        assert_eq!(state.index.pool.free.len(), 4);
    }
}

#[test]
fn odd_rows_are_carried_with_a_prefix() {
    let mut state = CompressorState::new(3, 2, 2, 4, usize::MAX).ok().unwrap();
    let lease = state.begin_request(0, 1).unwrap();
    advance(&mut state, lease, 5);
    assert_eq!(state.committed_rows(0), 2);
    let carry = Some(CarryBuffers { projected: buffer(0, 4096), scores: buffer(8192, 4096) });
    let saved = buffer(0x9000, 4096);
    let (prefix, copies) = state.retain_prefix(lease, &carry, &saved).ok().unwrap();
    assert_eq!(copies[0].source, buffer(0, 2048));
    assert_eq!(copies[0].destination, buffer(0x9000, 2048));
    assert_eq!(copies[1].source, buffer(8192, 2048));
    assert_eq!(copies[1].destination, buffer(0x9000 + 2048, 2048));
    let other = state.begin_request(1, 2).unwrap();
    let back = state.restore_prefix(other, &prefix, &carry, &saved).ok().unwrap();
    assert_eq!(back[0].destination, buffer(2048, 2048));
    assert_eq!(back[0].source, buffer(0x9000, 2048));
    assert_eq!(state.committed_end(other).unwrap(), 5);
    let (owner, end, source) = prefix.parts();
    assert_eq!((owner, end, source.rows()), (3, 5, 2));
    let copy = CompressorPrefix::from_parts(4, 5, SourcePrefixParts::empty());
    assert_eq!(copy.parts().0, 4);
}

struct SourcePrefixParts;

impl SourcePrefixParts {
    fn empty() -> ds41rt_daemon::source_cache::SourcePrefix {
        ds41rt_daemon::source_cache::SourcePrefix { pool: 0, pages: vec![], rows: 0 }
    }
}

#[test]
fn proposals_complete_groups_with_their_stride() {
    let mut state = CompressorState::new(3, 2, 2, 4, usize::MAX).ok().unwrap();
    let first = state.begin_request(0, 1).unwrap();
    let second = state.begin_request(1, 2).unwrap();
    advance(&mut state, first, 3);
    let mut lane = wave(2);
    let mut snapshot: u64 = 40;
    let chunks = [
        CompressorChunk { lease: first, position: 3, tokens: 4 },
        CompressorChunk { lease: second, position: 0, tokens: 3 },
    ];
    let prepared = lane.prepare(&state, 0, Some(0), &chunks, &mut snapshot).ok().unwrap();
    assert_eq!((prepared.snapshot, snapshot, prepared.rows), (40, 41, 7));
    assert_eq!(prepared.offsets, vec![0, 4]);
    let completed: Vec<(u32, u64)> =
        prepared.completed.iter().map(|row| (row.source_row, row.position)).collect();
    assert_eq!(completed, vec![(0, 2), (2, 4), (5, 0)]);
    let words = lane.upload_words(&prepared);
    assert_eq!(&words[words.len() - 7..], &[2, 0, 4, 0, 0, 0, 0]);
    lane.execute(prepared, true).unwrap();
    assert_eq!(lane.output(&state).ok().unwrap().completed.len(), 3);
    let place = layout(state.source_cache());
    let proposal = lane.index_proposal(&state, &place, first).ok().unwrap();
    assert_eq!((proposal.request_id(), proposal.first_token()), (1, 3));
    assert_eq!(proposal.metadata(6).unwrap(), [0, 3, 1, 2, 0, 2]);
    assert_eq!(proposal.metadata(7).unwrap_err(), Error::QueryOutsideProposal);
    let binding = proposal.binding();
    let peer = lane.index_proposal(&state, &place, second).ok().unwrap().binding();
    assert!(!binding.same_request(peer));
    assert!(binding.same_pool(peer));
}

#[test]
fn proposals_refuse_wrong_batches() {
    let mut state = CompressorState::new(3, 2, 2, 4, usize::MAX).ok().unwrap();
    let lease = state.begin_request(0, 1).unwrap();
    let mut snapshot: u64 = 1;
    let chunk = CompressorChunk { lease, position: 0, tokens: 1 };
    let mut other = wave(8);
    assert_eq!(
        other.prepare(&state, 0, Some(0), &[chunk], &mut snapshot).err(),
        Some(Error::CompressorLayer)
    );
    let mut lane = wave(2);
    assert_eq!(
        lane.prepare(&state, 0, Some(0), &[], &mut snapshot).err(),
        Some(Error::CompressorBatchCount)
    );
    assert_eq!(
        lane.prepare(&state, 1, Some(0), &[chunk], &mut snapshot).err(),
        Some(Error::CompressorIndexDevice)
    );
    assert_eq!(snapshot, 1);
    assert!(lane
        .prepare(&state, 0, Some(0), &[CompressorChunk { position: 1, ..chunk }], &mut snapshot)
        .is_err());
    assert!(lane.prepare(&state, 0, Some(0), &[chunk, chunk], &mut snapshot).is_err());
    assert_eq!(lane.enqueue_commit(&mut state, &[1]).err(), Some(Error::NoProposal));
    assert_eq!(lane.input(), buffer(0x10_0000_0000, 4096 * 10240));
    assert_eq!(CompressorWave::device_bytes(2, 1, 10).unwrap(), 16518);
    assert_eq!(CompressorWave::device_bytes(20, 2, 0).unwrap(), 26856);
    assert_eq!(CompressorWave::device_bytes(2, 0, 0).unwrap_err(), Error::CompressorRows);
}

#[test]
fn direct_compressor_commits_follow_their_work() {
    let mut state = CompressorState::new(3, 20, 2, 4, usize::MAX).ok().unwrap();
    let mut lane = wave(20);
    let mut snapshot: u64 = 1;
    let lease = state.begin_request(0, 1).unwrap();
    let chunk = CompressorChunk { lease, position: 0, tokens: 2 };
    let prepared = lane.prepare(&state, 0, None, &[chunk], &mut snapshot).ok().unwrap();
    lane.execute(prepared, true).unwrap();
    lane.enqueue_commit(&mut state, &[2]).ok().unwrap();
    let rows = lane.finish_direct_commit(&mut state, &[2], Ok(())).ok().unwrap();
    assert_eq!(rows.len(), 2);
    assert_eq!(state.committed_end(lease).unwrap(), 2);
    let chunk = CompressorChunk { lease, position: 2, tokens: 1 };
    let prepared = lane.prepare(&state, 0, None, &[chunk], &mut snapshot).ok().unwrap();
    lane.execute(prepared, true).unwrap();
    lane.enqueue_commit(&mut state, &[1]).ok().unwrap();
    assert_eq!(
        lane.finish_direct_commit(&mut state, &[1], Err(Error::Device { code: 2 })).err(),
        Some(Error::Device { code: 2 })
    );
    assert!(state.request_id(lease).is_err());
    assert_eq!(state.index.pool.free.len(), 4);
}

#[test]
fn refused_commits_keep_or_lose_their_proposal() {
    let mut state = CompressorState::new(3, 20, 2, 1, usize::MAX).ok().unwrap();
    let mut lane = wave(20);
    let mut snapshot: u64 = 1;
    let first = state.begin_request(0, 1).unwrap();
    let second = state.begin_request(1, 2).unwrap();
    advance(&mut state, second, 4);
    let chunk = CompressorChunk { lease: first, position: 0, tokens: 2 };
    let prepared = lane.prepare(&state, 0, None, &[chunk], &mut snapshot).ok().unwrap();
    lane.execute(prepared, true).unwrap();
    lane.replica = Some(99);
    assert_eq!(lane.enqueue_commit(&mut state, &[2]).err(), Some(Error::ForeignReplica));
    assert!(lane.ready.is_some());
    lane.replica = None;
    assert!(lane.enqueue_commit(&mut state, &[2]).is_err());
    assert!(lane.ready.is_none());
    assert_eq!(lane.enqueue_commit(&mut state, &[2]).err(), Some(Error::NoProposal));
}

#[test]
fn aborted_compressor_commits_drop_the_request() {
    let mut state = CompressorState::new(3, 20, 2, 4, usize::MAX).ok().unwrap();
    let lease = state.begin_request(0, 1).unwrap();
    let mut lane = wave(20);
    let mut snapshot: u64 = 1;
    let chunk = CompressorChunk { lease, position: 0, tokens: 2 };
    let prepared = lane.prepare(&state, 0, None, &[chunk], &mut snapshot).ok().unwrap();
    lane.execute(prepared, true).unwrap();
    lane.enqueue_commit(&mut state, &[2]).ok().unwrap();
    assert_eq!(state.ensure_not_writing(lease).unwrap_err(), Error::PendingAppend);
    assert!(lane.validate_pending_commit(&state).is_ok());
    assert!(lane.commit(&mut state, &[1], true).is_err());
    lane.abort_commit(&mut state);
    assert_eq!(state.index.pool.free.len(), 4);
    assert!(state.request_id(lease).is_err());
}

#[test]
fn captured_shapes_are_replayed_for_their_source() {
    let mut state = CompressorState::new(3, 20, 2, 4, usize::MAX).ok().unwrap();
    let lease = state.begin_request(0, 1).unwrap();
    let mut lane = wave(20);
    let mut snapshot: u64 = 1;
    let chunk = CompressorChunk { lease, position: 0, tokens: 2 };
    let prepared = lane.prepare(&state, 0, None, &[chunk], &mut snapshot).ok().unwrap();
    assert!(lane.replay(&prepared, 3).is_err());
    lane.capture(2, 3, Some(77)).unwrap();
    assert_eq!(lane.replay(&prepared, 3).unwrap(), 77);
    assert!(lane.replay(&prepared, 4).is_err());
    assert_eq!(lane.select_graph(5, 3).unwrap(), Vec::<u64>::new());
    assert!(lane.replay(&prepared, 3).is_err());
    lane.select_graph(2, 3).unwrap();
    assert_eq!(lane.replay(&prepared, 3).unwrap(), 77);
    assert_eq!(lane.clear_graph().unwrap(), vec![77]);
}

#[test]
fn window_commits_move_their_ends() {
    let mut state = WindowState::new(5, 3, 0, 2).ok().unwrap();
    let lease = state.begin_request(0, 1).unwrap();
    assert!(state.begin_request(0, 2).is_err());
    assert!(state.begin_request(1, 1).is_err());
    assert_eq!(state.validate(lease).unwrap(), 0);
    let stale = WindowLease { generation: lease.generation + 1, ..lease };
    assert!(state.end(stale).is_err());
    let mut wave = WindowWave { layer: 3, device: 0, prepared: None, pending: None };
    assert!(wave.enqueue_commit(&mut state, &[1]).is_err());
    assert!(!wave.has_pending_commit());
    state.begin_replay(lease, 50).unwrap();
    assert_eq!(state.end(lease).unwrap(), 50);
    let kept = state.retain_prefix(lease).unwrap();
    assert_eq!(kept.end, 50);
    state.release(lease).unwrap();
    let other = state.begin_request(1, 9).unwrap();
    state.restore_prefix(other, kept).unwrap();
    assert_eq!(state.end(other).unwrap(), 50);
    assert!(state.restore_prefix(other, kept).is_err());
}

#[test]
fn draft_prefixes_survive_slot_reuse() {
    let ring = buffer(0, 4 * 1024);
    let mut window = DsparkWindow::new(6, 7, ring, 8, 1024, 4).ok().unwrap();
    let lease = window.begin_request(0, 1).unwrap();
    assert_eq!(window.committed_end(lease).unwrap(), None);
    assert!(window.retain_prefix(lease, buffer(0x9000, 1024)).is_err());
    window.slots[0].end = Some(33);
    let (kept, copy) = window.retain_prefix(lease, buffer(0x9000, 1024)).ok().unwrap();
    assert_eq!((kept.end(), copy.source.address, copy.destination.address), (33, 0, 0x9000));
    window.release(lease).unwrap();
    let other = window.begin_request(2, 2).unwrap();
    let copy = window.restore_copy(other, &kept).ok().unwrap();
    assert_eq!((copy.source.address, copy.destination.address), (0x9000, 2048));
    window.restore_prefix(other, &kept, true).unwrap();
    assert_eq!(window.committed_end(other).unwrap(), Some(33));
    let failed = window.begin_request(3, 3).unwrap();
    assert_eq!(window.restore_prefix(failed, &kept, false).unwrap_err(), Error::DraftCopy);
    assert!(window.committed_end(failed).is_err());
    let (owner, end, ring) = kept.parts();
    assert_eq!(DsparkPrefix::from_parts(owner, end, ring), kept);
}

#[test]
fn queued_draft_prefixes_keep_their_lanes_apart() {
    let mut window = DsparkWindow::new(6, 7, buffer(0, 2048), 8, 1024, 2).ok().unwrap();
    let first = window.begin_request(0, 1).unwrap();
    let second = window.begin_request(1, 2).unwrap();
    window.slots[0].end = Some(5);
    window.slots[1].end = Some(6);
    window.queue_prefix(0, first, buffer(0x9000, 1024)).ok().unwrap();
    assert!(window.queue_prefix(0, second, buffer(0xa000, 1024)).is_err());
    window.queue_prefix(1, second, buffer(0xa000, 1024)).ok().unwrap();
    assert!(window.writable(0).is_err());
    assert!(!window.prefix_ready(0, first, false).unwrap());
    assert!(window.prefix_ready(0, second, true).is_err());
    assert!(window.finish_prefix(1, second, false).is_err());
    assert_eq!(window.finish_prefix(1, second, true).unwrap().end(), 6);
    window.abort_prefix(0).unwrap();
    assert!(window.writable(0).is_ok());
    assert_eq!((window.owner(), window.library()), (6, 7));
    assert_eq!(window.prefix_pool(), None);
}

fn hidden_query<'a>(layer: usize, tokens: &'a [u64]) -> AttentionQueryOutput<'a> {
    let rows = tokens.len();
    let at = |address: usize, bytes: usize| buffer(address, rows * bytes);
    AttentionQueryOutput {
        binding: Some(QueryBinding { layer, identity: 9 }),
        tokens,
        layer,
        rows,
        hidden: at(1, 10240),
        raw_rank: at(2, 2560),
        normalized_rank: at(3, 2560),
        rotated: at(4, 65536),
        positions: at(5, 8),
        frequencies: at(6, 256),
    }
}

#[test]
fn proposals_fail_only_where_no_execution_is_kept() {
    let mut state = CompressorState::new(3, 20, 2, 4, usize::MAX).ok().unwrap();
    let lease = state.begin_request(0, 1).unwrap();
    let mut lane = wave(20);
    let mut snapshot: u64 = 1;
    let mut gone: Vec<u64> = Vec::new();
    let chunks = [CompressorChunk { lease, position: 0, tokens: 2 }];
    let query = hidden_query(20, &[0, 1]);
    let mut run = |lane: &mut CompressorWave, query: &AttentionQueryOutput, captured, ran| {
        lane.execute_query(&state, 0, None, &chunks, query, &mut snapshot, captured, ran, &mut gone)
    };
    // Nothing is kept: the work has to be captured.
    assert_eq!(run(&mut lane, &query, None, true).unwrap_err(), Error::QueryExecution);
    assert_eq!(run(&mut lane, &query, Some(77), false).unwrap_err(), Error::QueryExecution);
    run(&mut lane, &query, Some(77), true).unwrap();
    // The kept execution serves the same shape again.
    run(&mut lane, &query, None, true).unwrap();
    assert_eq!(lane.ready.as_ref().unwrap().snapshot, 4);
    let foreign = hidden_query(20, &[0, 2]);
    assert_eq!(run(&mut lane, &foreign, None, true).unwrap_err(), Error::CompressorQuery);
    assert!(lane.ready.is_none());
    assert_eq!((snapshot, gone.len()), (6, 0));

    // A source of another owner has all kept executions destroyed.
    let mut other = CompressorState::new(4, 20, 2, 4, usize::MAX).ok().unwrap();
    let lease = other.begin_request(0, 1).unwrap();
    let chunks = [CompressorChunk { lease, position: 0, tokens: 2 }];
    let failed = lane.execute_query(
        &other, 0, None, &chunks, &query, &mut snapshot, None, true, &mut gone,
    );
    assert_eq!(failed.unwrap_err(), Error::QueryExecution);
    assert_eq!((snapshot, gone), (7, vec![77]));
}

#[test]
fn revoked_requests_give_their_pages_back_in_order() {
    let mut state = CompressorState::new(3, 20, 2, 4, usize::MAX).ok().unwrap();
    let first = state.begin_request(0, 1).unwrap();
    let second = state.begin_request(1, 2).unwrap();
    advance(&mut state, first, 300);
    advance(&mut state, second, 10);
    let owned: Vec<u32> =
        state.index.pages[1].iter().chain(state.index.pages[0].iter()).copied().collect();
    assert_eq!(owned.len(), 3);
    let free = state.index.pool.free.clone();
    state.invalidate(&[second, first]).unwrap();
    assert_eq!(state.index.pool.free, [free, owned.clone()].concat());
    for page in owned {
        assert_eq!(state.index.pool.generation(page), 1);
    }
}
