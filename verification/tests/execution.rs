use ds41rt_daemon::attention_binding::QueryBinding;
use ds41rt_daemon::attention_query::AttentionQueryOutput;
use ds41rt_daemon::backbone_cache::plan::{BatchIds, CacheBatch, CacheWork, WorkKind};
use ds41rt_daemon::backbone_cache::{BackboneCache, CacheLease};
use ds41rt_daemon::cache_phase::{CachePhase, CacheStage};
use ds41rt_daemon::compressor::queue::QueryProgress;
use ds41rt_daemon::compressor::wave::{CompressorWave, WaveBuffers};
use ds41rt_daemon::device::DeviceBuffer;
use ds41rt_daemon::error::Error;
use ds41rt_daemon::execution::budget::CacheProducerWeights;
use ds41rt_daemon::execution::cost::{layer_cost, route_cost};
use ds41rt_daemon::execution::distributed::DistributedExecution;
use ds41rt_daemon::execution::is_index_layer;
use ds41rt_daemon::execution::layer::CompletedLayer;
use ds41rt_daemon::execution::production::{
    source_to_produce, source_to_read, Produced, ProductionAction, ProductionEvents,
};
use ds41rt_daemon::execution::progress::PassProgress;
use ds41rt_daemon::execution::window_batch::{WindowBatch, WindowStore};
use ds41rt_daemon::execution::trace::trace_ffn_input;
use ds41rt_daemon::execution::BackboneExecution;
use ds41rt_daemon::source_cache::layout::SourceBuffers;
use ds41rt_daemon::source_cache::SourceCache;
use ds41rt_daemon::window::WindowWave;

const SOURCES: [usize; 4] = [2, 8, 14, 20];

fn bank() -> (BackboneCache, CacheLease) {
    let mut next: u64 = 1;
    let mut bank =
        BackboneCache::new(&mut next, 7, 0, 2, [8, 8, 8, 16], 4096, usize::MAX).ok().unwrap();
    let lease = bank.begin_request(0, 10).unwrap();
    (bank, lease)
}

fn batch(bank: &BackboneCache, lease: CacheLease, tokens: u32, identity: u64) -> CacheBatch {
    let mut ids = BatchIds { next_batch: identity, next_snapshot: 1 };
    bank.plan(&mut ids, &[CacheWork { lease, tokens, kind: WorkKind::Prefill }]).ok().unwrap()
}

fn windows() -> Vec<WindowWave> {
    (0..40).map(|layer| WindowWave { layer, device: 0, prepared: None, pending: None }).collect()
}

fn sources() -> Vec<CompressorWave> {
    let at = |address: usize| DeviceBuffer { device: 0, address, bytes: 4096 * 10240 };
    let buffers = WaveBuffers {
        input: at(0x1_0000_0000),
        output: at(0x2_0000_0000),
        frequencies: at(0x3_0000_0000),
        index_key: at(0x4_0000_0000),
        index_packed: at(0x5_0000_0000),
        index_scales: at(0x6_0000_0000),
        kv_values: at(0x7_0000_0000),
        kv_scales: at(0x8_0000_0000),
    };
    SOURCES
        .iter()
        .map(|layer| CompressorWave::new(*layer, 4096, 0, usize::MAX, buffers).ok().unwrap())
        .collect()
}

fn produce_source(
    bank: &BackboneCache,
    batch: &CacheBatch,
    waves: &mut [CompressorWave],
    index: usize,
) {
    let chunks = batch.source_chunks(SOURCES[index]).unwrap();
    let carry = if index == 3 { None } else { Some(0) };
    let mut snapshot = 1 + index as u64;
    let prepared = waves[index]
        .prepare(&bank.sources[index], 0, carry, &chunks, &mut snapshot)
        .ok()
        .unwrap();
    waves[index].execute(prepared, true).unwrap();
}

#[test]
fn ced_pass_requires_encoder_source_and_exact_decoder_range() {
    let mut encoder = PassProgress::for_stage(CacheStage::Encoder);
    for layer in 0..20 {
        encoder.begin(7, layer).unwrap();
        encoder.finish();
    }
    let mut missing_source = PassProgress::for_stage(CacheStage::Encoder);
    for layer in 0..20 {
        missing_source.begin(7, layer).unwrap();
        missing_source.finish();
    }
    assert!(missing_source.commit(7).is_err());
    encoder.begin_decoder_source(7).unwrap();
    assert!(encoder.invalid);
    encoder.finish_decoder_source();
    encoder.commit(7).unwrap();
    assert!(encoder.commit(7).is_err());
    let mut interrupted = PassProgress::for_stage(CacheStage::Encoder);
    for layer in 0..20 {
        interrupted.begin(7, layer).unwrap();
        interrupted.finish();
    }
    interrupted.begin_decoder_source(7).unwrap();
    assert!(interrupted.commit(7).is_err());
    let mut replay = PassProgress::for_stage(CacheStage::Replay);
    assert_eq!(replay.next, 20);
    for layer in 20..40 {
        replay.begin(8, layer).unwrap();
        replay.finish();
    }
    replay.commit(8).unwrap();
    let mut wrong = PassProgress::for_stage(CacheStage::Replay);
    assert!(wrong.begin(8, 0).is_err());
    let mut wrong = PassProgress::for_stage(CacheStage::Encoder);
    assert!(wrong.begin_decoder_source(7).is_err());
}

#[test]
fn pass_commit_requires_all_layers_and_one_batch() {
    let mut pass = PassProgress::default();
    assert!(pass.commit(1).is_err());
    assert!(pass.begin(1, 0).is_err());
    pass = PassProgress::default();
    pass.begin(1, 0).unwrap();
    assert!(pass.begin(1, 0).is_err());
    pass = PassProgress::default();
    for layer in 0..40 {
        pass.begin(1, layer).unwrap();
        pass.finish();
    }
    assert!(pass.commit(2).is_err());
    assert!(pass.commit(1).is_err());
    pass = PassProgress::default();
    for layer in 0..40 {
        pass.begin(1, layer).unwrap();
        pass.finish();
    }
    pass.commit(1).unwrap();
    assert!(pass.commit(1).is_err());
    pass = PassProgress::default();
    pass.begin(1, 0).unwrap();
    pass.finish();
    assert!(pass.begin(2, 1).is_err());
    pass = PassProgress::default();
    assert!(pass.begin(1, 1).is_err());
}

#[test]
fn a_full_pass_produces_reads_and_commits() {
    let (mut bank, lease) = bank();
    let batch = batch(&bank, lease, 6, 5);
    let mut pass = BackboneExecution::new(windows(), sources(), false);
    for layer in 0..40 {
        let plan = pass.prepare_layer(&bank, &batch, Ok(layer)).ok().unwrap();
        assert_eq!((plan.batch, plan.layer, plan.rows.len()), (5, layer, 6));
        assert!(plan.produce_window && !plan.publish_window && !plan.cooperative);
        assert_eq!(plan.produce_source, SOURCES.iter().position(|source| *source == layer));
        assert_eq!(plan.select_index, is_index_layer(layer));
        bank.produce_window(&batch, layer, &mut pass.windows[layer], Ok(())).unwrap();
        if let Some(index) = plan.produce_source {
            produce_source(&bank, &batch, &mut pass.sources, index);
        }
        pass.complete_layer(&batch, CompletedLayer { batch: 5, layer }, Ok(())).unwrap();
    }
    let work = pass.enqueue_cache_commit(&mut bank, &batch, &[5]).ok().unwrap();
    assert_eq!(work.len(), 4);
    assert_eq!(work[3].1.destinations, vec![0, 1, 2, 3, 4, u64::MAX]);
    assert_eq!(work[3].1.carries.len(), 0);
    assert_eq!(work[0].1.destinations, vec![u64::MAX, 0, u64::MAX, 1, u64::MAX, u64::MAX]);
    assert_eq!(work[0].1.carries, vec![(0, 4)]);
    let mut drained = [Ok(true); 40];
    assert!(pass.poll_cache_commit(&drained, &[Ok(true); 4]).unwrap());
    assert!(!pass.poll_cache_commit(&drained, &[Ok(true), Ok(false), Ok(true), Ok(true)]).unwrap());
    drained[3] = Err(Error::Device { code: 5 });
    assert!(pass.poll_cache_commit(&drained, &[Ok(true); 4]).is_err());
    pass.commit(&mut bank, &batch, &[5], &[true; 40], &[true; 4]).unwrap();
    assert_eq!(bank.committed_end(lease).unwrap(), 5);
    assert!(pass.commit(&mut bank, &batch, &[5], &[true; 40], &[true; 4]).is_err());
}

fn place(index: &SourceCache) -> SourceBuffers {
    let at = |address: usize, bytes: usize| DeviceBuffer { device: 0, address, bytes };
    SourceBuffers {
        packed: at(0x10_0000_0000, index.capacity * 64),
        scales: at(0x20_0000_0000, index.capacity * 4),
        kv_values: at(0x30_0000_0000, index.capacity * 256),
        kv_scales: at(0x40_0000_0000, index.capacity * 32),
        page_table: at(0x50_0000_0000, index.slots * index.stride * 4),
        lengths: at(0x60_0000_0000, index.slots * 8),
    }
}

#[test]
fn attention_reads_the_proposal_over_the_committed_rows() {
    let (bank, lease) = bank();
    let batch = batch(&bank, lease, 6, 5);
    let mut pass = BackboneExecution::new(windows(), sources(), false);
    for layer in 0..3 {
        bank.produce_window(&batch, layer, &mut pass.windows[layer], Ok(())).unwrap();
    }
    produce_source(&bank, &batch, &mut pass.sources, 0);
    let buffers = place(&bank.sources()[0].index);
    let read = pass.layer_attention(&bank, &batch, 2, Some(0), &buffers).ok().unwrap();
    assert_eq!(read.sources.len(), 1);
    let proposal = &read.sources[0];
    assert_eq!((proposal.kv_cache.rows, proposal.cache.rows), (0, 0));
    assert_eq!(proposal.kv_cache.values, buffers.kv_values);
    assert_eq!(proposal.kv_cache.scales, buffers.kv_scales);
    assert_eq!(proposal.cache.packed, buffers.packed);
    assert_eq!(proposal.cache.device_rows.address, 0x60_0000_0000);
    assert_eq!(proposal.kv_cache.device_pages.bytes, bank.sources()[0].index.stride * 4);
    assert_eq!((proposal.step, proposal.count, proposal.offset), (2, 3, 1));
    assert_eq!(
        pass.layer_attention(&bank, &batch, 2, None, &buffers).err(),
        Some(Error::SourcePresence)
    );
}

#[test]
fn a_direct_pass_commits_or_ends_its_requests() {
    for work in [Ok(()), Err(Error::Device { code: 9 })] {
        let (mut bank, lease) = bank();
        let batch = batch(&bank, lease, 4, 5);
        let mut pass = BackboneExecution::new(windows(), sources(), false);
        assert_eq!(
            pass.begin_direct_commit(&mut bank, &batch, &[4]).err(),
            Some(Error::PassIncomplete)
        );
        pass.restart();
        for layer in 0..40 {
            let plan = pass.prepare_layer(&bank, &batch, Ok(layer)).ok().unwrap();
            bank.produce_window(&batch, layer, &mut pass.windows[layer], Ok(())).unwrap();
            if let Some(index) = plan.produce_source {
                produce_source(&bank, &batch, &mut pass.sources, index);
            }
            pass.complete_layer(&batch, CompletedLayer { batch: 5, layer }, Ok(())).unwrap();
        }
        assert_eq!(pass.begin_direct_commit(&mut bank, &batch, &[4]).ok().unwrap().len(), 4);
        assert_eq!(pass.finish_direct_commit(&mut bank, &batch, &[4], work), work);
        match work {
            Ok(()) => assert_eq!(bank.committed_end(lease).unwrap(), 4),
            Err(_) => assert_eq!(bank.request_id(lease).err(), Some(Error::CacheRequestReleased)),
        }
        assert!(pass.progress.invalid);
    }
}

#[test]
fn ffn_traces_stay_in_their_buffer() {
    let at = |address: usize, bytes: usize| DeviceBuffer { device: 0, address, bytes };
    let input = at(0x1000, usize::MAX / 2);
    let whole = at(0x10_0000, 40 * 16 * 40976);
    let copy = trace_ffn_input(3, 5, 2, input, whole).unwrap();
    assert_eq!(copy.destination, at(0x10_0000 + (3 * 16 + 5) * 40976, 20480));
    assert_eq!(copy.source, at(0x1000, 20480));
    assert!(trace_ffn_input(39, 0, 16, input, whole).is_ok());
    assert_eq!(trace_ffn_input(0, 15, 2, input, whole).unwrap_err(), Error::TraceExtent);
    assert_eq!(trace_ffn_input(0, u64::MAX, 1, input, whole).unwrap_err(), Error::TraceExtent);
    assert_eq!(
        trace_ffn_input(0, 1, 1, input, at(0x10_0000, 40976 + 10239)).unwrap_err(),
        Error::TraceBuffer
    );
    assert_eq!(Error::TraceBuffer.message(), "FFN trace buffer exceeded");
}

#[test]
fn layers_come_in_order_and_a_failure_ends_the_pass() {
    let (bank, lease) = bank();
    let batch = batch(&bank, lease, 1, 5);
    let mut pass = BackboneExecution::new(windows(), sources(), false);
    assert_eq!(pass.prepare_layer(&bank, &batch, Ok(1)).err(), Some(Error::QueryPassLayer));
    assert_eq!(pass.prepare_layer(&bank, &batch, Ok(0)).err(), Some(Error::PassDiffers));
    pass.restart();
    assert_eq!(
        pass.prepare_layer(&bank, &batch, Err(Error::Device { code: 3 })).err(),
        Some(Error::Device { code: 3 })
    );
    pass.restart_for(CacheStage::Encoder);
    assert_eq!(pass.prepare_layer(&bank, &batch, Ok(0)).err(), Some(Error::ExecutionPhase));
    pass.restart();
    assert!(pass.prepare_layer_cooperative(&bank, &batch, Ok(0)).ok().unwrap().cooperative);
    assert!(pass
        .complete_layer(&batch, CompletedLayer { batch: 5, layer: 0 }, Err(Error::Device { code: 1 }))
        .is_err());
    assert!(pass.progress.invalid);
    pass.restart();
    assert_eq!(
        pass.produce_decoder_source(&bank, &batch, Ok(20)).err(),
        Some(Error::DecoderSource)
    );
}

fn query(layer: usize, tokens: &[u64]) -> AttentionQueryOutput<'_> {
    let at = |address: usize, bytes: usize| DeviceBuffer { device: 0, address, bytes };
    let rows = tokens.len();
    AttentionQueryOutput {
        binding: Some(QueryBinding { layer, identity: 70 + layer as u64 }),
        tokens,
        layer,
        rows,
        hidden: at(0x9_0000_0000, rows * 10240),
        raw_rank: at(0xa_0000_0000, rows * 2560),
        normalized_rank: at(0xb_0000_0000, rows * 2560),
        rotated: at(0xc_0000_0000, rows * 65536),
        positions: at(0xd_0000_0000, rows * 8),
        frequencies: at(0xe_0000_0000, rows * 256),
    }
}

const WAITING: ProductionEvents = ProductionEvents {
    window: Ok(false),
    source: QueryProgress::Running,
    projection: Ok(false),
    selection: Ok(false),
};

const DONE: ProductionEvents = ProductionEvents {
    window: Ok(true),
    source: QueryProgress::Done { captured: Some(9) },
    projection: Ok(true),
    selection: Ok(true),
};

/// A pass over one row that has finished the layers below `layer`.
fn pass_before(bank: &BackboneCache, batch: &CacheBatch, layer: usize) -> BackboneExecution {
    let mut pass = BackboneExecution::new(windows(), sources(), false);
    for below in 0..layer {
        pass.prepare_layer(bank, batch, Ok(below)).ok().unwrap();
        pass.complete_layer(batch, CompletedLayer { batch: 5, layer: below }, Ok(())).unwrap();
    }
    pass
}

#[test]
fn queued_production_waits_for_its_parts() {
    let (bank, lease) = bank();
    let batch = batch(&bank, lease, 2, 5);
    let mut pass = BackboneExecution::new(windows(), sources(), false);
    let tokens = [0u64, 1];
    let (mut next, mut gone) = (40u64, Vec::new());
    let first = query(0, &tokens);
    let mut pending = pass
        .enqueue_production(&bank, &batch, Ok(&first), 0, Some(0), &mut next, Ok(()), &mut gone)
        .ok()
        .unwrap();
    assert_eq!((pending.layer, pending.source, next), (0, None, 40));
    assert_eq!(
        pending.poll(&mut pass, &bank, &batch, WAITING).ok(),
        Some(ProductionAction::Wait)
    );
    assert!(pass.windows[0].prepared.is_none());
    let drained = ProductionEvents { window: Ok(true), ..WAITING };
    assert_eq!(
        pending.poll(&mut pass, &bank, &batch, drained).ok(),
        Some(ProductionAction::Done)
    );
    assert!(pass.windows[0].prepared.is_some());
    assert!(pass.queued_production.is_some());
    assert_eq!(
        pass.enqueue_production(&bank, &batch, Ok(&first), 0, None, &mut next, Ok(()), &mut gone)
            .err(),
        Some(Error::ProductionQueued)
    );
    let plan = pass.prepare_layer(&bank, &batch, Ok(0)).ok().unwrap();
    assert!(!plan.produce_window);
    assert_eq!(
        pass.enqueue_production(
            &bank,
            &batch,
            Ok(&query(3, &tokens)),
            0,
            None,
            &mut next,
            Ok(()),
            &mut gone
        )
        .err(),
        Some(Error::ProductionLayer)
    );
}

#[test]
fn production_queues_and_publishes_the_rows_of_its_source() {
    let (bank, lease) = bank();
    let batch = batch(&bank, lease, 2, 5);
    let mut pass = pass_before(&bank, &batch, 2);
    let tokens = [0u64, 1];
    let made = query(2, &tokens);
    let (mut next, mut gone) = (40u64, Vec::new());
    let mut pending = pass
        .enqueue_production_and_index(
            &bank,
            &batch,
            Ok(&made),
            0,
            Some(0),
            &mut next,
            Ok(()),
            &mut gone,
        )
        .ok()
        .unwrap();
    assert_eq!((pending.source, pending.indexing, next), (Some(0), true, 41));
    let queued = &pass.sources[0].pending_query.as_ref().unwrap().0;
    assert_eq!((queued.rows, queued.chunks.len(), queued.snapshot), (2, 1, 40));
    assert!(pass.sources[1].pending_query.is_none() && pass.sources[0].ready.is_none());
    assert!(gone.is_empty());

    // The window is published before the source is asked.
    let drained = ProductionEvents { window: Ok(true), ..WAITING };
    assert_eq!(
        pending.poll(&mut pass, &bank, &batch, drained).ok(),
        Some(ProductionAction::Wait)
    );
    assert!(pending.window_ready && !pending.source_ready);
    assert!(pass.windows[2].prepared.is_some());
    assert_eq!(
        pending.poll(&mut pass, &bank, &batch, DONE).ok(),
        Some(ProductionAction::Select { source: Some(0) })
    );
    assert_eq!(pass.sources[0].ready.as_ref().unwrap().snapshot, 40);
    assert!(pass.sources[0].pending_query.is_none());
    pending.selecting();
    assert_eq!(
        pending.poll(&mut pass, &bank, &batch, WAITING).ok(),
        Some(ProductionAction::Wait)
    );
    assert_eq!(
        pending.poll(&mut pass, &bank, &batch, DONE).ok(),
        Some(ProductionAction::Done)
    );
    assert_eq!(
        pass.queued_production,
        Some(Produced { batch: 5, layer: 2, indexed: true })
    );
    assert_eq!(
        pending.poll(&mut pass, &bank, &batch, DONE).err(),
        Some(Error::ProductionBatch)
    );
}

#[test]
fn failed_production_gives_its_source_up() {
    let (bank, lease) = bank();
    let batch = batch(&bank, lease, 2, 5);
    let tokens = [0u64, 1];
    let made = query(2, &tokens);
    let lost = Error::Device { code: 7 };
    let mut gone = Vec::new();

    // The window's failure comes first and takes no number.
    let mut pass = pass_before(&bank, &batch, 2);
    let mut next: u64 = 40;
    assert_eq!(
        pass.enqueue_production(
            &bank,
            &batch,
            Ok(&made),
            0,
            Some(0),
            &mut next,
            Err(lost),
            &mut gone
        )
        .err(),
        Some(lost)
    );
    assert_eq!(next, 40);
    assert!(pass.sources[0].pending_query.is_none());

    // Rows that are not the batch's are refused after the number is taken.
    let short = query(2, &tokens[..1]);
    assert_eq!(
        pass.enqueue_production(
            &bank,
            &batch,
            Ok(&short),
            0,
            Some(0),
            &mut next,
            Ok(()),
            &mut gone
        )
        .err(),
        Some(Error::QueuedQueryDiffers)
    );
    assert_eq!(next, 41);
    assert!(pass.sources[0].pending_query.is_none());
    assert_eq!(
        pass.enqueue_production(&bank, &batch, Err(lost), 0, None, &mut next, Ok(()), &mut gone)
            .err(),
        Some(lost)
    );

    // A part that fails later drops the queued rows.
    let mut pending = pass
        .enqueue_production(&bank, &batch, Ok(&made), 0, Some(0), &mut next, Ok(()), &mut gone)
        .ok()
        .unwrap();
    let broken = ProductionEvents { window: Err(lost), ..DONE };
    assert_eq!(pending.poll(&mut pass, &bank, &batch, broken).err(), Some(lost));
    assert!(pass.sources[0].pending_query.is_some());
    let broken = ProductionEvents { source: QueryProgress::Failed, ..DONE };
    assert_eq!(
        pending.poll(&mut pass, &bank, &batch, broken).err(),
        Some(Error::QueryExecution)
    );
    assert!(pass.sources[0].pending_query.is_none() && pass.sources[0].ready.is_none());
    assert!(pass.queued_production.is_none());
}

#[test]
fn sources_are_produced_once_and_read_by_the_layers_above() {
    let (bank, lease) = bank();
    let batch = batch(&bank, lease, 1, 5);
    assert_eq!(source_to_produce(&batch, 2), Some(0));
    assert_eq!(source_to_produce(&batch, 3), None);
    assert_eq!(source_to_produce(&batch, 20), Some(3));
    assert_eq!(source_to_read(&batch, 1, false), None);
    assert_eq!(source_to_read(&batch, 7, false), Some(0));
    assert_eq!(source_to_read(&batch, 8, false), Some(1));
    assert_eq!(source_to_read(&batch, 39, false), Some(3));
}

#[test]
fn route_costs_count_experts_and_groups() {
    assert_eq!(route_cost(&[]), Some((0, 0)));
    assert_eq!(route_cost(&[[0, 1, 2, 3, 4, 5], [0, 1, 2, 3, 4, 6]]), Some((7, 7)));
    let rows = vec![[9, 1, 2, 3, 4, 5]; 17];
    assert_eq!(route_cost(&rows), Some((6, 12)));
    assert_eq!(route_cost(&[[0, 1, 2, 3, 4, 384]]), None);
    let captured = vec![vec![[0, 1, 2, 3, 4, 5]]];
    assert_eq!(layer_cost(true, &captured, 0, 1), Some((6, 6)));
    assert_eq!(layer_cost(false, &captured, 0, 1), None);
    assert_eq!(layer_cost(true, &captured, 0, 2), None);
    assert_eq!(layer_cost(true, &captured, 1, 1), None);
}

#[test]
fn stored_windows_share_one_table() {
    let bytes = WindowBatch::bytes(32, 4);
    assert_eq!(bytes, 40 * (32 + 32 + 256));
    let batch = WindowBatch {
        entry: 32,
        capacity: 4,
        table: DeviceBuffer { device: 0, address: 1000, bytes },
    };
    let store = |base: u64| WindowStore {
        device: 0,
        destinations: vec![base, base + 1],
        ends: vec![(0, base + 2)],
    };
    let table = batch.enqueue(&[store(10), store(20)]).ok().unwrap();
    assert_eq!(table.words, vec![10, 11, 0, 12, 20, 21, 0, 22]);
    assert_eq!(table.bytes, 64 + 64);
    assert_eq!(table.entries[0].destinations, 1064);
    assert_eq!(table.entries[0].end_pairs, 1080);
    assert_eq!(table.entries[1].destinations, 1096);
    assert_eq!(batch.enqueue(&[]).err(), Some(Error::WindowBatchEmpty));
    let mut odd = store(20);
    odd.destinations.push(0);
    assert_eq!(batch.enqueue(&[store(10), odd]).err(), Some(Error::WindowBatchShape));
}

#[test]
fn producer_budgets_add_up() {
    let windows = [10; 40];
    let sources = [1, 2, 3, 4];
    assert_eq!(CacheProducerWeights::device_bytes(10240, &windows, &sources).unwrap(), 10650);
    assert!(CacheProducerWeights::load(10240, &windows, &sources, 10649).is_err());
    assert!(CacheProducerWeights::load(10240, &windows, &sources, 10650).is_ok());
    assert_eq!(
        CacheProducerWeights::device_bytes(5, &windows, &sources).unwrap_err(),
        Error::SinkBytes
    );
    assert!(CacheProducerWeights::device_bytes(10240, &[usize::MAX; 40], &sources).is_err());
    assert_eq!(CacheProducerWeights::sinks().len(), 40);
    assert_eq!(CacheProducerWeights::sinks()[3], "layers.3.attn.attn_sink");
    let bytes = BackboneExecution::workspace_bytes(7, 1, 0).unwrap();
    assert_eq!(bytes, 40 * 7 + 3 * 16508 + 13428);
    for capacity in [0u32, 4097] {
        assert!(BackboneExecution::workspace_bytes(7, capacity, 0).is_err());
    }
}

#[test]
fn two_device_passes_prepare_what_was_produced() {
    let (mut bank, lease) = bank();
    let batch = batch(&bank, lease, 3, 5);
    let mut pass = DistributedExecution::new(windows(), sources());
    assert_eq!(pass.prepare_layer(&bank, &batch, 0).err(), Some(Error::ProductionMissing));
    pass.restart_for(CacheStage::Full);
    let tokens = [0u64, 1, 2];
    let (mut next, mut gone) = (40u64, Vec::new());
    for layer in 0..40 {
        let made = query(layer, &tokens);
        let carry = if layer == 20 { None } else { Some(0) };
        let mut pending = pass
            .enqueue_production(
                &bank,
                &batch,
                Ok(&made),
                is_index_layer(layer),
                0,
                carry,
                &mut next,
                Ok(()),
                &mut gone,
            )
            .ok()
            .unwrap();
        assert_eq!(
            pass.poll_production(&mut pending, &bank, &batch, WAITING).ok(),
            Some(ProductionAction::Wait)
        );
        assert!(pass.produced.is_none());
        if let Some(ProductionAction::Select { .. }) =
            pass.poll_production(&mut pending, &bank, &batch, DONE).ok()
        {
            assert!(is_index_layer(layer));
            pending.selecting();
            pass.poll_production(&mut pending, &bank, &batch, DONE).ok().unwrap();
        }
        assert_eq!(
            pass.produced,
            Some(Produced { batch: 5, layer, indexed: is_index_layer(layer) })
        );
        let placed = pass.prepare_layer(&bank, &batch, 0).ok().unwrap();
        assert_eq!((placed.batch, placed.layer, placed.rows.len()), (5, layer, 3));
        pass.complete_layer(&batch, CompletedLayer { batch: 5, layer }, 0, 0, Ok(())).unwrap();
        if layer < 39 {
            assert!(pass.progress.next == layer + 1);
        }
    }
    pass.enqueue_cache_commit(&mut bank, &batch, &[3]).ok().unwrap();
    pass.finish_cache_commit(&mut bank, &batch, &[3], &[true; 40], &[true; 4]).unwrap();
    assert_eq!(bank.committed_end(lease).unwrap(), 3);
}

#[test]
fn two_device_passes_stay_on_their_device() {
    let (mut bank, lease) = bank();
    let batch = batch(&bank, lease, 3, 5);
    let mut pass = DistributedExecution::new(windows(), sources());
    let tokens = [0u64, 1, 2];
    let (mut next, mut gone) = (40u64, Vec::new());
    let made = query(0, &tokens);
    let mut pending = pass
        .enqueue_production(
            &bank, &batch, Ok(&made), false, 0, None, &mut next, Ok(()), &mut gone,
        )
        .ok()
        .unwrap();
    pass.poll_production(&mut pending, &bank, &batch, DONE).ok().unwrap();
    assert_eq!(pass.prepare_layer(&bank, &batch, 1).err(), Some(Error::LaneDevice));
    assert_eq!(
        pass.enqueue_cache_commit(&mut bank, &batch, &[3]).err(),
        Some(Error::PassIncomplete)
    );
}

#[test]
fn stages_own_their_windows_and_sources() {
    assert_eq!(CacheStage::default(), CacheStage::Full);
    assert_eq!(CacheStage::Full.windows(), (0, 40));
    assert_eq!(CacheStage::Encoder.windows(), (0, 20));
    assert_eq!(CacheStage::EncoderReplay.windows(), (0, 20));
    assert_eq!(CacheStage::Replay.windows(), (20, 40));
    assert_eq!(CacheStage::Full.source_count(), 4);
    assert_eq!(CacheStage::Encoder.source_count(), 4);
    assert!(CacheStage::EncoderReplay.reuses_sources());
    assert!(CacheStage::Replay.reuses_sources());
    assert!(!CacheStage::Encoder.reuses_sources());

    let encoder = CachePhase::Encoder { target: 100 };
    assert_eq!(encoder.stage(), CacheStage::Encoder);
    assert_eq!(encoder.position(40), 40);
    assert!(encoder.validate_tokens(40, 60).is_ok());
    assert_eq!(encoder.validate_tokens(40, 61).unwrap_err(), Error::PhaseTokens);
    let mut end: u64 = 40;
    let mut phase = CachePhase::Full;
    phase.advance(&mut end, 44);
    assert_eq!((end, phase), (44, CachePhase::Full));
    assert_eq!(phase.window_end(39, end), 44);
    let mut phase = CachePhase::Encoder { target: 100 };
    phase.advance(&mut end, 60);
    assert_eq!(end, 60);
    assert_eq!(phase.window_end(0, end), 60);
}

#[test]
fn a_failed_publication_stays_under_way() {
    let (bank, lease) = bank();
    let mut batch = batch(&bank, lease, 3, 5);
    batch.reserved = true;
    batch.stage = CacheStage::Encoder;
    let mut pass = DistributedExecution::new(windows(), sources());
    pass.restart_for(CacheStage::Encoder);
    pass.progress.begin(5, 0).unwrap();
    pass.progress.finish();
    let failed = Error::Device { code: 4 };
    assert_eq!(pass.enqueue_encoder_publication(&batch, 1, Ok(())).unwrap_err(), Error::PublicationLayer);
    pass.enqueue_encoder_publication(&batch, 0, Ok(())).unwrap();
    assert!(!pass.poll_encoder_publication(Ok(false)).unwrap());
    assert_eq!(
        pass.finish_encoder_publication(&batch, Ok(false), Ok(())).unwrap_err(),
        Error::PublicationIdentity
    );
    assert_eq!(pass.finish_encoder_publication(&batch, Ok(true), Err(failed)).unwrap_err(), failed);
    assert_eq!(pass.finish_encoder_publication(&batch, Err(failed), Ok(())).unwrap_err(), failed);
    assert_eq!(pass.publication, Some((5, 0)));
    assert_eq!(pass.finish_encoder_publication(&batch, Ok(true), Ok(())).unwrap(), 0);
    assert_eq!(
        pass.finish_encoder_publication(&batch, Ok(true), Ok(())).unwrap_err(),
        Error::PublicationAbsent
    );
}
