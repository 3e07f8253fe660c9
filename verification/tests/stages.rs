use ds41rt_daemon::attention_binding::QueryBinding;
use ds41rt_daemon::attention_output::{
    AttentionOutput, AttentionOutputWave, AttentionOutputWeights, QueuedSparseAttention,
    SparseAttentionOutput,
};
use ds41rt_daemon::attention_query::{AttentionQueryWave, AttentionQueryWeights, QueryBuffers};
use ds41rt_daemon::backbone_cache::plan::{ExpertRow, WorkKind};
use ds41rt_daemon::block::transfer::BlockTransfer;
use ds41rt_daemon::block::{
    BackboneBlockWave, BlockOutput, BlockPhase, FfnInput, TargetEmbedding,
};
use ds41rt_daemon::device::{DeviceBuffer, DeviceCopy};
use ds41rt_daemon::engram::gate::{engram_layer, EngramGate, EngramLayerWeights};
use ds41rt_daemon::engram::{
    EngramDeviceRows, EngramDeviceView, EngramEncoding, EngramGatherPoll, EngramGatherView,
    EngramUploadPoll,
};
use ds41rt_daemon::error::Error;
use ds41rt_daemon::graphs::{captured, replayed, CachedGraph, CaptureStep};
use ds41rt_daemon::router::request::RequestSource;
use ds41rt_daemon::router::{
    request_hidden_format, BackboneRouterWave, BackboneRouterWeights, ExpertV2Dtype,
    RouterBuffers, RouterPart,
};
use ds41rt_daemon::shared_ffn::{BackboneSharedWave, BackboneSharedWeights, SharedBuffers};
use ds41rt_daemon::wave_state::StageState;

fn at(address: usize, bytes: usize) -> DeviceBuffer {
    DeviceBuffer { device: 0, address, bytes }
}

fn block(layer: usize, capacity: usize) -> BackboneBlockWave {
    BackboneBlockWave {
        layer,
        capacity,
        residual: at(0x1_0000_0000, capacity * 40960),
        pre: at(0x2_0000_0000, capacity * 16),
        ffn_residual: at(0x3_0000_0000, capacity * 40960),
        ffn_pre: at(0x4_0000_0000, capacity * 16),
        out_residual: at(0x5_0000_0000, capacity * 40960),
        out_pre: at(0x6_0000_0000, capacity * 16),
        tokens: vec![],
        phase: BlockPhase::Idle,
    }
}

fn attention_output(binding: QueryBinding, rows: usize) -> AttentionOutput {
    AttentionOutput {
        origin: Some(binding),
        layer: binding.layer,
        rows,
        input: at(0x10_0000_0000, rows * 65536),
        grouped: at(0x11_0000_0000, rows * 16384),
        projected: at(0x12_0000_0000, rows * 10240),
        positions: at(0x13_0000_0000, rows * 8),
        frequencies: at(0x14_0000_0000, rows * 256),
    }
}

#[test]
fn a_block_runs_attention_then_its_feed_forward_half() {
    let mut wave = block(0, 4);
    let embedding = TargetEmbedding {
        token_ids: &[5, 6],
        positions: &[0, 1],
        residual: at(0x7_0000_0000, 2 * 40960),
        pre: at(0x8_0000_0000, 32),
    };
    let copies = wave.initialize_embedding(&embedding).ok().unwrap();
    assert_eq!(copies[0].destination, at(0x1_0000_0000, 2 * 40960));
    assert_eq!(copies[1].source, embedding.pre);
    let binding = QueryBinding { layer: 0, identity: 9 };
    assert_eq!(
        wave.begin_attention(1, 0, &[0, 1], Ok(binding)).unwrap_err(),
        Error::BlockAttention
    );
    assert_eq!(
        wave.begin_attention(0, 1, &[0, 1], Ok(binding)).unwrap_err(),
        Error::BlockQueryDevice
    );
    wave.begin_attention(0, 0, &[0, 1], Ok(binding)).unwrap();
    assert_eq!(wave.phase, BlockPhase::Attention { binding, rows: 2 });
    let other = QueryBinding { layer: 0, identity: 10 };
    let values = at(0x9_0000_0000, 2 * 10240);
    assert!(wave.begin_ffn(&attention_output(other, 2), Ok(values)).is_err());
    let mut wave = block(0, 4);
    assert_eq!(
        wave.begin_embedded_attention(1, 0, &embedding, Ok(binding)).unwrap_err(),
        Error::BlockQueryLayer
    );
    wave.begin_embedded_attention(0, 0, &embedding, Ok(binding)).unwrap();
    let input = wave.begin_ffn(&attention_output(binding, 2), Ok(values)).ok().unwrap();
    assert_eq!(input.binding(), binding);
    assert_eq!((input.layer, input.tokens.len(), input.values), (0, 2, values));
    assert_eq!(wave.output().err(), Some(Error::BlockUnpublished));
    assert_eq!(wave.check_finish(other, values).unwrap_err(), Error::BlockFfnResult);
    wave.finish_ffn(binding, values, false, Ok(())).unwrap();
    let output = wave.output().ok().unwrap();
    assert_eq!((output.binding(), output.layer, output.tokens), (binding, 0, [0u64, 1].as_slice()));
    assert_eq!(output.residual, at(0x5_0000_0000, 2 * 40960));
    assert!(wave.check_advance(1).unwrap());
    assert_eq!(wave.check_advance(2).unwrap_err(), Error::BlockAdvanceLayer);
    wave.advance(1, Ok(())).unwrap();
    assert_eq!(wave.pending_engram().ok().unwrap(), (1, [0u64, 1].as_slice()));
    assert!(wave.prepared_input().is_err());
    wave.apply_engram(1, 2, Ok(())).unwrap();
    assert_eq!(wave.prepared_input().ok().unwrap().previous_binding(), binding);
    let next = QueryBinding { layer: 1, identity: 11 };
    wave.begin_prepared_attention(1, 0, Ok(next)).unwrap();
    wave.enqueue_ffn(next, 2, at(0x12_0000_0000, 2 * 10240), Ok(())).unwrap();
    let input = wave.complete_queued_ffn(values, Ok(())).ok().unwrap();
    assert_eq!(input.binding(), next);
    assert!(wave
        .finish_ffn(next, values, true, Err(Error::Device { code: 2 }))
        .is_err());
    assert!(wave.output().is_err());
}

#[test]
fn a_foreign_engram_update_resets_the_block() {
    let mut wave = block(1, 4);
    let binding = QueryBinding { layer: 0, identity: 9 };
    wave.tokens = vec![3];
    wave.phase = BlockPhase::Prepared { binding, rows: 1, ready: false };
    assert_eq!(wave.apply_engram(2, 1, Ok(())).unwrap_err(), Error::BlockEngramRows);
    assert_eq!(wave.phase, BlockPhase::Idle);
    assert_eq!(wave.apply_engram(1, 1, Ok(())).unwrap_err(), Error::BlockEngram);
}

#[test]
fn imported_blocks_start_as_local_ones() {
    let mut first = block(0, 4);
    let binding = QueryBinding { layer: 0, identity: 9 };
    let values = at(0x9_0000_0000, 10240);
    first.begin_attention(0, 0, &[7], Ok(binding)).unwrap();
    first.begin_ffn(&attention_output(binding, 1), Ok(values)).ok().unwrap();
    first.finish_ffn(binding, values, false, Ok(())).unwrap();
    let output = first.output().ok().unwrap();

    let mut local = block(1, 4);
    let copies = local.previous_copies(&output).ok().unwrap();
    assert_eq!(copies[0].source, output.residual);
    local.initialize_previous(&output, Ok(())).unwrap();

    let mut peer = block(1, 4);
    peer.residual.device = 1;
    peer.pre.device = 1;
    assert_eq!(peer.previous_copies(&output).err(), Some(Error::PreviousBlockDevice));
    assert!(BlockTransfer::new(0, 0).is_err());
    let transfer = BlockTransfer::new(0, 1).unwrap();
    let copies = peer.import_copies(1, &output, transfer).ok().unwrap();
    assert_eq!(copies[1].source, output.pre);
    assert_eq!(copies[1].destination.device, 1);
    peer.import_previous(1, &output, transfer, Ok(())).unwrap();
    assert_eq!((peer.phase, peer.tokens.clone()), (local.phase, local.tokens.clone()));
    assert!(peer
        .import_previous(2, &output, transfer, Ok(()))
        .is_err());
}

#[test]
fn queries_publish_only_finished_work_under_new_bindings() {
    let weights = AttentionQueryWeights { library: 3, layer: 5, device: 0, split: false };
    let buffers = QueryBuffers {
        hidden: at(1, 8 * 10240),
        raw_rank: at(2, 8 * 2560),
        normalized_rank: at(3, 8 * 2560),
        rotated: at(4, 8 * 65536),
        positions: at(5, 64),
        frequencies: at(6, 8 * 256),
    };
    let needed = AttentionQueryWave::device_bytes(8, 5, 6).unwrap();
    assert_eq!(needed, 8 * 81160 + 15);
    assert_eq!(
        weights.wave(8, [5, 6], needed - 1, buffers).err(),
        Some(Error::QueryWaveBudget)
    );
    let sizes = weights.layout(8, [5, 6], needed).unwrap();
    assert_eq!(sizes, [4, 81920, 20480, 20480, 524288, 64, 2048, 5, 6]);
    assert_eq!(sizes.iter().sum::<usize>(), needed);
    // The first matrix alone is held of a split query.
    let split = AttentionQueryWeights { split: true, ..weights };
    assert_eq!(split.layout(8, [5, 6], needed - 6).unwrap()[7..], [5, 0]);
    assert_eq!(split.layout(8, [5, 6], needed - 7).unwrap_err(), Error::QueryWaveBudget);
    assert!(split.wave(8, [5, 6], needed - 7, buffers).is_err());
    assert!(split.wave(8, [5, 6], needed - 6, buffers).is_ok());
    assert_eq!(weights.wave(0, [0, 0], 4, buffers).ok().unwrap().state.capacity, 0);
    assert_eq!(weights.wave(5000, [0, 0], usize::MAX, buffers).ok().unwrap().state.capacity, 5000);
    assert_eq!(
        AttentionQueryWeights::load(3, 40, 0, 2, [3, 4], 9).unwrap_err(),
        Error::QueryLayer
    );
    assert_eq!(
        AttentionQueryWeights::load(3, 5, 0, 2, [3, 4], 8).unwrap_err(),
        Error::QueryWeightsBudget
    );
    assert_eq!(AttentionQueryWeights::load(3, 5, 0, 2, [3, 4], 9).unwrap(), weights);
    assert!(AttentionQueryWeights::load_with_split(3, 5, 0, 2, [3, 4], 4, true).is_err());
    assert_eq!(AttentionQueryWeights::load_with_split(3, 5, 0, 2, [3, 4], 5, true).unwrap(), split);
    assert_eq!(
        AttentionQueryWeights::load(3, 5, 0, usize::MAX, [1, 0], usize::MAX).unwrap_err(),
        Error::QueryWeightsBudget
    );
    assert_eq!(AttentionQueryWave::device_bytes(5000, 1, 2).unwrap(), 5000 * 81160 + 7);
    let mut wave = weights.wave(8, [5, 6], needed, buffers).ok().unwrap();
    assert!(wave.output().is_err());
    let mut next: u64 = 40;
    let first = wave.begin_tokens(&mut next, &[1, 2]).unwrap();
    wave.finish_tokens(first, &[1, 2], Ok(())).unwrap();
    let output = wave.output().ok().unwrap();
    assert_eq!(output.binding().unwrap(), first);
    assert_eq!(output.tokens().unwrap(), &[1, 2]);
    assert_eq!(output.rotated.bytes, 2 * 65536);
    let second = wave.begin_tokens(&mut next, &[3]).unwrap();
    assert_ne!(first, second);
    assert!(wave.output().is_err());
    assert!(wave.finish_tokens(second, &[3], Err(Error::Device { code: 9 })).is_err());
    assert!(wave.output().is_err());
    assert_eq!(wave.begin_tokens(&mut next, &[]).unwrap_err(), Error::QueryTokens);
    let third = wave.begin_tokens(&mut next, &[3]).unwrap();
    wave.finish_tokens(third, &[3], Ok(())).unwrap();
    // Too many tokens leave what is published alone.
    assert_eq!(
        wave.begin_tokens_cooperative(&mut next, &[1; 9]).unwrap_err(),
        Error::QueryRows
    );
    assert_eq!(wave.output().ok().unwrap().binding().unwrap(), third);
    assert_eq!(wave.begin_tokens(&mut next, &[1_048_576]).unwrap_err(), Error::QueryTokens);
    next = u64::MAX;
    assert_eq!(
        wave.begin_tokens(&mut next, &[1]).unwrap_err(),
        Error::QueryBindingsExhausted
    );
    let other = AttentionQueryWeights { layer: 6, ..weights };
    assert_eq!(wave.rebind(other, false).unwrap_err(), Error::StreamBusy);
    wave.rebind(other, true).unwrap();
    assert_eq!(wave.layer(), 6);
    let foreign = AttentionQueryWeights { library: 4, ..weights };
    assert_eq!(wave.rebind(foreign, true).unwrap_err(), Error::AttentionRebound);
    assert_eq!(AttentionQueryWave::device_bytes_with_split(2, 5, 7, false).unwrap(), 2 * 81160 + 16);
    assert_eq!(AttentionQueryWave::device_bytes_with_split(2, 5, 7, true).unwrap(), 2 * 81160 + 9);
    assert_eq!(AttentionQueryWeights::device_bytes_with_split(1, 2, 3, false).unwrap(), 6);
    let names = AttentionQueryWeights::names(5, false).ok().unwrap();
    assert!(names.iter().all(|name| name.starts_with("layers.5.attn.")));
    assert!(AttentionQueryWeights::names(5, true).ok().unwrap().len() < names.len());
}

#[test]
fn attention_outputs_keep_the_query_that_made_them() {
    let weights = AttentionOutputWeights { library: 3, layer: 5, device: 0, split: false };
    let buffers =
        [at(1, 8 * 65536), at(2, 8 * 16384), at(3, 8 * 10240), at(4, 64), at(5, 2048)];
    let needed = AttentionOutputWave::device_bytes_with_split(8, 10, 20, false).unwrap();
    assert_eq!(needed, 8 * 92424 + 34);
    let sizes = weights.layout(8, [10, 20], needed).unwrap();
    assert_eq!(sizes, [4, 524288, 131072, 81920, 64, 2048, 10, 20]);
    assert_eq!(sizes.iter().sum::<usize>(), needed);
    assert_eq!(
        weights.layout(8, [10, 20], needed - 1).unwrap_err(),
        Error::OutputWaveBudget
    );
    assert_eq!(
        weights.wave(8, [10, 20], needed - 1, buffers).err(),
        Some(Error::OutputWaveBudget)
    );
    assert_eq!(weights.wave(5000, [0, 0], usize::MAX, buffers).ok().unwrap().state.capacity, 5000);
    assert_eq!(
        AttentionOutputWeights::load(3, 40, 0, 2, [3, 4], 9).unwrap_err(),
        Error::OutputLayer
    );
    assert_eq!(
        AttentionOutputWeights::load(3, 5, 0, 2, [3, 4], 8).unwrap_err(),
        Error::OutputWeightsBudget
    );
    assert_eq!(AttentionOutputWeights::load(3, 5, 0, 2, [3, 4], 9).unwrap(), weights);
    let foreign = AttentionOutputWeights { device: 1, ..weights };
    assert_eq!(
        foreign.wave(8, [10, 20], needed, buffers).err(),
        Some(Error::OutputWeightDevice)
    );
    let mut wave = weights.wave(8, [10, 20], needed, buffers).ok().unwrap();
    assert_eq!((wave.input(), wave.positions()), (buffers[0], buffers[3]));
    wave.execute(2, Ok(())).unwrap();
    assert!(wave.output().ok().unwrap().binding().is_err());
    let graph = CachedGraph { handle: 4, rows: 2 };
    assert!(wave.capture(2, Some(graph), Ok(())).is_err());
    wave.capture(2, None, Ok(())).unwrap();
    assert!(wave.output().is_err());
    assert_eq!(wave.replay(2, Some(graph), Ok(())).unwrap(), 4);
    assert_eq!(wave.output().ok().unwrap().rows, 2);
    wave.clear_graph(Ok(())).unwrap();
    assert!(wave.output().is_err());
    assert!(wave.replay(2, None, Ok(())).is_err());
    let binding = QueryBinding { layer: 5, identity: 8 };
    let attention = SparseAttentionOutput {
        binding: Some(binding),
        tokens: &[4, 5],
        layer: 5,
        rows: 2,
        values: at(6, 2 * 65536),
    };
    assert!(wave.output().is_err());
    wave.execute_attention(&attention, Ok(())).unwrap();
    let output = wave.output().ok().unwrap();
    assert_eq!(output.binding().unwrap(), binding);
    assert_eq!(output.projected.bytes, 2 * 10240);
    let empty = SparseAttentionOutput { tokens: &[], rows: 0, values: at(6, 0), ..attention };
    assert_eq!(wave.execute_attention(&empty, Ok(())).unwrap_err(), Error::OutputRows);
    assert!(wave.output().is_err());
    let wrong = SparseAttentionOutput { layer: 6, ..attention };
    assert_eq!(wave.check_attention(&wrong).unwrap_err(), Error::OutputOrigin);
    assert!(wave.output().is_err());
    let queued = QueuedSparseAttention { values: at(6, 2 * 65536), rows: 2, layer: 5 };
    assert_eq!(wave.enqueue_attention(queued, &[4, 5]).unwrap(), at(3, 2 * 10240));
    assert!(wave.output().is_err());
    assert!(wave.finish_tp2(2, true, 0, 3).is_err());
    assert_eq!(
        AttentionOutputWave::device_bytes_with_split(1, 10, 20, false).unwrap(),
        92424 + 34
    );
    assert!(AttentionOutputWeights::names(40, false).is_err());
}

fn router(nvfp4: bool, staging: usize) -> BackboneRouterWave {
    let weights = BackboneRouterWeights { library: 3, layer: 5, devices: [0; 3], nvfp4 };
    let buffers = RouterBuffers {
        input: at(1, 4 * 10240),
        mask: at(2, 4),
        scores: at(3, 4 * 1536),
        ids: at(4, 96),
        routing: at(5, 96),
        expert_input: at(6, 4 * 5280),
        staging,
    };
    BackboneRouterWave::new(weights, 4, usize::MAX, buffers).ok().unwrap()
}

fn ffn_input(tokens: &[u64]) -> FfnInput<'_> {
    FfnInput {
        residual: at(10, tokens.len() * 40960),
        incoming_pre: at(11, tokens.len() * 16),
        values: at(12, tokens.len() * 10240),
        layer: 5,
        tokens,
        binding: QueryBinding { layer: 5, identity: 77 },
    }
}

#[test]
fn expert_request_wire_format_tracks_nvfp4_checkpoint() {
    assert_eq!(request_hidden_format(false), (ExpertV2Dtype::Fp8E4m3Ue8m0K32, 5280));
    assert_eq!(request_hidden_format(true), (ExpertV2Dtype::Bf16, 10240));
    for nvfp4 in [false, true] {
        for rows in [1usize, 16, 80, 4096] {
            let (_, width) = request_hidden_format(nvfp4);
            let hidden = rows * width;
            let ids = rows * 24;
            let arena = vec![0xa5u8; rows * (width + 48)];
            let (h, routes) = arena.split_at(hidden);
            let (i, w) = routes.split_at(ids);
            assert_eq!((h.len(), i.len(), w.len()), (rows * width, rows * 24, rows * 24));
        }
    }
}

#[test]
fn expert_requests_tie_rows_to_their_routes() {
    for nvfp4 in [false, true] {
        let width = request_hidden_format(nvfp4).1;
        let mut wave = router(nvfp4, 4 * (width + 48));
        let tokens = [3u64, 9];
        let input = ffn_input(&tokens);
        assert_eq!(wave.execute_ffn(&input, &[1, 2], Ok(())).unwrap_err(), Error::RouterInput);
        wave.execute_ffn(&input, &[1, 0], Ok(())).unwrap();
        let output = wave.output().ok().unwrap();
        assert_eq!(output.binding().unwrap(), input.binding);
        assert_eq!(
            output.download_request().unwrap(),
            RequestSource::Staged {
                ids: 2 * width,
                weights: 2 * width + 48,
                end: 2 * width + 96
            }
        );
        let row = |position: u64| ExpertRow {
            request_id: 100 + position,
            position,
            kind: WorkKind::Prefill,
        };
        let rows = [row(3), row(9)];
        assert_eq!(output.validate_request_rows(&rows).unwrap(), input.binding);
        assert_eq!(
            output.validate_request_rows(&[row(3), row(8)]).unwrap_err(),
            Error::RequestRows
        );
        let ids: Vec<u32> = (0..12).map(|i| i * 7).collect();
        let gates: Vec<u32> = (0..12).map(|i| 0x3f00_0000 + i).collect();
        let mut next: u64 = 50;
        let request = output
            .expert_request(&mut next, 6, &rows, vec![1; 2 * width], &ids, &gates, Ok(()))
            .ok()
            .unwrap();
        assert!(request.compact_bf16);
        let refused = Err(Error::Device { code: 5 });
        assert_eq!(
            output
                .expert_request(&mut next, 6, &rows, vec![1; 2 * width], &ids, &gates, refused)
                .err(),
            Some(Error::Device { code: 5 })
        );
        assert_eq!(next, 52);
        next = 51;
        assert_eq!((request.request_id, next, request.placement, request.layer), (50, 51, 6, 5));
        assert_eq!(request.binding(), input.binding);
        assert_eq!(request.hidden.len(), 2 * width);
        assert_eq!((request.rows[1].route_offset, request.rows[1].route_count), (6, 6));
        assert_eq!(request.rows[1].source_request_id, 109);
        for (index, route) in request.routes.iter().enumerate() {
            assert_eq!(route.row_index as usize, index / 6);
            assert_eq!((route.expert_id, route.gate_bits), (ids[index], gates[index]));
        }
        next = u64::MAX;
        assert_eq!(
            output
                .expert_request(&mut next, 6, &rows, vec![1; 2 * width], &ids, &gates, Ok(()))
                .err(),
            Some(Error::ExpertIdsExhausted)
        );
    }
}

#[test]
fn local_routing_keeps_only_expert_numbers() {
    let mut wave = router(false, 4 * (5280 + 48));
    assert!(wave.full_request);
    assert_eq!(wave.set_local_mode(true, false).unwrap_err(), Error::StreamBusy);
    assert!(wave.set_local_mode(true, true).unwrap());
    assert!(!wave.set_local_mode(true, false).unwrap());
    let tokens = [3u64];
    wave.execute_ffn(&ffn_input(&tokens), &[1], Ok(())).unwrap();
    let downloads = wave.downloads(1).ok().unwrap();
    assert_eq!(downloads.len(), 1);
    assert_eq!((downloads[0].part, downloads[0].bytes), (RouterPart::Ids, 24));
    let output = wave.output().ok().unwrap();
    let words: Vec<u32> = (0..(4 * 5328 / 4)).collect();
    let routes = output.capture_route_ids(&words).ok().unwrap();
    assert_eq!(routes.len(), 1);
    let rows = [ExpertRow { request_id: 1, position: 3, kind: WorkKind::Decode }];
    let mut next: u64 = 1;
    assert_eq!(
        output
            .expert_request(&mut next, 6, &rows, vec![0; 5280], &[0; 6], &[0; 6], Ok(()))
            .err(),
        Some(Error::LocalRouting)
    );
    assert_eq!(next, 2);
    assert_eq!(wave.inputs(), [at(1, 4 * 10240), at(2, 4)]);
    assert_eq!(wave.execute_captured(1, None, Ok(()), Ok(9), Ok(())).unwrap(), 9);
    let kept = Some(CachedGraph { handle: 5, rows: 1 });
    assert_eq!(wave.execute_captured(1, kept, Ok(()), Ok(9), Ok(())).unwrap(), 5);
    assert_eq!(wave.output().ok().unwrap().rows, 1);
    let cached = Some(CachedGraph { handle: 9, rows: 1 });
    assert!(wave.execute_captured(1, cached, Ok(()), Ok(9), Err(Error::Device { code: 1 })).is_err());
    assert!(wave.output().is_err());
    let weights = BackboneRouterWeights { library: 3, layer: 6, devices: [0; 3], nvfp4: true };
    assert_eq!(wave.rebind(weights, true).unwrap_err(), Error::RouterFormat);
    assert_eq!(BackboneRouterWave::device_bytes(2).unwrap(), 2 * 17105);
    assert!(BackboneRouterWave::device_bytes(0).is_err());
    assert_eq!(BackboneRouterWeights::names(5).ok().unwrap()[0], "layers.5.ffn.gate.weight");
}

#[test]
fn shared_experts_publish_under_the_block_binding() {
    let weights = BackboneSharedWeights { library: 3, layer: 5 };
    let buffers = SharedBuffers {
        input: at(1, 4 * 10240),
        result: at(2, 4 * 10240),
        intermediates: [at(3, 4 * 4608), at(4, 4 * 4608), at(5, 4 * 4608)],
    };
    let needed = 4 * 20480 + 8;
    assert_eq!(
        BackboneSharedWave::new(weights, 4, 8, needed - 1, buffers).err(),
        Some(Error::SharedWaveBudget)
    );
    assert!(BackboneSharedWave::new(weights, 5000, 8, usize::MAX, buffers).is_ok());
    assert_eq!(
        BackboneSharedWeights::load(3, 40, 2, 3, 4, 12).err(),
        Some(Error::SharedLayer)
    );
    assert_eq!(
        BackboneSharedWeights::load(3, 5, 2, 3, 4, 11).err(),
        Some(Error::SharedWeightsBudget)
    );
    assert_eq!(BackboneSharedWeights::load(3, 5, 2, 3, 4, 12).ok(), Some(weights));
    let mut wave = BackboneSharedWave::new(weights, 4, 8, needed, buffers).ok().unwrap();
    let tokens = [3u64, 4];
    let input = ffn_input(&tokens);
    wave.execute_ffn(&input, Ok(())).unwrap();
    let output = wave.output().ok().unwrap();
    assert_eq!(output.binding().unwrap(), input.binding);
    assert_eq!((output.rows, output.values), (2, at(2, 2 * 10240)));
    assert!(wave.execute_ffn(&input, Err(Error::Device { code: 1 })).is_err());
    assert!(wave.output().is_err());
    wave.rebind(BackboneSharedWeights { library: 3, layer: 6 }, true).unwrap();
    assert_eq!(wave.execute_ffn(&input, Ok(())).unwrap_err(), Error::SharedInput);
}

#[test]
fn graphs_are_kept_only_when_whole() {
    let lost = Error::Device { code: 1 };
    assert_eq!(captured(Ok(()), Ok(5)), CaptureStep::Keep { graph: 5 });
    assert_eq!(captured(Err(lost), Ok(5)), CaptureStep::Discard { graph: 5, reason: lost });
    assert!(matches!(captured(Ok(()), Err(lost)), CaptureStep::Fail { .. }));
    let cached = Some(CachedGraph { handle: 6, rows: 2 });
    let (missing, differs) = (Error::SharedGraphMissing, Error::SharedGraphRows);
    assert_eq!(replayed(cached, 2, missing, differs).unwrap(), 6);
    assert_eq!(replayed(cached, 3, missing, differs).unwrap_err(), differs);
    assert_eq!(replayed(None, 3, missing, differs).unwrap_err(), missing);
    let mut state = StageState::new(4, AttentionOutputWave::errors());
    assert!(state.execute(5, Ok(())).is_err());
    state.execute(2, Ok(())).unwrap();
    assert_eq!(state.rows().unwrap(), 2);
    state.clear();
    assert!(state.rows().is_err());
}

#[test]
fn gathered_rows_are_uploaded_side_by_side() {
    let sizes = EngramDeviceRows::layout(2, 2 * 18625).unwrap();
    assert_eq!(sizes, [12288, 384, 24576, 2, 12674]);
    assert_eq!(EngramDeviceRows::layout(2, 2 * 18625 - 1).unwrap_err(), Error::EngramBudget);
    assert_eq!(EngramDeviceRows::device_bytes(0).unwrap_err(), Error::EngramCapacity);
    let mut rows = EngramDeviceRows::new(
        2,
        2 * 18625,
        at(0x1000, sizes[0]),
        at(0x10_0000, sizes[1]),
        at(0x20_0000, sizes[2]),
        at(0x30_0000, sizes[3]),
    )
    .ok()
    .unwrap();
    for encoding in [EngramEncoding::Fp8, EngramEncoding::Nvfp4] {
        let weights = vec![0; 24 * encoding.weight_bytes()];
        let scales = vec![0; 24 * encoding.scale_bytes()];
        let gathered = EngramGatherView {
            weights: &weights,
            scales: &scales,
            text_mask: &[1],
            rows: 1,
            layer_index: 0,
            encoding,
        };
        let uploads = rows.uploads(&gathered);
        assert_eq!(uploads[1].offset, weights.len());
        assert_eq!(uploads[2].offset, weights.len() + scales.len());
        let expected = match encoding {
            EngramEncoding::Fp8 => at(0x10_0000, sizes[1]),
            EngramEncoding::Nvfp4 => at(0x1000 + 24 * 128, 24 * 16),
        };
        assert_eq!(uploads[1].destination, expected);
        let view = rows.upload(&gathered, Ok(())).unwrap();
        assert_eq!((view.rows, view.embeddings.bytes), (1, 12288));
        assert!(rows.upload(&gathered, Err(Error::Device { code: 4 })).is_err());
        assert!(rows.view().is_err());
        let bad = EngramGatherView { text_mask: &[2], ..gathered };
        assert_eq!(rows.check_upload(&bad).unwrap_err(), Error::EngramStorage);
        let bad = EngramGatherView { text_mask: &[1], layer_index: 2, ..bad };
        assert_eq!(rows.check_upload(&bad).unwrap_err(), Error::EngramDimensions);
        assert_eq!(
            rows.poll_upload(Ok(EngramGatherPoll::Pending), Ok(())).unwrap(),
            EngramUploadPoll::Pending
        );
        assert_eq!(
            rows.poll_upload(Ok(EngramGatherPoll::Cancelled), Ok(())).unwrap(),
            EngramUploadPoll::Cancelled
        );
    }
}

#[test]
fn gates_stage_inputs_and_replay_their_shape() {
    assert_eq!(engram_layer(0).unwrap(), 1);
    assert_eq!(engram_layer(1).unwrap(), 14);
    assert!(engram_layer(2).is_err());
    let weights = EngramLayerWeights { layer_index: 1, resident: 0 };
    let needed = EngramGate::device_bytes(2, 100).unwrap();
    assert_eq!(needed, 2 * (2 * 40960 + 51200 + 12288 + 1) + 104);
    let setup = |budget: usize| {
        EngramGate::new(
            weights,
            2,
            100,
            budget,
            at(0x100_0000, 2 * 40960),
            at(0x200_0000, 2 * 12288),
            at(0x300_0000, 2),
            at(0x400_0000, 2 * 40960),
        )
    };
    assert_eq!(setup(needed - 1).err(), Some(Error::GateBudget));
    let mut gate = setup(needed).ok().unwrap();
    assert_eq!(gate.layer(), 14);
    let gathered = EngramDeviceView {
        embeddings: at(0x500_0000, 12288),
        text_mask: at(0x600_0000, 1),
        rows: 1,
        layer_index: 1,
    };
    let residual = at(0x700_0000, 40960);
    let copies = gate.stage_inputs(residual, gathered).ok().unwrap();
    assert_eq!(copies.len(), 3);
    assert_eq!(copies[0].destination.address, 0x100_0000);
    assert_eq!(gate.stage_inputs(gate.residual, gathered).ok().unwrap().len(), 2);
    let wrong = EngramDeviceView { layer_index: 0, ..gathered };
    assert_eq!(gate.stage_inputs(residual, wrong).err(), Some(Error::GateLayer));
    assert!(gate.cold(1));
    assert!(gate.replay(residual, gathered, Ok(())).is_err());
    gate.capture(residual, gathered, Ok(())).unwrap();
    let (kept, dropped) = gate.capture_ready(1, Ok(()), Ok(55));
    assert!(kept.is_ok() && dropped.is_none());
    assert!(!gate.cold(1));
    let output = gate.replay(residual, gathered, Ok(())).unwrap();
    assert_eq!(output, at(0x400_0000, 40960));
    assert_eq!(gate.output().unwrap(), output);
    assert_eq!(gate.clear_graph(true).unwrap(), Some(55));
    assert!(EngramLayerWeights::names(0).ok().unwrap().iter().all(|n| n.starts_with("layers.1.")));
}

#[test]
fn inputs_reach_the_router_through_pinned_memory() {
    let mut wave = router(false, 2);
    let staged = wave.stage_inputs(at(12, 2 * 10240), &[1, 0]).unwrap();
    assert_eq!(
        staged.hidden,
        DeviceCopy { destination: at(1, 2 * 10240), source: at(12, 2 * 10240) }
    );
    assert_eq!(staged.mask, at(2, 2));
    for (input, mask) in [
        (at(12, 0), vec![]),
        (at(12, 5 * 10240), vec![0; 5]),
        (at(12, 10240), vec![0; 2]),
        (DeviceBuffer { device: 1, ..at(12, 10240) }, vec![0]),
        (at(12, 10240), vec![2]),
        (at(12, 3 * 10240), vec![0; 3]),
    ] {
        assert_eq!(wave.stage_inputs(input, &mask).unwrap_err(), Error::RouterStaged);
    }
    let tokens = [3u64, 4, 5];
    assert_eq!(
        wave.execute_ffn(&ffn_input(&tokens), &[0; 3], Ok(())).unwrap_err(),
        Error::RouterStaged
    );
    assert!(wave.output().is_err());
    wave.execute_ffn(&ffn_input(&tokens[..2]), &[0; 2], Ok(())).unwrap();
    assert_eq!(wave.output().ok().unwrap().rows, 2);
}

#[test]
fn router_storage_adds_up() {
    let sizes = BackboneRouterWave::layout(2, false, 34210).unwrap();
    assert_eq!(sizes, [20480, 2, 3072, 48, 48, 10560, 10656]);
    assert_eq!(sizes[..6].iter().sum::<usize>(), BackboneRouterWave::device_bytes(2).unwrap());
    assert_eq!(BackboneRouterWave::layout(2, true, 34210).unwrap()[6], 20576);
    assert_eq!(
        BackboneRouterWave::layout(2, true, 34209).unwrap_err(),
        Error::RouterWaveBudget
    );
    assert_eq!(
        BackboneRouterWave::layout(4097, true, usize::MAX).unwrap_err(),
        Error::RouterCapacity
    );
    let wave = router(false, BackboneRouterWave::layout(4, false, 68420).unwrap()[6]);
    for rows in 1..=4u32 {
        let parts = wave.downloads(rows).ok().unwrap();
        assert_eq!(parts.len(), 3);
        let end = parts[2].offset + parts[2].bytes;
        assert_eq!(end, rows as usize * 5328);
        assert!(end <= wave.buffers.staging);
    }
}

#[test]
fn only_encoded_rows_are_quantized() {
    assert_eq!(router(false, 0).quantization(), Some((at(1, 4 * 10240), at(6, 4 * 5280))));
    assert_eq!(router(true, 0).quantization(), None);
}

#[test]
fn failed_feed_forward_work_leaves_no_input() {
    let binding = QueryBinding { layer: 0, identity: 9 };
    let values = at(0x9_0000_0000, 10240);
    let lost = Err(Error::Device { code: 6 });
    let mut wave = block(0, 4);
    wave.begin_attention(0, 0, &[7], Ok(binding)).unwrap();
    assert_eq!(
        wave.enqueue_ffn(binding, 1, at(0x12_0000_0000, 10240), lost).unwrap_err(),
        Error::Device { code: 6 }
    );
    assert_eq!(wave.phase, BlockPhase::QueuedFfn { binding, rows: 1 });
    assert!(wave.pending_ffn(values).is_err());
    let mut wave = block(0, 4);
    wave.begin_attention(0, 0, &[7], Ok(binding)).unwrap();
    wave.enqueue_ffn(binding, 1, at(0x12_0000_0000, 10240), Ok(())).unwrap();
    assert_eq!(
        wave.complete_queued_ffn(values, lost).err(),
        Some(Error::Device { code: 6 })
    );
    assert!(wave.pending_ffn(values).is_err());
}

#[test]
fn a_decoder_block_is_bound_before_its_rows_are_copied() {
    let lost = Err(Error::Device { code: 3 });
    let encoder = |layer: usize, device: i32| BlockOutput {
        binding: QueryBinding { layer, identity: 9 },
        residual: DeviceBuffer { device, address: 0x20_0000_0000, bytes: 40960 },
        pre: DeviceBuffer { device, address: 0x21_0000_0000, bytes: 16 },
        layer,
        tokens: &[9],
    };
    let mut wave = block(7, 4);
    assert_eq!(
        wave.initialize_decoder(20, &encoder(18, 0), Ok(()), Ok(())).unwrap_err(),
        Error::DecoderBoundary
    );
    assert_eq!((wave.layer, wave.phase), (7, BlockPhase::Idle));
    assert!(wave.initialize_decoder(20, &encoder(19, 0), lost, Ok(())).is_err());
    assert_eq!(wave.layer, 7);
    assert_eq!(
        wave.initialize_decoder(20, &encoder(19, 1), Ok(()), Ok(())).unwrap_err(),
        Error::PreviousBlockDevice
    );
    assert_eq!((wave.layer, wave.phase), (20, BlockPhase::Idle));
    let mut wave = block(7, 4);
    assert!(wave.initialize_decoder(20, &encoder(19, 0), Ok(()), lost).is_err());
    assert_eq!((wave.layer, wave.phase), (20, BlockPhase::Idle));
    wave.initialize_decoder(20, &encoder(19, 0), Ok(()), Ok(())).unwrap();
    assert_eq!((wave.layer, wave.tokens.clone()), (20, vec![9]));
}
