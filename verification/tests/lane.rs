use ds41rt_daemon::attention_binding::QueryBinding;
use ds41rt_daemon::attention_query::{AttentionQueryWave, QueryBuffers};
use ds41rt_daemon::backbone_cache::placement::CachePlacement;
use ds41rt_daemon::backbone_cache::plan::{ExpertRow, WorkKind};
use ds41rt_daemon::block::{BackboneBlockWave, BlockOutput, BlockPhase, TargetEmbedding};
use ds41rt_daemon::device::DeviceBuffer;
use ds41rt_daemon::error::Error;
use ds41rt_daemon::lane::attention::AttentionMode;
use ds41rt_daemon::lane::budget::{total_workspace, LaneSizes, PackedScales, WeightSizes};
use ds41rt_daemon::lane::ffn::{
    begin_ffn_work, finish_ffn_work, ExpertLayers, FfnKind, FfnStep, RoutedData,
};
use ds41rt_daemon::lane::split::{FfnSplit, FfnTimes};
use ds41rt_daemon::lane::{BackboneLane, BackboneLaneWeights, LaneStreams, Phase, QueryShards};
use ds41rt_daemon::router::{BackboneRouterWave, RouterBuffers};
use ds41rt_daemon::serve_options::{
    HostBudget, HostCacheKinds, HostCacheStore, NativeServeArgs, parse_host_budget, parse_kinds, parse_spark_tp,
};
use ds41rt_daemon::shared_ffn::{BackboneSharedWave, BackboneSharedWeights, SharedBuffers};

const CAPACITY: usize = 4;
const ROUTER: usize = 3_935_232;
const NO_SCALES: PackedScales = PackedScales { query: [0; 2], output: [0; 2], shared: [0; 2] };

fn at(address: usize, bytes: usize) -> DeviceBuffer {
    DeviceBuffer { device: 0, address, bytes }
}

fn weights() -> BackboneLaneWeights {
    BackboneLaneWeights::load(3, 0, false, &[[0, 0, 0, 0, ROUTER]; 40], &NO_SCALES, 40 * ROUTER)
        .ok()
        .unwrap()
}

fn lane(weights: &BackboneLaneWeights) -> BackboneLane<'_> {
    let block = BackboneBlockWave {
        layer: 0,
        capacity: CAPACITY,
        residual: at(0x1_0000_0000, CAPACITY * 40960),
        pre: at(0x2_0000_0000, CAPACITY * 16),
        ffn_residual: at(0x3_0000_0000, CAPACITY * 40960),
        ffn_pre: at(0x4_0000_0000, CAPACITY * 16),
        out_residual: at(0x5_0000_0000, CAPACITY * 40960),
        out_pre: at(0x6_0000_0000, CAPACITY * 16),
        tokens: vec![],
        phase: BlockPhase::Idle,
    };
    let query: AttentionQueryWave = weights.layers[0]
        .query
        .wave(
            CAPACITY as u32,
            [0, 0],
            usize::MAX,
            QueryBuffers {
                hidden: at(1, CAPACITY * 10240),
                raw_rank: at(2, CAPACITY * 2560),
                normalized_rank: at(3, CAPACITY * 2560),
                rotated: at(4, CAPACITY * 65536),
                positions: at(5, CAPACITY * 8),
                frequencies: at(6, CAPACITY * 256),
            },
        )
        .ok()
        .unwrap();
    let projection = weights.layers[0]
        .projection
        .wave(
            CAPACITY as u32,
            [0, 0],
            usize::MAX,
            [
                at(7, CAPACITY * 65536),
                at(8, CAPACITY * 16384),
                at(9, CAPACITY * 10240),
                at(10, CAPACITY * 8),
                at(11, CAPACITY * 256),
            ],
        )
        .ok()
        .unwrap();
    let shared = BackboneSharedWave::new(
        BackboneSharedWeights { library: 3, layer: 0 },
        CAPACITY as u32,
        0,
        usize::MAX,
        SharedBuffers {
            input: at(12, CAPACITY * 10240),
            result: at(13, CAPACITY * 10240),
            intermediates: [at(14, 1), at(15, 1), at(16, 1)],
        },
    )
    .ok()
    .unwrap();
    let router = BackboneRouterWave::new(
        weights.layers[0].router,
        CAPACITY as u32,
        usize::MAX,
        RouterBuffers {
            input: at(17, CAPACITY * 10240),
            mask: at(18, CAPACITY),
            scores: at(19, CAPACITY * 1536),
            ids: at(20, CAPACITY * 24),
            routing: at(21, CAPACITY * 24),
            expert_input: at(22, CAPACITY * 5280),
            staging: CAPACITY * 5328,
        },
    )
    .ok()
    .unwrap();
    BackboneLane::new(weights, 0, block, query, projection, Some(shared), router)
}

fn drained() -> LaneStreams {
    LaneStreams { query: true, projection: true, shared: true, router: true }
}

fn rows(positions: &[u64]) -> Vec<ExpertRow> {
    positions
        .iter()
        .map(|position| ExpertRow { request_id: 1, position: *position, kind: WorkKind::Decode })
        .collect()
}

const REMOTE: ExpertLayers = ExpertLayers { local: false, tp2: false, tp2_shared: false };

fn route(lane: &mut BackboneLane<'_>, experts: ExpertLayers, positions: &[u64]) -> Result<FfnStep, Error> {
    let count = positions.len() * 6;
    let ids = vec![3u32; count];
    let gates = vec![0x3f80_0000u32; count];
    let staging = vec![7u32; CAPACITY * 5328 / 4];
    let data = RoutedData { staging: &staging, ids: &ids, gates: &gates, accepted: Ok(()) };
    let mask = vec![1u8; positions.len()];
    let mut next: u64 = 30;
    lane.begin_tp4(
        experts,
        &mask,
        &rows(positions),
        true,
        Ok(()),
        &data,
        vec![0; positions.len() * 5280],
        9,
        &mut next,
    )
}

fn finish_layer(lane: &mut BackboneLane<'_>, positions: &[u64]) {
    let layer = lane.layer;
    let normalized = at(0x9_0000_0000, positions.len() * 10240);
    lane.attention_ffn(at(30, positions.len() * 65536), Ok(normalized)).unwrap();
    assert_eq!(lane.phase, Phase::Ffn);
    let binding = lane.block.pending_ffn(normalized).ok().unwrap().binding();
    assert_eq!(binding.layer, layer);
    match route(lane, REMOTE, positions).ok().unwrap() {
        FfnStep::Remote { request, tp2_shared } => {
            assert!(!tp2_shared);
            assert_eq!(request.binding(), binding);
            assert_eq!(request.routes.len(), positions.len() * 6);
        }
        _ => panic!("the experts are remote"),
    }
    lane.finish_tp4(
        FfnKind::Remote,
        Ok(()),
        Ok(()),
        FfnTimes::Remote { routed: 1, dispatched: 3, shared: 6, total: 10 },
    )
    .unwrap();
    assert_eq!(lane.phase, Phase::SharedReady);
    let copied = lane.copies_next();
    lane.finish_ffn(binding, normalized, copied, Ok(()), false).unwrap();
    assert_eq!(lane.phase, Phase::Complete);
}

#[test]
fn lane_ffn_cancellation_and_failure_do_not_publish_completion() {
    let mut phase = Phase::Ffn;
    // Work that is never begun leaves the phase alone.
    assert_eq!(phase, Phase::Ffn);
    begin_ffn_work(&mut phase).unwrap();
    // Begun and abandoned.
    assert_eq!(phase, Phase::Invalid);
    assert!(begin_ffn_work(&mut phase).is_err());
    assert_eq!(phase, Phase::Invalid);
    phase = Phase::Ffn;
    begin_ffn_work(&mut phase).unwrap();
    let result = finish_ffn_work(&mut phase, Err(Error::Device { code: 1 }));
    assert!(result.is_err());
    assert_eq!(phase, Phase::Invalid);
    phase = Phase::Ffn;
    begin_ffn_work(&mut phase).unwrap();
    assert!(finish_ffn_work(&mut phase, Ok(())).is_ok());
    assert_eq!(phase, Phase::SharedReady);
}

#[test]
fn a_lane_takes_tokens_through_its_layers() {
    let weights = weights();
    let mut lane = lane(&weights);
    let mut next: u64 = 1;
    lane.begin_tokens(&mut next, &[5, 6], &[0, 1], None, Ok(())).unwrap();
    assert_eq!(lane.phase, Phase::Query);
    assert_eq!(lane.query_output().ok().unwrap().tokens().unwrap(), &[0, 1]);
    for layer in 0..40 {
        assert_eq!(lane.layer, layer);
        finish_layer(&mut lane, &[0, 1]);
        assert_eq!(lane.output().ok().unwrap().layer, layer);
        if layer < 39 {
            lane.advance(drained(), Ok(())).unwrap();
            assert_eq!(lane.phase, Phase::Prepared);
            if layer + 1 == 1 || layer + 1 == 14 {
                assert_eq!(lane.pending_engram().ok().unwrap().0, layer + 1);
                lane.apply_engram(layer + 1, 2, Ok(())).unwrap();
            }
            lane.begin_prepared(&mut next, None, Ok(())).unwrap();
            let binding = lane.query_output().ok().unwrap().binding().unwrap();
            assert_eq!((binding.layer, binding.identity), (layer + 1, layer as u64 + 2));
        }
    }
    assert!(lane.advance(drained(), Ok(())).is_err());
    let mut lane = self::lane(&weights);
    lane.begin_tokens(&mut next, &[5], &[0], None, Ok(())).unwrap();
    finish_layer(&mut lane, &[0]);
    let busy = LaneStreams { router: false, ..drained() };
    assert_eq!(lane.advance(busy, Ok(())).unwrap_err(), Error::StreamBusy);
}

#[test]
fn an_invalid_lane_needs_a_restart() {
    let weights = weights();
    let mut lane = lane(&weights);
    let mut next: u64 = 1;
    assert_eq!(
        lane.begin_tokens(&mut next, &[5, 6], &[0], None, Ok(())).unwrap_err(),
        Error::LaneTokens
    );
    assert_eq!(lane.phase, Phase::Invalid);
    assert_eq!(
        lane.begin_tokens(&mut next, &[5], &[0], None, Ok(())).unwrap_err(),
        Error::LanePhase { expected: Phase::Idle, got: Phase::Invalid }
    );
    lane.restart(drained(), Ok(())).unwrap();
    assert_eq!(lane.phase, Phase::Idle);
    lane.begin_tokens(&mut next, &[5], &[0], None, Ok(())).unwrap();
    assert_eq!(lane.enqueue_attention(true).unwrap_err(), Error::LaneSelection);
    lane.restart(drained(), Ok(())).unwrap();
    lane.begin_tokens(&mut next, &[5], &[0], None, Ok(())).unwrap();
    lane.enqueue_attention(false).unwrap();
    lane.cancel_attention();
    assert_eq!(lane.phase, Phase::Invalid);
    assert_eq!(
        Error::LanePhase { expected: Phase::Idle, got: Phase::Invalid }.message(),
        "backbone lane phase differs: expected Idle, got Invalid"
    );
}

#[test]
fn local_experts_keep_their_routes() {
    let weights = weights();
    let mut lane = lane(&weights);
    assert!(!lane.route_capture_enabled());
    lane.set_route_capture(true);
    let mut next: u64 = 1;
    lane.begin_tokens(&mut next, &[5], &[0], None, Ok(())).unwrap();
    let normalized = at(0x9_0000_0000, 10240);
    lane.attention_ffn(at(30, 65536), Ok(normalized)).unwrap();
    let local = ExpertLayers { local: true, tp2: false, tp2_shared: false };
    assert!(matches!(route(&mut lane, local, &[0]), Ok(FfnStep::Local)));
    assert_eq!(lane.captured_routes()[0], vec![[7u32; 6]]);
    lane.finish_tp4(FfnKind::Local, Ok(()), Ok(()), FfnTimes::Local { routed: 2, total: 5 })
        .unwrap();
    let split = lane.captured_ffn_split();
    assert_eq!((split.local_layers, split.local_routed_us, split.local_total_us), (1, 2, 5));
    assert!(!lane.layers_timed(0, 1));
    assert!(lane.reserve_route_capture(40, 4096).is_ok());
    assert_eq!(lane.captured_routes()[0], vec![[7u32; 6]]);
    let mut unused = self::lane(&weights);
    unused.reserve_route_capture(20, 16).unwrap();
    assert_eq!(unused.captured_routes().len(), 40);
    assert_eq!(lane.reserve_route_capture(41, 1).unwrap_err(), Error::LaneRouteHistory);
}

#[test]
fn rows_of_another_block_are_not_routed() {
    let weights = weights();
    let mut lane = lane(&weights);
    let mut next: u64 = 1;
    lane.begin_tokens(&mut next, &[5], &[0], None, Ok(())).unwrap();
    let normalized = at(0x9_0000_0000, 10240);
    lane.attention_ffn(at(30, 65536), Ok(normalized)).unwrap();
    assert_eq!(route(&mut lane, REMOTE, &[1]).err(), Some(Error::RequestRows));
    assert_eq!(lane.phase, Phase::Invalid);
}

#[test]
fn attention_runs_in_one_mode() {
    let weights = weights();
    let mut lane = lane(&weights);
    let mut next: u64 = 1;
    lane.begin_tokens(&mut next, &[5], &[0], None, Ok(())).unwrap();
    assert_eq!(lane.attention_mode(false).unwrap(), AttentionMode::Cached);
    assert!(!lane.uses_peer_projection());
    assert!(lane.enable_tp2_query().is_err());
    assert!(lane.enable_tp2_output().is_err());
}

#[test]
fn splits_add_in_any_order() {
    let local = FfnTimes::Local { routed: 2, total: 5 }.split();
    let remote = FfnTimes::Remote { routed: 1, dispatched: 3, shared: 6, total: 10 }.split();
    assert_eq!(
        (
            remote.remote_routed_us,
            remote.remote_dispatch_us,
            remote.remote_shared_us,
            remote.remote_collect_us
        ),
        (1, 2, 3, 4)
    );
    let mut one = FfnSplit::default();
    one.add(&local);
    one.add(&remote);
    let mut two = FfnSplit::default();
    two.add(&remote);
    two.add(&local);
    assert_eq!(one, two);
    assert_eq!((one.local_layers, one.remote_layers), (1, 1));
    let both = FfnTimes::RemoteTp2 { routed: 1, dispatched: 3, total: 10 }.split();
    assert_eq!((both.remote_dispatch_us, both.remote_shared_us, both.remote_collect_us), (2, 0, 7));
}

#[test]
fn lane_budgets_add_up_whatever_the_placement() {
    let scales = PackedScales { query: [100, 200], output: [300, 400], shared: [10, 20] };
    let mut layers = [[1, 2, 3, 4, ROUTER]; 40];
    layers[7] = [10, 20, 30, 40, ROUTER];
    assert_eq!(
        BackboneLaneWeights::layer_bytes_with_split(7, &layers[7], &scales, true, false).unwrap(),
        [10, 120, 730, 80, ROUTER]
    );
    let whole = BackboneLaneWeights::device_bytes(&layers, &scales).unwrap();
    assert_eq!(whole, 39 * 1050 + 1140 + 40 * ROUTER);
    assert_eq!(
        BackboneLaneWeights::load(3, 0, false, &layers, &scales, whole - 1).err(),
        Some(Error::LaneWeightsBudget)
    );
    let local = BackboneLaneWeights::load(3, 1, true, &layers, &scales, whole).ok().unwrap();
    assert!(local.layers.iter().all(|layer| layer.device == 1 && layer.shared.is_some()));
    let placement = CachePlacement::encoder_decoder();
    let placed =
        BackboneLaneWeights::distributed_device_bytes(&layers, &scales, placement).unwrap();
    assert_eq!(placed, [19 * 1006 + 1060 + 20 * ROUTER, 20 * (1006 + ROUTER)]);
    let shared = 39 * 44 + 80;
    assert_eq!(placed[0] + placed[1] + shared, whole);
    assert_eq!(
        BackboneLaneWeights::load_distributed(
            3,
            false,
            &layers,
            &scales,
            placement,
            [placed[0], placed[1] - 1]
        )
        .err(),
        Some(Error::LanePlacedBudget)
    );
    let sizes = WeightSizes { plans: layers, scales, split_query: true, split_output: false };
    let placed =
        BackboneLaneWeights::distributed_device_bytes_with_split(&sizes, placement).unwrap();
    assert_eq!(placed, [19 * 806 + 860 + 20 * ROUTER, 20 * (806 + ROUTER)]);
    assert!(BackboneLaneWeights::load_distributed_with_split(
        3,
        false,
        &sizes,
        placement,
        [placed[0] - 1, placed[1]]
    )
    .is_err());
    let split =
        BackboneLaneWeights::load_distributed_with_split(3, false, &sizes, placement, placed)
            .ok()
            .unwrap();
    assert!(split.placed && split.split_query && !split.split_output);
    assert_eq!((split.layers[19].device, split.layers[20].device), (0, 1));
    assert_eq!(split.layers[20].router.devices, [1, 1, 1]);
    assert!(split.layers[20].shared.is_none() && split.layers[20].query.split);
    layers[0] = [usize::MAX, 2, 3, 4, ROUTER];
    assert_eq!(
        BackboneLaneWeights::device_bytes(&layers, &scales).unwrap_err(),
        Error::LaneWeightsOverflow
    );
    layers[0] = [1, usize::MAX, 3, 4, ROUTER];
    assert_eq!(
        BackboneLaneWeights::device_bytes(&layers, &scales).unwrap_err(),
        Error::BudgetOverflow
    );
    layers[0] = [1, 2, 3, 4, ROUTER - 1];
    assert_eq!(
        BackboneLaneWeights::device_bytes(&layers, &scales).unwrap_err(),
        Error::RouterGeometry
    );
}

const SIZES: LaneSizes =
    LaneSizes { half: 10, query: [5, 6], output: [7, 8], shared: 9, sparse: 11 };

#[test]
fn a_workspace_is_counted_group_by_group() {
    assert_eq!(
        BackboneLane::workspace_bytes(1, 0, [0, 0], [0, 0], 0, 0).unwrap(),
        [0, 81164, 92428, 20480, 0, 17105]
    );
    assert_eq!(
        BackboneLane::workspace_bytes(2, 10, [5, 6], [7, 8], 9, 11).unwrap(),
        [20, 162335, 184867, 40969, 11, 34210]
    );
    for capacity in [0, 4097] {
        assert_eq!(
            BackboneLane::workspace_bytes(capacity, 0, [0, 0], [0, 0], 0, 0).unwrap_err(),
            Error::LaneCapacity
        );
    }
    let huge = usize::MAX;
    for refused in [
        BackboneLane::workspace_bytes(1, huge, [0, 0], [0, 0], 0, 0),
        BackboneLane::workspace_bytes(1, 0, [0, huge], [0, 0], 0, 0),
        BackboneLane::workspace_bytes(1, 0, [0, 0], [huge, 0], 0, 0),
        BackboneLane::workspace_bytes(1, 0, [0, 0], [0, 0], huge, 0),
    ] {
        assert_eq!(refused.unwrap_err(), Error::BudgetOverflow);
    }
    assert_eq!(
        BackboneLane::workspace_bytes_with_split(2, SIZES, true, true).unwrap(),
        [20, 162329, 184859, 40969, 11, 34210]
    );
    let placed = 20 + 162335 + 184867 + 11 + 34210;
    assert_eq!(BackboneLane::placed_workspace_bytes(2, SIZES).unwrap(), placed);
    assert_eq!(
        BackboneLane::placed_workspace_bytes_with_split(2, SIZES, true, false).unwrap(),
        placed - 6
    );
    assert_eq!(
        BackboneLane::placed_workspace_bytes(2, LaneSizes { sparse: huge, ..SIZES }).unwrap_err(),
        Error::LanePlacedWorkspace
    );
    assert_eq!(
        total_workspace([1, 2, 3, 4, 5, 6], false, Error::BudgetOverflow).unwrap(),
        21
    );
    assert_eq!(
        total_workspace([1, 2, 3, 4, 5, 6], true, Error::BudgetOverflow).unwrap(),
        17
    );
}

#[test]
fn a_lane_is_held_to_its_own_workspace() {
    let placed = 20 + 162335 + 184867 + 11 + 34210;
    let whole = placed + 40969;
    let local = weights();
    assert_eq!(local.check_new(2, SIZES, whole).unwrap(), 0);
    assert_eq!(local.check_new(2, SIZES, whole - 1).unwrap_err(), Error::LaneBudget);
    assert_eq!(local.check_new(0, SIZES, whole).unwrap_err(), Error::LaneCapacity);
    assert_eq!(
        local.check_new(2, LaneSizes { sparse: usize::MAX, ..SIZES }, whole).unwrap_err(),
        Error::LaneBudgetOverflow
    );
    assert_eq!(local.check_on_device(2, SIZES, whole, 0).unwrap_err(), Error::LaneGpu);
    let sizes = WeightSizes {
        plans: [[0, 0, 0, 0, ROUTER]; 40],
        scales: NO_SCALES,
        split_query: false,
        split_output: true,
    };
    let split = BackboneLaneWeights::load_distributed_with_split(
        3,
        false,
        &sizes,
        CachePlacement::encoder_decoder(),
        [20 * ROUTER; 2],
    )
    .ok()
    .unwrap();
    assert_eq!(split.check_new(2, SIZES, whole).unwrap_err(), Error::LanePlaced);
    assert_eq!(split.check_on_device(2, SIZES, placed - 8, 1).unwrap(), 20);
    assert_eq!(split.check_on_device(2, SIZES, placed - 9, 1).unwrap_err(), Error::LaneBudget);
    assert_eq!(split.check_on_device(2, SIZES, placed, 2).unwrap_err(), Error::LaneGpu);
}

#[test]
fn a_refused_routing_keeps_what_was_captured() {
    let weights = weights();
    let mut lane = lane(&weights);
    lane.set_route_capture(true);
    let mut next: u64 = 1;
    lane.begin_tokens(&mut next, &[5], &[0], None, Ok(())).unwrap();
    let normalized = at(0x9_0000_0000, 10240);
    lane.attention_ffn(at(30, 65536), Ok(normalized)).unwrap();
    let ids = [3u32; 6];
    let gates = [0x3f80_0000u32; 6];
    let refused = Err(Error::Device { code: 8 });
    let data = RoutedData { staging: &[], ids: &ids, gates: &gates, accepted: refused };
    let mut number: u64 = 30;
    assert_eq!(
        lane.begin_tp4(
            REMOTE,
            &[1],
            &rows(&[0]),
            true,
            Ok(()),
            &data,
            vec![0; 5280],
            9,
            &mut number,
        )
        .err(),
        Some(Error::Device { code: 8 })
    );
    // The refused request has used its number up.
    assert_eq!((number, lane.phase), (31, Phase::Invalid));
    assert!(lane.captured_routes()[0].is_empty());
    assert!(lane.router.full_request);
    assert_eq!(lane.router.output().ok().unwrap().rows, 1);

    // The router has changed to local experts before the rows are looked at.
    lane.restart(drained(), Ok(())).unwrap();
    lane.begin_tokens(&mut next, &[5], &[0], None, Ok(())).unwrap();
    lane.attention_ffn(at(30, 65536), Ok(normalized)).unwrap();
    let local = ExpertLayers { local: true, tp2: false, tp2_shared: false };
    assert_eq!(route(&mut lane, local, &[1]).err(), Some(Error::RequestRows));
    assert!(!lane.router.full_request);
    assert!(lane.captured_routes()[0].is_empty());
}

#[test]
fn splits_add_in_any_grouping() {
    let parts = [
        FfnTimes::Local { routed: 2, total: 5 }.split(),
        FfnTimes::Remote { routed: 1, dispatched: 3, shared: 6, total: 10 }.split(),
        FfnTimes::RemoteTp2 { routed: 1, dispatched: 3, total: 10 }.split(),
    ];
    let mut left = parts[0];
    left.add(&parts[1]);
    left.add(&parts[2]);
    let mut tail = parts[1];
    tail.add(&parts[2]);
    let mut right = parts[0];
    right.add(&tail);
    assert_eq!(left, right);
    assert_eq!((left.local_layers, left.remote_layers), (1, 2));
}

fn options(kinds: &str) -> NativeServeArgs {
    NativeServeArgs {
        dspark: true,
        dspark_fixed: false,
        host_cache_bytes: HostBudget::Bytes(1 << 30),
        host_cache_chunk_bytes: 1 << 20,
        host_cache_store: HostCacheStore::OnEvict,
        host_cache_copy_budget_ms: 2,
        host_cache_restore_budget_ms: 3,
        host_cache_store_pace_ms: 4,
        host_cache_min_tokens: 256,
        host_cache_max_tokens: 1024,
        host_cache_kinds: kinds.to_owned(),
    }
}

#[test]
fn adaptive_drafts_are_the_default_of_drafting() {
    assert!(options("").adaptive_dspark());
    assert!(!NativeServeArgs { dspark_fixed: true, ..options("") }.adaptive_dspark());
    assert!(!NativeServeArgs { dspark: false, ..options("") }.adaptive_dspark());
}

#[test]
fn host_cache_options_become_its_configuration() {
    let config = options("prompt,turn").host_cache_config(5, Ok(())).unwrap();
    assert_eq!(config.copy_budget_ns, 2_000_000);
    assert_eq!(config.restore_budget_ns, 3_000_000);
    assert_eq!(config.store_pace_ns, 4_000_000);
    assert_eq!((config.bytes, config.chunk_bytes), (1 << 30, 1 << 20));
    assert_eq!((config.min_tokens, config.max_tokens), (256, 1024));
    assert_eq!(config.store, HostCacheStore::OnEvict);
    assert_eq!(config.kinds, HostCacheKinds { prompt: true, turn: true });
    assert_eq!(parse_kinds("turn").unwrap(), HostCacheKinds { prompt: false, turn: true });
    assert_eq!(
        options("prompt,\"x\"").host_cache_config(5, Ok(())).unwrap_err(),
        "unknown host cache kind \"\\\"x\\\"\" (expected prompt or turn)"
    );
}

#[test]
fn native_host_cache_accepts_auto_and_legacy_byte_counts() {
    for (value, bytes) in
        [("auto", None), ("0", Some(0)), ("1GiB", Some(1 << 30)), ("4294967296", Some(1u64 << 32))]
    {
        match (parse_host_budget(value).unwrap(), bytes) {
            (HostBudget::Auto, None) => (),
            (HostBudget::Bytes(actual), Some(expected)) => assert_eq!(actual, expected),
            _ => panic!("incorrect host budget mode"),
        }
    }
    assert!(parse_host_budget("-1").is_err());
    for value in ["", "GiB", "1 GiB", "17179869184GiB", "18446744073709551616", "Auto"] {
        assert_eq!(parse_host_budget(value).unwrap_err(), "expected auto or a byte count");
    }
    assert_eq!(parse_host_budget("17179869183GiB").unwrap().explicit_bytes(1), 17179869183 << 30);
    assert_eq!(HostBudget::Auto.explicit_bytes(9), 9);
}

#[test]
fn the_host_cache_may_refuse_its_configuration() {
    let options = options("prompt");
    let described = options.described_host_cache(0).unwrap();
    assert_eq!(options.host_cache_config(0, Ok(())).unwrap(), described);
    assert_eq!(
        options.host_cache_config(0, Err("chunks exceed the budget".to_owned())).unwrap_err(),
        "chunks exceed the budget"
    );
    let auto = NativeServeArgs { host_cache_bytes: HostBudget::Auto, ..options };
    assert_eq!(auto.described_host_cache(12).unwrap().bytes, 12);
}

#[test]
fn spark_degrees_name_a_shard_family() {
    for (text, degree) in [("2", 2), ("3", 3), ("4", 4), ("6", 6), ("+2", 2), ("006", 6)] {
        assert_eq!(parse_spark_tp(text).unwrap(), degree);
    }
    assert_eq!(
        parse_spark_tp("5").unwrap_err(),
        "unsupported Spark TP degree 5; expected 2, 3, 4 or 6"
    );
    assert!(parse_spark_tp("1").unwrap_err().contains("expected 2, 3, 4 or 6"));
    for text in ["", "x", "-1", "256", "2 "] {
        assert_eq!(
            parse_spark_tp(text).unwrap_err(),
            "expected a Spark TP degree between 2 and 6"
        );
    }
}

const FAILED: Result<(), Error> = Err(Error::Device { code: 3 });

#[test]
fn failed_device_work_publishes_no_query() {
    let weights = weights();
    let mut lane = lane(&weights);
    let mut next: u64 = 1;
    let failed = lane.begin_tokens(&mut next, &[5], &[0], None, FAILED);
    assert_eq!(failed.unwrap_err(), Error::Device { code: 3 });
    assert_eq!(lane.phase, Phase::Invalid);
    assert_eq!(lane.block.phase, BlockPhase::Idle);
    assert!(lane.query.output().is_err());
    // The failed query has used its binding up.
    assert_eq!(next, 2);

    lane.restart(drained(), Ok(())).unwrap();
    let embedding = TargetEmbedding {
        token_ids: &[5],
        positions: &[0],
        residual: at(0x20_0000_0000, 40960),
        pre: at(0x21_0000_0000, 16),
    };
    let failed = lane.begin_embedded(&mut next, &embedding, FAILED);
    assert_eq!(failed.unwrap_err(), Error::Device { code: 3 });
    assert_eq!((lane.phase, next), (Phase::Invalid, 3));
    assert!(lane.query.output().is_err());
    lane.restart(drained(), Ok(())).unwrap();
    lane.begin_embedded(&mut next, &embedding, Ok(())).unwrap();
    assert_eq!((lane.phase, next), (Phase::Query, 4));
    finish_layer(&mut lane, &[0]);
    lane.advance(drained(), Ok(())).unwrap();

    // Layer one waits for its engram, whose failure ends the pass.
    assert_eq!(lane.begin_prepared(&mut next, None, Ok(())).unwrap_err(), Error::BlockInput);
    assert_eq!(next, 4);
    lane.restart(drained(), Ok(())).unwrap();
    lane.begin_tokens(&mut next, &[5], &[0], None, Ok(())).unwrap();
    finish_layer(&mut lane, &[0]);
    lane.advance(drained(), Ok(())).unwrap();
    assert_eq!(lane.apply_engram(1, 1, FAILED).unwrap_err(), Error::Device { code: 3 });
    assert_eq!((lane.phase, lane.block.phase), (Phase::Invalid, BlockPhase::Idle));

    lane.restart(drained(), Ok(())).unwrap();
    lane.begin_tokens(&mut next, &[5], &[0], None, Ok(())).unwrap();
    finish_layer(&mut lane, &[0]);
    lane.advance(drained(), Ok(())).unwrap();
    lane.apply_engram(1, 1, Ok(())).unwrap();
    let taken = next;
    assert_eq!(
        lane.begin_prepared(&mut next, None, FAILED).unwrap_err(),
        Error::Device { code: 3 }
    );
    assert_eq!((lane.phase, next), (Phase::Invalid, taken + 1));
    assert!(lane.query.output().is_err());
}

#[test]
fn a_decoder_starts_only_from_copied_rows() {
    let weights = weights();
    let mut lane = lane(&weights);
    let mut next: u64 = 7;
    let encoder = BlockOutput {
        binding: QueryBinding::new(&mut next, 19).unwrap(),
        residual: at(0x20_0000_0000, 40960),
        pre: at(0x21_0000_0000, 16),
        layer: 19,
        tokens: &[9],
    };
    for (bound, copied) in [(FAILED, Ok(())), (Ok(()), FAILED)] {
        let failed = lane.restart_decoder(&encoder, drained(), bound, copied);
        assert_eq!(failed.unwrap_err(), Error::Device { code: 3 });
        assert_eq!((lane.phase, lane.block.phase), (Phase::Invalid, BlockPhase::Idle));
    }
    lane.restart_decoder(&encoder, drained(), Ok(()), Ok(())).unwrap();
    assert_eq!((lane.phase, lane.layer), (Phase::Prepared, 20));
    lane.begin_prepared(&mut next, None, Ok(())).unwrap();
    assert_eq!(lane.query_output().ok().unwrap().tokens().unwrap(), &[9]);
}

#[test]
fn split_queries_are_finished_by_their_shards() {
    let weights = BackboneLaneWeights { split_query: true, ..weights() };
    let mut lane = lane(&weights);
    lane.enable_tp2_query().unwrap();
    let mut next: u64 = 1;
    let shards = QueryShards { query: true, device: 0, library: 3 };
    for wrong in [
        QueryShards { query: false, ..shards },
        QueryShards { device: 1, ..shards },
        QueryShards { library: 4, ..shards },
    ] {
        let refused = lane.begin_tokens(&mut next, &[5], &[0], Some(wrong), Ok(()));
        assert_eq!(refused.unwrap_err(), Error::QueryShards);
        assert_eq!((lane.phase, next), (Phase::Invalid, 1));
        lane.restart(drained(), Ok(())).unwrap();
    }
    lane.begin_tokens(&mut next, &[5], &[0], Some(shards), Ok(())).unwrap();
    assert_eq!((lane.phase, next), (Phase::Query, 2));

    let mut layers = weights.layers.clone();
    for layer in &mut layers {
        layer.query.split = true;
    }
    let weights = BackboneLaneWeights { layers, ..weights };
    let mut lane = self::lane(&weights);
    assert_eq!(
        lane.begin_tokens(&mut next, &[5], &[0], None, Ok(())).unwrap_err(),
        Error::QuerySplit
    );
    assert_eq!((lane.phase, next), (Phase::Invalid, 3));
}
