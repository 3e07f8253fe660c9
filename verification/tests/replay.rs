use ds41rt_daemon::replay::batch::{
    deterministic_nvfp4_payload, expert_batch_for_layer, nvfp4_row_bytes, HiddenDtype, RowSourceKind,
};
use ds41rt_daemon::replay::measure::{
    validate_dispatch_stats, DispatchFault, DispatchStats, ReplayTotals,
};
use ds41rt_daemon::replay::plan::{chain_layers, validate_replay_plan, PlanFault};
use ds41rt_daemon::replay::schedule::{
    chains_by_m, record_kind, replay_schedule, rotated_layer, sort_chains, LoadFault, PlanReader,
    RecordKind, ReplayStep,
};
use ds41rt_daemon::replay::targets::{split_target, target_entries, TargetFault, TargetHosts};
use ds41rt_daemon::replay::{
    ReductionPath, ReplayChain, ReplayLayer, ReplayPlanManifest, REQUEST_ID_START,
};

fn flash_manifest() -> ReplayPlanManifest {
    ReplayPlanManifest {
        schema: "ds41rt-expert-reduction-replay-plan-v2".to_owned(),
        model: "deepseek-ai/DeepSeek-V4-Flash-0731".to_owned(),
        hidden_size: 4_096,
        top_k: 6,
        routed_experts: 256,
        quantization_recipe: "deepseek_v4_native_fp4_fp8_mixed_v1".to_owned(),
        routed_layers: vec![0, 1],
    }
}

fn flash_chain() -> ReplayChain {
    ReplayChain {
        chain_id: "flash-chain".to_owned(),
        cohort: "semantic".to_owned(),
        physical_m: 1,
        layers: vec![
            ReplayLayer { layer_id: 0, routes: vec![vec![0, 1, 2, 3, 4, 5]] },
            ReplayLayer { layer_id: 1, routes: vec![vec![250, 251, 252, 253, 254, 255]] },
        ],
    }
}

fn named_chain(name: &str, rows: usize) -> ReplayChain {
    let mut chain = flash_chain();
    chain.chain_id = name.to_owned();
    chain.physical_m = rows;
    for layer in &mut chain.layers {
        layer.routes = (0..rows).map(|_| vec![0, 1, 2, 3, 4, 5]).collect();
    }
    chain
}

fn refusal(manifest: &ReplayPlanManifest, chains: &[ReplayChain]) -> (PlanFault, String) {
    let fault = validate_replay_plan(manifest, chains).unwrap_err();
    let words = fault.message(manifest, chains);
    (fault, words)
}

#[test]
fn flash_replay_geometry_drives_batch_and_payload_shape() {
    let manifest = flash_manifest();
    let chain = flash_chain();
    assert!(validate_replay_plan(&manifest, std::slice::from_ref(&chain)).is_ok());

    let (batch, routes) =
        expert_batch_for_layer(&manifest, &chain, &chain.layers[0]).ok().unwrap();
    assert_eq!(batch.hidden_dim, 4_096);
    assert_eq!(batch.hidden_bytes_per_row, 2_304);
    assert_eq!(batch.hidden_dtype, HiddenDtype::F4);
    assert_eq!(batch.placement_version, "expert-reduction-replay-v1");
    assert_eq!(batch.routed_experts, 256);
    assert_eq!(routes.len(), 6);
    assert_eq!(deterministic_nvfp4_payload(2, 4_096).unwrap().len(), 4_608);
}

#[test]
fn replay_rejects_unversioned_glm_geometry() {
    let mut manifest = flash_manifest();
    manifest.schema = "ds41rt-expert-reduction-replay-plan-v1".to_owned();
    let chains = [flash_chain()];
    let error = validate_replay_plan(&manifest, &chains).unwrap_err();
    assert!(error
        .message(&manifest, &chains)
        .contains("regenerate it from a DeepSeek route bank"));
}

#[test]
fn pro_hidden_payload_geometry_is_not_flash_sized() {
    assert_eq!(nvfp4_row_bytes(7_168).unwrap(), 4_032);
    assert_eq!(deterministic_nvfp4_payload(3, 7_168).unwrap().len(), 12_096);
}

#[test]
fn replay_rejects_reordered_layers_and_duplicate_routes() {
    let manifest = flash_manifest();
    let mut reordered = flash_chain();
    reordered.layers.swap(0, 1);
    let chains = [reordered];
    assert!(validate_replay_plan(&manifest, &chains)
        .unwrap_err()
        .message(&manifest, &chains)
        .contains("layer order"));

    let mut duplicated = flash_chain();
    duplicated.layers[0].routes[0][5] = 4;
    let chains = [duplicated];
    assert!(validate_replay_plan(&manifest, &chains)
        .unwrap_err()
        .message(&manifest, &chains)
        .contains("repeats an expert ID"));
}

#[test]
fn manifest_faults_are_told_apart() {
    let chains = [flash_chain()];
    let mut manifest = flash_manifest();
    manifest.schema = "tab\there".to_owned();
    let (fault, words) = refusal(&manifest, &chains);
    assert_eq!(fault, PlanFault::Schema);
    assert!(words.contains("\"tab\\there\""));

    let mut manifest = flash_manifest();
    manifest.model = "  ".to_owned();
    assert_eq!(
        refusal(&manifest, &chains),
        (PlanFault::EmptyModel, "replay model is empty".to_owned())
    );

    let mut manifest = flash_manifest();
    manifest.hidden_size = 4_100;
    assert_eq!(
        refusal(&manifest, &chains),
        (
            PlanFault::HiddenSize,
            "replay hidden size 4100 must be a positive multiple of 16".to_owned()
        )
    );

    let mut manifest = flash_manifest();
    manifest.routed_experts = 5;
    assert_eq!(
        refusal(&manifest, &chains),
        (PlanFault::TopK, "replay top-k 6 is invalid for 5 routed experts".to_owned())
    );

    let mut manifest = flash_manifest();
    manifest.quantization_recipe = String::new();
    assert_eq!(refusal(&manifest, &chains).0, PlanFault::EmptyRecipe);

    let mut manifest = flash_manifest();
    manifest.routed_layers = vec![1, 1];
    assert_eq!(refusal(&manifest, &chains).0, PlanFault::RoutedLayersRepeated);
    manifest.routed_layers = vec![];
    assert_eq!(refusal(&manifest, &chains).0, PlanFault::RoutedLayersRepeated);
    manifest.routed_layers = vec![1, 0];
    assert_eq!(refusal(&manifest, &chains).0, PlanFault::RoutedLayersUnordered);
}

#[test]
fn chain_faults_are_told_apart() {
    let manifest = flash_manifest();
    let (fault, words) = refusal(&manifest, &[flash_chain(), flash_chain()]);
    assert_eq!(fault, PlanFault::DuplicateChain { chain: 1 });
    assert_eq!(words, "duplicate replay chain ID flash-chain");

    let mut chain = flash_chain();
    chain.physical_m = 0;
    assert_eq!(
        refusal(&manifest, &[chain]),
        (
            PlanFault::ZeroRows { chain: 0 },
            "replay chain flash-chain has zero physical M".to_owned()
        )
    );

    let mut chain = flash_chain();
    chain.layers.clear();
    assert_eq!(refusal(&manifest, &[chain]).0, PlanFault::NoLayers { chain: 0 });

    let mut chain = flash_chain();
    chain.layers[1].layer_id = 0;
    assert_eq!(
        refusal(&manifest, &[chain]),
        (
            PlanFault::DuplicateLayer { chain: 0, layer: 1 },
            "replay chain flash-chain duplicates layer 0".to_owned()
        )
    );

    let mut chain = flash_chain();
    chain.physical_m = 2;
    assert_eq!(
        refusal(&manifest, &[chain]),
        (
            PlanFault::RowCount { chain: 0, layer: 0 },
            "replay chain flash-chain layer 0 has 1 rows, expected 2".to_owned()
        )
    );

    let mut chain = flash_chain();
    chain.layers[1].routes[0].pop();
    assert_eq!(
        refusal(&manifest, &[chain]),
        (
            PlanFault::RouteCount { chain: 0, layer: 1 },
            "replay chain flash-chain layer 1 is not top-6".to_owned()
        )
    );

    let mut chain = flash_chain();
    chain.layers[1].routes[0][0] = 256;
    let (fault, words) = refusal(&manifest, &[chain]);
    assert_eq!(fault, PlanFault::ExpertRange { chain: 0, layer: 1 });
    assert!(words.contains("contains an expert outside 0..255"));

    let mut chain = flash_chain();
    chain.layers[0].routes[0][5] = 4;
    assert_eq!(refusal(&manifest, &[chain]).0, PlanFault::RepeatedExpert { chain: 0, layer: 0 });

    let mut chain = flash_chain();
    chain.layers.pop();
    let (fault, words) = refusal(&manifest, &[chain]);
    assert_eq!(fault, PlanFault::LayerCoverage { chain: 0 });
    assert_eq!(
        words,
        "replay chain flash-chain layer coverage {0} does not match manifest {0, 1}"
    );

    let mut chain = flash_chain();
    chain.layers.swap(0, 1);
    assert_eq!(chain_layers(&chain), vec![1, 0]);
    assert_eq!(refusal(&manifest, &[chain]).0, PlanFault::LayerOrder { chain: 0 });
}

#[test]
fn batch_rows_point_at_their_routes() {
    let manifest = flash_manifest();
    let chain = named_chain("pair", 2);
    let (batch, routes) =
        expert_batch_for_layer(&manifest, &chain, &chain.layers[1]).ok().unwrap();
    assert_eq!(batch.layer_id, 1);
    assert_eq!(batch.graph_bucket, 2);
    assert_eq!(batch.quantization_recipe, manifest.quantization_recipe);
    assert_eq!(routes.len(), 12);
    assert_eq!(batch.rows.len(), 2);
    for (index, row) in batch.rows.iter().enumerate() {
        assert_eq!((row.route_offset, row.route_count), (index * 6, 6));
        for route in &routes[row.route_offset..row.route_offset + row.route_count] {
            assert_eq!((route.row_index, route.gate_parts), (index, 6));
        }
    }
    assert_eq!(routes[7].expert_id, 1);
    let single = flash_chain();
    let (batch, _) =
        expert_batch_for_layer(&manifest, &single, &single.layers[0]).ok().unwrap();
    assert!(matches!(batch.rows[0].source_kind, RowSourceKind::DecodeStep));
}

#[test]
fn payload_is_finite_and_nonzero() {
    let payload = deterministic_nvfp4_payload(2, 32).unwrap();
    assert_eq!(payload.len(), 36);
    assert_eq!(payload[0], 0x11);
    assert_eq!(payload[1], 0x22);
    for row in 0..2 {
        for byte in &payload[row * 18..row * 18 + 16] {
            for nibble in [byte & 15, byte >> 4] {
                assert!((1..=6).contains(&nibble));
            }
        }
        for scale in &payload[row * 18 + 16..row * 18 + 18] {
            assert!(*scale != 0 && *scale & 0x7f != 0x7f);
        }
    }
    assert!(deterministic_nvfp4_payload(usize::MAX, 32).is_err());
}

#[test]
fn a_plan_has_one_manifest_and_the_chains_of_its_cohort() {
    let mut reader = PlanReader::new("semantic".to_owned());
    assert!(reader.expect_manifest().is_ok());
    assert!(reader.set_manifest(flash_manifest()).is_ok());
    assert_eq!(reader.expect_manifest().unwrap_err(), LoadFault::MultipleManifests);
    assert_eq!(reader.set_manifest(flash_manifest()).unwrap_err(), LoadFault::MultipleManifests);
    reader.push_chain(flash_chain());
    let mut other = flash_chain();
    other.cohort = "random".to_owned();
    reader.push_chain(other);
    let (_, chains) = reader.finish().ok().unwrap();
    assert_eq!(chains.len(), 1);

    let mut empty = PlanReader::new("semantic".to_owned());
    assert!(empty.set_manifest(flash_manifest()).is_ok());
    assert_eq!(empty.finish().err(), Some(LoadFault::NoChains));
    let mut bare = PlanReader::new("semantic".to_owned());
    bare.push_chain(flash_chain());
    assert_eq!(bare.finish().err(), Some(LoadFault::NoManifest));
    assert_eq!(
        LoadFault::NoChains.message("a\"b"),
        "replay plan contains no chains for cohort \"a\\\"b\""
    );
    assert_eq!(LoadFault::NoManifest.message(""), "replay plan has no manifest");
    assert_eq!(
        LoadFault::MultipleManifests.message(""),
        "replay plan contains multiple manifests"
    );
}

#[test]
fn records_are_told_apart_by_name() {
    assert_eq!(record_kind(Some("manifest")), RecordKind::Manifest);
    assert_eq!(record_kind(Some("chain")), RecordKind::Chain);
    assert_eq!(record_kind(Some("Chain")), RecordKind::Other);
    assert_eq!(record_kind(None), RecordKind::Other);
}

#[test]
fn chains_are_sorted_grouped_and_timed_over_both_paths() {
    let chains = sort_chains(vec![
        named_chain("b", 4),
        named_chain("b", 1),
        named_chain("a", 4),
    ]);
    let names: Vec<(usize, &str)> =
        chains.iter().map(|chain| (chain.physical_m, chain.chain_id.as_str())).collect();
    assert_eq!(names, vec![(1, "b"), (4, "a"), (4, "b")]);
    let groups = chains_by_m(&chains);
    assert_eq!(groups, vec![(1, vec![0]), (4, vec![1, 2])]);

    let steps = replay_schedule(&chains, &groups, 1);
    assert_eq!(steps.len(), 4 + 6);
    assert!(steps[..4].iter().all(|step| !step.timed && step.layer_rotation == 0));
    assert_eq!((steps[0].chain, steps[2].chain), (0, 1));
    let timed: Vec<(usize, ReductionPath, usize, usize)> = steps[4..]
        .iter()
        .map(|step: &ReplayStep| (step.chain, step.path, step.path_order, step.layer_rotation))
        .collect();
    assert_eq!(
        timed,
        vec![
            (0, ReductionPath::Coordinator, 0, 0),
            (0, ReductionPath::SparkRowSharded, 1, 0),
            (1, ReductionPath::Coordinator, 0, 0),
            (1, ReductionPath::SparkRowSharded, 1, 0),
            (2, ReductionPath::SparkRowSharded, 0, 1),
            (2, ReductionPath::Coordinator, 1, 1),
        ]
    );
}

#[test]
fn rotation_sends_every_layer_once() {
    let mut sent: Vec<usize> = (0..5).map(|offset| rotated_layer(5, 3, offset)).collect();
    assert_eq!(sent, vec![3, 4, 0, 1, 2]);
    sent.sort();
    assert_eq!(sent, vec![0, 1, 2, 3, 4]);
}

#[test]
fn reduction_paths_name_their_reducer() {
    assert_eq!(ReductionPath::Coordinator.label(), "coordinator");
    assert_eq!(ReductionPath::SparkRowSharded.label(), "spark-row-sharded");
    assert_eq!(ReductionPath::Coordinator.other(), ReductionPath::SparkRowSharded);
    assert_eq!(ReductionPath::SparkRowSharded.other().reducing_rank(), None);
    assert_eq!(ReductionPath::SparkRowSharded.reducing_rank(), Some(0));
    assert!(ReductionPath::SparkRowSharded.row_sharded());
    assert!(!ReductionPath::Coordinator.row_sharded());
}

fn stats(ids: Vec<u64>) -> DispatchStats {
    DispatchStats {
        global_rows: 2,
        output_dim: 4_096,
        request_wire_bytes: 100,
        response_wire_bytes: 40,
        response_executor_ids: ids,
    }
}

#[test]
fn replies_are_counted_and_their_executors_kept_once() {
    let mut totals = ReplayTotals::new();
    let mut request: u64 = REQUEST_ID_START;
    assert!(totals.record(&mut request, &stats(vec![3, 1]), 2, 2, 4_096).is_ok());
    assert!(totals.record(&mut request, &stats(vec![1, 2]), 1, 2, 4_096).is_ok());
    assert_eq!(request, REQUEST_ID_START + 8);
    assert_eq!(totals.request_wire_bytes, 200);
    assert_eq!(totals.response_wire_bytes, 80);
    assert_eq!(totals.response_chunks, 3);
    assert_eq!(totals.executor_ids, vec![1, 2, 3]);
}

#[test]
fn replies_that_do_not_fit_are_refused() {
    let path = ReductionPath::Coordinator;
    let fault = validate_dispatch_stats(&stats(vec![1]), 3, 4_096).unwrap_err();
    assert_eq!(fault, DispatchFault::Rows { returned: 2, expected: 3 });
    assert_eq!(fault.message(path), "coordinator replay returned 2 global rows, expected 3");
    let fault = validate_dispatch_stats(&stats(vec![1]), 2, 7_168).unwrap_err();
    assert_eq!(
        fault.message(ReductionPath::SparkRowSharded),
        "spark-row-sharded replay returned output width 4096, expected 7168"
    );
    let fault = validate_dispatch_stats(&stats(vec![]), 2, 4_096).unwrap_err();
    assert_eq!(fault.message(path), "coordinator replay returned no executor IDs");

    let mut totals = ReplayTotals::new();
    let mut request: u64 = u64::MAX;
    assert_eq!(
        totals.record(&mut request, &stats(vec![1]), 1, 2, 4_096).unwrap_err(),
        DispatchFault::RequestIds
    );
    assert_eq!(request, u64::MAX);
    request = 0;
    totals.request_wire_bytes = usize::MAX;
    assert_eq!(
        totals.record(&mut request, &stats(vec![1]), 1, 2, 4_096).unwrap_err(),
        DispatchFault::RequestBytes
    );
    assert_eq!(request, 4);
    totals.request_wire_bytes = 0;
    totals.response_wire_bytes = usize::MAX;
    assert_eq!(
        totals.record(&mut request, &stats(vec![1]), 1, 2, 4_096).unwrap_err(),
        DispatchFault::ResponseBytes
    );
    totals.response_wire_bytes = 0;
    totals.response_chunks = usize::MAX;
    assert_eq!(
        totals.record(&mut request, &stats(vec![1]), 1, 2, 4_096).unwrap_err(),
        DispatchFault::ResponseChunks
    );
    assert!(totals.executor_ids.is_empty());
}

#[test]
fn expert_targets_are_four_distinct_hosts() {
    let entries = target_entries(" a = 1:1 ,, b=2:2,c=3:3, d=4:4 ");
    assert_eq!(entries, vec!["a = 1:1", "b=2:2", "c=3:3", "d=4:4"]);
    let mut hosts = TargetHosts::new();
    for entry in &entries {
        let (host, address) = split_target(entry).unwrap();
        assert!(address.contains(':'));
        assert!(hosts.push(host).is_ok());
    }
    assert_eq!(hosts.hosts[0], "a");
    assert!(hosts.finish().is_ok());
    assert_eq!(hosts.push("a").unwrap_err(), TargetFault::DuplicateHost);

    assert_eq!(split_target("nothing").unwrap_err(), TargetFault::Format);
    assert_eq!(split_target(" =x").unwrap_err(), TargetFault::EmptyHost);
    let mut none = TargetHosts::new();
    assert_eq!(none.finish().unwrap_err(), TargetFault::NoTargets);
    assert!(none.push("x").is_ok());
    assert_eq!(none.finish().unwrap_err(), TargetFault::Count { found: 1 });
    assert_eq!(
        TargetFault::Format.message("no\ttarget"),
        "invalid expert target \"no\\ttarget\"; expected host=addr"
    );
    assert_eq!(
        TargetFault::Count { found: 1 }.message(""),
        "strict TP4 reduction replay requires exactly 4 expert targets, got 1"
    );
    assert_eq!(TargetFault::DuplicateHost.message("a"), "duplicate expert target host a");
}
