//! Memory of a lane's weights and workspaces, on one device and on two.
use crate::attention_output::{AttentionOutputWave, AttentionOutputWeights};
use crate::attention_query::{AttentionQueryWave, AttentionQueryWeights};
use crate::backbone_cache::placement::CachePlacement;
use crate::backbone_cache::LAYERS;
use crate::block::BackboneBlockWave;
use crate::budget;
use crate::budget::sum;
use crate::error::Error;
use crate::lane::{BackboneLane, BackboneLaneWeights, LayerWeights};
use crate::router;
use crate::router::{BackboneRouterWave, BackboneRouterWeights, WEIGHT_BYTES};
use crate::shared_ffn::{BackboneSharedWave, BackboneSharedWeights};
use crate::source_cache;
use vstd::prelude::*;

verus! {

/// Bytes of the packed scales of a layer's matrices: of the two query projections,
/// of the grouped and the full output projection, and of a widening and the
/// narrowing matrix of the shared experts.
#[derive(Debug, Clone, Copy)]
pub struct PackedScales {
    pub query: [usize; 2],
    pub output: [usize; 2],
    pub shared: [usize; 2],
}

/// Bytes of a layer's mixing, query, output, shared and router weights. `plans` are
/// those of its tensors.
pub open spec fn layer_groups(
    plans: Seq<usize>,
    scales: PackedScales,
    split_query: bool,
    split_output: bool,
) -> Seq<int> {
    seq![
        plans[0] as int,
        plans[1] + budget::matrix_bytes(
            scales.query@[0] as int,
            scales.query@[1] as int,
            split_query,
        ),
        plans[2] + budget::matrix_bytes(
            scales.output@[0] as int,
            scales.output@[1] as int,
            split_output,
        ),
        plans[3] + 2 * scales.shared@[0] + scales.shared@[1],
        WEIGHT_BYTES as int,
    ]
}

/// Why a layer's weights cannot be counted.
pub open spec fn layer_error(
    layer: int,
    plans: Seq<usize>,
    scales: PackedScales,
    split_query: bool,
    split_output: bool,
) -> Option<Error> {
    let groups = layer_groups(plans, scales, split_query, split_output);
    if groups[1] > usize::MAX || groups[2] > usize::MAX || groups[3] > usize::MAX {
        Some(Error::BudgetOverflow)
    } else {
        router::weight_error(layer as usize, plans[4])
    }
}

/// Bytes of a layer; a placed one leaves its shared experts to the owners of their
/// shards.
pub open spec fn layer_total(groups: Seq<int>, placed: bool) -> int {
    groups[0] + groups[1] + groups[2] + groups[4] + if placed {
        0
    } else {
        groups[3]
    }
}

/// Bytes of the first `n` layers.
pub open spec fn weights_total(plans: Seq<[usize; 5]>, scales: PackedScales, n: int) -> int
    decreases n,
{
    if n <= 0 {
        0
    } else {
        weights_total(plans, scales, n - 1) + layer_total(
            layer_groups(plans[n - 1]@, scales, false, false),
            false,
        )
    }
}

/// Why the first `n` layers cannot be counted.
pub open spec fn weights_error(plans: Seq<[usize; 5]>, scales: PackedScales, n: int) -> Option<Error>
    decreases n,
{
    if n <= 0 {
        None
    } else {
        match weights_error(plans, scales, n - 1) {
            Some(e) => Some(e),
            None => match layer_error(n - 1, plans[n - 1]@, scales, false, false) {
                Some(e) => Some(e),
                None => if weights_total(plans, scales, n) > usize::MAX {
                    Some(Error::LaneWeightsOverflow)
                } else {
                    None
                },
            },
        }
    }
}

/// Bytes of the shared experts of the first `n` layers.
pub open spec fn shared_total(plans: Seq<[usize; 5]>, scales: PackedScales, n: int) -> int
    decreases n,
{
    if n <= 0 {
        0
    } else {
        shared_total(plans, scales, n - 1) + layer_groups(plans[n - 1]@, scales, false, false)[3]
    }
}

/// What the weights are counted by: tensors, packed scales, and which projections
/// are left to the shards of two devices.
pub struct WeightSizes {
    pub plans: [[usize; 5]; 40],
    pub scales: PackedScales,
    pub split_query: bool,
    pub split_output: bool,
}

/// Bytes of those of the first `n` layers that `gpu` runs. Shared experts belong
/// to the owners of their shards.
pub open spec fn placed_total(
    sizes: &WeightSizes,
    attention: Seq<usize>,
    gpu: int,
    n: int,
) -> int
    decreases n,
{
    if n <= 0 {
        0
    } else {
        placed_total(sizes, attention, gpu, n - 1) + if attention[n - 1] == gpu {
            layer_total(
                layer_groups(
                    sizes.plans@[n - 1]@,
                    sizes.scales,
                    sizes.split_query,
                    sizes.split_output,
                ),
                true,
            )
        } else {
            0
        }
    }
}

/// Why the first `n` placed layers cannot be counted.
pub open spec fn placed_error(sizes: &WeightSizes, attention: Seq<usize>, n: int) -> Option<Error>
    decreases n,
{
    if n <= 0 {
        None
    } else {
        match placed_error(sizes, attention, n - 1) {
            Some(e) => Some(e),
            None => match layer_error(
                n - 1,
                sizes.plans@[n - 1]@,
                sizes.scales,
                sizes.split_query,
                sizes.split_output,
            ) {
                Some(e) => Some(e),
                None => if placed_total(sizes, attention, attention[n - 1] as int, n) > usize::MAX {
                    Some(Error::LanePlacedOverflow)
                } else {
                    None
                },
            },
        }
    }
}

proof fn lemma_weights_error_stays(plans: Seq<[usize; 5]>, scales: PackedScales, n: int, m: int)
    requires
        n <= m,
        weights_error(plans, scales, n) is Some,
    ensures
        weights_error(plans, scales, m) == weights_error(plans, scales, n),
    decreases m - n,
{
    if n < m && m > 0 {
        lemma_weights_error_stays(plans, scales, n, m - 1);
    }
}

proof fn lemma_placed_error_stays(sizes: &WeightSizes, attention: Seq<usize>, n: int, m: int)
    requires
        n <= m,
        placed_error(sizes, attention, n) is Some,
    ensures
        placed_error(sizes, attention, m) == placed_error(sizes, attention, n),
    decreases m - n,
{
    if n < m && m > 0 {
        lemma_placed_error_stays(sizes, attention, n, m - 1);
    }
}

/// Adds a layer's groups.
fn add_groups(start: usize, groups: &[usize; 5], placed: bool, overflow: Error) -> (r: Result<
    usize,
    Error,
>)
    ensures
        source_cache::same_count(
            r,
            budget::counted(
                start + groups@[0] + groups@[1] + groups@[2] + groups@[4] + if placed {
                    0
                } else {
                    groups@[3] as int
                },
                overflow,
            ),
        ),
{
    let shared: usize = if placed {
        0
    } else {
        groups[3]
    };
    proof {
        reveal_with_fuel(budget::total, 6);
    }
    let parts: [usize; 5] = [groups[0], groups[1], groups[2], shared, groups[4]];
    sum(start, parts.as_slice(), overflow)
}

impl BackboneLaneWeights {
    /// Bytes of a layer's weights by group. `plans` are the bytes of the tensors of
    /// its mixing, query, output, shared and router weights.
    pub fn layer_bytes_with_split(
        layer: usize,
        plans: &[usize; 5],
        scales: &PackedScales,
        split_query: bool,
        split_output: bool,
    ) -> (r: Result<[usize; 5], Error>)
        requires
            layer < LAYERS,
        ensures
            match r {
                Ok(groups) => {
                    &&& layer_error(
                        layer as int,
                        plans@,
                        *scales,
                        split_query,
                        split_output,
                    ) is None
                    &&& forall|k: int|
                        0 <= k < 5 ==> (#[trigger] groups@[k]) == layer_groups(
                            plans@,
                            *scales,
                            split_query,
                            split_output,
                        )[k]
                },
                Err(e) => layer_error(layer as int, plans@, *scales, split_query, split_output)
                    == Some(e),
            },
    {
        let query: usize = match AttentionQueryWeights::device_bytes_with_split(
            plans[1],
            scales.query[0],
            scales.query[1],
            split_query,
        ) {
            Err(e) => {
                return Err(e);
            },
            Ok(bytes) => bytes,
        };
        let output: usize = match AttentionOutputWeights::device_bytes_with_split(
            plans[2],
            scales.output[0],
            scales.output[1],
            split_output,
        ) {
            Err(e) => {
                return Err(e);
            },
            Ok(bytes) => bytes,
        };
        let shared: usize = match BackboneSharedWeights::device_bytes(
            plans[3],
            scales.shared[0],
            scales.shared[1],
        ) {
            Err(e) => {
                return Err(e);
            },
            Ok(bytes) => bytes,
        };
        let router: usize = match BackboneRouterWeights::device_bytes(layer, plans[4]) {
            Err(e) => {
                return Err(e);
            },
            Ok(bytes) => bytes,
        };
        Ok([plans[0], query, output, shared, router])
    }

    /// Bytes of all forty layers on one device.
    pub fn device_bytes(plans: &[[usize; 5]; 40], scales: &PackedScales) -> (r: Result<usize, Error>)
        ensures
            match r {
                Ok(bytes) => weights_error(plans@, *scales, 40) is None && bytes == weights_total(
                    plans@,
                    *scales,
                    40,
                ),
                Err(e) => weights_error(plans@, *scales, 40) == Some(e),
            },
    {
        let mut bytes: usize = 0;
        let mut layer: usize = 0;
        while layer < LAYERS
            invariant
                layer <= LAYERS,
                weights_error(plans@, *scales, layer as int) is None,
                bytes == weights_total(plans@, *scales, layer as int),
            decreases LAYERS - layer,
        {
            proof {
                if weights_error(plans@, *scales, layer + 1) is Some {
                    lemma_weights_error_stays(plans@, *scales, layer + 1, 40);
                }
            }
            let own: [usize; 5] = plans[layer];
            let groups: [usize; 5] = match Self::layer_bytes_with_split(
                layer,
                &own,
                scales,
                false,
                false,
            ) {
                Err(e) => {
                    return Err(e);
                },
                Ok(groups) => groups,
            };
            match add_groups(bytes, &groups, false, Error::LaneWeightsOverflow) {
                Err(e) => {
                    return Err(e);
                },
                Ok(next) => {
                    bytes = next;
                },
            }
            layer = layer + 1;
        }
        Ok(bytes)
    }

    /// Bytes per device of whole layers that run beside their caches.
    pub fn distributed_device_bytes(
        plans: &[[usize; 5]; 40],
        scales: &PackedScales,
        placement: CachePlacement,
    ) -> (r: Result<[usize; 2], Error>)
        requires
            placement.wf(),
        ensures
            ({
                let sizes = WeightSizes {
                    plans: *plans,
                    scales: *scales,
                    split_query: false,
                    split_output: false,
                };
                match r {
                    Ok(bytes) => {
                        &&& placed_error(&sizes, placement.attention@, 40) is None
                        &&& bytes@[0] == placed_total(&sizes, placement.attention@, 0, 40)
                        &&& bytes@[1] == placed_total(&sizes, placement.attention@, 1, 40)
                    },
                    Err(e) => placed_error(&sizes, placement.attention@, 40) == Some(e),
                }
            }),
    {
        let sizes = WeightSizes {
            plans: *plans,
            scales: *scales,
            split_query: false,
            split_output: false,
        };
        Self::distributed_device_bytes_with_split(&sizes, placement)
    }

    /// Bytes per device of layers that run beside their caches.
    pub fn distributed_device_bytes_with_split(sizes: &WeightSizes, placement: CachePlacement) -> (r:
        Result<[usize; 2], Error>)
        requires
            placement.wf(),
        ensures
            match r {
                Ok(bytes) => {
                    &&& placed_error(sizes, placement.attention@, 40) is None
                    &&& bytes@[0] == placed_total(sizes, placement.attention@, 0, 40)
                    &&& bytes@[1] == placed_total(sizes, placement.attention@, 1, 40)
                },
                Err(e) => placed_error(sizes, placement.attention@, 40) == Some(e),
            },
    {
        let mut first: usize = 0;
        let mut second: usize = 0;
        let mut layer: usize = 0;
        while layer < LAYERS
            invariant
                layer <= LAYERS,
                placement.wf(),
                placed_error(sizes, placement.attention@, layer as int) is None,
                first == placed_total(sizes, placement.attention@, 0, layer as int),
                second == placed_total(sizes, placement.attention@, 1, layer as int),
            decreases LAYERS - layer,
        {
            let gpu: usize = placement.attention[layer];
            proof {
                assert(placement.attention@[layer as int] < 2);
                if placed_error(sizes, placement.attention@, layer + 1) is Some {
                    lemma_placed_error_stays(sizes, placement.attention@, layer + 1, 40);
                }
            }
            let own: [usize; 5] = sizes.plans[layer];
            let groups: [usize; 5] = match Self::layer_bytes_with_split(
                layer,
                &own,
                &sizes.scales,
                sizes.split_query,
                sizes.split_output,
            ) {
                Err(e) => {
                    return Err(e);
                },
                Ok(groups) => groups,
            };
            let start: usize = if gpu == 0 {
                first
            } else {
                second
            };
            match add_groups(start, &groups, true, Error::LanePlacedOverflow) {
                Err(e) => {
                    return Err(e);
                },
                Ok(next) => {
                    if gpu == 0 {
                        first = next;
                    } else {
                        second = next;
                    }
                },
            }
            layer = layer + 1;
        }
        Ok([first, second])
    }

    /// The weights of `library` as they lie on `devices`, one for each layer.
    pub open spec fn are_loaded(&self, library: u64, nvfp4: bool, devices: Seq<i32>) -> bool {
        &&& self.layers@.len() == LAYERS
        &&& forall|l: int|
            0 <= l < LAYERS ==> {
                let layer = #[trigger] self.layers@[l];
                let device = devices[l];
                &&& layer.device == device
                &&& layer.query == (AttentionQueryWeights {
                    library,
                    layer: l as usize,
                    device,
                    split: self.split_query,
                })
                &&& layer.projection == (AttentionOutputWeights {
                    library,
                    layer: l as usize,
                    device,
                    split: self.split_output,
                })
                &&& layer.shared == if self.placed {
                    None
                } else {
                    Some(BackboneSharedWeights { library, layer: l as usize })
                }
                &&& layer.router.library == library
                &&& layer.router.layer == l
                &&& layer.router.devices@ == seq![device, device, device]
                &&& layer.router.nvfp4 == nvfp4
            }
    }

    /// The device of every layer: beside its cache, or the `current` one.
    pub open spec fn layer_devices(placement: Option<CachePlacement>, current: i32) -> Seq<i32> {
        Seq::new(
            40,
            |l: int|
                match placement {
                    Some(map) => map.attention@[l] as i32,
                    None => current,
                },
        )
    }

    /// Loads every layer onto its device. Placed layers leave the shared experts
    /// to the owners of their shards.
    fn load_placed_with_split(
        library: u64,
        current: i32,
        nvfp4: bool,
        placement: Option<CachePlacement>,
        split_query: bool,
        split_output: bool,
    ) -> (r: Self)
        requires
            placement matches Some(map) ==> map.wf(),
        ensures
            r.placed == placement is Some,
            r.split_query == split_query,
            r.split_output == split_output,
            r.are_loaded(library, nvfp4, Self::layer_devices(placement, current)),
    {
        let mut r = BackboneLaneWeights {
            layers: Vec::new(),
            placed: placement.is_some(),
            split_query,
            split_output,
        };
        let mut layer: usize = 0;
        while layer < LAYERS
            invariant
                layer <= LAYERS,
                placement matches Some(map) ==> map.wf(),
                r.placed == placement is Some,
                r.split_query == split_query,
                r.split_output == split_output,
                r.layers@.len() == layer,
                forall|l: int|
                    0 <= l < layer ==> {
                        let device = Self::layer_devices(placement, current)[l];
                        let held = #[trigger] r.layers@[l];
                        &&& held.device == device
                        &&& held.query == (AttentionQueryWeights {
                            library,
                            layer: l as usize,
                            device,
                            split: split_query,
                        })
                        &&& held.projection == (AttentionOutputWeights {
                            library,
                            layer: l as usize,
                            device,
                            split: split_output,
                        })
                        &&& held.shared == if placement is Some {
                            None
                        } else {
                            Some(BackboneSharedWeights { library, layer: l as usize })
                        }
                        &&& held.router.library == library
                        &&& held.router.layer == l
                        &&& held.router.devices@ == seq![device, device, device]
                        &&& held.router.nvfp4 == nvfp4
                    },
            decreases LAYERS - layer,
        {
            let device: i32 = match placement {
                Some(map) => {
                    proof {
                        assert(map.attention@[layer as int] < 2);
                    }
                    map.attention[layer] as i32
                },
                None => current,
            };
            let devices: [i32; 3] = [device, device, device];
            proof {
                assert(devices@ =~= seq![device, device, device]);
            }
            r.layers.push(
                LayerWeights {
                    device,
                    query: AttentionQueryWeights { library, layer, device, split: split_query },
                    projection: AttentionOutputWeights {
                        library,
                        layer,
                        device,
                        split: split_output,
                    },
                    shared: if placement.is_some() {
                        None
                    } else {
                        Some(BackboneSharedWeights { library, layer })
                    },
                    router: BackboneRouterWeights { library, layer, devices, nvfp4 },
                },
            );
            layer = layer + 1;
        }
        r
    }

    /// All weights on the current `device`, within `budget` bytes.
    pub fn load(
        library: u64,
        device: i32,
        nvfp4: bool,
        plans: &[[usize; 5]; 40],
        scales: &PackedScales,
        budget: usize,
    ) -> (r: Result<Self, Error>)
        ensures
            match weights_error(plans@, *scales, 40) {
                Some(reason) => r == Err::<Self, Error>(reason),
                None => if weights_total(plans@, *scales, 40) > budget {
                    r == Err::<Self, Error>(Error::LaneWeightsBudget)
                } else {
                    r matches Ok(weights) && {
                        &&& !weights.placed && !weights.split_query && !weights.split_output
                        &&& weights.are_loaded(library, nvfp4, Self::layer_devices(None, device))
                    }
                },
            },
    {
        match Self::device_bytes(plans, scales) {
            Err(e) => Err(e),
            Ok(bytes) => if bytes > budget {
                Err(Error::LaneWeightsBudget)
            } else {
                Ok(Self::load_placed_with_split(library, device, nvfp4, None, false, false))
            },
        }
    }

    /// The weights beside their caches, within each device's budget.
    pub fn load_distributed(
        library: u64,
        nvfp4: bool,
        plans: &[[usize; 5]; 40],
        scales: &PackedScales,
        placement: CachePlacement,
        budgets: [usize; 2],
    ) -> (r: Result<Self, Error>)
        requires
            placement.wf(),
        ensures
            Self::distributed_outcome(
                library,
                nvfp4,
                &(WeightSizes {
                    plans: *plans,
                    scales: *scales,
                    split_query: false,
                    split_output: false,
                }),
                placement,
                budgets@,
                r,
            ),
    {
        let sizes = WeightSizes {
            plans: *plans,
            scales: *scales,
            split_query: false,
            split_output: false,
        };
        Self::load_distributed_with_split(library, nvfp4, &sizes, placement, budgets)
    }

    /// What loading beside the caches comes to.
    pub open spec fn distributed_outcome(
        library: u64,
        nvfp4: bool,
        sizes: &WeightSizes,
        placement: CachePlacement,
        budgets: Seq<usize>,
        r: Result<Self, Error>,
    ) -> bool {
        let first = placed_total(sizes, placement.attention@, 0, 40);
        let second = placed_total(sizes, placement.attention@, 1, 40);
        match placed_error(sizes, placement.attention@, 40) {
            Some(reason) => r == Err::<Self, Error>(reason),
            None => if first > budgets[0] || second > budgets[1] {
                r == Err::<Self, Error>(Error::LanePlacedBudget)
            } else {
                r matches Ok(weights) && {
                    &&& weights.placed
                    &&& weights.split_query == sizes.split_query
                    &&& weights.split_output == sizes.split_output
                    &&& weights.are_loaded(library, nvfp4, Self::layer_devices(Some(placement), 0))
                }
            },
        }
    }

    /// The weights beside their caches, where whole projections may be left to the
    /// shards of two devices.
    pub fn load_distributed_with_split(
        library: u64,
        nvfp4: bool,
        sizes: &WeightSizes,
        placement: CachePlacement,
        budgets: [usize; 2],
    ) -> (r: Result<Self, Error>)
        requires
            placement.wf(),
        ensures
            Self::distributed_outcome(library, nvfp4, sizes, placement, budgets@, r),
    {
        match Self::distributed_device_bytes_with_split(sizes, placement) {
            Err(e) => Err(e),
            Ok(bytes) => if bytes[0] > budgets[0] || bytes[1] > budgets[1] {
                Err(Error::LanePlacedBudget)
            } else {
                Ok(
                    Self::load_placed_with_split(
                        library,
                        0,
                        nvfp4,
                        Some(placement),
                        sizes.split_query,
                        sizes.split_output,
                    ),
                )
            },
        }
    }
}

/// Placing whole layers on two devices moves bytes, it makes none: both devices'
/// weights and all shared experts together are what one device needs.
pub proof fn law_placed_weights_keep_the_total(sizes: &WeightSizes, attention: Seq<usize>, n: int)
    requires
        !sizes.split_query,
        !sizes.split_output,
        0 <= n <= attention.len(),
        forall|l: int| 0 <= l < n ==> (#[trigger] attention[l]) < 2,
    ensures
        placed_total(sizes, attention, 0, n) + placed_total(sizes, attention, 1, n) + shared_total(
            sizes.plans@,
            sizes.scales,
            n,
        ) == weights_total(sizes.plans@, sizes.scales, n),
    decreases n,
{
    if n > 0 {
        law_placed_weights_keep_the_total(sizes, attention, n - 1);
        assert(attention[n - 1] < 2);
    }
}

/// What a lane's kernels ask for at its capacity: one half of its block, the scratch
/// of the query and the output projection, the workspace of the shared experts and
/// that of sparse attention.
#[derive(Debug, Clone, Copy)]
pub struct LaneSizes {
    pub half: usize,
    pub query: [usize; 2],
    pub output: [usize; 2],
    pub shared: usize,
    pub sparse: usize,
}

/// Bytes of a lane's block, query, output, shared, attention and router workspace.
pub open spec fn workspace_groups(
    capacity: u32,
    sizes: LaneSizes,
    split_query: bool,
    split_output: bool,
) -> Seq<int> {
    seq![
        2 * sizes.half,
        4 + capacity * 81160 + budget::matrix_bytes(
            sizes.query@[0] as int,
            sizes.query@[1] as int,
            split_query,
        ),
        4 + capacity * 92424 + budget::matrix_bytes(
            sizes.output@[0] as int,
            sizes.output@[1] as int,
            split_output,
        ),
        sizes.shared + capacity * 20480,
        sizes.sparse as int,
        capacity * 17105,
    ]
}

/// Why the workspace of a lane with whole projections cannot be counted.
pub open spec fn workspace_error(capacity: u32, sizes: LaneSizes) -> Option<Error> {
    let groups = workspace_groups(capacity, sizes, false, false);
    if !(1 <= capacity <= 4096) {
        Some(Error::LaneCapacity)
    } else if groups[0] > usize::MAX || groups[1] > usize::MAX || groups[2] > usize::MAX || groups[3]
        > usize::MAX {
        Some(Error::BudgetOverflow)
    } else {
        None
    }
}

/// A lane's whole workspace; a placed one has no shared experts.
pub open spec fn workspace_total(groups: Seq<int>, placed: bool) -> int {
    groups[0] + groups[1] + groups[2] + groups[4] + groups[5] + if placed {
        0
    } else {
        groups[3]
    }
}

impl<'w> BackboneLane<'w> {
    /// The workspace groups of a lane of `capacity` rows whose projections are whole:
    /// block, query, output, shared experts, sparse attention and router. The other
    /// arguments are what its kernels ask for at that capacity.
    pub fn workspace_bytes(
        capacity: u32,
        half: usize,
        query: [usize; 2],
        output: [usize; 2],
        shared: usize,
        sparse: usize,
    ) -> (r: Result<[usize; 6], Error>)
        ensures
            match r {
                Ok(groups) => {
                    &&& 1 <= capacity <= 4096
                    &&& groups@[0] == 2 * half
                    &&& groups@[1] == 4 + capacity * 81160 + query@[0] + query@[1]
                    &&& groups@[2] == 4 + capacity * 92424 + output@[0] + output@[1]
                    &&& groups@[3] == shared + capacity * 20480
                    &&& groups@[4] == sparse
                    &&& groups@[5] == capacity * 17105
                },
                Err(e) => if 1 <= capacity <= 4096 {
                    &&& e == Error::BudgetOverflow
                    &&& 2 * half > usize::MAX || 4 + capacity * 81160 + query@[0] + query@[1]
                        > usize::MAX || 4 + capacity * 92424 + output@[0] + output@[1] > usize::MAX
                        || shared + capacity * 20480 > usize::MAX
                } else {
                    e == Error::LaneCapacity
                },
            },
    {
        if capacity < 1 || capacity > 4096 {
            return Err(Error::LaneCapacity);
        }
        let block: usize = match BackboneBlockWave::device_bytes(half) {
            Err(e) => {
                return Err(e);
            },
            Ok(bytes) => bytes,
        };
        let first: usize = match AttentionQueryWave::device_bytes(capacity, query[0], query[1]) {
            Err(e) => {
                return Err(e);
            },
            Ok(bytes) => bytes,
        };
        let second: usize = match AttentionOutputWave::device_bytes(capacity, output[0], output[1]) {
            Err(e) => {
                return Err(e);
            },
            Ok(bytes) => bytes,
        };
        let experts: usize = match BackboneSharedWave::device_bytes(shared, capacity) {
            Err(e) => {
                return Err(e);
            },
            Ok(bytes) => bytes,
        };
        let router: usize = match BackboneRouterWave::device_bytes(capacity) {
            Err(e) => {
                return Err(e);
            },
            Ok(bytes) => bytes,
        };
        Ok([block, first, second, experts, sparse, router])
    }

    /// The workspace groups of a lane whose projections may be split.
    pub fn workspace_bytes_with_split(
        capacity: u32,
        sizes: LaneSizes,
        split_query: bool,
        split_output: bool,
    ) -> (r: Result<[usize; 6], Error>)
        ensures
            match r {
                Ok(groups) => {
                    &&& workspace_error(capacity, sizes) is None
                    &&& forall|k: int|
                        0 <= k < 6 ==> (#[trigger] groups@[k]) == workspace_groups(
                            capacity,
                            sizes,
                            split_query,
                            split_output,
                        )[k]
                },
                Err(e) => workspace_error(capacity, sizes) == Some(e),
            },
    {
        let whole: [usize; 6] = match Self::workspace_bytes(
            capacity,
            sizes.half,
            sizes.query,
            sizes.output,
            sizes.shared,
            sizes.sparse,
        ) {
            Err(e) => {
                return Err(e);
            },
            Ok(groups) => groups,
        };
        let query: usize = match AttentionQueryWave::device_bytes_with_split(
            capacity,
            sizes.query[0],
            sizes.query[1],
            split_query,
        ) {
            Err(e) => {
                assert(false);
                return Err(e);
            },
            Ok(bytes) => bytes,
        };
        let output: usize = match AttentionOutputWave::device_bytes_with_split(
            capacity,
            sizes.output[0],
            sizes.output[1],
            split_output,
        ) {
            Err(e) => {
                assert(false);
                return Err(e);
            },
            Ok(bytes) => bytes,
        };
        Ok([whole[0], query, output, whole[3], whole[4], whole[5]])
    }

    /// Bytes of a placed lane whose projections are whole.
    pub fn placed_workspace_bytes(capacity: u32, sizes: LaneSizes) -> (r: Result<usize, Error>)
        ensures
            Self::placed_count(capacity, sizes, false, false, r),
    {
        Self::placed_workspace_bytes_with_split(capacity, sizes, false, false)
    }

    /// What counting a placed lane's workspace comes to.
    pub open spec fn placed_count(
        capacity: u32,
        sizes: LaneSizes,
        split_query: bool,
        split_output: bool,
        r: Result<usize, Error>,
    ) -> bool {
        match workspace_error(capacity, sizes) {
            Some(reason) => r == Err::<usize, Error>(reason),
            None => source_cache::same_count(
                r,
                budget::counted(
                    workspace_total(
                        workspace_groups(capacity, sizes, split_query, split_output),
                        true,
                    ),
                    Error::LanePlacedWorkspace,
                ),
            ),
        }
    }

    /// Bytes of a placed lane whose projections may be split.
    pub fn placed_workspace_bytes_with_split(
        capacity: u32,
        sizes: LaneSizes,
        split_query: bool,
        split_output: bool,
    ) -> (r: Result<usize, Error>)
        ensures
            Self::placed_count(capacity, sizes, split_query, split_output, r),
    {
        match Self::workspace_bytes_with_split(capacity, sizes, split_query, split_output) {
            Err(e) => Err(e),
            Ok(groups) => total_workspace(groups, true, Error::LanePlacedWorkspace),
        }
    }
}

/// Adds a lane's workspace groups; a placed lane has no shared experts.
pub fn total_workspace(groups: [usize; 6], placed: bool, overflow: Error) -> (r: Result<usize, Error>)
    ensures
        source_cache::same_count(
            r,
            budget::counted(
                workspace_total(Seq::new(6, |k: int| groups@[k] as int), placed),
                overflow,
            ),
        ),
{
    let shared: usize = if placed {
        0
    } else {
        groups[3]
    };
    proof {
        reveal_with_fuel(budget::total, 7);
    }
    let parts: [usize; 6] = [groups[0], groups[1], groups[2], shared, groups[4], groups[5]];
    sum(0, parts.as_slice(), overflow)
}

} // verus!
