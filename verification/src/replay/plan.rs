//! The rules that a replay plan obeys.
use crate::replay::{ReplayChain, ReplayLayer, ReplayPlanManifest};
use crate::text;
use crate::text::{append_braced, append_count, append_decimal, nothing_but_blanks, quoted};
use vstd::prelude::*;
use vstd::string::*;

verus! {

/// Why a plan is refused. Chains, layers and rows are given by their place.
#[derive(Debug, Clone, Copy, PartialEq, Eq, Structural)]
pub enum PlanFault {
    Schema,
    EmptyModel,
    HiddenSize,
    TopK,
    EmptyRecipe,
    RoutedLayersRepeated,
    RoutedLayersUnordered,
    DuplicateChain { chain: usize },
    ZeroRows { chain: usize },
    NoLayers { chain: usize },
    DuplicateLayer { chain: usize, layer: usize },
    RowCount { chain: usize, layer: usize },
    RouteCount { chain: usize, layer: usize },
    ExpertRange { chain: usize, layer: usize },
    RepeatedExpert { chain: usize, layer: usize },
    LayerCoverage { chain: usize },
    LayerOrder { chain: usize },
}

pub open spec fn increasing(layers: Seq<u32>) -> bool {
    forall|i: int, j: int| 0 <= i < j < layers.len() ==> layers[i] < layers[j]
}

pub open spec fn manifest_fault(manifest: &ReplayPlanManifest) -> Option<PlanFault> {
    if manifest.schema@ != "ds41rt-expert-reduction-replay-plan-v2"@ {
        Some(PlanFault::Schema)
    } else if text::all_blank(manifest.model@) {
        Some(PlanFault::EmptyModel)
    } else if !(manifest.hidden_size > 0 && manifest.hidden_size % 16 == 0) {
        Some(PlanFault::HiddenSize)
    } else if !(0 < manifest.top_k <= manifest.routed_experts) {
        Some(PlanFault::TopK)
    } else if text::all_blank(manifest.quantization_recipe@) {
        Some(PlanFault::EmptyRecipe)
    } else if manifest.routed_layers@.len() == 0 || !manifest.routed_layers@.no_duplicates() {
        Some(PlanFault::RoutedLayersRepeated)
    } else if !increasing(manifest.routed_layers@) {
        Some(PlanFault::RoutedLayersUnordered)
    } else {
        None
    }
}

/// The layer numbers of a chain in its order.
pub open spec fn layer_ids(layers: Seq<ReplayLayer>) -> Seq<u32> {
    layers.map_values(|layer: ReplayLayer| layer.layer_id)
}

pub open spec fn all_have_length(routes: Seq<Vec<usize>>, top_k: usize) -> bool {
    forall|r: int| 0 <= r < routes.len() ==> (#[trigger] routes[r])@.len() == top_k
}

pub open spec fn all_within(routes: Seq<Vec<usize>>, experts: usize) -> bool {
    forall|r: int, k: int|
        0 <= r < routes.len() && 0 <= k < routes[r]@.len() ==> #[trigger] routes[r]@[k] < experts
}

pub open spec fn no_row_repeats(routes: Seq<Vec<usize>>) -> bool {
    forall|r: int| 0 <= r < routes.len() ==> (#[trigger] routes[r])@.no_duplicates()
}

pub open spec fn layer_fault(
    manifest: &ReplayPlanManifest,
    chain: &ReplayChain,
    c: int,
    l: int,
) -> Option<PlanFault> {
    let layer = chain.layers@[l];
    if layer_ids(chain.layers@.take(l)).contains(layer.layer_id) {
        Some(PlanFault::DuplicateLayer { chain: c as usize, layer: l as usize })
    } else if layer.routes@.len() != chain.physical_m {
        Some(PlanFault::RowCount { chain: c as usize, layer: l as usize })
    } else if !all_have_length(layer.routes@, manifest.top_k) {
        Some(PlanFault::RouteCount { chain: c as usize, layer: l as usize })
    } else if !all_within(layer.routes@, manifest.routed_experts) {
        Some(PlanFault::ExpertRange { chain: c as usize, layer: l as usize })
    } else if !no_row_repeats(layer.routes@) {
        Some(PlanFault::RepeatedExpert { chain: c as usize, layer: l as usize })
    } else {
        None
    }
}

/// The first fault among the first `n` layers.
pub open spec fn first_layer_fault(
    manifest: &ReplayPlanManifest,
    chain: &ReplayChain,
    c: int,
    n: int,
) -> Option<PlanFault>
    decreases n,
{
    if n <= 0 {
        None
    } else {
        match first_layer_fault(manifest, chain, c, n - 1) {
            Some(fault) => Some(fault),
            None => layer_fault(manifest, chain, c, n - 1),
        }
    }
}

/// The same layer numbers, in whatever order.
pub open spec fn same_members(a: Seq<u32>, b: Seq<u32>) -> bool {
    forall|x: u32| a.contains(x) <==> b.contains(x)
}

pub open spec fn repeats_chain(chains: Seq<ReplayChain>, c: int) -> bool {
    exists|e: int| 0 <= e < c && (#[trigger] chains[e]).chain_id@ == chains[c].chain_id@
}

pub open spec fn chain_fault(
    manifest: &ReplayPlanManifest,
    chains: Seq<ReplayChain>,
    c: int,
) -> Option<PlanFault> {
    let chain = &chains[c];
    if repeats_chain(chains, c) {
        Some(PlanFault::DuplicateChain { chain: c as usize })
    } else if chain.physical_m == 0 {
        Some(PlanFault::ZeroRows { chain: c as usize })
    } else if chain.layers@.len() == 0 {
        Some(PlanFault::NoLayers { chain: c as usize })
    } else {
        match first_layer_fault(manifest, chain, c, chain.layers@.len() as int) {
            Some(fault) => Some(fault),
            None => if !same_members(layer_ids(chain.layers@), manifest.routed_layers@) {
                Some(PlanFault::LayerCoverage { chain: c as usize })
            } else if layer_ids(chain.layers@) != manifest.routed_layers@ {
                Some(PlanFault::LayerOrder { chain: c as usize })
            } else {
                None
            },
        }
    }
}

/// The first fault among the first `n` chains.
pub open spec fn first_chain_fault(
    manifest: &ReplayPlanManifest,
    chains: Seq<ReplayChain>,
    n: int,
) -> Option<PlanFault>
    decreases n,
{
    if n <= 0 {
        None
    } else {
        match first_chain_fault(manifest, chains, n - 1) {
            Some(fault) => Some(fault),
            None => chain_fault(manifest, chains, n - 1),
        }
    }
}

pub open spec fn plan_fault(manifest: &ReplayPlanManifest, chains: Seq<ReplayChain>) -> Option<
    PlanFault,
> {
    match manifest_fault(manifest) {
        Some(fault) => Some(fault),
        None => first_chain_fault(manifest, chains, chains.len() as int),
    }
}

fn distinct(items: &[u32]) -> (r: bool)
    ensures
        r == items@.no_duplicates(),
{
    let mut i: usize = 0;
    while i < items.len()
        invariant
            i <= items@.len(),
            forall|a: int, b: int| 0 <= a < b < i ==> items@[a] != items@[b],
        decreases items@.len() - i,
    {
        if found(items, i, items[i]) {
            return false;
        }
        i = i + 1;
    }
    true
}

/// `wanted` is among the first `n` items.
fn found(items: &[u32], n: usize, wanted: u32) -> (r: bool)
    requires
        n <= items@.len(),
    ensures
        r == items@.take(n as int).contains(wanted),
        r ==> exists|k: int| 0 <= k < n && items@[k] == wanted,
        !r ==> forall|k: int| 0 <= k < n ==> items@[k] != wanted,
{
    let mut i: usize = 0;
    while i < n
        invariant
            i <= n <= items@.len(),
            forall|k: int| 0 <= k < i ==> items@[k] != wanted,
        decreases n - i,
    {
        if items[i] == wanted {
            assert(items@.take(n as int)[i as int] == wanted);
            return true;
        }
        i = i + 1;
    }
    false
}

fn ordered(items: &[u32]) -> (r: bool)
    ensures
        r == increasing(items@),
{
    if items.len() == 0 {
        return true;
    }
    let mut i: usize = 1;
    while i < items.len()
        invariant
            1 <= i <= items@.len(),
            forall|a: int, b: int| 0 <= a < b < i ==> items@[a] < items@[b],
        decreases items@.len() - i,
    {
        if items[i - 1] >= items[i] {
            return false;
        }
        i = i + 1;
    }
    true
}

fn check_manifest(manifest: &ReplayPlanManifest) -> (r: Option<PlanFault>)
    ensures
        r == manifest_fault(manifest),
{
    if !text::same_text(manifest.schema.as_str(), "ds41rt-expert-reduction-replay-plan-v2") {
        return Some(PlanFault::Schema);
    }
    if nothing_but_blanks(manifest.model.as_str()) {
        return Some(PlanFault::EmptyModel);
    }
    if manifest.hidden_size == 0 || manifest.hidden_size % 16 != 0 {
        return Some(PlanFault::HiddenSize);
    }
    if manifest.top_k == 0 || manifest.top_k > manifest.routed_experts {
        return Some(PlanFault::TopK);
    }
    if nothing_but_blanks(manifest.quantization_recipe.as_str()) {
        return Some(PlanFault::EmptyRecipe);
    }
    if manifest.routed_layers.len() == 0 || !distinct(&manifest.routed_layers) {
        return Some(PlanFault::RoutedLayersRepeated);
    }
    if !ordered(&manifest.routed_layers) {
        return Some(PlanFault::RoutedLayersUnordered);
    }
    None
}

fn check_lengths(routes: &[Vec<usize>], top_k: usize) -> (r: bool)
    ensures
        r == all_have_length(routes@, top_k),
{
    let mut i: usize = 0;
    while i < routes.len()
        invariant
            i <= routes@.len(),
            forall|r: int| 0 <= r < i ==> (#[trigger] routes@[r])@.len() == top_k,
        decreases routes@.len() - i,
    {
        if routes[i].len() != top_k {
            return false;
        }
        i = i + 1;
    }
    true
}

fn check_within(routes: &[Vec<usize>], experts: usize) -> (r: bool)
    ensures
        r == all_within(routes@, experts),
{
    let mut i: usize = 0;
    while i < routes.len()
        invariant
            i <= routes@.len(),
            forall|r: int, k: int|
                0 <= r < i && 0 <= k < routes@[r]@.len() ==> #[trigger] routes@[r]@[k] < experts,
        decreases routes@.len() - i,
    {
        let row = &routes[i];
        let mut j: usize = 0;
        while j < row.len()
            invariant
                i < routes@.len(),
                *row == routes@[i as int],
                j <= row@.len(),
                forall|k: int| 0 <= k < j ==> row@[k] < experts,
            decreases row@.len() - j,
        {
            if row[j] >= experts {
                assert(routes@[i as int]@[j as int] >= experts);
                return false;
            }
            j = j + 1;
        }
        i = i + 1;
    }
    true
}

fn check_repeats(routes: &[Vec<usize>]) -> (r: bool)
    ensures
        r == no_row_repeats(routes@),
{
    let mut i: usize = 0;
    while i < routes.len()
        invariant
            i <= routes@.len(),
            forall|r: int| 0 <= r < i ==> (#[trigger] routes@[r])@.no_duplicates(),
        decreases routes@.len() - i,
    {
        let row = &routes[i];
        let mut j: usize = 0;
        while j < row.len()
            invariant
                i < routes@.len(),
                *row == routes@[i as int],
                j <= row@.len(),
                forall|a: int, b: int| 0 <= a < b < j ==> row@[a] != row@[b],
            decreases row@.len() - j,
        {
            let mut k: usize = 0;
            while k < j
                invariant
                    i < routes@.len(),
                    *row == routes@[i as int],
                    k <= j < row@.len(),
                    forall|a: int| 0 <= a < k ==> row@[a] != row@[j as int],
                decreases j - k,
            {
                if row[k] == row[j] {
                    assert(!routes@[i as int]@.no_duplicates());
                    return false;
                }
                k = k + 1;
            }
            j = j + 1;
        }
        i = i + 1;
    }
    true
}

fn check_layer(manifest: &ReplayPlanManifest, chain: &ReplayChain, c: usize, l: usize) -> (r:
    Option<PlanFault>)
    requires
        l < chain.layers@.len(),
    ensures
        r == layer_fault(manifest, chain, c as int, l as int),
{
    let layer = &chain.layers[l];
    let mut i: usize = 0;
    let ghost earlier = layer_ids(chain.layers@.take(l as int));
    while i < l
        invariant
            i <= l < chain.layers@.len(),
            *layer == chain.layers@[l as int],
            earlier == layer_ids(chain.layers@.take(l as int)),
            forall|k: int| 0 <= k < i ==> chain.layers@[k].layer_id != layer.layer_id,
        decreases l - i,
    {
        if chain.layers[i].layer_id == layer.layer_id {
            assert(earlier[i as int] == layer.layer_id);
            return Some(PlanFault::DuplicateLayer { chain: c, layer: l });
        }
        i = i + 1;
    }
    assert(!earlier.contains(layer.layer_id));
    if layer.routes.len() != chain.physical_m {
        return Some(PlanFault::RowCount { chain: c, layer: l });
    }
    if !check_lengths(&layer.routes, manifest.top_k) {
        return Some(PlanFault::RouteCount { chain: c, layer: l });
    }
    if !check_within(&layer.routes, manifest.routed_experts) {
        return Some(PlanFault::ExpertRange { chain: c, layer: l });
    }
    if !check_repeats(&layer.routes) {
        return Some(PlanFault::RepeatedExpert { chain: c, layer: l });
    }
    None
}

/// The layer numbers of a chain.
pub fn chain_layers(chain: &ReplayChain) -> (r: Vec<u32>)
    ensures
        r@ == layer_ids(chain.layers@),
{
    let mut ids: Vec<u32> = Vec::new();
    let mut i: usize = 0;
    while i < chain.layers.len()
        invariant
            i <= chain.layers@.len(),
            ids@ == layer_ids(chain.layers@).take(i as int),
        decreases chain.layers@.len() - i,
    {
        ids.push(chain.layers[i].layer_id);
        i = i + 1;
        assert(ids@ =~= layer_ids(chain.layers@).take(i as int));
    }
    assert(layer_ids(chain.layers@).take(i as int) =~= layer_ids(chain.layers@));
    ids
}

/// Every item of `a` is in `b`.
fn subset(a: &[u32], b: &[u32]) -> (r: bool)
    ensures
        r == (forall|x: u32| a@.contains(x) ==> b@.contains(x)),
{
    assert(b@.take(b@.len() as int) =~= b@);
    let mut i: usize = 0;
    while i < a.len()
        invariant
            i <= a@.len(),
            b@.take(b@.len() as int) == b@,
            forall|k: int| 0 <= k < i ==> b@.contains(#[trigger] a@[k]),
        decreases a@.len() - i,
    {
        if !found(b, b.len(), a[i]) {
            assert(a@.contains(a@[i as int]));
            return false;
        }
        i = i + 1;
    }
    true
}

fn check_chain(manifest: &ReplayPlanManifest, chains: &[ReplayChain], c: usize) -> (r: Option<
    PlanFault,
>)
    requires
        c < chains@.len(),
    ensures
        r == chain_fault(manifest, chains@, c as int),
        r matches Some(fault) ==> fault.names(chains@),
{
    let chain = &chains[c];
    let mut i: usize = 0;
    while i < c
        invariant
            i <= c < chains@.len(),
            *chain == chains@[c as int],
            forall|e: int| 0 <= e < i ==> chains@[e].chain_id@ != chain.chain_id@,
        decreases c - i,
    {
        if chains[i].chain_id == chain.chain_id {
            assert(chains@[i as int].chain_id@ == chains@[c as int].chain_id@);
            return Some(PlanFault::DuplicateChain { chain: c });
        }
        i = i + 1;
    }
    if chain.physical_m == 0 {
        return Some(PlanFault::ZeroRows { chain: c });
    }
    if chain.layers.len() == 0 {
        return Some(PlanFault::NoLayers { chain: c });
    }
    let mut l: usize = 0;
    while l < chain.layers.len()
        invariant
            l <= chain.layers@.len(),
            c < chains@.len(),
            *chain == chains@[c as int],
            !repeats_chain(chains@, c as int),
            chain.physical_m != 0,
            chain.layers@.len() > 0,
            first_layer_fault(manifest, chain, c as int, l as int) is None,
        decreases chain.layers@.len() - l,
    {
        if let Some(fault) = check_layer(manifest, chain, c, l) {
            proof {
                lemma_layer_fault_stays(manifest, chain, c as int, l + 1, chain.layers@.len() as int);
            }
            return Some(fault);
        }
        l = l + 1;
    }
    let ids = chain_layers(chain);
    if !(subset(&ids, &manifest.routed_layers) && subset(&manifest.routed_layers, &ids)) {
        return Some(PlanFault::LayerCoverage { chain: c });
    }
    if !same_numbers(&ids, &manifest.routed_layers) {
        return Some(PlanFault::LayerOrder { chain: c });
    }
    None
}

fn same_numbers(a: &[u32], b: &[u32]) -> (r: bool)
    ensures
        r == (a@ == b@),
{
    if a.len() != b.len() {
        return false;
    }
    let mut i: usize = 0;
    while i < a.len()
        invariant
            i <= a@.len(),
            a@.len() == b@.len(),
            forall|k: int| 0 <= k < i ==> a@[k] == b@[k],
        decreases a@.len() - i,
    {
        if a[i] != b[i] {
            return false;
        }
        i = i + 1;
    }
    assert(a@ =~= b@);
    true
}

proof fn lemma_layer_fault_stays(
    manifest: &ReplayPlanManifest,
    chain: &ReplayChain,
    c: int,
    n: int,
    m: int,
)
    requires
        n <= m,
        first_layer_fault(manifest, chain, c, n) is Some,
    ensures
        first_layer_fault(manifest, chain, c, m) == first_layer_fault(manifest, chain, c, n),
    decreases m - n,
{
    if n < m && m > 0 {
        lemma_layer_fault_stays(manifest, chain, c, n, m - 1);
    }
}

proof fn lemma_chain_fault_stays(
    manifest: &ReplayPlanManifest,
    chains: Seq<ReplayChain>,
    n: int,
    m: int,
)
    requires
        n <= m,
        first_chain_fault(manifest, chains, n) is Some,
    ensures
        first_chain_fault(manifest, chains, m) == first_chain_fault(manifest, chains, n),
    decreases m - n,
{
    if n < m && m > 0 {
        lemma_chain_fault_stays(manifest, chains, n, m - 1);
    }
}

/// Accepts a plan, or tells its first fault: of the manifest before the chains,
/// and of the chains in their order.
pub fn validate_replay_plan(manifest: &ReplayPlanManifest, chains: &[ReplayChain]) -> (r: Result<
    (),
    PlanFault,
>)
    ensures
        match r {
            Ok(_) => plan_fault(manifest, chains@) is None,
            Err(fault) => {
                &&& plan_fault(manifest, chains@) == Some(fault)
                &&& fault.names(chains@)
                &&& fault is ExpertRange ==> manifest.routed_experts > 0
            },
        },
{
    if let Some(fault) = check_manifest(manifest) {
        return Err(fault);
    }
    let mut c: usize = 0;
    while c < chains.len()
        invariant
            c <= chains@.len(),
            manifest_fault(manifest) is None,
            first_chain_fault(manifest, chains@, c as int) is None,
        decreases chains@.len() - c,
    {
        if let Some(fault) = check_chain(manifest, chains, c) {
            proof {
                lemma_chain_fault_stays(manifest, chains@, c + 1, chains@.len() as int);
            }
            return Err(fault);
        }
        c = c + 1;
    }
    Ok(())
}

/// Every chain of an accepted plan has rows, runs the manifest's layers in the
/// manifest's order, and sends each row of each layer to `top_k` different
/// experts of the model.
pub proof fn law_accepted_plan_is_uniform(
    manifest: &ReplayPlanManifest,
    chains: Seq<ReplayChain>,
    c: int,
    l: int,
    row: int,
)
    requires
        plan_fault(manifest, chains) is None,
        0 <= c < chains.len(),
        0 <= l < manifest.routed_layers@.len(),
        0 <= row < chains[c].physical_m,
    ensures
        ({
            let layer = chains[c].layers@[l];
            &&& chains[c].layers@.len() == manifest.routed_layers@.len()
            &&& layer.layer_id == manifest.routed_layers@[l]
            &&& layer.routes@.len() == chains[c].physical_m
            &&& layer.routes@[row]@.len() == manifest.top_k
            &&& layer.routes@[row]@.no_duplicates()
            &&& forall|k: int|
                0 <= k < manifest.top_k ==> (#[trigger] layer.routes@[row]@[k])
                    < manifest.routed_experts
        }),
{
    lemma_no_chain_fault(manifest, chains, chains.len() as int, c);
    let chain = &chains[c];
    assert(layer_ids(chain.layers@).len() == chain.layers@.len());
    assert(layer_ids(chain.layers@)[l] == chain.layers@[l].layer_id);
    lemma_no_layer_fault(manifest, chain, c, chain.layers@.len() as int, l);
}

/// The chains of an accepted plan have different identifiers.
pub proof fn law_accepted_chains_are_distinct(
    manifest: &ReplayPlanManifest,
    chains: Seq<ReplayChain>,
    a: int,
    b: int,
)
    requires
        plan_fault(manifest, chains) is None,
        0 <= a < b < chains.len(),
    ensures
        chains[a].chain_id@ != chains[b].chain_id@,
{
    lemma_no_chain_fault(manifest, chains, chains.len() as int, b);
}

proof fn lemma_no_chain_fault(
    manifest: &ReplayPlanManifest,
    chains: Seq<ReplayChain>,
    n: int,
    c: int,
)
    requires
        first_chain_fault(manifest, chains, n) is None,
        0 <= c < n,
    ensures
        chain_fault(manifest, chains, c) is None,
    decreases n,
{
    if c < n - 1 {
        lemma_no_chain_fault(manifest, chains, n - 1, c);
    }
}

proof fn lemma_no_layer_fault(
    manifest: &ReplayPlanManifest,
    chain: &ReplayChain,
    c: int,
    n: int,
    l: int,
)
    requires
        first_layer_fault(manifest, chain, c, n) is None,
        0 <= l < n,
    ensures
        layer_fault(manifest, chain, c, l) is None,
    decreases n,
{
    if l < n - 1 {
        lemma_no_layer_fault(manifest, chain, c, n - 1, l);
    }
}

impl PlanFault {
    /// The fault names a chain and a layer that are there.
    pub open spec fn names(self, chains: Seq<ReplayChain>) -> bool {
        match self {
            PlanFault::DuplicateChain { chain } | PlanFault::ZeroRows { chain }
            | PlanFault::NoLayers { chain } | PlanFault::LayerCoverage { chain }
            | PlanFault::LayerOrder { chain } => chain < chains.len(),
            PlanFault::DuplicateLayer { chain, layer } | PlanFault::RowCount { chain, layer }
            | PlanFault::RouteCount { chain, layer } | PlanFault::ExpertRange { chain, layer }
            | PlanFault::RepeatedExpert { chain, layer } => chain < chains.len() && layer
                < chains[chain as int].layers@.len(),
            _ => true,
        }
    }

    /// The fault in words.
    pub open spec fn words(self, manifest: &ReplayPlanManifest, chains: Seq<ReplayChain>) -> Seq<
        char,
    > {
        match self {
            PlanFault::Schema => "replay plan schema "@ + text::quoted_text(manifest.schema@)
                + " is not ds41rt-expert-reduction-replay-plan-v2; regenerate it from a DeepSeek route bank"@,
            PlanFault::EmptyModel => "replay model is empty"@,
            PlanFault::HiddenSize => "replay hidden size "@ + text::decimal(
                manifest.hidden_size as nat,
            ) + " must be a positive multiple of 16"@,
            PlanFault::TopK => "replay top-k "@ + text::decimal(manifest.top_k as nat)
                + " is invalid for "@ + text::decimal(manifest.routed_experts as nat)
                + " routed experts"@,
            PlanFault::EmptyRecipe => "replay quantization recipe is empty"@,
            PlanFault::RoutedLayersRepeated =>
                "replay routed layers must be nonempty and unique"@,
            PlanFault::RoutedLayersUnordered =>
                "replay routed layers must be strictly increasing"@,
            PlanFault::DuplicateChain { chain } => "duplicate replay chain ID "@
                + chains[chain as int].chain_id@,
            PlanFault::ZeroRows { chain } => of_chain(chains, chain) + " has zero physical M"@,
            PlanFault::NoLayers { chain } => of_chain(chains, chain) + " has no layers"@,
            PlanFault::DuplicateLayer { chain, layer } => of_chain(chains, chain)
                + " duplicates layer "@ + text::decimal(
                chains[chain as int].layers@[layer as int].layer_id as nat,
            ),
            PlanFault::RowCount { chain, layer } => of_layer(chains, chain, layer) + " has "@
                + text::decimal(chains[chain as int].layers@[layer as int].routes@.len())
                + " rows, expected "@ + text::decimal(chains[chain as int].physical_m as nat),
            PlanFault::RouteCount { chain, layer } => of_layer(chains, chain, layer)
                + " is not top-"@ + text::decimal(manifest.top_k as nat),
            PlanFault::ExpertRange { chain, layer } => of_layer(chains, chain, layer)
                + " contains an expert outside 0.."@ + text::decimal(
                (manifest.routed_experts - 1) as nat,
            ),
            PlanFault::RepeatedExpert { chain, layer } => of_layer(chains, chain, layer)
                + " repeats an expert ID within a row"@,
            PlanFault::LayerCoverage { chain } => of_chain(chains, chain) + " layer coverage "@
                + text::braced(sorted(layer_ids(chains[chain as int].layers@)))
                + " does not match manifest "@ + text::braced(sorted(manifest.routed_layers@)),
            PlanFault::LayerOrder { chain } => of_chain(chains, chain)
                + " layer order does not match the manifest"@,
        }
    }

    /// The fault in words, for the plan in which it was found.
    pub fn message(&self, manifest: &ReplayPlanManifest, chains: &[ReplayChain]) -> (r: String)
        requires
            self.names(chains@),
            self is ExpertRange ==> manifest.routed_experts > 0,
        ensures
            r@ == self.words(manifest, chains@),
    {
        let mut out = String::new();
        match self {
            PlanFault::Schema => {
                out.append("replay plan schema ");
                out.append(quoted(manifest.schema.as_str()).as_str());
                out.append(
                    " is not ds41rt-expert-reduction-replay-plan-v2; regenerate it from a DeepSeek route bank",
                );
            },
            PlanFault::EmptyModel => {
                out.append("replay model is empty");
            },
            PlanFault::HiddenSize => {
                out.append("replay hidden size ");
                append_count(&mut out, manifest.hidden_size);
                out.append(" must be a positive multiple of 16");
            },
            PlanFault::TopK => {
                out.append("replay top-k ");
                append_count(&mut out, manifest.top_k);
                out.append(" is invalid for ");
                append_count(&mut out, manifest.routed_experts);
                out.append(" routed experts");
            },
            PlanFault::EmptyRecipe => {
                out.append("replay quantization recipe is empty");
            },
            PlanFault::RoutedLayersRepeated => {
                out.append("replay routed layers must be nonempty and unique");
            },
            PlanFault::RoutedLayersUnordered => {
                out.append("replay routed layers must be strictly increasing");
            },
            PlanFault::DuplicateChain { chain } => {
                out.append("duplicate replay chain ID ");
                out.append(chains[*chain].chain_id.as_str());
            },
            PlanFault::ZeroRows { chain } => {
                append_chain(&mut out, chains, *chain);
                out.append(" has zero physical M");
            },
            PlanFault::NoLayers { chain } => {
                append_chain(&mut out, chains, *chain);
                out.append(" has no layers");
            },
            PlanFault::DuplicateLayer { chain, layer } => {
                append_chain(&mut out, chains, *chain);
                out.append(" duplicates layer ");
                append_decimal(&mut out, chains[*chain].layers[*layer].layer_id as u64);
            },
            PlanFault::RowCount { chain, layer } => {
                append_layer(&mut out, chains, *chain, *layer);
                out.append(" has ");
                append_count(&mut out, chains[*chain].layers[*layer].routes.len());
                out.append(" rows, expected ");
                append_count(&mut out, chains[*chain].physical_m);
            },
            PlanFault::RouteCount { chain, layer } => {
                append_layer(&mut out, chains, *chain, *layer);
                out.append(" is not top-");
                append_count(&mut out, manifest.top_k);
            },
            PlanFault::ExpertRange { chain, layer } => {
                append_layer(&mut out, chains, *chain, *layer);
                out.append(" contains an expert outside 0..");
                append_count(&mut out, manifest.routed_experts - 1);
            },
            PlanFault::RepeatedExpert { chain, layer } => {
                append_layer(&mut out, chains, *chain, *layer);
                out.append(" repeats an expert ID within a row");
            },
            PlanFault::LayerCoverage { chain } => {
                append_chain(&mut out, chains, *chain);
                out.append(" layer coverage ");
                let ids = chain_layers(&chains[*chain]);
                let seen = sorted_numbers(&ids);
                append_braced(&mut out, &seen);
                out.append(" does not match manifest ");
                let expected = sorted_numbers(&manifest.routed_layers);
                append_braced(&mut out, &expected);
            },
            PlanFault::LayerOrder { chain } => {
                append_chain(&mut out, chains, *chain);
                out.append(" layer order does not match the manifest");
            },
        }
        assert(out@ =~= self.words(manifest, chains@));
        out
    }
}

pub open spec fn of_chain(chains: Seq<ReplayChain>, chain: usize) -> Seq<char> {
    "replay chain "@ + chains[chain as int].chain_id@
}

pub open spec fn of_layer(chains: Seq<ReplayChain>, chain: usize, layer: usize) -> Seq<char> {
    of_chain(chains, chain) + " layer "@ + text::decimal(
        chains[chain as int].layers@[layer as int].layer_id as nat,
    )
}

fn append_chain(out: &mut String, chains: &[ReplayChain], chain: usize)
    requires
        chain < chains@.len(),
    ensures
        final(out)@ == old(out)@ + of_chain(chains@, chain),
{
    out.append("replay chain ");
    out.append(chains[chain].chain_id.as_str());
    assert(out@ =~= old(out)@ + of_chain(chains@, chain));
}

fn append_layer(out: &mut String, chains: &[ReplayChain], chain: usize, layer: usize)
    requires
        chain < chains@.len(),
        layer < chains@[chain as int].layers@.len(),
    ensures
        final(out)@ == old(out)@ + of_layer(chains@, chain, layer),
{
    append_chain(out, chains, chain);
    out.append(" layer ");
    append_decimal(out, chains[chain].layers[layer].layer_id as u64);
    assert(out@ =~= old(out)@ + of_layer(chains@, chain, layer));
}

/// Puts `x` before the first greater item.
pub open spec fn inserted(items: Seq<u32>, x: u32) -> Seq<u32>
    decreases items.len(),
{
    if items.len() == 0 || items.last() <= x {
        items.push(x)
    } else {
        inserted(items.drop_last(), x).push(items.last())
    }
}

/// The items in ascending order.
pub open spec fn sorted(items: Seq<u32>) -> Seq<u32>
    decreases items.len(),
{
    if items.len() == 0 {
        items
    } else {
        inserted(sorted(items.drop_last()), items.last())
    }
}

fn sorted_numbers(items: &[u32]) -> (r: Vec<u32>)
    ensures
        r@ == sorted(items@),
{
    let mut out: Vec<u32> = Vec::new();
    let mut i: usize = 0;
    while i < items.len()
        invariant
            i <= items@.len(),
            out@ == sorted(items@.take(i as int)),
        decreases items@.len() - i,
    {
        let x: u32 = items[i];
        let ghost before = out@;
        let mut at: usize = out.len();
        assert(before.take(at as int) =~= before);
        assert(before.skip(at as int) =~= Seq::empty());
        while at > 0 && out[at - 1] > x
            invariant
                at <= out@.len(),
                out@ == before,
                inserted(before, x) == inserted(before.take(at as int), x) + before.skip(at as int),
            decreases at,
        {
            proof {
                let shorter = before.take(at as int);
                assert(shorter.drop_last() =~= before.take(at - 1));
                assert(before.skip(at - 1) =~= seq![before[at - 1]] + before.skip(at as int));
                assert(inserted(before, x) =~= inserted(before.take(at - 1), x) + before.skip(
                    at - 1,
                ));
            }
            at = at - 1;
        }
        out.insert(at, x);
        proof {
            assert(before.take(at as int).push(x) + before.skip(at as int) =~= before.insert(
                at as int,
                x,
            ));
            assert(items@.take(i + 1).drop_last() =~= items@.take(i as int));
        }
        i = i + 1;
    }
    assert(items@.take(i as int) =~= items@);
    out
}

} // verus!
