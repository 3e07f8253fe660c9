//! One request lease spans every backbone window and compressed source.
pub mod attention;
pub mod batch_laws;
pub mod budget;
pub mod commit;
pub mod copies;
pub mod direct;
pub mod history;
pub mod laws;
pub mod lifecycle;
pub mod peer;
pub mod placement;
pub mod plan;
pub mod prefix;
pub mod prefix_laws;
pub mod produce;
pub mod publish;
pub mod release;
pub mod replicas;
pub mod restore;
pub mod snapshot;
pub mod steps;
pub mod transaction;
pub mod withdraw;

use crate::backbone_cache::prefix::BackbonePrefix;
use crate::cache_phase::{CachePhase, CacheStage};
use crate::compressor::{CompressorLease, CompressorState};
use crate::error::Error;
use crate::source_cache::MAX_SLOTS;
use crate::window::{WindowLease, WindowState};
use vstd::prelude::*;

verus! {

/// Backbone layers; each has a window.
pub const LAYERS: usize = 40;

/// Compressed sources.
pub const SOURCE_COUNT: usize = 4;

/// Lanes that can keep a request's prefix at the same time.
pub const SNAPSHOT_LANES: usize = 2;

/// The layer that produces compressed source `i`.
pub open spec fn source_layer(i: int) -> int {
    if i == 0 {
        2
    } else if i == 1 {
        8
    } else if i == 2 {
        14
    } else {
        20
    }
}

pub fn source_at(i: usize) -> (r: usize)
    ensures
        r == source_layer(i as int),
{
    if i == 0 {
        2
    } else if i == 1 {
        8
    } else if i == 2 {
        14
    } else {
        20
    }
}

/// The right to use one slot of every component for one request.
#[derive(Debug, Clone, Copy, PartialEq, Eq, Structural)]
pub struct CacheLease {
    pub owner: u64,
    pub slot: usize,
    pub generation: u64,
}

/// A chunk of encoder rows that is published component by component.
#[derive(Debug, Clone, Copy, PartialEq, Eq, Structural)]
pub struct EncoderPublication {
    pub reserved: bool,
    pub batch: u64,
    pub start: u64,
    pub end: u64,
    /// One bit for each published window.
    pub windows: u64,
    /// One bit for each published source.
    pub sources: u8,
}

impl EncoderPublication {
    pub open spec fn has_window(self, layer: int) -> bool {
        self.windows & (1u64 << (layer as u64)) != 0
    }

    pub open spec fn has_source(self, i: int) -> bool {
        self.sources & (1u8 << (i as u8)) != 0
    }

    pub fn window_published(&self, layer: usize) -> (r: bool)
        requires
            layer < LAYERS,
        ensures
            r == self.has_window(layer as int),
    {
        self.windows & (1u64 << (layer as u64)) != 0
    }

    pub fn source_published(&self, i: usize) -> (r: bool)
        requires
            i < SOURCE_COUNT,
        ensures
            r == self.has_source(i as int),
    {
        self.sources & (1u8 << (i as u8)) != 0
    }
}

/// The end of the latest chunk that has published a layer's window.
pub open spec fn window_published_end(chunks: Seq<EncoderPublication>, layer: int) -> Option<u64>
    decreases chunks.len(),
{
    if chunks.len() == 0 {
        None
    } else if chunks.last().has_window(layer) {
        Some(chunks.last().end)
    } else {
        window_published_end(chunks.drop_last(), layer)
    }
}

/// The end of the latest chunk that has published source `i`.
pub open spec fn source_published_end(chunks: Seq<EncoderPublication>, i: int) -> Option<u64>
    decreases chunks.len(),
{
    if chunks.len() == 0 {
        None
    } else if chunks.last().has_source(i) {
        Some(chunks.last().end)
    } else {
        source_published_end(chunks.drop_last(), i)
    }
}

/// One request's place in every component.
pub struct Request {
    pub id: u64,
    pub version: u64,
    pub end: u64,
    pub phase: CachePhase,
    pub publication: Vec<EncoderPublication>,
    pub windows: Vec<WindowLease>,
    pub sources: Vec<CompressorLease>,
}

impl Request {
    /// Where a layer's window should end.
    pub open spec fn window_end(&self, layer: int) -> u64 {
        match window_published_end(self.publication@, layer) {
            Some(end) => end,
            None => self.phase.window_frontier(layer, self.end),
        }
    }

    /// Where source `i` should end.
    pub open spec fn source_end(&self, i: int) -> u64 {
        match source_published_end(self.publication@, i) {
            Some(end) => end,
            None => self.end,
        }
    }

    fn expected_window_end(&self, layer: usize) -> (r: u64)
        requires
            layer < LAYERS,
        ensures
            r == self.window_end(layer as int),
    {
        let mut n: usize = self.publication.len();
        assert(self.publication@.take(n as int) =~= self.publication@);
        while n > 0
            invariant
                n <= self.publication@.len(),
                layer < LAYERS,
                window_published_end(self.publication@, layer as int) == window_published_end(
                    self.publication@.take(n as int),
                    layer as int,
                ),
            decreases n,
        {
            let chunk = self.publication[n - 1];
            proof {
                let here = self.publication@.take(n as int);
                assert(here.last() == chunk);
                assert(here.drop_last() =~= self.publication@.take(n - 1));
            }
            if chunk.window_published(layer) {
                return chunk.end;
            }
            n = n - 1;
        }
        self.phase.window_end(layer, self.end)
    }

    fn expected_source_end(&self, i: usize) -> (r: u64)
        requires
            i < SOURCE_COUNT,
        ensures
            r == self.source_end(i as int),
    {
        let mut n: usize = self.publication.len();
        assert(self.publication@.take(n as int) =~= self.publication@);
        while n > 0
            invariant
                n <= self.publication@.len(),
                i < SOURCE_COUNT,
                source_published_end(self.publication@, i as int) == source_published_end(
                    self.publication@.take(n as int),
                    i as int,
                ),
            decreases n,
        {
            let chunk = self.publication[n - 1];
            proof {
                let here = self.publication@.take(n as int);
                assert(here.last() == chunk);
                assert(here.drop_last() =~= self.publication@.take(n - 1));
            }
            if chunk.source_published(i) {
                return chunk.end;
            }
            n = n - 1;
        }
        self.end
    }
}

/// Preallocated storage for retained prefixes.
#[derive(Debug, Clone, Copy, PartialEq, Eq, Structural)]
pub struct SnapshotPool {
    pub device: i32,
    pub slot_bytes: usize,
    pub slots: usize,
}

/// A prefix whose copies are on their way.
pub struct PendingPrefix {
    pub lease: CacheLease,
    pub prefix: BackbonePrefix,
}

pub struct BackboneCache {
    pub owner: u64,
    pub library: u64,
    pub windows: Vec<WindowState>,
    pub sources: Vec<CompressorState>,
    pub requests: Vec<Option<Request>>,
    pub generations: Vec<u64>,
    /// A component failed half way; the bank must be made anew.
    pub poisoned: bool,
    pub prefix_pool: Option<SnapshotPool>,
    pub prefix_copies: Vec<Option<PendingPrefix>>,
}

impl BackboneCache {
    /// The request's leases name its own slot of each component.
    pub open spec fn leases_wf(&self, slot: int, request: &Request) -> bool {
        &&& request.windows@.len() == LAYERS
        &&& request.sources@.len() == SOURCE_COUNT
        &&& forall|l: int|
            0 <= l < LAYERS ==> {
                &&& (#[trigger] request.windows@[l]).slot == slot
                &&& request.windows@[l].owner == self.windows@[l].owner
            }
        &&& forall|i: int|
            0 <= i < SOURCE_COUNT ==> {
                &&& (#[trigger] request.sources@[i]).slot == slot
                &&& request.sources@[i].owner == self.sources@[i].owner
            }
    }

    pub open spec fn components_wf(&self) -> bool {
        &&& self.windows@.len() == LAYERS
        &&& self.sources@.len() == SOURCE_COUNT
        &&& forall|l: int|
            0 <= l < LAYERS ==> {
                &&& (#[trigger] self.windows@[l]).inv()
                &&& self.windows@[l].layer == l
                &&& self.windows@[l].slots@.len() == self.requests@.len()
            }
        &&& forall|i: int|
            0 <= i < SOURCE_COUNT ==> {
                &&& (#[trigger] self.sources@[i]).inv()
                &&& self.sources@[i].layer == source_layer(i)
                &&& self.sources@[i].slot_count == self.requests@.len()
            }
    }

    pub open spec fn inv(&self) -> bool {
        &&& self.components_wf()
        &&& 1 <= self.requests@.len() <= MAX_SLOTS
        &&& self.generations@.len() == self.requests@.len()
        &&& self.prefix_copies@.len() == SNAPSHOT_LANES
        &&& forall|s: int|
            0 <= s < self.requests@.len() ==> ((#[trigger] self.requests@[s]) matches Some(request)
                ==> self.leases_wf(s, &request))
        &&& forall|lane: int|
            0 <= lane < SNAPSHOT_LANES ==> ((#[trigger] self.prefix_copies@[lane]) matches Some(
                pending,
            ) ==> self.issued(pending.lease))
        &&& copies::copies_held(self.prefix_copies@, self.sources@)
    }

    /// The bank has handed this lease out, now or before.
    pub open spec fn issued(&self, lease: CacheLease) -> bool {
        lease.slot < self.requests@.len() && lease.generation <= self.generations@[lease.slot as int]
    }

    /// Why `lease` does not name a live request, if it does not.
    pub open spec fn identity_error(&self, lease: CacheLease) -> Option<Error> {
        if self.poisoned {
            Some(Error::CachePoisoned)
        } else if !(lease.owner == self.owner && lease.slot < self.requests@.len()
            && self.generations@[lease.slot as int] == lease.generation) {
            Some(Error::ForeignCacheLease)
        } else if self.requests@[lease.slot as int] is None {
            Some(Error::CacheRequestReleased)
        } else {
            None
        }
    }

    /// A prefix of the request is being copied.
    pub open spec fn snapshotting(&self, lease: CacheLease) -> bool {
        exists|lane: int|
            0 <= lane < self.prefix_copies@.len() && ((
            #[trigger] self.prefix_copies@[lane]) matches Some(pending) && pending.lease == lease)
    }

    /// Why the request cannot be used now, if it cannot.
    pub open spec fn request_error(&self, lease: CacheLease) -> Option<Error> {
        match self.identity_error(lease) {
            Some(e) => Some(e),
            None => if self.snapshotting(lease) {
                Some(Error::SnapshotPending)
            } else {
                None
            },
        }
    }

    pub open spec fn live(&self, lease: CacheLease) -> Request {
        self.requests@[lease.slot as int]->Some_0
    }

    /// Why a layer's window does not have the request's history.
    pub open spec fn window_fault(&self, request: &Request, layer: int) -> Option<Error> {
        let lease = request.windows@[layer];
        match self.windows@[layer].lease_error(lease) {
            Some(e) => Some(e),
            None => {
                let slot = self.windows@[layer].slots@[lease.slot as int];
                if slot.request == Some(request.id) && slot.end == request.window_end(layer) {
                    None
                } else {
                    Some(Error::WindowHistory)
                }
            },
        }
    }

    pub open spec fn source_fault(&self, request: &Request, i: int) -> Option<Error> {
        let lease = request.sources@[i];
        match self.sources@[i].lease_error(lease) {
            Some(e) => Some(e),
            None => {
                let slot = self.sources@[i].slots@[lease.slot as int];
                if slot.request == Some(request.id) && slot.end == request.source_end(i) {
                    None
                } else {
                    Some(Error::SourceHistory)
                }
            },
        }
    }

    pub open spec fn first_window_fault(&self, request: &Request, n: int) -> Option<Error>
        decreases n,
    {
        if n <= 0 {
            None
        } else {
            match self.first_window_fault(request, n - 1) {
                Some(e) => Some(e),
                None => self.window_fault(request, n - 1),
            }
        }
    }

    pub open spec fn first_source_fault(&self, request: &Request, n: int) -> Option<Error>
        decreases n,
    {
        if n <= 0 {
            None
        } else {
            match self.first_source_fault(request, n - 1) {
                Some(e) => Some(e),
                None => self.source_fault(request, n - 1),
            }
        }
    }

    /// Why the request's history is not the same in every component.
    pub open spec fn component_error(&self, request: &Request) -> Option<Error> {
        match self.first_window_fault(request, 40) {
            Some(e) => Some(e),
            None => self.first_source_fault(request, 4),
        }
    }

    /// Why the request has no usable history, if it has none.
    pub open spec fn history_error(&self, lease: CacheLease) -> Option<Error> {
        match self.request_error(lease) {
            Some(e) => Some(e),
            None => self.component_error(&self.live(lease)),
        }
    }

    proof fn lemma_window_fault_stays(&self, request: &Request, n: int, m: int)
        requires
            n <= m,
            self.first_window_fault(request, n) is Some,
        ensures
            self.first_window_fault(request, m) == self.first_window_fault(request, n),
        decreases m - n,
    {
        if n < m && m > 0 {
            self.lemma_window_fault_stays(request, n, m - 1);
        }
    }

    proof fn lemma_source_fault_stays(&self, request: &Request, n: int, m: int)
        requires
            n <= m,
            self.first_source_fault(request, n) is Some,
        ensures
            self.first_source_fault(request, m) == self.first_source_fault(request, n),
        decreases m - n,
    {
        if n < m && m > 0 {
            self.lemma_source_fault_stays(request, n, m - 1);
        }
    }

    /// A request whose history checks out has a live lease on every component.
    pub proof fn lemma_history(&self, request: &Request, l: int, i: int)
        requires
            self.component_error(request) is None,
        ensures
            0 <= l < 40 ==> self.window_fault(request, l) is None,
            0 <= i < 4 ==> self.source_fault(request, i) is None,
    {
        if 0 <= l < 40 && self.window_fault(request, l) is Some {
            self.lemma_window_fault_stays(request, l + 1, 40);
        }
        if 0 <= i < 4 && self.source_fault(request, i) is Some {
            self.lemma_source_fault_stays(request, i + 1, 4);
        }
    }

    /// The bank has not lost track of its components.
    pub(crate) fn healthy(&self) -> (r: Result<(), Error>)
        ensures
            match r {
                Ok(_) => !self.poisoned,
                Err(e) => e == Error::CachePoisoned && self.poisoned,
            },
    {
        if self.poisoned {
            Err(Error::CachePoisoned)
        } else {
            Ok(())
        }
    }

    pub(crate) fn request_identity(&self, lease: CacheLease) -> (r: Result<&Request, Error>)
        requires
            self.inv(),
        ensures
            match r {
                Ok(request) => self.identity_error(lease) is None && *request == self.live(lease),
                Err(e) => self.identity_error(lease) == Some(e),
            },
    {
        match self.healthy() {
            Err(e) => {
                return Err(e);
            },
            Ok(_) => {},
        }
        if !(lease.owner == self.owner && lease.slot < self.requests.len()
            && self.generations[lease.slot] == lease.generation) {
            return Err(Error::ForeignCacheLease);
        }
        match &self.requests[lease.slot] {
            Some(request) => Ok(request),
            None => Err(Error::CacheRequestReleased),
        }
    }

    pub(crate) fn request(&self, lease: CacheLease) -> (r: Result<&Request, Error>)
        requires
            self.inv(),
        ensures
            match r {
                Ok(request) => self.request_error(lease) is None && *request == self.live(lease),
                Err(e) => self.request_error(lease) == Some(e),
            },
    {
        let request = match self.request_identity(lease) {
            Err(e) => {
                return Err(e);
            },
            Ok(request) => request,
        };
        let mut lane: usize = 0;
        while lane < self.prefix_copies.len()
            invariant
                lane <= self.prefix_copies@.len(),
                self.identity_error(lease) is None,
                *request == self.live(lease),
                forall|k: int|
                    0 <= k < lane ==> !((#[trigger] self.prefix_copies@[k]) matches Some(pending)
                        && pending.lease == lease),
            decreases self.prefix_copies@.len() - lane,
        {
            if let Some(pending) = &self.prefix_copies[lane] {
                if pending.lease == lease {
                    assert(self.prefix_copies@[lane as int] matches Some(p) && p.lease == lease);
                    return Err(Error::SnapshotPending);
                }
            }
            lane = lane + 1;
        }
        Ok(request)
    }

    pub fn request_id(&self, lease: CacheLease) -> (r: Result<u64, Error>)
        requires
            self.inv(),
        ensures
            match r {
                Ok(id) => self.identity_error(lease) is None && id == self.live(lease).id,
                Err(e) => self.identity_error(lease) == Some(e),
            },
    {
        match self.request_identity(lease) {
            Ok(request) => Ok(request.id),
            Err(e) => Err(e),
        }
    }

    /// The committed frontier, after every component has been found to agree.
    pub fn committed_end(&self, lease: CacheLease) -> (r: Result<u64, Error>)
        requires
            self.inv(),
        ensures
            match r {
                Ok(end) => self.history_error(lease) is None && end == self.live(lease).end,
                Err(e) => self.history_error(lease) == Some(e),
            },
    {
        let request = match self.request(lease) {
            Err(e) => {
                return Err(e);
            },
            Ok(request) => request,
        };
        assert(self.leases_wf(lease.slot as int, request));
        let mut layer: usize = 0;
        while layer < LAYERS
            invariant
                layer <= LAYERS,
                self.inv(),
                self.request_error(lease) is None,
                *request == self.live(lease),
                self.leases_wf(lease.slot as int, request),
                self.first_window_fault(request, layer as int) is None,
            decreases LAYERS - layer,
        {
            let state = &self.windows[layer];
            let held = request.windows[layer];
            proof {
                if self.first_window_fault(request, layer + 1) is Some {
                    self.lemma_window_fault_stays(request, layer + 1, 40);
                }
            }
            let id: u64 = match state.request_id(held) {
                Err(e) => {
                    return Err(e);
                },
                Ok(id) => id,
            };
            let end: u64 = match state.end(held) {
                Err(e) => {
                    return Err(e);
                },
                Ok(end) => end,
            };
            if !(id == request.id && end == request.expected_window_end(layer)) {
                return Err(Error::WindowHistory);
            }
            layer = layer + 1;
        }
        let mut i: usize = 0;
        while i < SOURCE_COUNT
            invariant
                i <= SOURCE_COUNT,
                self.inv(),
                self.request_error(lease) is None,
                *request == self.live(lease),
                self.leases_wf(lease.slot as int, request),
                self.first_window_fault(request, 40) is None,
                self.first_source_fault(request, i as int) is None,
            decreases SOURCE_COUNT - i,
        {
            let state = &self.sources[i];
            let held = request.sources[i];
            proof {
                if self.first_source_fault(request, i + 1) is Some {
                    self.lemma_source_fault_stays(request, i + 1, 4);
                }
            }
            let id: u64 = match state.request_id(held) {
                Err(e) => {
                    return Err(e);
                },
                Ok(id) => id,
            };
            let end: u64 = match state.committed_end(held) {
                Err(e) => {
                    return Err(e);
                },
                Ok(end) => end,
            };
            if !(id == request.id && end == request.expected_source_end(i)) {
                return Err(Error::SourceHistory);
            }
            i = i + 1;
        }
        Ok(request.end)
    }

    pub fn stage(&self, lease: CacheLease) -> (r: Result<CacheStage, Error>)
        requires
            self.inv(),
        ensures
            match r {
                Ok(stage) => self.request_error(lease) is None && stage
                    == self.live(lease).phase.stage_of(),
                Err(e) => self.request_error(lease) == Some(e),
            },
    {
        match self.request(lease) {
            Ok(request) => Ok(request.phase.stage()),
            Err(e) => Err(e),
        }
    }

    /// How far the token history that the layers see goes. It moves through a
    /// restored encoder prefix while the sources stay at the prefix end; decoder
    /// replay adds nothing to it.
    pub fn history_end(&self, lease: CacheLease) -> (r: Result<u64, Error>)
        requires
            self.inv(),
        ensures
            match r {
                Ok(end) => self.history_error(lease) is None && end == match self.live(lease).phase {
                    CachePhase::EncoderReplay { end: at, .. } => at,
                    _ => self.live(lease).end,
                },
                Err(e) => self.history_error(lease) == Some(e),
            },
    {
        let end: u64 = match self.committed_end(lease) {
            Err(e) => {
                return Err(e);
            },
            Ok(end) => end,
        };
        match self.request(lease) {
            Err(e) => Err(e),
            Ok(request) => match request.phase {
                CachePhase::EncoderReplay { end: at, .. } => Ok(at),
                _ => Ok(end),
            },
        }
    }

    /// The device of a layer's attention.
    pub fn attention_device(&self, layer: usize) -> (r: Result<i32, Error>)
        requires
            self.inv(),
        ensures
            match r {
                Ok(device) => layer < LAYERS && device == self.windows@[layer as int].device,
                Err(e) => e == Error::AttentionLayer && layer >= LAYERS,
            },
    {
        if layer < self.windows.len() {
            Ok(self.windows[layer].device)
        } else {
            Err(Error::AttentionLayer)
        }
    }

    pub fn owner(&self) -> (r: u64)
        ensures
            r == self.owner,
    {
        self.owner
    }

    pub fn prefix_pool(&self) -> (r: Option<SnapshotPool>)
        ensures
            r == self.prefix_pool,
    {
        self.prefix_pool
    }

    pub fn prefix_library(&self) -> (r: u64)
        ensures
            r == self.library,
    {
        self.library
    }

    pub fn sources(&self) -> (r: &[CompressorState])
        ensures
            r@ == self.sources@,
    {
        self.sources.as_slice()
    }
}

} // verus!
