//! Copies of the sources' serving values on the other GPU.
use crate::backbone_cache::copies;
use crate::backbone_cache;
use crate::backbone_cache::budget;
use crate::backbone_cache::placement::CachePlacement;
use crate::backbone_cache::{source_at, BackboneCache, LAYERS, SOURCE_COUNT};
use crate::compressor::wave::CompressorWave;
use crate::error::Error;
use crate::source_cache::replica::{Device, ReplicaBuffers, SourceReplica};
use crate::window::WindowWave;
use vstd::prelude::*;

verus! {

impl BackboneCache {
    /// Why a replicated bank does not fit the budgets, if it does not.
    pub open spec fn replicated_budget_error(
        placement: CachePlacement,
        slots: usize,
        source_pages: Seq<usize>,
        window_bytes: usize,
        budgets: Seq<usize>,
    ) -> Option<Error> {
        match budget::mirrored(
            placement.attention@,
            slots as int,
            source_pages,
            window_bytes as int,
            4,
        ) {
            Err(e) => Some(e),
            Ok(sums) => if sums.0 > budgets[0] || sums.1 > budgets[1] {
                Some(Error::ReplicatedBudget)
            } else {
                None
            },
        }
    }

    /// A bank whose sources have copies on the other GPU, in `buffers`. No half
    /// replicated bank can be seen.
    pub fn new_replicated(
        next_id: &mut u64,
        library: u64,
        placement: CachePlacement,
        slots: usize,
        source_pages: [usize; 4],
        window_bytes: usize,
        budgets: [usize; 2],
        buffers: &[ReplicaBuffers],
    ) -> (r: Result<Self, Error>)
        requires
            placement.wf(),
            Self::replicated_budget_error(
                placement,
                slots,
                source_pages@,
                window_bytes,
                budgets@,
            ) is None ==> {
                &&& buffers@.len() == SOURCE_COUNT
                &&& forall|i: int|
                    0 <= i < SOURCE_COUNT ==> (#[trigger] buffers@[i]).sized(
                        source_pages@[i] as int,
                        slots as int,
                    )
            },
        ensures
            match r {
                Ok(bank) => {
                    &&& Self::replicated_budget_error(
                        placement,
                        slots,
                        source_pages@,
                        window_bytes,
                        budgets@,
                    ) is None
                    &&& *final(next_id) == *old(next_id) + backbone_cache::lifecycle::BANK_IDS
                    &&& bank.unused(*old(next_id) as int, slots as int)
                    &&& bank.library == library
                    &&& forall|l: int|
                        0 <= l < LAYERS ==> (#[trigger] bank.windows@[l]).device
                            == placement.attention@[l]
                    &&& forall|i: int|
                        0 <= i < SOURCE_COUNT ==> {
                            &&& (#[trigger] bank.sources@[i]).index.pool.references@.len()
                                == source_pages@[i]
                            &&& bank.sources@[i].index.replica matches Some(replica)
                                && replica.device == bank.peer(i) && replica.buffers == buffers@[i]
                        }
                },
                Err(e) => {
                    &&& *final(next_id) == *old(next_id)
                    &&& match Self::replicated_budget_error(
                        placement,
                        slots,
                        source_pages@,
                        window_bytes,
                        budgets@,
                    ) {
                        Some(reason) => e == reason,
                        None => {
                            let home = budget::placed(
                                placement.attention@,
                                slots as int,
                                source_pages@,
                                window_bytes as int,
                                4,
                            );
                            if home matches Ok(sums) && (sums.0 > budgets@[0] || sums.1
                                > budgets@[1]) {
                                e == Error::CacheBudget
                            } else if home is Err {
                                home == Err::<(int, int), Error>(e)
                            } else {
                                e == Error::CacheIdsExhausted && *old(next_id)
                                    + backbone_cache::lifecycle::BANK_IDS > u64::MAX
                            }
                        },
                    }
                },
            },
    {
        match Self::replicated_device_bytes(placement, slots, source_pages, window_bytes) {
            Err(e) => {
                return Err(e);
            },
            Ok(needed) => {
                if needed[0] > budgets[0] || needed[1] > budgets[1] {
                    return Err(Error::ReplicatedBudget);
                }
            },
        }
        let bank = match Self::new_distributed(
            next_id,
            library,
            placement,
            slots,
            source_pages,
            window_bytes,
            budgets,
        ) {
            Err(e) => {
                return Err(e);
            },
            Ok(bank) => bank,
        };
        proof {
            assert forall|i: int| 0 <= i < SOURCE_COUNT implies 0
                <= bank.windows@[#[trigger] backbone_cache::source_layer(i)].device <= 1 by {
                let layer = backbone_cache::source_layer(i);
                assert(placement.attention@[layer] < 2);
                assert(bank.windows@[layer].device == placement.attention@[layer]);
            }
            assert forall|i: int| 0 <= i < SOURCE_COUNT implies (#[trigger] buffers@[i]).serve(
                &bank.sources@[i].index,
            ) by {
                assert(buffers@[i].sized(source_pages@[i] as int, slots as int));
                assert(bank.sources@[i].inv());
                assert(bank.sources@[i].slot_count == slots);
            }
            assert forall|i: int| 0 <= i < SOURCE_COUNT implies #[trigger] bank.replica_error(
                i,
            ) is None by {
                assert(bank.sources@[i].inv());
                assert(bank.sources@[i].index.untouched());
                assert(0 <= bank.windows@[backbone_cache::source_layer(i)].device <= 1);
            }
            bank.lemma_replicas_accepted(4);
        }
        bank.enable_replicas(buffers)
    }

    proof fn lemma_replicas_accepted(&self, n: int)
        requires
            n <= SOURCE_COUNT,
            forall|i: int| 0 <= i < SOURCE_COUNT ==> #[trigger] self.replica_error(i) is None,
        ensures
            self.first_replica_error(n) is None,
        decreases n,
    {
        if n > 0 {
            self.lemma_replicas_accepted(n - 1);
            assert(self.replica_error(n - 1) is None);
        }
    }

    /// The GPU of source `i`, and the other one.
    pub open spec fn home(&self, i: int) -> Device {
        Device { library: self.library, id: self.windows@[backbone_cache::source_layer(i)].device }
    }

    pub open spec fn peer(&self, i: int) -> Device {
        Device {
            library: self.library,
            id: (1 - self.windows@[backbone_cache::source_layer(i)].device) as i32,
        }
    }

    pub open spec fn replica_error(&self, i: int) -> Option<Error> {
        if self.sources@[i].index.replica is Some {
            Some(Error::ReplicaConfigured)
        } else {
            SourceReplica::admission_error(&self.sources@[i].index, self.home(i), self.peer(i))
        }
    }

    pub open spec fn first_replica_error(&self, n: int) -> Option<Error>
        decreases n,
    {
        if n <= 0 {
            None
        } else {
            match self.first_replica_error(n - 1) {
                Some(e) => Some(e),
                None => self.replica_error(n - 1),
            }
        }
    }

    proof fn lemma_replica_error_stays(&self, n: int, m: int)
        requires
            n <= m,
            self.first_replica_error(n) is Some,
        ensures
            self.first_replica_error(m) == self.first_replica_error(n),
        decreases m - n,
    {
        if n < m && m > 0 {
            self.lemma_replica_error_stays(n, m - 1);
        }
    }

    /// Gives every source its copy, or the bank up: no half replicated bank can be
    /// seen.
    pub fn enable_replicas(self, buffers: &[ReplicaBuffers]) -> (r: Result<Self, Error>)
        requires
            self.inv(),
            buffers@.len() == SOURCE_COUNT,
            forall|i: int|
                0 <= i < SOURCE_COUNT ==> (#[trigger] buffers@[i]).serve(&self.sources@[i].index),
            forall|i: int|
                0 <= i < SOURCE_COUNT ==> 0 <= self.windows@[#[trigger] backbone_cache::source_layer(
                    i,
                )].device <= 1,
        ensures
            match r {
                Err(e) => self.first_replica_error(4) == Some(e),
                Ok(bank) => {
                    &&& self.first_replica_error(4) is None
                    &&& bank.inv()
                    &&& bank.same_books(&self)
                    &&& bank.poisoned == self.poisoned
                    &&& bank.windows@ == self.windows@
                    &&& forall|i: int|
                        0 <= i < SOURCE_COUNT ==> {
                            let now = (#[trigger] bank.sources@[i]);
                            let was = self.sources@[i];
                            &&& now.index.replica matches Some(replica) && replica.device
                                == self.peer(i) && replica.buffers == buffers@[i]
                            &&& now.slots@ == was.slots@
                            &&& now.same_identity(&was)
                            &&& now.index == (crate::source_cache::SourceCache {
                                replica: now.index.replica,
                                ..was.index
                            })
                        }
                },
            },
    {
        let mut bank = self;
        let mut i: usize = 0;
        while i < SOURCE_COUNT
            invariant
                i <= SOURCE_COUNT,
                self.inv(),
                bank.inv(),
                buffers@.len() == SOURCE_COUNT,
                forall|k: int|
                    0 <= k < SOURCE_COUNT ==> (#[trigger] buffers@[k]).serve(
                        &self.sources@[k].index,
                    ),
                forall|k: int|
                    0 <= k < SOURCE_COUNT ==> 0 <= self.windows@[#[trigger] backbone_cache::source_layer(
                        k,
                    )].device <= 1,
                bank.same_books(&self),
                bank.poisoned == self.poisoned,
                bank.windows@ == self.windows@,
                self.first_replica_error(i as int) is None,
                forall|k: int|
                    0 <= k < i ==> {
                        let now = (#[trigger] bank.sources@[k]);
                        let was = self.sources@[k];
                        &&& now.index.replica matches Some(replica) && replica.device == self.peer(
                            k,
                        ) && replica.buffers == buffers@[k]
                        &&& now.slots@ == was.slots@
                        &&& now.same_identity(&was)
                        &&& now.index == (crate::source_cache::SourceCache {
                            replica: now.index.replica,
                            ..was.index
                        })
                    },
                forall|k: int|
                    i <= k < SOURCE_COUNT ==> #[trigger] bank.sources@[k] == self.sources@[k],
            decreases SOURCE_COUNT - i,
        {
            let ghost between = bank;
            let layer: usize = source_at(i);
            proof {
                if self.first_replica_error(i + 1) is Some {
                    self.lemma_replica_error_stays(i + 1, 4);
                }
                assert(bank.sources@[i as int] == self.sources@[i as int]);
                assert(buffers@[i as int].serve(&self.sources@[i as int].index));
                assert(0 <= self.windows@[backbone_cache::source_layer(i as int)].device <= 1);
            }
            let id: i32 = bank.windows[layer].device;
            let home = Device { library: bank.library, id };
            let peer = Device { library: bank.library, id: 1 - id };
            match bank.sources[i].enable_replica(home, peer, buffers[i]) {
                Err(e) => {
                    return Err(e);
                },
                Ok(_) => {},
            }
            proof {
                assert forall|k: int| 0 <= k < SOURCE_COUNT && k != i implies #[trigger] bank.sources@[k]
                    == between.sources@[k] by {}
                assert(bank.components_wf()) by {
                    assert forall|k: int| 0 <= k < SOURCE_COUNT implies {
                        &&& (#[trigger] bank.sources@[k]).inv()
                        &&& bank.sources@[k].layer == backbone_cache::source_layer(k)
                        &&& bank.sources@[k].slot_count == bank.requests@.len()
                    } by {
                        assert(between.sources@[k].inv());
                    }
                }
                assert forall|k: int| 0 <= k < SOURCE_COUNT implies (
                #[trigger] bank.sources@[k]).owner == between.sources@[k].owner by {}
                copies::lemma_copies_stay_at(
                    bank.prefix_copies@,
                    between.sources@,
                    bank.sources@,
                    i as int,
                );
                bank.lemma_leases_stay(&between);
            }
            i = i + 1;
        }
        Ok(bank)
    }

    /// Why lane `i` cannot publish to the copy of its source.
    pub open spec fn producer_error(
        &self,
        sources: Seq<CompressorWave>,
        producer_library: u64,
        i: int,
    ) -> Option<Error> {
        match self.sources@[i].index.replica {
            None => None,
            Some(replica) => sources[i].replica_error(
                &self.sources@[i],
                replica.pool,
                self.home(i),
                Device { library: producer_library, id: sources[i].buffers.kv_values.device },
            ),
        }
    }

    pub open spec fn first_producer_error(
        &self,
        sources: Seq<CompressorWave>,
        producer_library: u64,
        n: int,
    ) -> Option<Error>
        decreases n,
    {
        if n <= 0 {
            None
        } else {
            match self.first_producer_error(sources, producer_library, n - 1) {
                Some(e) => Some(e),
                None => self.producer_error(sources, producer_library, n - 1),
            }
        }
    }

    proof fn lemma_producer_error_stays(
        &self,
        sources: Seq<CompressorWave>,
        producer_library: u64,
        n: int,
        m: int,
    )
        requires
            n <= m,
            self.first_producer_error(sources, producer_library, n) is Some,
        ensures
            self.first_producer_error(sources, producer_library, m) == self.first_producer_error(
                sources,
                producer_library,
                n,
            ),
        decreases m - n,
    {
        if n < m && m > 0 {
            self.lemma_producer_error_stays(sources, producer_library, n, m - 1);
        }
    }

    /// Lane `i` once it publishes to the copy of its source, where there is one.
    pub open spec fn tied(&self, sources: Seq<CompressorWave>, i: int) -> CompressorWave {
        match self.sources@[i].index.replica {
            None => sources[i],
            Some(replica) => CompressorWave { replica: Some(replica.pool), ..sources[i] },
        }
    }

    /// Ties one lane's unused producers to the bank's copies, before it produces
    /// anything.
    pub fn configure_producer_replicas(
        &self,
        windows: &Vec<WindowWave>,
        sources: &mut Vec<CompressorWave>,
        producer_library: u64,
    ) -> (r: Result<(), Error>)
        requires
            self.inv(),
            forall|i: int|
                0 <= i < old(sources)@.len() ==> (#[trigger] old(sources)@[i]).inv(),
        ensures
            final(sources)@.len() == old(sources)@.len(),
            forall|i: int|
                0 <= i < final(sources)@.len() ==> (#[trigger] final(sources)@[i]).inv(),
            if !(windows@.len() == LAYERS && old(sources)@.len() == SOURCE_COUNT) {
                r == Err::<(), Error>(Error::ProducerCount) && final(sources)@ == old(sources)@
            } else {
                match self.first_producer_error(old(sources)@, producer_library, 4) {
                    Some(reason) => {
                        &&& r == Err::<(), Error>(reason)
                        &&& forall|i: int|
                            0 <= i < SOURCE_COUNT ==> #[trigger] final(sources)@[i]
                                == if self.first_producer_error(
                                old(sources)@,
                                producer_library,
                                i + 1,
                            ) is None {
                                self.tied(old(sources)@, i)
                            } else {
                                old(sources)@[i]
                            }
                    },
                    None => {
                        &&& r is Ok
                        &&& forall|i: int|
                            0 <= i < SOURCE_COUNT ==> #[trigger] final(sources)@[i] == self.tied(
                                old(sources)@,
                                i,
                            )
                    },
                }
            },
    {
        if !(windows.len() == LAYERS && sources.len() == SOURCE_COUNT) {
            return Err(Error::ProducerCount);
        }
        let mut i: usize = 0;
        while i < SOURCE_COUNT
            invariant
                i <= SOURCE_COUNT,
                self.inv(),
                sources@.len() == SOURCE_COUNT,
                old(sources)@.len() == SOURCE_COUNT,
                windows@.len() == LAYERS,
                forall|k: int| 0 <= k < SOURCE_COUNT ==> (#[trigger] sources@[k]).inv(),
                self.first_producer_error(old(sources)@, producer_library, i as int) is None,
                forall|k: int|
                    0 <= k < i ==> #[trigger] sources@[k] == self.tied(old(sources)@, k),
                forall|k: int| i <= k < SOURCE_COUNT ==> #[trigger] sources@[k] == old(sources)@[k],
            decreases SOURCE_COUNT - i,
        {
            let ghost between = sources@;
            proof {
                if self.first_producer_error(old(sources)@, producer_library, i + 1) is Some {
                    self.lemma_producer_error_stays(old(sources)@, producer_library, i + 1, 4);
                }
                assert(sources@[i as int] == old(sources)@[i as int]);
            }
            let layer: usize = source_at(i);
            if let Some(replica) = &self.sources[i].index.replica {
                let home = Device { library: self.library, id: self.windows[layer].device };
                let producer = Device {
                    library: producer_library,
                    id: sources[i].buffers.kv_values.device,
                };
                match sources[i].enable_replica(&self.sources[i], replica, home, producer) {
                    Err(e) => {
                        assert(sources@ =~= between);
                        proof {
                            assert forall|k: int| 0 <= k < SOURCE_COUNT implies #[trigger] sources@[k]
                                == if self.first_producer_error(
                                old(sources)@,
                                producer_library,
                                k + 1,
                            ) is None {
                                self.tied(old(sources)@, k)
                            } else {
                                old(sources)@[k]
                            } by {
                                if k >= i {
                                    self.lemma_producer_error_stays(
                                        old(sources)@,
                                        producer_library,
                                        i + 1,
                                        k + 1,
                                    );
                                } else if self.first_producer_error(
                                    old(sources)@,
                                    producer_library,
                                    k + 1,
                                ) is Some {
                                    self.lemma_producer_error_stays(
                                        old(sources)@,
                                        producer_library,
                                        k + 1,
                                        i as int,
                                    );
                                }
                            }
                        }
                        return Err(e);
                    },
                    Ok(_) => {},
                }
            }
            assert forall|k: int| 0 <= k < SOURCE_COUNT && k != i implies #[trigger] sources@[k]
                == between[k] by {}
            i = i + 1;
        }
        Ok(())
    }
}

} // verus!
