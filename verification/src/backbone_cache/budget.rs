//! Device bytes of the backbone's windows and compressed sources, and how they
//! fall on the GPUs. `window_bytes` is the size of one layer's rings.
use crate::backbone_cache;
use crate::backbone_cache::placement::CachePlacement;
use crate::backbone_cache::{source_at, BackboneCache};
use crate::compressor;
use crate::compressor::CompressorState;
use crate::error::Error;
use crate::source_cache;
use crate::source_cache::replica::SourceReplica;
use vstd::prelude::*;

verus! {

/// `base` and the first `n` sources.
pub open spec fn with_sources(base: int, slots: int, pages: Seq<usize>, n: int) -> Result<int, Error>
    decreases n,
{
    if n <= 0 {
        if base <= usize::MAX {
            Ok(base)
        } else {
            Err(Error::BudgetOverflow)
        }
    } else {
        match with_sources(base, slots, pages, n - 1) {
            Err(e) => Err(e),
            Ok(sum) => match compressor::state_bytes(
                backbone_cache::source_layer(n - 1),
                slots,
                pages[n - 1] as int,
            ) {
                Err(e) => Err(e),
                Ok(bytes) => if sum + bytes <= usize::MAX {
                    Ok(sum + bytes)
                } else {
                    Err(Error::BudgetOverflow)
                },
            },
        }
    }
}

/// What the windows of the first `n` layers take on GPU `gpu`; with `peer` on
/// the other GPU.
pub open spec fn window_share(
    attention: Seq<usize>,
    gpu: int,
    peer: bool,
    window_bytes: int,
    n: int,
) -> int
    decreases n,
{
    if n <= 0 {
        0
    } else {
        window_share(attention, gpu, peer, window_bytes, n - 1) + if (attention[n - 1] == gpu)
            != peer {
            window_bytes
        } else {
            0
        }
    }
}

/// Adds `bytes` on GPU `gpu`.
pub open spec fn charged(sums: (int, int), gpu: int, bytes: int) -> Result<(int, int), Error> {
    let (first, second) = if gpu == 0 {
        (sums.0 + bytes, sums.1)
    } else {
        (sums.0, sums.1 + bytes)
    };
    if first <= usize::MAX && second <= usize::MAX {
        Ok((first, second))
    } else {
        Err(Error::BudgetOverflow)
    }
}

/// The windows and the first `n` sources on their GPUs.
pub open spec fn placed(
    attention: Seq<usize>,
    slots: int,
    pages: Seq<usize>,
    window_bytes: int,
    n: int,
) -> Result<(int, int), Error>
    decreases n,
{
    if n <= 0 {
        charged(
            (
                window_share(attention, 0, false, window_bytes, 40),
                window_share(attention, 1, false, window_bytes, 40),
            ),
            0,
            0,
        )
    } else {
        match placed(attention, slots, pages, window_bytes, n - 1) {
            Err(e) => Err(e),
            Ok(sums) => match compressor::state_bytes(
                backbone_cache::source_layer(n - 1),
                slots,
                pages[n - 1] as int,
            ) {
                Err(e) => Err(e),
                Ok(bytes) => charged(
                    sums,
                    attention[backbone_cache::source_layer(n - 1)] as int,
                    bytes,
                ),
            },
        }
    }
}

/// Bytes of one source's peer copy.
pub open spec fn replica_bytes(pages: int, slots: int) -> Result<int, Error> {
    match source_cache::pool_bytes(pages, slots, 356) {
        Ok(_) => source_cache::pool_bytes(pages, slots, 288),
        Err(e) => Err(e),
    }
}

/// The placed cache with a copy of every window and of the first `n` sources'
/// serving values on the other GPU.
pub open spec fn mirrored(
    attention: Seq<usize>,
    slots: int,
    pages: Seq<usize>,
    window_bytes: int,
    n: int,
) -> Result<(int, int), Error>
    decreases n,
{
    if n <= 0 {
        match placed(attention, slots, pages, window_bytes, 4) {
            Err(e) => Err(e),
            Ok(sums) => charged(
                (
                    sums.0 + window_share(attention, 0, true, window_bytes, 40),
                    sums.1 + window_share(attention, 1, true, window_bytes, 40),
                ),
                0,
                0,
            ),
        }
    } else {
        match mirrored(attention, slots, pages, window_bytes, n - 1) {
            Err(e) => Err(e),
            Ok(sums) => match replica_bytes(pages[n - 1] as int, slots) {
                Err(e) => Err(e),
                Ok(bytes) => charged(
                    sums,
                    1 - attention[backbone_cache::source_layer(n - 1)],
                    bytes,
                ),
            },
        }
    }
}

/// The counts of both GPUs, or the error.
pub open spec fn same_pair(actual: Result<[usize; 2], Error>, expected: Result<(int, int), Error>) -> bool {
    match (actual, expected) {
        (Ok(bytes), Ok(sums)) => bytes@[0] == sums.0 && bytes@[1] == sums.1,
        (Err(e), Err(reason)) => e == reason,
        _ => false,
    }
}

proof fn lemma_share_grows(attention: Seq<usize>, gpu: int, peer: bool, bytes: int, n: int, m: int)
    requires
        0 <= n <= m,
        0 <= bytes,
    ensures
        0 <= window_share(attention, gpu, peer, bytes, n) <= window_share(
            attention,
            gpu,
            peer,
            bytes,
            m,
        ),
    decreases m,
{
    if n < m {
        lemma_share_grows(attention, gpu, peer, bytes, n, m - 1);
    } else if n > 0 {
        lemma_share_grows(attention, gpu, peer, bytes, n - 1, n - 1);
    }
}

proof fn lemma_placed_error(
    attention: Seq<usize>,
    slots: int,
    pages: Seq<usize>,
    window_bytes: int,
    n: int,
    m: int,
)
    requires
        n <= m,
        placed(attention, slots, pages, window_bytes, n) is Err,
    ensures
        placed(attention, slots, pages, window_bytes, m) == placed(
            attention,
            slots,
            pages,
            window_bytes,
            n,
        ),
    decreases m - n,
{
    if n < m && m > 0 {
        lemma_placed_error(attention, slots, pages, window_bytes, n, m - 1);
    }
}

proof fn lemma_mirrored_error(
    attention: Seq<usize>,
    slots: int,
    pages: Seq<usize>,
    window_bytes: int,
    n: int,
    m: int,
)
    requires
        n <= m,
        mirrored(attention, slots, pages, window_bytes, n) is Err,
    ensures
        mirrored(attention, slots, pages, window_bytes, m) == mirrored(
            attention,
            slots,
            pages,
            window_bytes,
            n,
        ),
    decreases m - n,
{
    if n < m && m > 0 {
        lemma_mirrored_error(attention, slots, pages, window_bytes, n, m - 1);
    }
}

proof fn lemma_with_sources_error(base: int, slots: int, pages: Seq<usize>, n: int, m: int)
    requires
        n <= m,
        with_sources(base, slots, pages, n) is Err,
    ensures
        with_sources(base, slots, pages, m) == with_sources(base, slots, pages, n),
    decreases m - n,
{
    if n < m && m > 0 {
        lemma_with_sources_error(base, slots, pages, n, m - 1);
    }
}

/// A cache that has a size has a size for each source.
pub proof fn lemma_sources_exist(base: int, slots: int, pages: Seq<usize>, n: int, i: int)
    requires
        with_sources(base, slots, pages, n) is Ok,
        0 <= i < n,
    ensures
        compressor::state_bytes(backbone_cache::source_layer(i), slots, pages[i] as int) is Ok,
    decreases n,
{
    if i < n - 1 {
        lemma_sources_exist(base, slots, pages, n - 1, i);
    }
}

pub proof fn lemma_placed_exist(
    attention: Seq<usize>,
    slots: int,
    pages: Seq<usize>,
    window_bytes: int,
    n: int,
    i: int,
)
    requires
        placed(attention, slots, pages, window_bytes, n) is Ok,
        0 <= i < n,
    ensures
        compressor::state_bytes(backbone_cache::source_layer(i), slots, pages[i] as int) is Ok,
    decreases n,
{
    if i < n - 1 {
        lemma_placed_exist(attention, slots, pages, window_bytes, n - 1, i);
    }
}

/// Adds `bytes` on GPU `gpu`.
fn charge(sums: [usize; 2], gpu: usize, bytes: usize) -> (r: Result<[usize; 2], Error>)
    requires
        gpu < 2,
    ensures
        same_pair(r, charged((sums@[0] as int, sums@[1] as int), gpu as int, bytes as int)),
{
    if gpu == 0 {
        match sums[0].checked_add(bytes) {
            None => Err(Error::BudgetOverflow),
            Some(sum) => Ok([sum, sums[1]]),
        }
    } else {
        match sums[1].checked_add(bytes) {
            None => Err(Error::BudgetOverflow),
            Some(sum) => Ok([sums[0], sum]),
        }
    }
}

/// Adds every window on its own GPU, or with `peer` on the other.
fn charge_windows(start: [usize; 2], placement: &CachePlacement, peer: bool, window_bytes: usize) -> (r:
    Result<[usize; 2], Error>)
    requires
        placement.wf(),
    ensures
        same_pair(
            r,
            charged(
                (
                    start@[0] + window_share(
                        placement.attention@,
                        0,
                        peer,
                        window_bytes as int,
                        40,
                    ),
                    start@[1] + window_share(
                        placement.attention@,
                        1,
                        peer,
                        window_bytes as int,
                        40,
                    ),
                ),
                0,
                0,
            ),
        ),
{
    let mut sums = start;
    let mut layer: usize = 0;
    let ghost attention = placement.attention@;
    while layer < 40
        invariant
            layer <= 40,
            placement.wf(),
            attention == placement.attention@,
            sums@[0] == start@[0] + window_share(
                attention,
                0,
                peer,
                window_bytes as int,
                layer as int,
            ),
            sums@[1] == start@[1] + window_share(
                attention,
                1,
                peer,
                window_bytes as int,
                layer as int,
            ),
        decreases 40 - layer,
    {
        let home: usize = placement.attention[layer];
        assert(attention[layer as int] < 2);
        let gpu: usize = if peer {
            1 - home
        } else {
            home
        };
        match charge(sums, gpu, window_bytes) {
            Err(e) => {
                proof {
                    lemma_share_grows(attention, 0, peer, window_bytes as int, layer + 1, 40);
                    lemma_share_grows(attention, 1, peer, window_bytes as int, layer + 1, 40);
                }
                return Err(e);
            },
            Ok(next) => {
                sums = next;
            },
        }
        layer = layer + 1;
    }
    Ok(sums)
}

impl BackboneCache {
    /// Explicit cache storage only; snapshots and device state are budgeted
    /// separately.
    pub fn distributed_device_bytes(
        placement: CachePlacement,
        slots: usize,
        source_pages: [usize; 4],
        window_bytes: usize,
    ) -> (r: Result<[usize; 2], Error>)
        requires
            placement.wf(),
        ensures
            same_pair(
                r,
                placed(
                    placement.attention@,
                    slots as int,
                    source_pages@,
                    window_bytes as int,
                    4,
                ),
            ),
    {
        let ghost attention = placement.attention@;
        let start: [usize; 2] = [0, 0];
        let mut sums = match charge_windows(start, &placement, false, window_bytes) {
            Err(e) => {
                proof {
                    lemma_placed_error(
                        attention,
                        slots as int,
                        source_pages@,
                        window_bytes as int,
                        0,
                        4,
                    );
                }
                return Err(e);
            },
            Ok(sums) => sums,
        };
        let mut i: usize = 0;
        while i < 4
            invariant
                i <= 4,
                placement.wf(),
                attention == placement.attention@,
                placed(attention, slots as int, source_pages@, window_bytes as int, i as int) == Ok::<
                    (int, int),
                    Error,
                >((sums@[0] as int, sums@[1] as int)),
            decreases 4 - i,
        {
            proof {
                if placed(attention, slots as int, source_pages@, window_bytes as int, i + 1) is Err {
                    lemma_placed_error(
                        attention,
                        slots as int,
                        source_pages@,
                        window_bytes as int,
                        i + 1,
                        4,
                    );
                }
            }
            let layer: usize = source_at(i);
            assert(attention[layer as int] < 2);
            let bytes: usize = match CompressorState::device_bytes(layer, slots, source_pages[i]) {
                Err(e) => {
                    return Err(e);
                },
                Ok(bytes) => bytes,
            };
            sums = match charge(sums, placement.attention[layer], bytes) {
                Err(e) => {
                    return Err(e);
                },
                Ok(next) => next,
            };
            i = i + 1;
        }
        Ok(sums)
    }

    /// Storage with replicated windows and serving values; index keys and
    /// carried rows stay on their own device. Copies hold no extra tokens.
    pub fn replicated_device_bytes(
        placement: CachePlacement,
        slots: usize,
        source_pages: [usize; 4],
        window_bytes: usize,
    ) -> (r: Result<[usize; 2], Error>)
        requires
            placement.wf(),
        ensures
            same_pair(
                r,
                mirrored(
                    placement.attention@,
                    slots as int,
                    source_pages@,
                    window_bytes as int,
                    4,
                ),
            ),
    {
        let ghost attention = placement.attention@;
        let home = match Self::distributed_device_bytes(
            placement,
            slots,
            source_pages,
            window_bytes,
        ) {
            Err(e) => {
                proof {
                    lemma_mirrored_error(
                        attention,
                        slots as int,
                        source_pages@,
                        window_bytes as int,
                        0,
                        4,
                    );
                }
                return Err(e);
            },
            Ok(home) => home,
        };
        let mut sums = match charge_windows(home, &placement, true, window_bytes) {
            Err(e) => {
                proof {
                    lemma_mirrored_error(
                        attention,
                        slots as int,
                        source_pages@,
                        window_bytes as int,
                        0,
                        4,
                    );
                }
                return Err(e);
            },
            Ok(sums) => sums,
        };
        let mut i: usize = 0;
        while i < 4
            invariant
                i <= 4,
                placement.wf(),
                attention == placement.attention@,
                mirrored(attention, slots as int, source_pages@, window_bytes as int, i as int)
                    == Ok::<(int, int), Error>((sums@[0] as int, sums@[1] as int)),
            decreases 4 - i,
        {
            proof {
                if mirrored(attention, slots as int, source_pages@, window_bytes as int, i + 1) is Err {
                    lemma_mirrored_error(
                        attention,
                        slots as int,
                        source_pages@,
                        window_bytes as int,
                        i + 1,
                        4,
                    );
                }
            }
            let layer: usize = source_at(i);
            assert(attention[layer as int] < 2);
            let bytes: usize = match SourceReplica::device_bytes(source_pages[i], slots) {
                Err(e) => {
                    return Err(e);
                },
                Ok(bytes) => bytes,
            };
            sums = match charge(sums, 1 - placement.attention[layer], bytes) {
                Err(e) => {
                    return Err(e);
                },
                Ok(next) => next,
            };
            i = i + 1;
        }
        Ok(sums)
    }

    /// Pages of each source that fully provision `slots` requests.
    pub fn pages_for_context(slots: usize, context: usize) -> (r: Result<[usize; 4], Error>)
        ensures
            match r {
                Ok(pages) => forall|i: int|
                    0 <= i < 4 ==> compressor::context_pages(
                        backbone_cache::source_layer(i),
                        slots as int,
                        context as int,
                    ) == Ok::<int, Error>(#[trigger] pages@[i] as int),
                Err(e) => exists|i: int|
                    #![trigger backbone_cache::source_layer(i)]
                    0 <= i < 4 && compressor::context_pages(
                        backbone_cache::source_layer(i),
                        slots as int,
                        context as int,
                    ) == Err::<int, Error>(e) && forall|k: int|
                        0 <= k < i ==> compressor::context_pages(
                            #[trigger] backbone_cache::source_layer(k),
                            slots as int,
                            context as int,
                        ) is Ok,
            },
    {
        let first: usize = match CompressorState::pages_for_context(2, slots, context) {
            Err(e) => {
                assert(backbone_cache::source_layer(0) == 2);
                return Err(e);
            },
            Ok(pages) => pages,
        };
        let second: usize = match CompressorState::pages_for_context(8, slots, context) {
            Err(e) => {
                assert(backbone_cache::source_layer(1) == 8);
                return Err(e);
            },
            Ok(pages) => pages,
        };
        let third: usize = match CompressorState::pages_for_context(14, slots, context) {
            Err(e) => {
                assert(backbone_cache::source_layer(2) == 14);
                return Err(e);
            },
            Ok(pages) => pages,
        };
        let fourth: usize = match CompressorState::pages_for_context(20, slots, context) {
            Err(e) => {
                assert(backbone_cache::source_layer(3) == 20);
                return Err(e);
            },
            Ok(pages) => pages,
        };
        let pages = [first, second, third, fourth];
        assert forall|i: int| 0 <= i < 4 implies compressor::context_pages(
            backbone_cache::source_layer(i),
            slots as int,
            context as int,
        ) == Ok::<int, Error>(#[trigger] pages@[i] as int) by {
            if i == 0 {
            } else if i == 1 {
            } else if i == 2 {
            }
        }
        Ok(pages)
    }

    /// Bytes of the whole cache on one device.
    pub fn device_bytes(slots: usize, source_pages: [usize; 4], window_bytes: usize) -> (r: Result<
        usize,
        Error,
    >)
        ensures
            source_cache::same_count(
                r,
                with_sources(40 * window_bytes, slots as int, source_pages@, 4),
            ),
    {
        let mut total: usize = match window_bytes.checked_mul(40) {
            None => {
                proof {
                    lemma_with_sources_error(
                        40 * window_bytes,
                        slots as int,
                        source_pages@,
                        0,
                        4,
                    );
                }
                return Err(Error::BudgetOverflow);
            },
            Some(total) => total,
        };
        let mut i: usize = 0;
        while i < 4
            invariant
                i <= 4,
                with_sources(40 * window_bytes, slots as int, source_pages@, i as int) == Ok::<
                    int,
                    Error,
                >(total as int),
            decreases 4 - i,
        {
            proof {
                if with_sources(40 * window_bytes, slots as int, source_pages@, i + 1) is Err {
                    lemma_with_sources_error(
                        40 * window_bytes,
                        slots as int,
                        source_pages@,
                        i + 1,
                        4,
                    );
                }
            }
            let layer: usize = source_at(i);
            let bytes: usize = match CompressorState::device_bytes(layer, slots, source_pages[i]) {
                Err(e) => {
                    return Err(e);
                },
                Ok(bytes) => bytes,
            };
            total = match total.checked_add(bytes) {
                None => {
                    return Err(Error::BudgetOverflow);
                },
                Some(sum) => sum,
            };
            i = i + 1;
        }
        Ok(total)
    }
}

/// Placing the cache on two GPUs needs no more and no less storage than one GPU.
pub proof fn law_placement_keeps_the_total(
    placement: CachePlacement,
    slots: int,
    pages: Seq<usize>,
    window_bytes: int,
)
    requires
        placement.wf(),
        0 <= window_bytes,
        with_sources(40 * window_bytes, slots, pages, 4) is Ok,
    ensures
        placed(placement.attention@, slots, pages, window_bytes, 4) matches Ok(sums) && sums.0
            + sums.1 == with_sources(40 * window_bytes, slots, pages, 4)->Ok_0,
{
    lemma_placed_total(placement, slots, pages, window_bytes, 4);
}

proof fn lemma_placed_total(
    placement: CachePlacement,
    slots: int,
    pages: Seq<usize>,
    window_bytes: int,
    n: int,
)
    requires
        placement.wf(),
        0 <= window_bytes,
        0 <= n <= 4,
        with_sources(40 * window_bytes, slots, pages, n) is Ok,
    ensures
        placed(placement.attention@, slots, pages, window_bytes, n) matches Ok(sums) && sums.0
            + sums.1 == with_sources(40 * window_bytes, slots, pages, n)->Ok_0 && sums.0 >= 0
            && sums.1 >= 0,
    decreases n,
{
    let attention = placement.attention@;
    if n > 0 {
        lemma_placed_total(placement, slots, pages, window_bytes, n - 1);
        assert(attention[backbone_cache::source_layer(n - 1)] < 2);
        compressor::lemma_state_bytes_positive(
            backbone_cache::source_layer(n - 1),
            slots,
            pages[n - 1] as int,
        );
    } else {
        lemma_share_grows(attention, 0, false, window_bytes, 0, 40);
        lemma_share_grows(attention, 1, false, window_bytes, 0, 40);
        lemma_shares_sum(placement, window_bytes, 40);
    }
}

proof fn lemma_shares_sum(placement: CachePlacement, window_bytes: int, n: int)
    requires
        placement.wf(),
        0 <= n <= 40,
    ensures
        window_share(placement.attention@, 0, false, window_bytes, n) + window_share(
            placement.attention@,
            1,
            false,
            window_bytes,
            n,
        ) == n * window_bytes,
    decreases n,
{
    if n > 0 {
        lemma_shares_sum(placement, window_bytes, n - 1);
        assert(placement.attention@[n - 1] < 2);
        assert(n * window_bytes == (n - 1) * window_bytes + window_bytes) by (nonlinear_arith);
    } else {
        assert(n * window_bytes == 0) by (nonlinear_arith)
            requires
                n == 0,
        ;
    }
}

/// Bytes of the copies of those of the first `n` sources that GPU `gpu` serves.
pub open spec fn copied_sources(
    attention: Seq<usize>,
    gpu: int,
    slots: int,
    pages: Seq<usize>,
    n: int,
) -> int
    decreases n,
{
    if n <= 0 {
        0
    } else {
        copied_sources(attention, gpu, slots, pages, n - 1) + if attention[backbone_cache::source_layer(
            n - 1,
        )] == gpu {
            replica_bytes(pages[n - 1] as int, slots)->Ok_0
        } else {
            0
        }
    }
}

proof fn lemma_peer_share(placement: CachePlacement, gpu: int, window_bytes: int, n: int)
    requires
        placement.wf(),
        0 <= n <= 40,
        gpu == 0 || gpu == 1,
    ensures
        window_share(placement.attention@, gpu, true, window_bytes, n) == window_share(
            placement.attention@,
            1 - gpu,
            false,
            window_bytes,
            n,
        ),
    decreases n,
{
    if n > 0 {
        lemma_peer_share(placement, gpu, window_bytes, n - 1);
        assert(placement.attention@[n - 1] < 2);
    }
}

proof fn lemma_mirrored(
    placement: CachePlacement,
    slots: int,
    pages: Seq<usize>,
    window_bytes: int,
    n: int,
)
    requires
        placement.wf(),
        0 <= n <= 4,
        mirrored(placement.attention@, slots, pages, window_bytes, n) is Ok,
    ensures
        ({
            let attention = placement.attention@;
            let sums = mirrored(attention, slots, pages, window_bytes, n)->Ok_0;
            let own = placed(attention, slots, pages, window_bytes, 4);
            &&& own is Ok
            &&& sums.0 == own->Ok_0.0 + window_share(attention, 1, false, window_bytes, 40)
                + copied_sources(attention, 1, slots, pages, n)
            &&& sums.1 == own->Ok_0.1 + window_share(attention, 0, false, window_bytes, 40)
                + copied_sources(attention, 0, slots, pages, n)
        }),
    decreases n,
{
    if n > 0 {
        lemma_mirrored(placement, slots, pages, window_bytes, n - 1);
        assert(placement.attention@[backbone_cache::source_layer(n - 1)] < 2);
    } else {
        lemma_peer_share(placement, 0, window_bytes, 40);
        lemma_peer_share(placement, 1, window_bytes, 40);
    }
}

/// Replication costs each GPU what the other one serves: a copy of every window and of
/// every source whose attention runs there, on top of its own part, and nothing else.
pub proof fn law_each_gpu_copies_what_the_other_serves(
    placement: CachePlacement,
    slots: int,
    pages: Seq<usize>,
    window_bytes: int,
)
    requires
        placement.wf(),
        0 <= window_bytes,
        mirrored(placement.attention@, slots, pages, window_bytes, 4) is Ok,
    ensures
        ({
            let attention = placement.attention@;
            let sums = mirrored(attention, slots, pages, window_bytes, 4)->Ok_0;
            let own = placed(attention, slots, pages, window_bytes, 4);
            let first = window_share(attention, 0, false, window_bytes, 40) + copied_sources(
                attention,
                0,
                slots,
                pages,
                4,
            );
            let second = window_share(attention, 1, false, window_bytes, 40) + copied_sources(
                attention,
                1,
                slots,
                pages,
                4,
            );
            &&& own is Ok
            &&& sums.0 == own->Ok_0.0 + second
            &&& sums.1 == own->Ok_0.1 + first
            &&& window_share(attention, 0, false, window_bytes, 40) + window_share(
                attention,
                1,
                false,
                window_bytes,
                40,
            ) == 40 * window_bytes
        }),
{
    lemma_mirrored(placement, slots, pages, window_bytes, 4);
    lemma_shares_sum(placement, window_bytes, 40);
}

} // verus!
