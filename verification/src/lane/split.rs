//! Host times of a pass's feed-forward stages.
use vstd::prelude::*;

verus! {

/// Times of the feed-forward stages of a captured pass, summed over its layers.
#[derive(Debug, Clone, Copy, PartialEq, Eq, Structural)]
pub struct FfnSplit {
    pub local_layers: u32,
    pub local_routed_us: u64,
    pub local_total_us: u64,
    pub remote_layers: u32,
    pub remote_routed_us: u64,
    pub remote_dispatch_us: u64,
    pub remote_shared_us: u64,
    pub remote_collect_us: u64,
}

/// When the stages of one layer ended, counted from its start.
#[derive(Debug, Clone, Copy, PartialEq, Eq, Structural)]
pub enum FfnTimes {
    Local { routed: u64, total: u64 },
    /// The shared experts run on both devices while replies are collected.
    RemoteTp2 { routed: u64, dispatched: u64, total: u64 },
    Remote { routed: u64, dispatched: u64, shared: u64, total: u64 },
}

impl FfnTimes {
    /// No stage ends before an earlier one.
    pub open spec fn ordered(self) -> bool {
        match self {
            FfnTimes::Local { .. } => true,
            FfnTimes::RemoteTp2 { routed, dispatched, total } => routed <= dispatched <= total,
            FfnTimes::Remote { routed, dispatched, shared, total } => routed <= dispatched <= shared
                <= total,
        }
    }

    /// The layer's part of a split.
    pub open spec fn part(self) -> FfnSplit {
        match self {
            FfnTimes::Local { routed, total } => FfnSplit {
                local_layers: 1,
                local_routed_us: routed,
                local_total_us: total,
                remote_layers: 0,
                remote_routed_us: 0,
                remote_dispatch_us: 0,
                remote_shared_us: 0,
                remote_collect_us: 0,
            },
            FfnTimes::RemoteTp2 { routed, dispatched, total } => FfnSplit {
                local_layers: 0,
                local_routed_us: 0,
                local_total_us: 0,
                remote_layers: 1,
                remote_routed_us: routed,
                remote_dispatch_us: (dispatched - routed) as u64,
                remote_shared_us: 0,
                remote_collect_us: (total - dispatched) as u64,
            },
            FfnTimes::Remote { routed, dispatched, shared, total } => FfnSplit {
                local_layers: 0,
                local_routed_us: 0,
                local_total_us: 0,
                remote_layers: 1,
                remote_routed_us: routed,
                remote_dispatch_us: (dispatched - routed) as u64,
                remote_shared_us: (shared - dispatched) as u64,
                remote_collect_us: (total - shared) as u64,
            },
        }
    }

    pub fn split(self) -> (r: FfnSplit)
        requires
            self.ordered(),
        ensures
            r == self.part(),
    {
        match self {
            FfnTimes::Local { routed, total } => FfnSplit {
                local_layers: 1,
                local_routed_us: routed,
                local_total_us: total,
                remote_layers: 0,
                remote_routed_us: 0,
                remote_dispatch_us: 0,
                remote_shared_us: 0,
                remote_collect_us: 0,
            },
            FfnTimes::RemoteTp2 { routed, dispatched, total } => FfnSplit {
                local_layers: 0,
                local_routed_us: 0,
                local_total_us: 0,
                remote_layers: 1,
                remote_routed_us: routed,
                remote_dispatch_us: dispatched - routed,
                remote_shared_us: 0,
                remote_collect_us: total - dispatched,
            },
            FfnTimes::Remote { routed, dispatched, shared, total } => FfnSplit {
                local_layers: 0,
                local_routed_us: 0,
                local_total_us: 0,
                remote_layers: 1,
                remote_routed_us: routed,
                remote_dispatch_us: dispatched - routed,
                remote_shared_us: shared - dispatched,
                remote_collect_us: total - shared,
            },
        }
    }
}

impl FfnSplit {
    /// The two splits' sums can be held.
    pub open spec fn fits(self, other: FfnSplit) -> bool {
        &&& self.local_layers + other.local_layers <= u32::MAX
        &&& self.local_routed_us + other.local_routed_us <= u64::MAX
        &&& self.local_total_us + other.local_total_us <= u64::MAX
        &&& self.remote_layers + other.remote_layers <= u32::MAX
        &&& self.remote_routed_us + other.remote_routed_us <= u64::MAX
        &&& self.remote_dispatch_us + other.remote_dispatch_us <= u64::MAX
        &&& self.remote_shared_us + other.remote_shared_us <= u64::MAX
        &&& self.remote_collect_us + other.remote_collect_us <= u64::MAX
    }

    pub open spec fn plus(self, other: FfnSplit) -> FfnSplit {
        FfnSplit {
            local_layers: (self.local_layers + other.local_layers) as u32,
            local_routed_us: (self.local_routed_us + other.local_routed_us) as u64,
            local_total_us: (self.local_total_us + other.local_total_us) as u64,
            remote_layers: (self.remote_layers + other.remote_layers) as u32,
            remote_routed_us: (self.remote_routed_us + other.remote_routed_us) as u64,
            remote_dispatch_us: (self.remote_dispatch_us + other.remote_dispatch_us) as u64,
            remote_shared_us: (self.remote_shared_us + other.remote_shared_us) as u64,
            remote_collect_us: (self.remote_collect_us + other.remote_collect_us) as u64,
        }
    }

    pub open spec fn empty() -> FfnSplit {
        FfnSplit {
            local_layers: 0,
            local_routed_us: 0,
            local_total_us: 0,
            remote_layers: 0,
            remote_routed_us: 0,
            remote_dispatch_us: 0,
            remote_shared_us: 0,
            remote_collect_us: 0,
        }
    }

    pub fn add(&mut self, other: &Self)
        requires
            old(self).fits(*other),
        ensures
            *final(self) == old(self).plus(*other),
    {
        self.local_layers = self.local_layers + other.local_layers;
        self.local_routed_us = self.local_routed_us + other.local_routed_us;
        self.local_total_us = self.local_total_us + other.local_total_us;
        self.remote_layers = self.remote_layers + other.remote_layers;
        self.remote_routed_us = self.remote_routed_us + other.remote_routed_us;
        self.remote_dispatch_us = self.remote_dispatch_us + other.remote_dispatch_us;
        self.remote_shared_us = self.remote_shared_us + other.remote_shared_us;
        self.remote_collect_us = self.remote_collect_us + other.remote_collect_us;
    }
}

impl Default for FfnSplit {
    fn default() -> (r: Self)
        ensures
            r == FfnSplit::empty(),
    {
        FfnSplit {
            local_layers: 0,
            local_routed_us: 0,
            local_total_us: 0,
            remote_layers: 0,
            remote_routed_us: 0,
            remote_dispatch_us: 0,
            remote_shared_us: 0,
            remote_collect_us: 0,
        }
    }
}

/// The stages of a remote layer account for its whole time.
pub proof fn law_remote_stages_fill_the_time(times: FfnTimes)
    requires
        times.ordered(),
    ensures
        match times {
            FfnTimes::Local { total, .. } => times.part().local_total_us == total,
            FfnTimes::RemoteTp2 { total, .. } => times.part().remote_routed_us
                + times.part().remote_dispatch_us + times.part().remote_collect_us == total,
            FfnTimes::Remote { total, .. } => times.part().remote_routed_us
                + times.part().remote_dispatch_us + times.part().remote_shared_us
                + times.part().remote_collect_us == total,
        },
{
}

/// It does not matter in which order the layers' times are added.
pub proof fn law_splits_add_in_any_order(a: FfnSplit, b: FfnSplit, c: FfnSplit)
    ensures
        a.plus(b) == b.plus(a),
        a.fits(b) == b.fits(a),
        (a.fits(b) && a.plus(b).fits(c)) == (b.fits(c) && a.fits(b.plus(c))),
        a.fits(b) && a.plus(b).fits(c) ==> a.plus(b).plus(c) == a.plus(b.plus(c)),
        a.fits(FfnSplit::empty()),
        a.plus(FfnSplit::empty()) == a,
{
}

} // verus!
