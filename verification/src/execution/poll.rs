//! Whether the rows of a queued commit are written.
use crate::backbone_cache::publish;
use crate::backbone_cache::BackboneCache;
use crate::backbone_cache::{LAYERS, SOURCE_COUNT};
use crate::compressor::wave::CompressorWave;
use crate::error::Error;
use crate::execution::distributed::DistributedExecution;
use crate::execution::BackboneExecution;
use crate::window::WindowWave;
use vstd::prelude::*;

verus! {

/// What the streams say of the first `n` windows: the first answer other than
/// "drained" of those with a queued commit.
pub open spec fn windows_polled(
    windows: Seq<WindowWave>,
    drained: Seq<Result<bool, Error>>,
    n: int,
) -> Result<bool, Error>
    decreases n,
{
    if n <= 0 {
        Ok(true)
    } else {
        match windows_polled(windows, drained, n - 1) {
            Ok(true) => if windows[n - 1].pending is Some {
                drained[n - 1]
            } else {
                Ok(true)
            },
            answer => answer,
        }
    }
}

/// What the streams say of the first `n` sources.
pub open spec fn sources_polled(
    sources: Seq<CompressorWave>,
    drained: Seq<Result<bool, Error>>,
    n: int,
) -> Result<bool, Error>
    decreases n,
{
    if n <= 0 {
        Ok(true)
    } else {
        match sources_polled(sources, drained, n - 1) {
            Ok(true) => if sources[n - 1].pending_commit is Some {
                drained[n - 1]
            } else {
                Ok(true)
            },
            answer => answer,
        }
    }
}

/// What the streams say of all lanes, windows first.
pub open spec fn commit_polled(
    windows: Seq<WindowWave>,
    sources: Seq<CompressorWave>,
    window_drained: Seq<Result<bool, Error>>,
    source_drained: Seq<Result<bool, Error>>,
) -> Result<bool, Error> {
    match windows_polled(windows, window_drained, windows.len() as int) {
        Ok(true) => sources_polled(sources, source_drained, sources.len() as int),
        answer => answer,
    }
}

proof fn lemma_windows_stay(
    windows: Seq<WindowWave>,
    drained: Seq<Result<bool, Error>>,
    n: int,
    m: int,
)
    requires
        n <= m,
        windows_polled(windows, drained, n) != Ok::<bool, Error>(true),
    ensures
        windows_polled(windows, drained, m) == windows_polled(windows, drained, n),
    decreases m - n,
{
    if n < m && m > 0 {
        lemma_windows_stay(windows, drained, n, m - 1);
    }
}

proof fn lemma_sources_stay(
    sources: Seq<CompressorWave>,
    drained: Seq<Result<bool, Error>>,
    n: int,
    m: int,
)
    requires
        n <= m,
        sources_polled(sources, drained, n) != Ok::<bool, Error>(true),
    ensures
        sources_polled(sources, drained, m) == sources_polled(sources, drained, n),
    decreases m - n,
{
    if n < m && m > 0 {
        lemma_sources_stay(sources, drained, n, m - 1);
    }
}

fn poll_lanes(
    windows: &Vec<WindowWave>,
    sources: &Vec<CompressorWave>,
    window_drained: &[Result<bool, Error>],
    source_drained: &[Result<bool, Error>],
) -> (r: Result<bool, Error>)
    requires
        window_drained@.len() == windows@.len(),
        source_drained@.len() == sources@.len(),
    ensures
        r == commit_polled(windows@, sources@, window_drained@, source_drained@),
{
    let mut l: usize = 0;
    while l < windows.len()
        invariant
            l <= windows@.len(),
            window_drained@.len() == windows@.len(),
            windows_polled(windows@, window_drained@, l as int) == Ok::<bool, Error>(true),
        decreases windows@.len() - l,
    {
        match windows[l].poll_commit(window_drained[l]) {
            Ok(true) => {},
            answer => {
                proof {
                    lemma_windows_stay(
                        windows@,
                        window_drained@,
                        l + 1,
                        windows@.len() as int,
                    );
                }
                return answer;
            },
        }
        l = l + 1;
    }
    let mut i: usize = 0;
    while i < sources.len()
        invariant
            i <= sources@.len(),
            source_drained@.len() == sources@.len(),
            windows_polled(windows@, window_drained@, windows@.len() as int) == Ok::<bool, Error>(
                true,
            ),
            sources_polled(sources@, source_drained@, i as int) == Ok::<bool, Error>(true),
        decreases sources@.len() - i,
    {
        match sources[i].poll_commit(source_drained[i]) {
            Ok(true) => {},
            answer => {
                proof {
                    lemma_sources_stay(
                        sources@,
                        source_drained@,
                        i + 1,
                        sources@.len() as int,
                    );
                }
                return answer;
            },
        }
        i = i + 1;
    }
    Ok(true)
}

impl BackboneExecution {
    /// Whether every queued commit is written; the arguments are what each lane's
    /// stream says.
    pub fn poll_cache_commit(
        &self,
        window_drained: &[Result<bool, Error>],
        source_drained: &[Result<bool, Error>],
    ) -> (r: Result<bool, Error>)
        requires
            window_drained@.len() == self.windows@.len(),
            source_drained@.len() == self.sources@.len(),
        ensures
            r == commit_polled(self.windows@, self.sources@, window_drained@, source_drained@),
    {
        poll_lanes(&self.windows, &self.sources, window_drained, source_drained)
    }

    /// Gives up a queued commit after its streams have been drained.
    pub fn abort_cache_commit(&mut self, bank: &mut BackboneCache)
        requires
            old(bank).inv(),
            old(bank).lanes_fit(old(self).windows@, old(self).sources@),
        ensures
            final(bank).inv(),
            final(bank).same_books(old(bank)),
            final(bank).lanes_fit(final(self).windows@, final(self).sources@),
            final(self).progress == old(self).progress,
            final(self).queued_production == old(self).queued_production,
            final(self).batched_windows == old(self).batched_windows,
            final(self).windows@.len() == old(self).windows@.len(),
            final(self).sources@.len() == old(self).sources@.len(),
            final(bank).poisoned == old(bank).poisoned,
            forall|l: int|
                0 <= l < LAYERS && l < old(self).windows@.len() ==> {
                    &&& (#[trigger] final(self).windows@[l]) == (WindowWave {
                        pending: None,
                        ..old(self).windows@[l]
                    })
                    &&& publish::window_dropped(
                        &final(bank).windows@[l],
                        &old(bank).windows@[l],
                        &old(self).windows@[l],
                    )
                },
            forall|i: int|
                0 <= i < SOURCE_COUNT && i < old(self).sources@.len() ==> {
                    &&& (#[trigger] final(self).sources@[i]) == (CompressorWave {
                        pending_commit: None,
                        ..old(self).sources@[i]
                    })
                    &&& publish::source_dropped(
                        &final(bank).sources@[i],
                        &old(bank).sources@[i],
                        &old(self).sources@[i],
                    )
                },
    {
        bank.abort_cache_commit(&mut self.windows, &mut self.sources);
    }
}

impl DistributedExecution {
    /// Whether every queued commit is written; the arguments are what each lane's
    /// stream says.
    pub fn poll_cache_commit(
        &self,
        window_drained: &[Result<bool, Error>],
        source_drained: &[Result<bool, Error>],
    ) -> (r: Result<bool, Error>)
        requires
            window_drained@.len() == self.windows@.len(),
            source_drained@.len() == self.sources@.len(),
        ensures
            r == commit_polled(self.windows@, self.sources@, window_drained@, source_drained@),
    {
        poll_lanes(&self.windows, &self.sources, window_drained, source_drained)
    }
}

} // verus!
