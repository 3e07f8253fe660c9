//! How far a pass has come. Each step makes the pass invalid until it is
//! finished: what fails or is cancelled half way cannot be resumed.
use crate::cache_phase::CacheStage;
use crate::error::Error;
use vstd::prelude::*;

verus! {

#[derive(Debug, Clone, Copy, PartialEq, Eq, Structural)]
pub struct PassProgress {
    pub stage: CacheStage,
    /// The encoder pass has produced the decoder's source.
    pub source_ready: bool,
    pub batch: Option<u64>,
    /// The next layer.
    pub next: usize,
    pub invalid: bool,
}

impl PassProgress {
    /// A pass before its first layer.
    pub open spec fn started(stage: CacheStage) -> PassProgress {
        PassProgress {
            stage,
            source_ready: false,
            batch: None,
            next: stage.first_window() as usize,
            invalid: false,
        }
    }

    pub fn for_stage(stage: CacheStage) -> (r: Self)
        ensures
            r == Self::started(stage),
    {
        PassProgress {
            stage,
            source_ready: false,
            batch: None,
            next: stage.windows().0,
            invalid: false,
        }
    }

    /// The pass can run `layer` for `batch`.
    pub open spec fn can_begin(self, batch: u64, layer: usize) -> bool {
        &&& !self.invalid
        &&& layer == self.next
        &&& self.stage.has_window(layer as int)
        &&& self.batch is None || self.batch == Some(batch)
    }

    /// The pass within a layer of `batch`: unusable until the layer is finished.
    pub open spec fn begun(self, batch: u64) -> PassProgress {
        PassProgress { batch: Some(batch), invalid: true, ..self }
    }

    /// The pass once something has failed or is under way.
    pub open spec fn spoiled(self) -> PassProgress {
        PassProgress { invalid: true, ..self }
    }

    /// The pass behind the layer that was under way.
    pub open spec fn past_layer(self) -> PassProgress {
        PassProgress { next: (self.next + 1) as usize, invalid: false, ..self }
    }

    /// The pass with the decoder's source produced.
    pub open spec fn past_source(self) -> PassProgress {
        PassProgress { source_ready: true, invalid: false, ..self }
    }

    pub fn begin(&mut self, batch: u64, layer: usize) -> (r: Result<(), Error>)
        ensures
            match r {
                Ok(_) => old(self).can_begin(batch, layer) && *final(self) == old(self).begun(batch),
                Err(e) => {
                    &&& e == Error::PassDiffers
                    &&& !old(self).can_begin(batch, layer)
                    &&& *final(self) == old(self).spoiled()
                },
            },
    {
        let valid: bool = !self.invalid;
        self.invalid = true;
        let (first, end): (usize, usize) = self.stage.windows();
        let same: bool = match self.batch {
            None => true,
            Some(id) => id == batch,
        };
        if !(valid && layer == self.next && first <= layer && layer < end && same) {
            return Err(Error::PassDiffers);
        }
        self.batch = Some(batch);
        Ok(())
    }

    /// The whole encoder has run for `batch` and its source is still owed.
    pub open spec fn can_begin_decoder_source(self, batch: u64) -> bool {
        &&& !self.invalid
        &&& self.stage == CacheStage::Encoder
        &&& self.next == 20
        &&& self.batch == Some(batch)
        &&& !self.source_ready
    }

    pub fn begin_decoder_source(&mut self, batch: u64) -> (r: Result<(), Error>)
        ensures
            *final(self) == old(self).spoiled(),
            match r {
                Ok(_) => old(self).can_begin_decoder_source(batch),
                Err(e) => e == Error::DecoderSource && !old(self).can_begin_decoder_source(batch),
            },
    {
        let valid: bool = !self.invalid;
        self.invalid = true;
        let same: bool = match self.batch {
            None => false,
            Some(id) => id == batch,
        };
        if valid && self.stage == CacheStage::Encoder && self.next == 20 && same
            && !self.source_ready {
            Ok(())
        } else {
            Err(Error::DecoderSource)
        }
    }

    pub fn finish_decoder_source(&mut self)
        ensures
            *final(self) == old(self).past_source(),
    {
        self.source_ready = true;
        self.invalid = false;
    }

    pub fn finish(&mut self)
        requires
            old(self).next < usize::MAX,
        ensures
            *final(self) == old(self).past_layer(),
    {
        self.next = self.next + 1;
        self.invalid = false;
    }

    /// Every layer of the stage has run for `batch`; an encoder pass has its
    /// source too.
    pub open spec fn can_commit(self, batch: u64) -> bool {
        &&& !self.invalid
        &&& self.next == self.stage.end_window()
        &&& self.batch == Some(batch)
        &&& self.stage != CacheStage::Encoder || self.source_ready
    }

    pub fn commit(&mut self, batch: u64) -> (r: Result<(), Error>)
        ensures
            *final(self) == old(self).spoiled(),
            match r {
                Ok(_) => old(self).can_commit(batch),
                Err(e) => e == Error::PassIncomplete && !old(self).can_commit(batch),
            },
    {
        let valid: bool = !self.invalid;
        self.invalid = true;
        let (_, end): (usize, usize) = self.stage.windows();
        let same: bool = match self.batch {
            None => false,
            Some(id) => id == batch,
        };
        if valid && self.next == end && same && (self.stage != CacheStage::Encoder
            || self.source_ready) {
            Ok(())
        } else {
            Err(Error::PassIncomplete)
        }
    }
}

impl Default for PassProgress {
    fn default() -> (r: Self)
        ensures
            r == Self::started(CacheStage::Full),
    {
        PassProgress::for_stage(CacheStage::Full)
    }
}

/// What happens to a pass.
pub enum PassStep {
    /// A layer is begun, and finished unless it fails or is cancelled.
    Layer { batch: u64, layer: usize, finished: bool },
    /// The decoder's source is begun, and finished unless it fails.
    Source { batch: u64, finished: bool },
}

/// The pass after one step.
pub open spec fn stepped(pass: PassProgress, step: PassStep) -> PassProgress {
    match step {
        PassStep::Layer { batch, layer, finished } => if !pass.can_begin(batch, layer) {
            pass.spoiled()
        } else if finished {
            pass.begun(batch).past_layer()
        } else {
            pass.begun(batch)
        },
        PassStep::Source { batch, finished } => if pass.can_begin_decoder_source(batch)
            && finished {
            pass.spoiled().past_source()
        } else {
            pass.spoiled()
        },
    }
}

/// The pass after the first `n` steps.
pub open spec fn after_steps(stage: CacheStage, steps: Seq<PassStep>, n: int) -> PassProgress
    decreases n,
{
    if n <= 0 {
        PassProgress::started(stage)
    } else {
        stepped(after_steps(stage, steps, n - 1), steps[n - 1])
    }
}

/// One of the first `n` steps has run `layer` to its end for `batch`.
pub open spec fn has_run(steps: Seq<PassStep>, n: int, batch: u64, layer: int) -> bool {
    exists|k: int|
        0 <= k < n && ((#[trigger] steps[k]) matches PassStep::Layer {
            batch: id,
            layer: l,
            finished,
        } && id == batch && l == layer && finished)
}

/// A pass can be committed only after every layer of its stage has run to its end
/// for the batch that is committed.
pub proof fn law_commit_needs_every_layer(
    stage: CacheStage,
    steps: Seq<PassStep>,
    batch: u64,
    layer: int,
)
    requires
        after_steps(stage, steps, steps.len() as int).can_commit(batch),
        stage.has_window(layer),
    ensures
        has_run(steps, steps.len() as int, batch, layer),
{
    lemma_run_so_far(stage, steps, steps.len() as int, batch, layer);
}

proof fn lemma_run_so_far(
    stage: CacheStage,
    steps: Seq<PassStep>,
    n: int,
    batch: u64,
    layer: int,
)
    requires
        0 <= n <= steps.len(),
    ensures
        ({
            let pass = after_steps(stage, steps, n);
            &&& pass.stage == stage
            &&& stage.first_window() <= pass.next <= stage.end_window()
            &&& pass.batch is None ==> pass.next == stage.first_window()
            &&& pass.batch == Some(batch) && stage.first_window() <= layer < pass.next ==> has_run(
                steps,
                n,
                batch,
                layer,
            )
        }),
    decreases n,
{
    if n > 0 {
        lemma_run_so_far(stage, steps, n - 1, batch, layer);
        let before = after_steps(stage, steps, n - 1);
        let pass = after_steps(stage, steps, n);
        if has_run(steps, n - 1, batch, layer) {
            let k = choose|k: int|
                0 <= k < n - 1 && ((#[trigger] steps[k]) matches PassStep::Layer {
                    batch: id,
                    layer: l,
                    finished,
                } && id == batch && l == layer && finished);
            assert(steps[k] matches PassStep::Layer { batch: id, layer: l, finished } && id == batch
                && l == layer && finished);
            assert(has_run(steps, n, batch, layer));
        }
        if pass.batch == Some(batch) && stage.first_window() <= layer < pass.next && !has_run(
            steps,
            n - 1,
            batch,
            layer,
        ) {
            assert(steps[n - 1] matches PassStep::Layer { batch: id, layer: l, finished } && id
                == batch && l == layer && finished);
            assert(has_run(steps, n, batch, layer));
        }
    }
}

/// A pass that was interrupted stays unusable: whatever is tried, it neither runs
/// another layer nor commits.
pub proof fn law_interrupted_pass_stays_invalid(pass: PassProgress, step: PassStep, batch: u64)
    requires
        pass.invalid,
    ensures
        stepped(pass, step).invalid,
        !pass.can_commit(batch),
        !stepped(pass, step).can_commit(batch),
{
}

/// A pass within a layer can do nothing else: it begins no layer, no source and no
/// commit before the layer is finished.
pub proof fn law_pass_is_shut_within_a_layer(
    pass: PassProgress,
    batch: u64,
    other: u64,
    layer: usize,
)
    ensures
        !pass.begun(batch).can_begin(other, layer),
        !pass.begun(batch).can_begin_decoder_source(other),
        !pass.begun(batch).can_commit(other),
        !pass.spoiled().can_begin(other, layer),
        !pass.spoiled().can_begin_decoder_source(other),
        !pass.spoiled().can_commit(other),
{
}

/// The steps that run the first `n` layers of a stage for `batch`, each to its end.
pub open spec fn plain_run(stage: CacheStage, batch: u64, n: int) -> Seq<PassStep> {
    Seq::new(
        n as nat,
        |k: int|
            PassStep::Layer {
                batch,
                layer: (stage.first_window() + k) as usize,
                finished: true,
            },
    )
}

proof fn lemma_plain_run(stage: CacheStage, batch: u64, n: int, k: int)
    requires
        0 <= k <= n <= stage.end_window() - stage.first_window(),
    ensures
        after_steps(stage, plain_run(stage, batch, n), k) == (PassProgress {
            stage,
            source_ready: false,
            batch: if k == 0 {
                None
            } else {
                Some(batch)
            },
            next: (stage.first_window() + k) as usize,
            invalid: false,
        }),
    decreases k,
{
    if k > 0 {
        lemma_plain_run(stage, batch, n, k - 1);
    }
}

/// Running every layer of a stage in turn, and no more, is what it takes: then the batch
/// can be committed, an encoder pass with its source produced and not before, and no
/// other batch.
pub proof fn law_every_layer_in_turn_leads_to_commit(stage: CacheStage, batch: u64, other: u64)
    requires
        other != batch,
    ensures
        ({
            let n = stage.end_window() - stage.first_window();
            let pass = after_steps(stage, plain_run(stage, batch, n), n);
            let sourced = stepped(pass, PassStep::Source { batch, finished: true });
            &&& stage != CacheStage::Encoder ==> pass.can_commit(batch)
            &&& stage == CacheStage::Encoder ==> !pass.can_commit(batch) && sourced.can_commit(batch)
            &&& stage != CacheStage::Encoder ==> !sourced.can_commit(batch)
            &&& !pass.can_commit(other) && !sourced.can_commit(other)
        }),
{
    let n = stage.end_window() - stage.first_window();
    lemma_plain_run(stage, batch, n, n);
}

} // verus!
