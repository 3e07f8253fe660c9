//! The passes that bring a request from its prompt to decoding. Encoder layers
//! see the whole prompt, decoder layers only the final window before it ends.
use crate::error::Error;
use vstd::prelude::*;

verus! {

/// Layers below this one form the encoder.
pub const ENCODER_LAYERS: usize = 20;

/// Rows that a sliding window can look back.
pub const WINDOW_ROWS: u64 = 128;

/// Which part of the backbone a pass runs.
#[derive(Debug, Clone, Copy, PartialEq, Eq, Structural)]
pub enum CacheStage {
    /// All layers; windows and sources are produced.
    Full,
    /// Encoder layers; encoder windows and all sources are produced.
    Encoder,
    /// Encoder layers over a restored prefix; only encoder windows are produced.
    EncoderReplay,
    /// Decoder layers over the last window; only decoder windows are produced.
    Replay,
}

impl CacheStage {
    pub open spec fn first_window(self) -> int {
        if self is Replay {
            20
        } else {
            0
        }
    }

    pub open spec fn end_window(self) -> int {
        if self is Full || self is Replay {
            40
        } else {
            20
        }
    }

    /// The layers whose windows a pass produces.
    pub fn windows(&self) -> (r: (usize, usize))
        ensures
            r.0 == self.first_window(),
            r.1 == self.end_window(),
    {
        match self {
            CacheStage::Full => (0, 40),
            CacheStage::Encoder | CacheStage::EncoderReplay => (0, ENCODER_LAYERS),
            CacheStage::Replay => (ENCODER_LAYERS, 40),
        }
    }

    pub open spec fn has_window(self, layer: int) -> bool {
        self.first_window() <= layer < self.end_window()
    }

    /// Compressed sources that a pass produces.
    pub open spec fn sources(self) -> int {
        if self is Full || self is Encoder {
            4
        } else {
            0
        }
    }

    pub fn source_count(&self) -> (r: usize)
        ensures
            r == self.sources(),
    {
        match self {
            CacheStage::Full | CacheStage::Encoder => 4,
            CacheStage::EncoderReplay | CacheStage::Replay => 0,
        }
    }

    /// The pass reads committed sources only.
    pub fn reuses_sources(&self) -> (r: bool)
        ensures
            r == (self.sources() == 0),
    {
        match self {
            CacheStage::Full | CacheStage::Encoder => false,
            CacheStage::EncoderReplay | CacheStage::Replay => true,
        }
    }
}

impl Default for CacheStage {
    fn default() -> (r: Self)
        ensures
            r == CacheStage::Full,
    {
        CacheStage::Full
    }
}

/// Where a request stands between its prompt and decoding.
#[derive(Debug, Clone, Copy, PartialEq, Eq, Structural)]
pub enum CachePhase {
    /// Every layer has the whole history.
    Full,
    /// Encoder layers are on their way to `target`, or have reached it.
    Encoder { target: u64 },
    /// Encoder windows are rebuilt up to a restored prefix.
    EncoderReplay { prefix: u64, target: u64, end: u64 },
    /// Decoder windows are rebuilt up to `target`.
    Replay { target: u64, end: u64 },
}

impl CachePhase {
    pub open spec fn stage_of(self) -> CacheStage {
        match self {
            CachePhase::Full => CacheStage::Full,
            CachePhase::Encoder { .. } => CacheStage::Encoder,
            CachePhase::EncoderReplay { .. } => CacheStage::EncoderReplay,
            CachePhase::Replay { .. } => CacheStage::Replay,
        }
    }

    pub fn stage(&self) -> (r: CacheStage)
        ensures
            r == self.stage_of(),
    {
        match self {
            CachePhase::Full => CacheStage::Full,
            CachePhase::Encoder { .. } => CacheStage::Encoder,
            CachePhase::EncoderReplay { .. } => CacheStage::EncoderReplay,
            CachePhase::Replay { .. } => CacheStage::Replay,
        }
    }

    /// Next position of the running pass; `end` is the committed frontier.
    pub open spec fn next_position(self, end: u64) -> u64 {
        match self {
            CachePhase::Full | CachePhase::Encoder { .. } => end,
            CachePhase::EncoderReplay { end: at, .. } => at,
            CachePhase::Replay { end: at, .. } => at,
        }
    }

    pub fn position(&self, end: u64) -> (r: u64)
        ensures
            r == self.next_position(end),
    {
        match self {
            CachePhase::Full | CachePhase::Encoder { .. } => end,
            CachePhase::EncoderReplay { end: at, .. } => *at,
            CachePhase::Replay { end: at, .. } => *at,
        }
    }

    /// Frontier of a layer's window; `end` is the committed frontier.
    pub open spec fn window_frontier(self, layer: int, end: u64) -> u64 {
        match self {
            CachePhase::Full => end,
            CachePhase::Encoder { .. } => if layer < 20 {
                end
            } else {
                0
            },
            CachePhase::EncoderReplay { end: at, .. } => if layer < 20 {
                at
            } else {
                0
            },
            CachePhase::Replay { end: at, .. } => if layer < 20 {
                end
            } else {
                at
            },
        }
    }

    pub fn window_end(&self, layer: usize, end: u64) -> (r: u64)
        ensures
            r == self.window_frontier(layer as int, end),
    {
        match self {
            CachePhase::Full => end,
            CachePhase::Encoder { .. } => if layer < ENCODER_LAYERS {
                end
            } else {
                0
            },
            CachePhase::EncoderReplay { end: at, .. } => if layer < ENCODER_LAYERS {
                *at
            } else {
                0
            },
            CachePhase::Replay { end: at, .. } => if layer < ENCODER_LAYERS {
                end
            } else {
                *at
            },
        }
    }

    /// Where the running pass ends, if it is bounded.
    pub open spec fn limit(self) -> Option<u64> {
        match self {
            CachePhase::Full => None,
            CachePhase::Encoder { target } => Some(target),
            CachePhase::EncoderReplay { prefix, .. } => Some(prefix),
            CachePhase::Replay { target, .. } => Some(target),
        }
    }

    /// The pass may take `tokens` tokens at `position`.
    pub fn validate_tokens(&self, position: u64, tokens: u32) -> (r: Result<(), Error>)
        ensures
            ({
                let fits = match self.limit() {
                    None => true,
                    Some(limit) => position + tokens <= limit,
                };
                match r {
                    Ok(_) => fits,
                    Err(e) => e == Error::PhaseTokens && !fits,
                }
            }),
    {
        let limit: u64 = match self {
            CachePhase::Full => {
                return Ok(());
            },
            CachePhase::Encoder { target } => *target,
            CachePhase::EncoderReplay { prefix, .. } => *prefix,
            CachePhase::Replay { target, .. } => *target,
        };
        match position.checked_add(tokens as u64) {
            Some(end) => if end <= limit {
                Ok(())
            } else {
                Err(Error::PhaseTokens)
            },
            None => Err(Error::PhaseTokens),
        }
    }

    /// The phase and committed frontier once a pass has reached `to`.
    pub open spec fn advanced(self, end: u64, to: u64) -> (CachePhase, u64) {
        match self {
            CachePhase::Full | CachePhase::Encoder { .. } => (self, to),
            CachePhase::EncoderReplay { prefix, target, .. } => (if to == prefix {
                CachePhase::Encoder { target }
            } else {
                CachePhase::EncoderReplay { prefix, target, end: to }
            }, end),
            CachePhase::Replay { target, .. } => (if to == target {
                CachePhase::Full
            } else {
                CachePhase::Replay { target, end: to }
            }, end),
        }
    }

    pub fn advance(&mut self, end: &mut u64, to: u64)
        ensures
            (*final(self), *final(end)) == old(self).advanced(*old(end), to),
    {
        match *self {
            CachePhase::Full | CachePhase::Encoder { .. } => {
                *end = to;
            },
            CachePhase::EncoderReplay { prefix, target, .. } => {
                if to == prefix {
                    *self = CachePhase::Encoder { target };
                } else {
                    *self = CachePhase::EncoderReplay { prefix, target, end: to };
                }
            },
            CachePhase::Replay { target, .. } => {
                if to == target {
                    *self = CachePhase::Full;
                } else {
                    *self = CachePhase::Replay { target, end: to };
                }
            },
        }
    }

    /// The phase fits a request whose committed frontier is `end`.
    pub open spec fn fits(self, end: u64) -> bool {
        match self {
            CachePhase::Full => true,
            CachePhase::Encoder { target } => end <= target,
            CachePhase::EncoderReplay { prefix, target, end: at } => at <= prefix && prefix == end
                && prefix <= target,
            CachePhase::Replay { target, end: at } => at <= target && target == end,
        }
    }
}

/// A pass moves every window that its stage produces to the reached position and
/// leaves the others where they were.
pub proof fn law_windows_follow_their_stage(phase: CachePhase, end: u64, to: u64, layer: int)
    requires
        0 <= layer < 40,
        phase.fits(end),
    ensures
        ({
            let (after, frontier) = phase.advanced(end, to);
            after.window_frontier(layer, frontier) == if phase.stage_of().has_window(layer) {
                to
            } else {
                phase.window_frontier(layer, end)
            }
        }),
{
}

/// No pass goes past its limit: a position that the phase accepts leads to a
/// phase that fits the new frontier.
pub proof fn law_phase_stays_in_bounds(phase: CachePhase, end: u64, to: u64)
    requires
        phase.fits(end),
        phase.limit() matches Some(limit) ==> to <= limit,
    ensures
        ({
            let (after, frontier) = phase.advanced(end, to);
            after.fits(frontier)
        }),
{
}

/// A pass continues where the windows that it produces stand, and none of them is
/// ahead of another.
pub proof fn law_pass_continues_its_windows(phase: CachePhase, end: u64, layer: int)
    requires
        0 <= layer < 40,
        phase.stage_of().has_window(layer),
    ensures
        phase.window_frontier(layer, end) == phase.next_position(end),
{
}

/// Having reached `to`, the request goes on at `to`. A bounded pass ends exactly at
/// its limit: a replay of the encoder becomes the encoder's pass to the same target, a
/// replay of the decoder becomes the full pass, and only passes that produce sources
/// move the committed frontier.
pub proof fn law_phase_goes_on_where_it_got(phase: CachePhase, end: u64, to: u64)
    requires
        phase.fits(end),
        phase.limit() is Some ==> to <= phase.limit()->Some_0,
    ensures
        ({
            let (after, frontier) = phase.advanced(end, to);
            &&& after.next_position(frontier) == to
            &&& frontier == if phase.stage_of().sources() > 0 {
                to
            } else {
                end
            }
            &&& !(phase is Full) && !(phase is Encoder) ==> (after.stage_of() != phase.stage_of()
                <==> phase.limit() == Some(to))
            &&& phase is Full ==> after == phase
            &&& phase is Encoder ==> after == phase
            &&& phase is Replay && phase.limit() == Some(to) ==> after is Full
            &&& phase is EncoderReplay && phase.limit() == Some(to) ==> after
                == (CachePhase::Encoder { target: phase->EncoderReplay_target })
            &&& after.stage_of() == phase.stage_of() ==> after.limit() == phase.limit()
        }),
{
}

/// The passes of a prompt produce each window once: encoder passes those of the first
/// twenty layers, decoder passes the others, full passes all; sources come from full
/// and encoder passes alone.
pub proof fn law_stages_share_the_layers(layer: int)
    requires
        0 <= layer < 40,
    ensures
        CacheStage::Full.has_window(layer),
        CacheStage::Encoder.has_window(layer) <==> layer < 20,
        CacheStage::EncoderReplay.has_window(layer) <==> layer < 20,
        CacheStage::Replay.has_window(layer) <==> !CacheStage::Encoder.has_window(layer),
        CacheStage::Full.sources() == 4 && CacheStage::Encoder.sources() == 4,
        CacheStage::EncoderReplay.sources() == 0 && CacheStage::Replay.sources() == 0,
{
}

} // verus!
