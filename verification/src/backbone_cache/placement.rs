//! Cache and attention placement follows the groups that read one compressed
//! source.
use crate::error::Error;
use vstd::prelude::*;

verus! {

/// The GPU of each layer's attention.
#[derive(Debug, Clone, Copy, PartialEq, Eq)]
pub struct CachePlacement {
    pub attention: [usize; 40],
}

/// The layers from `source` up to `end` share a GPU.
pub open spec fn shared(attention: Seq<usize>, source: int, end: int) -> bool {
    forall|l: int| source <= l < end ==> #[trigger] attention[l] == attention[source]
}

pub open spec fn placement_error(attention: Seq<usize>) -> Option<Error> {
    if exists|l: int| 0 <= l < 40 && (#[trigger] attention[l]) >= 2 {
        Some(Error::CacheGpu)
    } else if !shared(attention, 2, 8) {
        Some(Error::SourceGpu { source: 2 })
    } else if !shared(attention, 8, 14) {
        Some(Error::SourceGpu { source: 8 })
    } else if !shared(attention, 14, 20) {
        Some(Error::SourceGpu { source: 14 })
    } else if !shared(attention, 20, 40) {
        Some(Error::SourceGpu { source: 20 })
    } else {
        None
    }
}

impl CachePlacement {
    pub open spec fn wf(&self) -> bool {
        placement_error(self.attention@) is None
    }

    fn check_shared(attention: &[usize; 40], source: usize, end: usize) -> (r: bool)
        requires
            source < end <= 40,
        ensures
            r == shared(attention@, source as int, end as int),
    {
        let mut l: usize = source;
        while l < end
            invariant
                source <= l <= end <= 40,
                source < end,
                forall|k: int| source <= k < l ==> #[trigger] attention@[k] == attention@[source as int],
            decreases end - l,
        {
            if attention[l] != attention[source] {
                assert(attention@[l as int] != attention@[source as int]);
                return false;
            }
            l = l + 1;
        }
        true
    }

    pub fn new(attention: [usize; 40]) -> (r: Result<Self, Error>)
        ensures
            match r {
                Ok(placement) => placement_error(attention@) is None && placement.attention
                    == attention,
                Err(e) => placement_error(attention@) == Some(e),
            },
    {
        let mut l: usize = 0;
        while l < 40
            invariant
                l <= 40,
                forall|k: int| 0 <= k < l ==> #[trigger] attention@[k] < 2,
            decreases 40 - l,
        {
            if attention[l] >= 2 {
                assert(attention@[l as int] >= 2);
                return Err(Error::CacheGpu);
            }
            l = l + 1;
        }
        if !Self::check_shared(&attention, 2, 8) {
            return Err(Error::SourceGpu { source: 2 });
        }
        if !Self::check_shared(&attention, 8, 14) {
            return Err(Error::SourceGpu { source: 8 });
        }
        if !Self::check_shared(&attention, 14, 20) {
            return Err(Error::SourceGpu { source: 14 });
        }
        if !Self::check_shared(&attention, 20, 40) {
            return Err(Error::SourceGpu { source: 20 });
        }
        Ok(CachePlacement { attention })
    }

    /// Encoder layers on the first GPU, decoder layers on the second.
    pub fn encoder_decoder() -> (r: Self)
        ensures
            r.wf(),
            forall|l: int|
                0 <= l < 40 ==> #[trigger] r.attention@[l] == if l >= 20 {
                    1usize
                } else {
                    0usize
                },
    {
        let placement = CachePlacement {
            attention: [
                0, 0, 0, 0, 0, 0, 0, 0, 0, 0, 0, 0, 0, 0, 0, 0, 0, 0, 0, 0, 1, 1, 1, 1, 1, 1, 1, 1,
                1, 1, 1, 1, 1, 1, 1, 1, 1, 1, 1, 1,
            ],
        };
        assert forall|l: int| 0 <= l < 40 implies #[trigger] placement.attention@[l] == if l >= 20 {
            1usize
        } else {
            0usize
        } by {}
        placement
    }

    pub fn attention(&self, layer: usize) -> (r: Result<usize, Error>)
        ensures
            match r {
                Ok(gpu) => layer < 40 && gpu == self.attention@[layer as int],
                Err(e) => e == Error::AttentionLayer && layer >= 40,
            },
    {
        if layer < 40 {
            Ok(self.attention[layer])
        } else {
            Err(Error::AttentionLayer)
        }
    }

    /// The GPU of each compressed source.
    pub fn sources(&self) -> (r: [usize; 4])
        ensures
            r@ == seq![
                self.attention@[2],
                self.attention@[8],
                self.attention@[14],
                self.attention@[20],
            ],
    {
        let r = [self.attention[2], self.attention[8], self.attention[14], self.attention[20]];
        assert(r@ =~= seq![
            self.attention@[2],
            self.attention@[8],
            self.attention@[14],
            self.attention@[20],
        ]);
        r
    }
}

/// The layer whose compressed source `layer` reads.
pub open spec fn nearest_source(layer: int) -> Option<int> {
    if layer < 2 {
        None
    } else if layer < 8 {
        Some(2)
    } else if layer < 14 {
        Some(8)
    } else if layer < 20 {
        Some(14)
    } else {
        Some(20)
    }
}

/// Attention always runs on the GPU of the source that it reads.
pub proof fn law_attention_runs_with_its_source(placement: CachePlacement, layer: int)
    requires
        placement.wf(),
        2 <= layer < 40,
    ensures
        placement.attention@[layer] == placement.attention@[nearest_source(layer)->Some_0],
{
}

} // verus!
