//! The identity that ties one layer's query to everything computed from it.
use crate::error::Error;
use vstd::prelude::*;

verus! {

pub const LAYERS: usize = 40;

#[derive(Debug, Clone, Copy, PartialEq, Eq, Structural)]
pub struct QueryBinding {
    pub layer: usize,
    pub identity: u64,
}

impl QueryBinding {
    /// A binding takes the next number, which moves on by one; nothing moves where none
    /// is given.
    pub open spec fn is_taken(
        before: u64,
        after: u64,
        layer: usize,
        r: Result<QueryBinding, Error>,
    ) -> bool {
        match r {
            Ok(binding) => {
                &&& layer < LAYERS
                &&& binding.layer == layer
                &&& binding.identity == before
                &&& after == before + 1
            },
            Err(e) => {
                &&& after == before
                &&& e == if layer >= LAYERS {
                    Error::QueryLayer
                } else {
                    Error::QueryBindingsExhausted
                }
                &&& layer >= LAYERS || before == u64::MAX
            },
        }
    }

    /// A new identity for a query of `layer`, taken from a counter.
    pub fn new(next: &mut u64, layer: usize) -> (r: Result<Self, Error>)
        ensures
            Self::is_taken(*old(next), *final(next), layer, r),
    {
        if layer >= LAYERS {
            return Err(Error::QueryLayer);
        }
        let identity: u64 = *next;
        match identity.checked_add(1) {
            None => Err(Error::QueryBindingsExhausted),
            Some(following) => {
                *next = following;
                Ok(QueryBinding { layer, identity })
            },
        }
    }

    pub fn layer(&self) -> (r: usize)
        ensures
            r == self.layer,
    {
        self.layer
    }
}

} // verus!
