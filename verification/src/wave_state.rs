//! What a lane's stage has published, and when a captured execution may stand in
//! for a plain one.
use crate::attention_binding::QueryBinding;
use crate::block::copy_tokens;
use crate::error::Error;
use crate::graphs;
use crate::graphs::{replayed, CachedGraph};
use vstd::prelude::*;

verus! {

/// What a stage answers where it cannot run.
#[derive(Debug, Clone, Copy, PartialEq, Eq, Structural)]
pub struct StageErrors {
    pub rows: Error,
    pub captured: Error,
    pub missing: Error,
    pub differs: Error,
    pub unpublished: Error,
}

/// Rows that a stage has published and the query they come from.
pub struct StageState {
    pub capacity: u32,
    pub errors: StageErrors,
    pub ready: Option<u32>,
    pub origin: Option<QueryBinding>,
    pub tokens: Vec<u64>,
}

impl StageState {
    pub open spec fn inv(&self) -> bool {
        self.ready matches Some(rows) ==> 1 <= rows <= self.capacity
    }

    /// Nothing is published; the rest is as in `before`.
    pub open spec fn cleared(&self, before: &Self) -> bool {
        &&& self.capacity == before.capacity
        &&& self.errors == before.errors
        &&& self.ready is None
        &&& self.origin is None
        &&& self.tokens@.len() == 0
    }

    /// `rows` rows are published without a known query.
    pub open spec fn published(&self, before: &Self, rows: u32) -> bool {
        &&& self.capacity == before.capacity
        &&& self.errors == before.errors
        &&& self.ready == Some(rows)
        &&& self.origin is None
        &&& self.tokens@.len() == 0
    }

    /// The rows of `tokens` are published for `origin`.
    pub open spec fn published_for(&self, before: &Self, origin: QueryBinding, tokens: Seq<u64>) -> bool {
        &&& self.capacity == before.capacity
        &&& self.errors == before.errors
        &&& self.ready == Some(tokens.len() as u32)
        &&& self.origin == Some(origin)
        &&& self.tokens@ == tokens
    }

    pub fn new(capacity: u32, errors: StageErrors) -> (r: Self)
        ensures
            r.inv(),
            r.capacity == capacity,
            r.errors == errors,
            r.ready is None,
            r.origin is None,
            r.tokens@.len() == 0,
    {
        StageState { capacity, errors, ready: None, origin: None, tokens: Vec::new() }
    }

    pub fn clear(&mut self)
        requires
            old(self).inv(),
        ensures
            final(self).inv(),
            final(self).cleared(old(self)),
    {
        self.ready = None;
        self.origin = None;
        self.tokens.clear();
    }

    pub open spec fn takes(&self, rows: u32) -> bool {
        1 <= rows <= self.capacity
    }

    pub fn validate(&mut self, rows: u32) -> (r: Result<(), Error>)
        requires
            old(self).inv(),
        ensures
            final(self).inv(),
            final(self).cleared(old(self)),
            r == if old(self).takes(rows) {
                Ok::<(), Error>(())
            } else {
                Err::<(), Error>(old(self).errors.rows)
            },
    {
        self.clear();
        if rows >= 1 && rows <= self.capacity {
            Ok(())
        } else {
            Err(self.errors.rows)
        }
    }

    /// Runs `rows` rows; `work` is how the device work went.
    pub fn execute(&mut self, rows: u32, work: Result<(), Error>) -> (r: Result<(), Error>)
        requires
            old(self).inv(),
        ensures
            final(self).inv(),
            match r {
                Err(e) => {
                    &&& final(self).cleared(old(self))
                    &&& if old(self).takes(rows) {
                        work == Err::<(), Error>(e)
                    } else {
                        e == old(self).errors.rows
                    }
                },
                Ok(_) => old(self).takes(rows) && work is Ok && final(self).published(
                    old(self),
                    rows,
                ),
            },
    {
        match self.validate(rows) {
            Err(e) => {
                return Err(e);
            },
            Ok(_) => {},
        }
        match work {
            Err(e) => Err(e),
            Ok(_) => {
                self.ready = Some(rows);
                Ok(())
            },
        }
    }

    /// A shape is captured once. The warm-up that precedes a capture runs the
    /// rows and leaves nothing published.
    pub fn capture(&mut self, rows: u32, cached: Option<CachedGraph>, work: Result<(), Error>) -> (r:
        Result<(), Error>)
        requires
            old(self).inv(),
        ensures
            final(self).inv(),
            final(self).cleared(old(self)),
            match r {
                Ok(_) => cached is None && old(self).takes(rows) && work is Ok,
                Err(e) => if cached is Some {
                    e == old(self).errors.captured
                } else if !old(self).takes(rows) {
                    e == old(self).errors.rows
                } else {
                    work == Err::<(), Error>(e)
                },
            },
    {
        self.clear();
        if cached.is_some() {
            return Err(self.errors.captured);
        }
        match self.execute(rows, work) {
            Err(e) => Err(e),
            Ok(_) => {
                self.clear();
                Ok(())
            },
        }
    }

    /// Why a cached execution cannot run `rows` rows.
    pub open spec fn replay_error(&self, rows: u32, cached: Option<CachedGraph>) -> Option<Error> {
        if !self.takes(rows) {
            Some(self.errors.rows)
        } else {
            graphs::replay_error(cached, rows, self.errors.missing, self.errors.differs)
        }
    }

    /// The cached execution to launch for `rows` rows.
    pub fn graph_for(&mut self, rows: u32, cached: Option<CachedGraph>) -> (r: Result<u64, Error>)
        requires
            old(self).inv(),
        ensures
            final(self).inv(),
            final(self).cleared(old(self)),
            match r {
                Err(e) => old(self).replay_error(rows, cached) == Some(e),
                Ok(handle) => old(self).replay_error(rows, cached) is None && cached == Some(
                    CachedGraph { handle, rows },
                ),
            },
    {
        match self.validate(rows) {
            Err(e) => {
                return Err(e);
            },
            Ok(_) => {},
        }
        replayed(cached, rows, self.errors.missing, self.errors.differs)
    }

    /// Runs `rows` rows by a cached execution and returns which; `work` is how the
    /// launch went.
    pub fn replay(&mut self, rows: u32, cached: Option<CachedGraph>, work: Result<(), Error>) -> (r:
        Result<u64, Error>)
        requires
            old(self).inv(),
        ensures
            final(self).inv(),
            match r {
                Err(e) => {
                    &&& final(self).cleared(old(self))
                    &&& match old(self).replay_error(rows, cached) {
                        Some(reason) => e == reason,
                        None => work == Err::<(), Error>(e),
                    }
                },
                Ok(graph) => {
                    &&& old(self).replay_error(rows, cached) is None
                    &&& cached matches Some(kept) && graph == kept.handle
                    &&& work is Ok
                    &&& final(self).published(old(self), rows)
                },
            },
    {
        let graph: u64 = match self.graph_for(rows, cached) {
            Err(e) => {
                return Err(e);
            },
            Ok(graph) => graph,
        };
        match work {
            Err(e) => Err(e),
            Ok(_) => {
                self.ready = Some(rows);
                Ok(graph)
            },
        }
    }

    /// Publishes the rows of `tokens` for `origin`.
    pub fn publish(&mut self, origin: QueryBinding, tokens: &[u64])
        requires
            old(self).inv(),
            1 <= tokens@.len() <= old(self).capacity,
        ensures
            final(self).inv(),
            final(self).published_for(old(self), origin, tokens@),
    {
        self.ready = Some(tokens.len() as u32);
        self.origin = Some(origin);
        self.tokens = copy_tokens(tokens);
    }

    /// The published rows.
    pub fn rows(&self) -> (r: Result<u32, Error>)
        ensures
            r == match self.ready {
                Some(rows) => Ok::<u32, Error>(rows),
                None => Err::<u32, Error>(self.errors.unpublished),
            },
    {
        match self.ready {
            Some(rows) => Ok(rows),
            None => Err(self.errors.unpublished),
        }
    }
}

} // verus!
