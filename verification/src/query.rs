//! Identities of modules in the query database, and query statistics.
use vstd::prelude::*;

verus! {

/// Identifier of a module in the query database.
#[derive(Debug, Clone, Copy, PartialEq, Eq, Hash, Structural)]
pub struct ModuleId(pub u64);

impl ModuleId {
    pub fn new(id: u64) -> (r: Self)
        ensures
            r.0 == id,
    {
        ModuleId(id)
    }

    pub fn as_u64(&self) -> (r: u64)
        ensures
            r == self.0,
    {
        self.0
    }
}

/// Counters of query caching.
#[derive(Debug, Default, Clone, Copy)]
pub struct QueryStats {
    pub total_queries: usize,
    pub cache_hits: usize,
    pub cache_misses: usize,
}

} // verus!
