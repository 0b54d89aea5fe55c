//! Performance options.
use vstd::prelude::*;

verus! {

/// Performance options.
#[derive(Debug)]
pub struct PerformanceConfig {
    /// Whether checking is incremental.
    pub incremental: bool,
    /// Whether results are cached on disk.
    pub cache_enabled: bool,
    /// The cache directory.
    pub cache_dir: String,
    /// The largest cache size, in megabytes.
    pub cache_size_mb: usize,
    /// The number of parallel workers, 0 for as many as there are processors.
    pub workers: usize,
    /// Whether memory pools are used.
    pub memory_pool: bool,
}

impl PerformanceConfig {
    /// The default options with the given cache directory: incremental, cached, 1024 MB of
    /// cache, as many workers as processors, memory pools on.
    pub fn with_cache_dir(cache_dir: String) -> (r: Self)
        ensures
            r.incremental,
            r.cache_enabled,
            r.cache_dir@ == cache_dir@,
            r.cache_size_mb == 1024,
            r.workers == 0,
            r.memory_pool,
    {
        PerformanceConfig {
            incremental: true,
            cache_enabled: true,
            cache_dir,
            cache_size_mb: 1024,
            workers: 0,
            memory_pool: true,
        }
    }
}

impl Clone for PerformanceConfig {
    fn clone(&self) -> (r: Self)
        ensures
            r.incremental == self.incremental,
            r.cache_enabled == self.cache_enabled,
            r.cache_dir@ == self.cache_dir@,
            r.cache_size_mb == self.cache_size_mb,
            r.workers == self.workers,
            r.memory_pool == self.memory_pool,
    {
        PerformanceConfig {
            incremental: self.incremental,
            cache_enabled: self.cache_enabled,
            cache_dir: self.cache_dir.clone(),
            cache_size_mb: self.cache_size_mb,
            workers: self.workers,
            memory_pool: self.memory_pool,
        }
    }
}

} // verus!
