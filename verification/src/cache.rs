//! Keys and entries of the analysis result cache.
use vstd::prelude::*;
use crate::types::Type;
use crate::errors::{TypeError, kind_str};
use crate::incremental::{ModuleId, ContentHash};
use crate::hex::{hex_fixed, hex_bytes, encode};

verus! {

/// The key of a cache entry: a module and the digest of its content.
#[derive(Debug, Clone, Copy, PartialEq, Eq, Hash)]
pub struct CacheKey {
    pub module: ModuleId,
    pub hash: ContentHash,
}

impl CacheKey {
    pub fn new(module: ModuleId, hash: ContentHash) -> (r: Self)
        ensures
            r.module == module,
            r.hash.0@ == hash.0@,
    {
        CacheKey { module, hash }
    }

    /// The file name of the entry: the module id, an underscore, the first sixteen bytes
    /// of the digest in hexadecimal, and `.cache`.
    pub fn filename(&self) -> (r: String)
        ensures
            r@ == hex_fixed(self.module.0 as nat, 16) + "_"@ + hex_bytes(self.hash.0@.take(16))
                + ".cache"@,
    {
        let bytes = self.hash.as_bytes();
        let mut prefix: Vec<u8> = Vec::new();
        let mut i: usize = 0;
        while i < 16
            invariant
                0 <= i <= 16,
                bytes@ == self.hash.0@,
                bytes@.len() == 32,
                prefix@ == bytes@.take(i as int),
            decreases 16 - i,
        {
            prefix.push(bytes[i]);
            assert(prefix@ =~= bytes@.take(i + 1));
            i += 1;
        }
        let mut s = self.module.as_str();
        s.append("_");
        let h = encode(prefix.as_slice());
        s.append(h.as_str());
        s.append(".cache");
        s
    }
}

/// An error as it is cached: its message, line, column and file.
#[derive(Debug)]
pub struct CachedError {
    pub message: String,
    pub line: usize,
    pub col: usize,
    pub file: String,
}

impl CachedError {
    /// The cached form of a type error.
    pub fn from_type_error(error: &TypeError) -> (r: Self)
        ensures
            r.message@ == kind_str(error.kind@),
            r.line == error.location.line,
            r.col == error.location.col,
            r.file@ == error.file@,
    {
        CachedError {
            message: error.kind.to_string(),
            line: error.location.line,
            col: error.location.col,
            file: error.file.clone(),
        }
    }
}

/// Analysis results of a module.
#[derive(Debug)]
pub struct CacheEntry {
    pub module: ModuleId,
    pub hash: ContentHash,
    /// Inferred types, by variable name.
    pub types: Vec<(String, Type)>,
    pub errors: Vec<CachedError>,
    /// When the entry was made.
    pub timestamp: u64,
    /// Size in bytes, for eviction.
    pub size_bytes: usize,
}

/// Counters of cache activity.
#[derive(Debug, Default, Clone, Copy)]
pub struct CacheStats {
    pub hits: usize,
    pub misses: usize,
    pub evictions: usize,
    pub disk_reads: usize,
    pub disk_writes: usize,
}

} // verus!
