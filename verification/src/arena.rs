//! Statistics of arena allocation.
use vstd::prelude::*;

verus! {

/// Statistics of arena allocation.
#[derive(Debug, Clone, Copy, PartialEq, Eq, Structural)]
pub struct ArenaStats {
    /// Allocations made.
    pub allocations: usize,
    /// Deallocations made.
    pub deallocations: usize,
    /// Highest memory in use, in bytes.
    pub peak_memory: usize,
    /// Memory in use, in bytes.
    pub current_memory: usize,
}

/// No memory in use is above the peak.
pub open spec fn peak_covers(s: ArenaStats) -> bool {
    s.current_memory <= s.peak_memory
}

impl Default for ArenaStats {
    fn default() -> (r: Self)
        ensures
            r == (ArenaStats { allocations: 0, deallocations: 0, peak_memory: 0, current_memory: 0 }),
    {
        ArenaStats { allocations: 0, deallocations: 0, peak_memory: 0, current_memory: 0 }
    }
}

impl ArenaStats {
    /// Records an allocation of `size` bytes; the peak follows the memory in use.
    pub fn record_alloc(&mut self, size: usize)
        requires
            old(self).allocations < usize::MAX,
            old(self).current_memory + size <= usize::MAX,
        ensures
            final(self).allocations == old(self).allocations + 1,
            final(self).deallocations == old(self).deallocations,
            final(self).current_memory == old(self).current_memory + size,
            final(self).peak_memory == if old(self).peak_memory >= old(self).current_memory + size {
                old(self).peak_memory
            } else {
                (old(self).current_memory + size) as usize
            },
    {
        self.allocations += 1;
        self.current_memory += size;
        if self.current_memory > self.peak_memory {
            self.peak_memory = self.current_memory;
        }
    }

    /// Records a deallocation of `size` bytes; the memory in use does not go below zero.
    pub fn record_dealloc(&mut self, size: usize)
        requires
            old(self).deallocations < usize::MAX,
        ensures
            final(self).allocations == old(self).allocations,
            final(self).deallocations == old(self).deallocations + 1,
            final(self).current_memory == if old(self).current_memory >= size {
                (old(self).current_memory - size) as usize
            } else {
                0
            },
            final(self).peak_memory == old(self).peak_memory,
    {
        self.deallocations += 1;
        self.current_memory = self.current_memory.saturating_sub(size);
    }

    /// Sets every counter back to zero.
    pub fn reset(&mut self)
        ensures
            *final(self) == (ArenaStats {
                allocations: 0,
                deallocations: 0,
                peak_memory: 0,
                current_memory: 0,
            }),
    {
        *self = ArenaStats::default();
    }
}

/// Recording keeps the peak at or above the memory in use.
pub proof fn lemma_peak_covers_current(before: ArenaStats, after: ArenaStats, size: usize, alloc: bool)
    requires
        peak_covers(before),
        alloc ==> {
            &&& after.current_memory == before.current_memory + size
            &&& after.peak_memory == if before.peak_memory >= before.current_memory + size {
                before.peak_memory
            } else {
                (before.current_memory + size) as usize
            }
        },
        !alloc ==> {
            &&& after.current_memory == if before.current_memory >= size {
                (before.current_memory - size) as usize
            } else {
                0
            }
            &&& after.peak_memory == before.peak_memory
        },
    ensures
        peak_covers(after),
{
}

} // verus!
