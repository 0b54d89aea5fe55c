//! Statistics over timing measurements, each a number of nanoseconds.
use vstd::prelude::*;
use crate::assoc::{keyed_map, unique_keys, lemma_keyed_update, lemma_keyed_absent, lemma_keyed_get};

verus! {

/// The sum of the measurements.
pub open spec fn total_of(s: Seq<u64>) -> int
    decreases s.len(),
{
    if s.len() == 0 {
        0
    } else {
        total_of(s.drop_last()) + s.last()
    }
}

proof fn lemma_total_bound(s: Seq<u64>)
    ensures
        0 <= total_of(s) <= s.len() * (u64::MAX as int),
    decreases s.len(),
{
    if s.len() > 0 {
        lemma_total_bound(s.drop_last());
    }
}

/// Statistics for timing measurements, in nanoseconds.
#[derive(Debug, Clone, Copy, PartialEq, Eq, Structural)]
pub struct TimingStats {
    /// The number of measurements.
    pub count: usize,
    /// Their sum.
    pub total: u128,
    /// Their sum divided by their number, rounded down.
    pub mean: u128,
    /// The smallest one.
    pub min: u64,
    /// The largest one.
    pub max: u64,
}

impl TimingStats {
    /// The statistics of a list of measurements; all zero for an empty list.
    pub fn from_durations(durations: &[u64]) -> (r: Self)
        requires
            durations@.len() <= u32::MAX,
        ensures
            r.count == durations@.len(),
            r.total == total_of(durations@),
            durations@.len() == 0 ==> r == (TimingStats { count: 0, total: 0, mean: 0, min: 0, max: 0 }),
            durations@.len() > 0 ==> {
                &&& r.mean == total_of(durations@) / (durations@.len() as int)
                &&& durations@.contains(r.min)
                &&& durations@.contains(r.max)
                &&& forall|i: int| 0 <= i < durations@.len() ==> r.min <= #[trigger] durations@[i] <= r.max
            },
    {
        let n = durations.len();
        if n == 0 {
            return TimingStats { count: 0, total: 0, mean: 0, min: 0, max: 0 };
        }
        let mut total: u128 = 0;
        let mut min: u64 = durations[0];
        let mut max: u64 = durations[0];
        let mut i: usize = 0;
        while i < n
            invariant
                n == durations@.len(),
                0 < n <= u32::MAX,
                0 <= i <= n,
                total == total_of(durations@.take(i as int)),
                durations@.contains(min),
                durations@.contains(max),
                forall|j: int| 0 <= j < i ==> min <= #[trigger] durations@[j] <= max,
                min <= durations@[0] <= max,
            decreases n - i,
        {
            let d = durations[i];
            proof {
                assert(durations@.take(i + 1).drop_last() =~= durations@.take(i as int));
                lemma_total_bound(durations@.take(i as int));
                assert(i * (u64::MAX as int) <= (u32::MAX as int) * (u64::MAX as int)) by (nonlinear_arith)
                    requires
                        i <= u32::MAX,
                ;
            }
            total = total + d as u128;
            if d < min {
                min = d;
            }
            if d > max {
                max = d;
            }
            i += 1;
        }
        assert(durations@.take(n as int) =~= durations@);
        let mean = total / (n as u128);
        TimingStats { count: n, total, mean, min, max }
    }
}


/// The model of a table of measurement lists by name.
pub open spec fn timing_entries(v: Seq<(String, Vec<u64>)>) -> Seq<(Seq<char>, Seq<u64>)> {
    v.map_values(|e: (String, Vec<u64>)| (e.0@, e.1@))
}

/// The model of a table of counters by name.
pub open spec fn counter_entries(v: Seq<(String, u64)>) -> Seq<(Seq<char>, u64)> {
    v.map_values(|e: (String, u64)| (e.0@, e.1))
}

/// The position of a name in a table keyed by names.
fn find_name<X>(v: &Vec<(String, X)>, name: &str) -> (r: Option<usize>)
    ensures
        r matches Some(i) ==> i < v.len() && v@[i as int].0@ == name@,
        r is None ==> forall|m: int| 0 <= m < v.len() ==> (#[trigger] v@[m]).0@ != name@,
{
    let s = String::from_str(name);
    let mut i: usize = 0;
    while i < v.len()
        invariant
            0 <= i <= v.len(),
            s@ == name@,
            forall|m: int| 0 <= m < i ==> (#[trigger] v@[m]).0@ != name@,
        decreases v.len() - i,
    {
        if v[i].0 == s {
            return Some(i);
        }
        i += 1;
    }
    None
}

/// Timing measurements and counters, each kept by name.
pub struct PerformanceMetrics {
    timings: Vec<(String, Vec<u64>)>,
    counters: Vec<(String, u64)>,
}

impl PerformanceMetrics {
    /// Each name occurs once in each table.
    pub closed spec fn wf(&self) -> bool {
        &&& unique_keys(timing_entries(self.timings@))
        &&& unique_keys(counter_entries(self.counters@))
    }

    /// The measurements recorded under each name, oldest first.
    pub closed spec fn timings(&self) -> Map<Seq<char>, Seq<u64>> {
        keyed_map(timing_entries(self.timings@))
    }

    /// The value of each counter.
    pub closed spec fn counters(&self) -> Map<Seq<char>, u64> {
        keyed_map(counter_entries(self.counters@))
    }

    /// The value of a counter: 0 for one never touched.
    pub open spec fn counter(&self, name: Seq<char>) -> u64 {
        if self.counters().contains_key(name) {
            self.counters()[name]
        } else {
            0
        }
    }

    /// No measurements and no counters.
    pub fn new() -> (r: Self)
        ensures
            r.wf(),
            r.timings() == Map::<Seq<char>, Seq<u64>>::empty(),
            r.counters() == Map::<Seq<char>, u64>::empty(),
    {
        let r = PerformanceMetrics { timings: Vec::new(), counters: Vec::new() };
        assert(timing_entries(r.timings@) =~= Seq::empty());
        assert(counter_entries(r.counters@) =~= Seq::empty());
        r
    }

    /// Records a measurement under a name, after those already there.
    pub fn record_timing(&mut self, name: String, nanos: u64)
        requires
            old(self).wf(),
        ensures
            final(self).wf(),
            final(self).counters() == old(self).counters(),
            final(self).timings() == old(self).timings().insert(
                name@,
                (if old(self).timings().contains_key(name@) {
                    old(self).timings()[name@]
                } else {
                    Seq::empty()
                }).push(nanos),
            ),
    {
        let ghost old_entries = timing_entries(self.timings@);
        match find_name(&self.timings, name.as_str()) {
            Some(i) => {
                proof {
                    assert(old_entries[i as int].0 == name@);
                    assert forall|m: int| i < m < old_entries.len() implies (#[trigger] old_entries[m]).0
                        != old_entries[i as int].0 by {}
                    lemma_keyed_get(old_entries, i as int);
                }
                let (key, mut list) = self.timings.remove(i);
                list.push(nanos);
                self.timings.insert(i, (key, list));
                proof {
                    let v = old_entries[i as int].1.push(nanos);
                    assert(timing_entries(self.timings@) =~= old_entries.update(
                        i as int,
                        (old_entries[i as int].0, v),
                    ));
                    lemma_keyed_update(old_entries, i as int, v);
                }
            },
            None => {
                proof {
                    lemma_keyed_absent(old_entries, name@);
                }
                let mut list: Vec<u64> = Vec::new();
                list.push(nanos);
                let ghost entry = (name@, list@);
                self.timings.push((name, list));
                proof {
                    assert(timing_entries(self.timings@) =~= old_entries.push(entry));
                    assert(old_entries.push(entry).drop_last() =~= old_entries);
                    assert(list@ =~= Seq::<u64>::empty().push(nanos));
                }
            },
        }
    }

    /// Adds to a counter, which starts at 0.
    pub fn add(&mut self, name: String, value: u64)
        requires
            old(self).wf(),
            old(self).counter(name@) + value <= u64::MAX,
        ensures
            final(self).wf(),
            final(self).timings() == old(self).timings(),
            final(self).counters() == old(self).counters().insert(
                name@,
                (old(self).counter(name@) + value) as u64,
            ),
    {
        let ghost old_entries = counter_entries(self.counters@);
        match find_name(&self.counters, name.as_str()) {
            Some(i) => {
                proof {
                    assert(old_entries[i as int].0 == name@);
                    lemma_keyed_get(old_entries, i as int);
                }
                let cur = self.counters[i].1;
                let v = cur + value;
                self.counters.set(i, (name, v));
                proof {
                    assert(counter_entries(self.counters@) =~= old_entries.update(
                        i as int,
                        (old_entries[i as int].0, v),
                    ));
                    lemma_keyed_update(old_entries, i as int, v);
                }
            },
            None => {
                proof {
                    lemma_keyed_absent(old_entries, name@);
                }
                let ghost entry = (name@, value);
                self.counters.push((name, value));
                proof {
                    assert(counter_entries(self.counters@) =~= old_entries.push(entry));
                    assert(old_entries.push(entry).drop_last() =~= old_entries);
                }
            },
        }
    }

    /// Adds one to a counter, which starts at 0.
    pub fn increment(&mut self, name: String)
        requires
            old(self).wf(),
            old(self).counter(name@) < u64::MAX,
        ensures
            final(self).wf(),
            final(self).timings() == old(self).timings(),
            final(self).counters() == old(self).counters().insert(
                name@,
                (old(self).counter(name@) + 1) as u64,
            ),
    {
        self.add(name, 1);
    }

    /// The statistics of the measurements under a name, if any were recorded.
    pub fn get_timing_stats(&self, name: &str) -> (r: Option<TimingStats>)
        requires
            self.wf(),
            self.timings().contains_key(name@) ==> self.timings()[name@].len() <= u32::MAX,
        ensures
            r is Some <==> self.timings().contains_key(name@),
            r matches Some(st) ==> st.count == self.timings()[name@].len() && st.total == total_of(
                self.timings()[name@],
            ) && {
                let d = self.timings()[name@];
                d.len() > 0 ==> {
                    &&& st.mean == total_of(d) / (d.len() as int)
                    &&& d.contains(st.min)
                    &&& d.contains(st.max)
                    &&& forall|i: int| 0 <= i < d.len() ==> st.min <= #[trigger] d[i] <= st.max
                }
            },
    {
        let ghost entries = timing_entries(self.timings@);
        match find_name(&self.timings, name) {
            Some(i) => {
                proof {
                    assert(entries[i as int].0 == name@);
                    lemma_keyed_get(entries, i as int);
                }
                Some(TimingStats::from_durations(self.timings[i].1.as_slice()))
            },
            None => {
                proof {
                    lemma_keyed_absent(entries, name@);
                }
                None
            },
        }
    }

    /// The value of a counter: 0 for one never touched.
    pub fn get_counter(&self, name: &str) -> (r: u64)
        requires
            self.wf(),
        ensures
            r == self.counter(name@),
    {
        let ghost entries = counter_entries(self.counters@);
        match find_name(&self.counters, name) {
            Some(i) => {
                proof {
                    assert(entries[i as int].0 == name@);
                    lemma_keyed_get(entries, i as int);
                }
                self.counters[i].1
            },
            None => {
                proof {
                    lemma_keyed_absent(entries, name@);
                }
                0
            },
        }
    }

    /// Forgets every measurement and every counter.
    pub fn reset(&mut self)
        ensures
            final(self).wf(),
            final(self).timings() == Map::<Seq<char>, Seq<u64>>::empty(),
            final(self).counters() == Map::<Seq<char>, u64>::empty(),
    {
        self.timings.clear();
        self.counters.clear();
        assert(timing_entries(self.timings@) =~= Seq::empty());
        assert(counter_entries(self.counters@) =~= Seq::empty());
    }
}

} // verus!
