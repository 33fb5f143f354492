use vstd::prelude::*;
use crate::data_manipulation::anonymizable::Anonymizable;
use crate::runtime::now_nanos;

verus! {

/// Analyses the average delay a tuple experiences between entering the
/// algorithm and being published.
pub struct PublishingDelayAnalyser {
    count: u64,
    sum_delays_nanos: u128,
}

impl PublishingDelayAnalyser {
    /// The number of releases recorded.
    pub closed spec fn spec_count(&self) -> int {
        self.count as int
    }

    /// The summed delays, in nanoseconds.
    pub closed spec fn spec_sum(&self) -> int {
        self.sum_delays_nanos as int
    }

    /// record the delay of one release: the clock read now, less the
    /// record's ingestion timestamp (zero where the clock went backwards);
    /// the counters saturate at their type bounds
    pub fn add_delay<A: Anonymizable>(&mut self, value: &A)
        ensures
            final(self).spec_count() == if old(self).spec_count() < u64::MAX {
                old(self).spec_count() + 1
            } else {
                old(self).spec_count()
            },
            old(self).spec_sum() <= final(self).spec_sum() <= old(self).spec_sum() + u64::MAX,
    {
        if self.count < u64::MAX {
            self.count = self.count + 1;
        }
        let now = now_nanos();
        let ts = value.get_timestamp();
        let delay: u64 = if now >= ts {
            now - ts
        } else {
            0
        };
        if self.sum_delays_nanos <= u128::MAX - delay as u128 {
            self.sum_delays_nanos = self.sum_delays_nanos + delay as u128;
        }
    }

    /// the mean delay over all recorded releases, in nanoseconds
    pub fn calculate_average_delay(&self) -> (r: u128)
        requires
            self.spec_count() >= 1,
        ensures
            r == self.spec_sum() / self.spec_count(),
    {
        self.sum_delays_nanos / (self.count as u128)
    }
}

impl Default for PublishingDelayAnalyser {
    fn default() -> (r: PublishingDelayAnalyser)
        ensures
            r.spec_count() == 0,
            r.spec_sum() == 0,
    {
        PublishingDelayAnalyser { count: 0, sum_delays_nanos: 0 }
    }
}

} // verus!
