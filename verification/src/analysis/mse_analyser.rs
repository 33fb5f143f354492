use vstd::prelude::*;

verus! {

/// Analyses the mean of the scaled distances between the original data
/// tuples and their anonymized versions throughout the algorithm's lifetime.
pub struct MseAnalyser {
    count: u64,
    sum_errors: u128,
}

impl MseAnalyser {
    /// The number of errors recorded.
    pub closed spec fn spec_count(&self) -> int {
        self.count as int
    }

    /// The sum of the recorded errors, in nanos.
    pub closed spec fn spec_sum(&self) -> int {
        self.sum_errors as int
    }

    /// record one scaled error; the counters saturate at their type bounds
    pub fn add_error(&mut self, error: u128)
        ensures
            final(self).spec_count() == if old(self).spec_count() < u64::MAX {
                old(self).spec_count() + 1
            } else {
                old(self).spec_count()
            },
            final(self).spec_sum() == if old(self).spec_sum() + error <= u128::MAX {
                old(self).spec_sum() + error
            } else {
                old(self).spec_sum()
            },
    {
        if self.count < u64::MAX {
            self.count = self.count + 1;
        }
        if self.sum_errors <= u128::MAX - error {
            self.sum_errors = self.sum_errors + error;
        }
    }

    /// the mean of the recorded errors, in nanos
    pub fn calculate_mse(&self) -> (r: u128)
        requires
            self.spec_count() >= 1,
        ensures
            r == self.spec_sum() / self.spec_count(),
    {
        self.sum_errors / (self.count as u128)
    }
}

impl Default for MseAnalyser {
    fn default() -> (r: MseAnalyser)
        ensures
            r.spec_count() == 0,
            r.spec_sum() == 0,
    {
        MseAnalyser { count: 0, sum_errors: 0 }
    }
}

} // verus!
