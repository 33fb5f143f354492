use vstd::prelude::*;

verus! {

/// Analyses the overall information loss experienced throughout the
/// algorithm's lifetime, as the exact sum of squared errors.
pub struct SseAnalyser {
    sum_info_loss: u128,
}

impl SseAnalyser {
    /// The total recorded squared information loss.
    pub closed spec fn spec_sum(&self) -> int {
        self.sum_info_loss as int
    }

    /// record the squared information loss of one release; the sum saturates
    /// at its type bound
    pub fn add_info_loss(&mut self, info_loss: u128)
        ensures
            final(self).spec_sum() == if old(self).spec_sum() + info_loss <= u128::MAX {
                old(self).spec_sum() + info_loss
            } else {
                old(self).spec_sum()
            },
    {
        if self.sum_info_loss <= u128::MAX - info_loss {
            self.sum_info_loss = self.sum_info_loss + info_loss;
        }
    }

    /// the total squared information loss recorded so far
    pub fn total_info_loss(&self) -> (r: u128)
        ensures
            r == self.spec_sum(),
    {
        self.sum_info_loss
    }
}

impl Default for SseAnalyser {
    fn default() -> (r: SseAnalyser)
        ensures
            r.spec_sum() == 0,
    {
        SseAnalyser { sum_info_loss: 0 }
    }
}

} // verus!
