use vstd::prelude::*;

verus! {

/// The headline numbers of one bench run, every quantity exact: means and
/// probabilities in nanos, times in nanoseconds.
#[derive(Clone, Copy, PartialEq, Eq, Debug)]
pub struct Metrics {
    pub mse_nanos: u128,
    pub sse: u128,
    pub publishing_delay_nanos: u128,
    pub execution_time_nanos: u128,
    pub clusters_created: i32,
    pub clusters_deleted: i32,
    pub disclosure_risk_nanos: u128,
}

impl Default for Metrics {
    fn default() -> (r: Metrics)
        ensures
            r.mse_nanos == 0,
            r.sse == 0,
            r.publishing_delay_nanos == 0,
            r.execution_time_nanos == 0,
            r.clusters_created == 0,
            r.clusters_deleted == 0,
            r.disclosure_risk_nanos == 0,
    {
        Metrics {
            mse_nanos: 0,
            sse: 0,
            publishing_delay_nanos: 0,
            execution_time_nanos: 0,
            clusters_created: 0,
            clusters_deleted: 0,
            disclosure_risk_nanos: 0,
        }
    }
}

} // verus!
