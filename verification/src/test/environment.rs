use vstd::prelude::*;

verus! {

/// A dataset on disk and where its export belongs.
#[derive(Clone, Copy, PartialEq, Eq, Debug)]
pub struct Dataset {
    pub path: &'static str,
    pub export: &'static str,
}

/// The datasets the test bench knows.
#[derive(Clone, Copy)]
pub enum Datasets {
    Adult(Dataset),
    AdultLarge(Dataset),
    Mueller(Dataset),
}

impl Datasets {
    /// the dataset under the tag
    pub fn extract(&self) -> (r: Dataset)
        ensures
            r == match *self {
                Datasets::Adult(d) => d,
                Datasets::AdultLarge(d) => d,
                Datasets::Mueller(d) => d,
            },
    {
        match *self {
            Datasets::Adult(dataset) => dataset,
            Datasets::AdultLarge(dataset) => dataset,
            Datasets::Mueller(dataset) => dataset,
        }
    }
}

/// One parameter set for a bench run; every numeric knob is held exactly,
/// real-valued parameters in nanos.
pub struct Environment {
    pub k: usize,
    pub k_max: usize,
    pub l: usize,
    pub c: i64,
    pub diff_thres_nanos: u128,
    pub eps_nanos: u64,
    pub delta: u64,
    pub buff_size: usize,
    pub noise_thr_nanos: i64,
    pub dataset: Datasets,
    pub publish_remaining_tuples: bool,
}

impl Environment {
    /// a parameter set with the buffer sized at three times the anonymity
    /// level
    pub fn new(
        k: usize,
        k_max: usize,
        l: usize,
        c: i64,
        diff_thres_nanos: u128,
        eps_nanos: u64,
        delta: u64,
        noise_thr_nanos: i64,
        dataset: Datasets,
        publish_remaining_tuples: bool,
    ) -> (r: Environment)
        requires
            k <= 1_000_000,
        ensures
            r.k == k,
            r.k_max == k_max,
            r.l == l,
            r.c == c,
            r.diff_thres_nanos == diff_thres_nanos,
            r.eps_nanos == eps_nanos,
            r.delta == delta,
            r.buff_size == k * 3,
            r.noise_thr_nanos == noise_thr_nanos,
            r.publish_remaining_tuples == publish_remaining_tuples,
    {
        Environment {
            k,
            k_max,
            l,
            c,
            diff_thres_nanos,
            eps_nanos,
            delta,
            buff_size: k * 3,
            noise_thr_nanos,
            dataset,
            publish_remaining_tuples,
        }
    }
}

} // verus!
