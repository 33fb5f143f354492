use vstd::prelude::*;
use crate::noise::laplace::laplace_noiser::CategoricalTypes;
use crate::runtime::{rand_below, std_normal_nanos};
use crate::vec_set::VecSet;

verus! {

/// Largest categorical noise threshold in nanos.
pub const NOISE_THR_NANOS_BOUND: i64 = 1_000_000_000_000_000;

/// The value carried by a categorical QI.
pub open spec fn spec_categorical_value(categorical: CategoricalTypes) -> i64 {
    match categorical {
        CategoricalTypes::Ordinal((rank, _, _)) => rank,
        CategoricalTypes::Nominal((value, _, _)) => value,
    }
}

/// Noiser for categorical QI types: keeps the set of codes it has observed
/// at its position and, with a probability steered by the threshold, answers
/// with a uniformly drawn different observed code.
pub struct CategoricalNoiser {
    observed_values: VecSet,
    noise_thr_nanos: i64,
    stream_weight: u64,
}

impl CategoricalNoiser {
    /// The codes observed so far.
    pub closed spec fn observed(&self) -> Seq<i64> {
        self.observed_values.codes()
    }

    /// Noiser well-formedness: a duplicate-free observed set and a bounded
    /// threshold.
    pub closed spec fn wf(&self) -> bool {
        &&& self.observed_values.wf()
        &&& -NOISE_THR_NANOS_BOUND <= self.noise_thr_nanos <= NOISE_THR_NANOS_BOUND
    }

    /// a fresh categorical noiser for the given threshold and total stream
    /// weight
    pub fn initialize(noise_thr_nanos: i64, stream_weight: u64) -> (r: CategoricalNoiser)
        requires
            -NOISE_THR_NANOS_BOUND <= noise_thr_nanos <= NOISE_THR_NANOS_BOUND,
        ensures
            r.wf(),
            r.observed().len() == 0,
    {
        CategoricalNoiser { observed_values: VecSet::new(), noise_thr_nanos, stream_weight }
    }

    /// extract the value from the possible categorical QI types
    fn extract_value(categorical: &CategoricalTypes) -> (r: i64)
        ensures
            r == spec_categorical_value(*categorical),
    {
        match *categorical {
            CategoricalTypes::Ordinal((rank, _, _)) => rank,
            CategoricalTypes::Nominal((value, _, _)) => value,
        }
    }

    /// generate noise for a categorical QI: return either the value itself
    /// or a different code observed earlier at this position
    pub fn generate_noise(&mut self, categorical: CategoricalTypes) -> (r: i64)
        requires
            old(self).wf(),
        ensures
            final(self).wf(),
            final(self).observed() == if old(self).observed().contains(
                spec_categorical_value(categorical),
            ) {
                old(self).observed()
            } else {
                old(self).observed().push(spec_categorical_value(categorical))
            },
            r == spec_categorical_value(categorical) || (final(self).observed().contains(r)
                && r != spec_categorical_value(categorical)),
    {
        let value = Self::extract_value(&categorical);
        self.observed_values.insert(value);

        let e = std_normal_nanos();
        proof {
            assert(-NOISE_THR_NANOS_BOUND * 0x1_0000_0000_0000_0000 <= (self.noise_thr_nanos
                as int) * (self.stream_weight as int) <= NOISE_THR_NANOS_BOUND
                * 0x1_0000_0000_0000_0000) by (nonlinear_arith)
                requires
                    -NOISE_THR_NANOS_BOUND <= self.noise_thr_nanos <= NOISE_THR_NANOS_BOUND,
                    0 <= self.stream_weight < 0x1_0000_0000_0000_0000,
            ;
        }
        let threshold: i128 = (self.noise_thr_nanos as i128) * (self.stream_weight as i128);
        let n = self.observed_values.len();
        if n > 1 && (e as i128) < threshold {
            let idx = rand_below((n - 1) as u64) as usize;
            let candidate = match self.observed_values.get(idx) {
                Some(c) => c,
                None => {
                    proof {
                        assert(false);
                    }
                    value
                },
            };
            if candidate == value {
                match self.observed_values.get(n - 1) {
                    Some(c) => {
                        proof {
                            assert(self.observed().contains(c)) by {
                                assert(self.observed()[n - 1] == c);
                            }
                            // the drawn index is below the last one, so by
                            // uniqueness the last code differs from the value
                            assert(idx < n - 1);
                            assert(self.observed()[idx as int] == value);
                            self.observed_values.lemma_distinct(idx as int, n - 1);
                            assert(c != value);
                        }
                        c
                    },
                    None => {
                        proof {
                            assert(false);
                        }
                        value
                    },
                }
            } else {
                proof {
                    assert(self.observed().contains(candidate)) by {
                        assert(self.observed()[idx as int] == candidate);
                    }
                }
                candidate
            }
        } else {
            value
        }
    }

    /// an owned copy of the noiser
    pub fn duplicate(&self) -> (r: CategoricalNoiser)
        requires
            self.wf(),
        ensures
            r.wf(),
            r.observed() == self.observed(),
    {
        CategoricalNoiser {
            observed_values: self.observed_values.duplicate(),
            noise_thr_nanos: self.noise_thr_nanos,
            stream_weight: self.stream_weight,
        }
    }
}

} // verus!
