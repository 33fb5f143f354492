use vstd::prelude::*;
use crate::data_manipulation::aggregation::{spec_clamp, truncate_to_domain};
use crate::data_manipulation::anonymizable::{IntervalType, NominalType, OrdinalType, QI_LEN_BOUND, QuasiIdentifierTypes, VAL_BOUND, W_BOUND, qi_in_randomized_range, qi_raw, qi_shape, qi_wf, qis_cat_ok, qis_wf, shape_seq, weight_sum_to};
use crate::noise::laplace::categorical_noiser::{CategoricalNoiser, NOISE_THR_NANOS_BOUND};
use crate::noise::laplace::numerical_noiser::{EPS_NANOS_BOUND, K_BOUND, NumericalNoiser};
use crate::noise::noiser::Noiser;

verus! {

/// QI types that support categorical noise
#[derive(Clone, Copy)]
pub enum CategoricalTypes {
    Nominal(NominalType),
    Ordinal(OrdinalType),
}

/// possible noiser categories for the laplace noiser
enum NoiserCategories {
    NumericalNoiser(NumericalNoiser),
    CategoricalNoiser(CategoricalNoiser),
}

/// Sub-noiser well-formedness.
spec fn sub_wf(n: NoiserCategories) -> bool {
    match n {
        NoiserCategories::NumericalNoiser(x) => x.wf(),
        NoiserCategories::CategoricalNoiser(c) => c.wf(),
    }
}

/// All codes of the sequence lie between 0 and `m`.
spec fn codes_in(s: Seq<i64>, m: i64) -> bool {
    forall|i: int| 0 <= i < s.len() ==> 0 <= #[trigger] s[i] <= m
}

/// The codes a sub-noiser list has observed at one position; empty where the
/// position holds no categorical sub-noiser.
spec fn subs_observed(subs: Seq<NoiserCategories>, i: int) -> Seq<i64> {
    if 0 <= i < subs.len() {
        match subs[i] {
            NoiserCategories::CategoricalNoiser(c) => c.observed(),
            NoiserCategories::NumericalNoiser(_) => Seq::empty(),
        }
    } else {
        Seq::empty()
    }
}

/// The sub-noiser matches the QI position: a numerical noiser for an
/// interval, a categorical noiser whose observed codes are known codes of
/// the position for an ordinal or nominal.
spec fn sub_fits(n: NoiserCategories, q: QuasiIdentifierTypes) -> bool {
    match (n, q) {
        (NoiserCategories::NumericalNoiser(_), QuasiIdentifierTypes::Interval(_)) => true,
        (
            NoiserCategories::CategoricalNoiser(c),
            QuasiIdentifierTypes::Ordinal((_, m, _)),
        ) => codes_in(c.observed(), m),
        (
            NoiserCategories::CategoricalNoiser(c),
            QuasiIdentifierTypes::Nominal((_, m, _)),
        ) => codes_in(c.observed(), m),
        _ => false,
    }
}

/// The laplace noise noiser used for introducing random noise to make the
/// QIs differentially private: one lazily created sub-noiser per QI
/// position, typed to that position.
pub struct LaplaceNoiser {
    eps_nanos: u64,
    k: usize,
    noise_thr_nanos: i64,
    qi_noisers: Vec<NoiserCategories>,
}

impl LaplaceNoiser {
    /// a fresh laplace noiser for the given privacy parameter, anonymity
    /// level and categorical noise threshold
    pub fn new(eps_nanos: u64, k: usize, noise_thr_nanos: i64) -> (r: LaplaceNoiser)
        requires
            1 <= eps_nanos <= EPS_NANOS_BOUND,
            1 <= k <= K_BOUND,
            -NOISE_THR_NANOS_BOUND <= noise_thr_nanos <= NOISE_THR_NANOS_BOUND,
        ensures
            r.wf(),
            forall|s: Seq<QuasiIdentifierTypes>| #[trigger] r.fits(s),
    {
        LaplaceNoiser { eps_nanos, k, noise_thr_nanos, qi_noisers: Vec::new() }
    }

    /// add noise to an interval QI value, clamping the result to the
    /// position's domain
    pub fn add_noise_interval(&self, noise: i64, interval: IntervalType) -> (r: IntervalType)
        requires
            qi_wf(QuasiIdentifierTypes::Interval(interval)),
            -2 * VAL_BOUND <= noise <= 2 * VAL_BOUND,
        ensures
            r.0 as int == spec_clamp(
                interval.0 + noise,
                interval.1 as int,
                interval.2 as int,
            ),
            r.1 == interval.1,
            r.2 == interval.2,
            r.3 == interval.3,
            interval.1 <= r.0 <= interval.2,
    {
        let (value, min_value, max_value, weight) = interval;
        (truncate_to_domain(value + noise, min_value, max_value), min_value, max_value, weight)
    }

    /// calculate the full weight of all the QIs
    fn calculate_stream_weight(&self, qi: &Vec<QuasiIdentifierTypes>) -> (r: u64)
        requires
            qis_wf(qi@),
            qi@.len() <= QI_LEN_BOUND,
        ensures
            r as int == weight_sum_to(qi@, qi@.len() as int),
    {
        let mut sum: u64 = 0;
        let mut i: usize = 0;
        let n = qi.len();
        while i < n
            invariant
                qis_wf(qi@),
                n == qi@.len(),
                n <= QI_LEN_BOUND,
                0 <= i <= n,
                sum as int == weight_sum_to(qi@, i as int),
                sum as int <= i * W_BOUND,
            decreases n - i,
        {
            proof {
                assert(qi_wf(qi@[i as int]));
                assert(i * W_BOUND + W_BOUND <= QI_LEN_BOUND * W_BOUND) by (nonlinear_arith)
                    requires
                        0 <= i < QI_LEN_BOUND,
                ;
            }
            let w: usize = match qi[i] {
                QuasiIdentifierTypes::Interval((_, _, _, w)) => w,
                QuasiIdentifierTypes::Ordinal((_, _, w)) => w,
                QuasiIdentifierTypes::Nominal((_, _, w)) => w,
            };
            sum = sum + w as u64;
            i = i + 1;
        }
        sum
    }
}

impl Noiser for LaplaceNoiser {
    closed spec fn wf(&self) -> bool {
        &&& 1 <= self.eps_nanos <= EPS_NANOS_BOUND
        &&& 1 <= self.k <= K_BOUND
        &&& -NOISE_THR_NANOS_BOUND <= self.noise_thr_nanos <= NOISE_THR_NANOS_BOUND
        &&& forall|i: int|
            0 <= i < self.qi_noisers@.len() ==> sub_wf(#[trigger] self.qi_noisers@[i])
    }

    closed spec fn fits(&self, s: Seq<QuasiIdentifierTypes>) -> bool {
        self.qi_noisers@.len() == 0 || (self.qi_noisers@.len() == s.len() && forall|i: int|
            0 <= i < s.len() ==> sub_fits(#[trigger] self.qi_noisers@[i], s[i]))
    }

    closed spec fn observed_at(&self, i: int) -> Seq<i64> {
        subs_observed(self.qi_noisers@, i)
    }

    proof fn lemma_fits_shape(&self, a: Seq<QuasiIdentifierTypes>, b: Seq<QuasiIdentifierTypes>) {
        if self.qi_noisers@.len() != 0 {
            assert(a.len() == shape_seq(a).len());
            assert(b.len() == shape_seq(b).len());
            assert forall|i: int| 0 <= i < b.len() implies sub_fits(
                #[trigger] self.qi_noisers@[i],
                b[i],
            ) by {
                assert(sub_fits(self.qi_noisers@[i], a[i]));
                assert(shape_seq(a)[i] == qi_shape(a[i]));
                assert(shape_seq(b)[i] == qi_shape(b[i]));
                assert(qi_shape(a[i]) == qi_shape(b[i]));
            }
        }
    }

    fn duplicate(&self) -> (r: Self) {
        LaplaceNoiser {
            eps_nanos: self.eps_nanos,
            k: self.k,
            noise_thr_nanos: self.noise_thr_nanos,
            qi_noisers: Vec::new(),
        }
    }

    fn add_noise(&mut self, qis: &Vec<QuasiIdentifierTypes>) -> (r: Vec<QuasiIdentifierTypes>) {
        let qi_len = qis.len();
        let stream_weight = self.calculate_stream_weight(qis);
        let mut taken: Vec<NoiserCategories> = Vec::new();
        core::mem::swap(&mut taken, &mut self.qi_noisers);
        let ghost orig = old(self).qi_noisers@;
        let had = taken.len() > 0;
        let mut out: Vec<QuasiIdentifierTypes> = Vec::new();
        let mut i: usize = 0;
        while i < qi_len
            invariant
                qis_wf(qis@),
                qis_cat_ok(qis@),
                1 <= qi_len <= QI_LEN_BOUND,
                qi_len == qis@.len(),
                1 <= self.eps_nanos <= EPS_NANOS_BOUND,
                1 <= self.k <= K_BOUND,
                -NOISE_THR_NANOS_BOUND <= self.noise_thr_nanos <= NOISE_THR_NANOS_BOUND,
                orig == old(self).qi_noisers@,
                had == (orig.len() > 0),
                had ==> orig.len() == qis@.len(),
                had ==> forall|l: int|
                    0 <= l < orig.len() ==> sub_fits(#[trigger] orig[l], qis@[l]) && sub_wf(
                        orig[l],
                    ),
                !had ==> taken@.len() == 0,
                had ==> taken@ == orig.skip(i as int),
                0 <= i <= qi_len,
                self.qi_noisers@.len() == i,
                forall|l: int|
                    0 <= l < i ==> sub_wf(#[trigger] self.qi_noisers@[l]) && sub_fits(
                        self.qi_noisers@[l],
                        qis@[l],
                    ),
                out@.len() == i,
                forall|l: int|
                    0 <= l < i ==> qi_shape(#[trigger] out@[l]) == qi_shape(qis@[l])
                        && qi_in_randomized_range(out@[l]),
                forall|l: int|
                    0 <= l < i && !(qis@[l] is Interval) ==> (qi_raw(#[trigger] out@[l])
                        == qi_raw(qis@[l]) || old(self).observed_at(l).contains(qi_raw(out@[l]))),
                forall|l: int|
                    0 <= l < i && !(qis@[l] is Interval) ==> #[trigger] subs_observed(
                        self.qi_noisers@,
                        l,
                    ) == (if old(self).observed_at(l).contains(qi_raw(qis@[l])) {
                        old(self).observed_at(l)
                    } else {
                        old(self).observed_at(l).push(qi_raw(qis@[l]))
                    }),
            decreases qi_len - i,
        {
            let ghost subs_pre = self.qi_noisers@;
            proof {
                assert(qi_wf(qis@[i as int]));
                assert(qi_cat_ok_at(qis@, i as int));
                if had {
                    assert(taken@[0] == orig[i as int]);
                }
            }
            let q = qis[i];
            match q {
                QuasiIdentifierTypes::Interval(interval) => {
                    let mut noiser: NumericalNoiser = if had {
                        match taken.remove(0) {
                            NoiserCategories::NumericalNoiser(x) => x,
                            NoiserCategories::CategoricalNoiser(_) => {
                                proof {
                                    assert(false);
                                }
                                NumericalNoiser::initialize(self.eps_nanos, self.k, qi_len, &interval)
                            },
                        }
                    } else {
                        NumericalNoiser::initialize(self.eps_nanos, self.k, qi_len, &interval)
                    };
                    let noise = noiser.generate_noise(&interval);
                    let noised = self.add_noise_interval(noise, interval);
                    self.qi_noisers.push(NoiserCategories::NumericalNoiser(noiser));
                    out.push(QuasiIdentifierTypes::Interval(noised));
                },
                QuasiIdentifierTypes::Ordinal(ordinal) => {
                    let mut noiser: CategoricalNoiser = if had {
                        match taken.remove(0) {
                            NoiserCategories::CategoricalNoiser(c) => c,
                            NoiserCategories::NumericalNoiser(_) => {
                                proof {
                                    assert(false);
                                }
                                CategoricalNoiser::initialize(self.noise_thr_nanos, stream_weight)
                            },
                        }
                    } else {
                        CategoricalNoiser::initialize(self.noise_thr_nanos, stream_weight)
                    };
                    proof {
                        if had {
                            assert(noiser.observed() == old(self).observed_at(i as int));
                        } else {
                            assert(noiser.observed() =~= Seq::<i64>::empty());
                            assert(old(self).observed_at(i as int) == Seq::<i64>::empty());
                        }
                    }
                    let ghost obs0 = old(self).observed_at(i as int);
                    let code = noiser.generate_noise(CategoricalTypes::Ordinal(ordinal));
                    let ghost obs1 = noiser.observed();
                    let (_, max_rank, weight) = ordinal;
                    self.qi_noisers.push(NoiserCategories::CategoricalNoiser(noiser));
                    out.push(QuasiIdentifierTypes::Ordinal((code, max_rank, weight)));
                    proof {
                        let v = qi_raw(qis@[i as int]);
                        assert(self.observed_at(i as int) == obs1);
                        assert(obs1 == if obs0.contains(v) {
                            obs0
                        } else {
                            obs0.push(v)
                        });
                        if code != v {
                            assert(obs1.contains(code));
                            if !obs0.contains(v) {
                                assert(obs0.push(v).contains(code));
                                let w = choose|w: int|
                                    0 <= w < obs0.push(v).len() && obs0.push(v)[w] == code;
                                assert(w < obs0.len());
                                assert(obs0[w] == code);
                                assert(obs0.contains(code));
                            }
                        }
                        assert(qi_raw(out@[i as int]) == code);
                    }
                },
                QuasiIdentifierTypes::Nominal(nominal) => {
                    let mut noiser: CategoricalNoiser = if had {
                        match taken.remove(0) {
                            NoiserCategories::CategoricalNoiser(c) => c,
                            NoiserCategories::NumericalNoiser(_) => {
                                proof {
                                    assert(false);
                                }
                                CategoricalNoiser::initialize(self.noise_thr_nanos, stream_weight)
                            },
                        }
                    } else {
                        CategoricalNoiser::initialize(self.noise_thr_nanos, stream_weight)
                    };
                    proof {
                        if had {
                            assert(noiser.observed() == old(self).observed_at(i as int));
                        } else {
                            assert(noiser.observed() =~= Seq::<i64>::empty());
                            assert(old(self).observed_at(i as int) == Seq::<i64>::empty());
                        }
                    }
                    let ghost obs0 = old(self).observed_at(i as int);
                    let code = noiser.generate_noise(CategoricalTypes::Nominal(nominal));
                    let ghost obs1 = noiser.observed();
                    let (_, max_value, weight) = nominal;
                    self.qi_noisers.push(NoiserCategories::CategoricalNoiser(noiser));
                    out.push(QuasiIdentifierTypes::Nominal((code, max_value, weight)));
                    proof {
                        let v = qi_raw(qis@[i as int]);
                        assert(self.observed_at(i as int) == obs1);
                        assert(obs1 == if obs0.contains(v) {
                            obs0
                        } else {
                            obs0.push(v)
                        });
                        if code != v {
                            assert(obs1.contains(code));
                            if !obs0.contains(v) {
                                assert(obs0.push(v).contains(code));
                                let w = choose|w: int|
                                    0 <= w < obs0.push(v).len() && obs0.push(v)[w] == code;
                                assert(w < obs0.len());
                                assert(obs0[w] == code);
                                assert(obs0.contains(code));
                            }
                        }
                        assert(qi_raw(out@[i as int]) == code);
                    }
                },
            }
            proof {
                if had {
                    assert(taken@ =~= orig.skip(i + 1 as int));
                }
                assert forall|l: int|
                    0 <= l < i && !(qis@[l] is Interval) implies #[trigger] subs_observed(
                    self.qi_noisers@,
                    l,
                ) == (if old(self).observed_at(l).contains(qi_raw(qis@[l])) {
                    old(self).observed_at(l)
                } else {
                    old(self).observed_at(l).push(qi_raw(qis@[l]))
                }) by {
                    assert(self.qi_noisers@[l] == subs_pre[l]);
                    assert(subs_observed(self.qi_noisers@, l) == subs_observed(subs_pre, l));
                }
            }
            i = i + 1;
        }
        out
    }
}

/// The QI at the given position carries a known code where it is
/// categorical.
spec fn qi_cat_ok_at(s: Seq<QuasiIdentifierTypes>, i: int) -> bool {
    crate::data_manipulation::anonymizable::qi_cat_ok(s[i])
}

} // verus!
