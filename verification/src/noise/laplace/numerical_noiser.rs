use vstd::prelude::*;
use crate::data_manipulation::anonymizable::{IntervalType, QI_LEN_BOUND, QuasiIdentifierTypes, VAL_BOUND, qi_wf};
use crate::runtime::rand_below;

verus! {

/// One scale unit in nanos.
pub const SCALE_NANOS: u64 = 1_000_000_000;

/// Largest privacy parameter in nanos (an epsilon of one million).
pub const EPS_NANOS_BOUND: u64 = 1_000_000_000_000_000;

/// Largest anonymity parameter.
pub const K_BOUND: usize = 1_000_000;

/// Largest scale the estimator can produce, in nanos.
pub open spec fn scale_nanos_max() -> int {
    QI_LEN_BOUND * 2 * VAL_BOUND * 1_000_000_000_000_000_000
}

/// The sliding history after observing one more value: the oldest value
/// leaves once the window is exceeded, the new value enters at the back.
pub open spec fn history_after(h: Seq<i64>, window: int, v: i64) -> Seq<i64> {
    if h.len() > window {
        h.drop_first().push(v)
    } else {
        h.push(v)
    }
}

/// The greatest element of a non-empty sequence.
pub open spec fn seq_max(s: Seq<i64>) -> int
    decreases s.len(),
{
    if s.len() <= 1 {
        s[0] as int
    } else {
        vstd::math::max(seq_max(s.drop_last()), s.last() as int)
    }
}

/// The least element of a non-empty sequence.
pub open spec fn seq_min(s: Seq<i64>) -> int
    decreases s.len(),
{
    if s.len() <= 1 {
        s[0] as int
    } else {
        vstd::math::min(seq_min(s.drop_last()), s.last() as int)
    }
}

/// The greatest and least element of a bounded sequence are ordered and
/// bounded.
pub proof fn lemma_seq_max_min_bounds(s: Seq<i64>)
    requires
        s.len() >= 1,
        forall|i: int| 0 <= i < s.len() ==> -VAL_BOUND <= #[trigger] s[i] <= VAL_BOUND,
    ensures
        -VAL_BOUND <= seq_min(s) <= seq_max(s) <= VAL_BOUND,
    decreases s.len(),
{
    if s.len() > 1 {
        lemma_seq_max_min_bounds(s.drop_last());
    }
}

/// The Laplace scale estimate in nanos: half the observed sensitivity,
/// multiplied by the number of QI positions and divided by the anonymity
/// level and the privacy parameter.
pub open spec fn spec_scale(qi_amount: int, sensitivity: int, k: int, eps_nanos: int) -> int {
    qi_amount * sensitivity * 1_000_000_000_000_000_000 / (2 * k * eps_nanos)
}

/// Noiser for numerical QI types: estimates the Laplace scale online from a
/// sliding window of recently observed values.
pub struct NumericalNoiser {
    eps_nanos: u64,
    k: usize,
    history_window: Vec<i64>,
    max: i64,
    min: i64,
    qi_amount: usize,
    window: usize,
}

impl NumericalNoiser {
    /// The sliding history of observed values.
    pub closed spec fn history(&self) -> Seq<i64> {
        self.history_window@
    }

    /// The window parameter.
    pub closed spec fn spec_window(&self) -> int {
        self.window as int
    }

    /// Noiser well-formedness: bounded parameters and a bounded history no
    /// longer than one more than the window.
    pub closed spec fn wf(&self) -> bool {
        &&& 1 <= self.eps_nanos <= EPS_NANOS_BOUND
        &&& 1 <= self.k <= K_BOUND
        &&& 1 <= self.qi_amount <= QI_LEN_BOUND
        &&& 2 <= self.window <= K_BOUND
        &&& self.history_window@.len() <= self.window + 1
        &&& forall|i: int|
            0 <= i < self.history_window@.len() ==> -VAL_BOUND
                <= #[trigger] self.history_window@[i] <= VAL_BOUND
        &&& -VAL_BOUND <= self.min <= VAL_BOUND
        &&& -VAL_BOUND <= self.max <= VAL_BOUND
    }

    /// create a new numerical noiser and initialize the first values; the
    /// window is the square root of the anonymity level, at least 2
    pub fn initialize(eps_nanos: u64, k: usize, qi_amount: usize, interval: &IntervalType) -> (r:
        NumericalNoiser)
        requires
            1 <= eps_nanos <= EPS_NANOS_BOUND,
            1 <= k <= K_BOUND,
            1 <= qi_amount <= QI_LEN_BOUND,
            qi_wf(QuasiIdentifierTypes::Interval(*interval)),
        ensures
            r.wf(),
            r.history().len() == 0,
            r.eps_spec() == eps_nanos,
            r.k_spec() == k,
            r.qi_amount_spec() == qi_amount,
            r.min_spec() == interval.0,
            r.max_spec() == interval.0,
            exists|root: int|
                0 <= root && #[trigger] (root * root) <= k < (root + 1) * (root + 1)
                    && r.spec_window() == vstd::math::max(2, root),
    {
        let (value, _, _, _) = *interval;
        let root = isqrt(k);
        let window = if root <= 2 {
            2
        } else {
            root
        };
        proof {
            assert(root * root <= k);
            assert(root <= K_BOUND) by (nonlinear_arith)
                requires
                    root * root <= k,
                    k <= K_BOUND,
                    0 <= root,
            ;
        }
        NumericalNoiser {
            eps_nanos,
            k,
            history_window: Vec::new(),
            max: value,
            min: value,
            qi_amount,
            window,
        }
    }

    /// return the estimated scale in nanos, based on the history of
    /// previously observed values
    pub fn estimate_scale(&mut self, value: i64) -> (scale: u128)
        requires
            old(self).wf(),
            -VAL_BOUND <= value <= VAL_BOUND,
        ensures
            final(self).wf(),
            final(self).history() == history_after(
                old(self).history(),
                old(self).spec_window(),
                value,
            ),
            final(self).spec_window() == old(self).spec_window(),
            final(self).eps_spec() == old(self).eps_spec(),
            final(self).k_spec() == old(self).k_spec(),
            final(self).qi_amount_spec() == old(self).qi_amount_spec(),
            final(self).min_spec() == vstd::math::min(old(self).min_spec(), value as int),
            final(self).max_spec() == vstd::math::max(old(self).max_spec(), value as int),
            scale as int == spec_scale(
                final(self).qi_amount_spec(),
                seq_max(final(self).history()) - seq_min(final(self).history()),
                final(self).k_spec(),
                final(self).eps_spec(),
            ),
            scale as int <= scale_nanos_max(),
    {
        if value < self.min {
            self.min = value;
        }
        if value > self.max {
            self.max = value;
        }
        if self.history_window.len() > self.window {
            self.history_window.remove(0);
        }
        self.history_window.push(value);
        let hi = max_of(&self.history_window);
        let lo = min_of(&self.history_window);
        proof {
            lemma_seq_max_min_bounds(self.history_window@);
        }
        let sensitivity: i64 = hi - lo;
        proof {
            assert(0 <= (self.qi_amount as int) * (sensitivity as int) <= QI_LEN_BOUND * (2
                * VAL_BOUND)) by (nonlinear_arith)
                requires
                    1 <= self.qi_amount <= QI_LEN_BOUND,
                    0 <= sensitivity <= 2 * VAL_BOUND,
            ;
            assert(1 <= (self.k as int) * (self.eps_nanos as int) <= K_BOUND * EPS_NANOS_BOUND)
                by (nonlinear_arith)
                requires
                    1 <= self.k <= K_BOUND,
                    1 <= self.eps_nanos <= EPS_NANOS_BOUND,
            ;
            assert(2 * (self.k as int) * (self.eps_nanos as int) == 2 * ((self.k as int) * (
            self.eps_nanos as int))) by (nonlinear_arith);
        }
        let num: u128 = (self.qi_amount as u128) * (sensitivity as u128)
            * 1_000_000_000_000_000_000;
        let den: u128 = 2 * (self.k as u128) * (self.eps_nanos as u128);
        proof {
            vstd::arithmetic::div_mod::lemma_div_pos_is_pos(num as int, den as int);
            vstd::arithmetic::div_mod::lemma_div_nonincreasing(num as int, den as int);
        }
        num / den
    }

    /// The configured number of QI positions.
    pub closed spec fn qi_amount_spec(&self) -> int {
        self.qi_amount as int
    }

    /// The least value observed so far.
    pub closed spec fn min_spec(&self) -> int {
        self.min as int
    }

    /// The greatest value observed so far.
    pub closed spec fn max_spec(&self) -> int {
        self.max as int
    }

    /// The configured anonymity level.
    pub closed spec fn k_spec(&self) -> int {
        self.k as int
    }

    /// The configured privacy parameter, in nanos.
    pub closed spec fn eps_spec(&self) -> int {
        self.eps_nanos as int
    }

    /// calculate a Laplace noise draw in whole value units, with the scale
    /// estimated from the observed history
    pub fn generate_noise(&mut self, interval: &IntervalType) -> (noise: i64)
        requires
            old(self).wf(),
            qi_wf(QuasiIdentifierTypes::Interval(*interval)),
        ensures
            final(self).wf(),
            -2 * VAL_BOUND <= noise <= 2 * VAL_BOUND,
            final(self).history() == history_after(
                old(self).history(),
                old(self).spec_window(),
                interval.0,
            ),
            final(self).spec_window() == old(self).spec_window(),
            final(self).eps_spec() == old(self).eps_spec(),
            final(self).k_spec() == old(self).k_spec(),
            final(self).qi_amount_spec() == old(self).qi_amount_spec(),
            final(self).min_spec() == vstd::math::min(old(self).min_spec(), interval.0 as int),
            final(self).max_spec() == vstd::math::max(old(self).max_spec(), interval.0 as int),
            vstd::math::abs(noise as int) <= 28 * spec_scale(
                final(self).qi_amount_spec(),
                seq_max(final(self).history()) - seq_min(final(self).history()),
                final(self).k_spec(),
                final(self).eps_spec(),
            ) / (SCALE_NANOS as int),
    {
        let (value, _, _, _) = *interval;
        let scale = self.estimate_scale(value);
        let ghost s = scale as int;
        let nanos = laplace_noise_nanos(scale);
        let units: i128 = if nanos >= 0 {
            (((nanos as u128) / 1_000_000_000) as i128)
        } else {
            -((((-nanos) as u128) / 1_000_000_000) as i128)
        };
        proof {
            vstd::arithmetic::div_mod::lemma_div_nonincreasing(
                vstd::math::abs(nanos as int) as int,
                1_000_000_000,
            );
            vstd::arithmetic::div_mod::lemma_div_is_ordered(
                vstd::math::abs(nanos as int) as int,
                28 * s,
                1_000_000_000,
            );
            vstd::arithmetic::div_mod::lemma_div_pos_is_pos(
                vstd::math::abs(nanos as int) as int,
                1_000_000_000,
            );
        }
        let cap: i128 = 2 * (VAL_BOUND as i128);
        if units > cap {
            cap as i64
        } else if units < -cap {
            (-cap) as i64
        } else {
            units as i64
        }
    }

    /// an owned copy of the noiser
    pub fn duplicate(&self) -> (r: NumericalNoiser)
        requires
            self.wf(),
        ensures
            r.wf(),
    {
        let mut h: Vec<i64> = Vec::new();
        let mut i: usize = 0;
        let n = self.history_window.len();
        while i < n
            invariant
                self.wf(),
                n == self.history_window@.len(),
                0 <= i <= n,
                h@ == self.history_window@.take(i as int),
            decreases n - i,
        {
            h.push(self.history_window[i]);
            proof {
                assert(h@ =~= self.history_window@.take(i + 1 as int));
            }
            i = i + 1;
        }
        proof {
            assert(h@ =~= self.history_window@);
        }
        NumericalNoiser {
            eps_nanos: self.eps_nanos,
            k: self.k,
            history_window: h,
            max: self.max,
            min: self.min,
            qi_amount: self.qi_amount,
            window: self.window,
        }
    }
}

/// the integer square root: the greatest value whose square is at most `n`
fn isqrt(n: usize) -> (r: usize)
    ensures
        r * r <= n,
        (r + 1) * (r + 1) > n,
{
    let mut r: usize = 0;
    let mut sq: u128 = 1;
    while sq <= (n as u128)
        invariant
            r * r <= n,
            sq as int == (r + 1) * (r + 1),
            r <= n,
        decreases n - r,
    {
        proof {
            assert((r + 2) * (r + 2) == (r + 1) * (r + 1) + 2 * (r + 1) + 1) by (nonlinear_arith);
            assert(r + 1 <= (r + 1) * (r + 1)) by (nonlinear_arith)
                requires
                    r >= 0,
            ;
        }
        r = r + 1;
        sq = sq + 2 * (r as u128) + 1;
    }
    r
}

/// the greatest element of a non-empty vector
pub(crate) fn max_of(v: &Vec<i64>) -> (r: i64)
    requires
        v@.len() >= 1,
    ensures
        r as int == seq_max(v@),
{
    let mut r: i64 = v[0];
    let mut i: usize = 1;
    proof {
        assert(v@.take(1).len() == 1);
        assert(v@.take(1)[0] == v@[0]);
    }
    while i < v.len()
        invariant
            1 <= i <= v@.len(),
            r as int == seq_max(v@.take(i as int)),
        decreases v@.len() - i,
    {
        let x = v[i];
        proof {
            assert(v@.take(i + 1).drop_last() =~= v@.take(i as int));
            assert(v@.take(i + 1).last() == v@[i as int]);
        }
        if x > r {
            r = x;
        }
        i = i + 1;
    }
    proof {
        assert(v@.take(v@.len() as int) =~= v@);
    }
    r
}

/// the least element of a non-empty vector
pub(crate) fn min_of(v: &Vec<i64>) -> (r: i64)
    requires
        v@.len() >= 1,
    ensures
        r as int == seq_min(v@),
{
    let mut r: i64 = v[0];
    let mut i: usize = 1;
    proof {
        assert(v@.take(1).len() == 1);
        assert(v@.take(1)[0] == v@[0]);
    }
    while i < v.len()
        invariant
            1 <= i <= v@.len(),
            r as int == seq_min(v@.take(i as int)),
        decreases v@.len() - i,
    {
        let x = v[i];
        proof {
            assert(v@.take(i + 1).drop_last() =~= v@.take(i as int));
            assert(v@.take(i + 1).last() == v@[i as int]);
        }
        if x < r {
            r = x;
        }
        i = i + 1;
    }
    proof {
        assert(v@.take(v@.len() as int) =~= v@);
    }
    r
}

/// draw one Laplace noise value in nanos for the given scale: a uniform draw
/// fixes the sign and the tail position, a fixed-point logarithm maps it to
/// the Laplace tail; only the magnitude's bound is promised
pub fn laplace_noise_nanos(scale_nanos: u128) -> (r: i128)
    requires
        scale_nanos as int <= scale_nanos_max(),
    ensures
        -28 * (scale_nanos as int) <= r as int <= 28 * (scale_nanos as int),
{
    let u: i64 = (rand_below(1_000_000_001) as i64) - 500_000_000;
    let a: u64 = if u >= 0 {
        u as u64
    } else {
        (-u) as u64
    };
    let d: u64 = 1_000_000_000 - 2 * a;
    let diff: u64 = if d < 1 {
        1
    } else {
        d
    };
    let ln_n: u64 = neg_ln_nanos(diff);
    let mag: u128 = if scale_nanos < 0x1_0000_0000_0000_0000 {
        proof {
            assert(scale_nanos * (ln_n as int) <= scale_nanos * 28_000_000_000)
                by (nonlinear_arith)
                requires
                    ln_n as int <= 28_000_000_000,
                    scale_nanos >= 0,
            ;
            assert(scale_nanos * 28_000_000_000 == 1_000_000_000 * (28 * scale_nanos))
                by (nonlinear_arith);
            vstd::arithmetic::div_mod::lemma_multiply_divide_le(
                scale_nanos * (ln_n as int),
                1_000_000_000,
                28 * (scale_nanos as int),
            );
            vstd::arithmetic::div_mod::lemma_div_pos_is_pos(
                scale_nanos * (ln_n as int),
                1_000_000_000,
            );
        }
        scale_nanos * (ln_n as u128) / 1_000_000_000
    } else {
        let coarse: u128 = scale_nanos / 1_000_000_000;
        proof {
            vstd::arithmetic::div_mod::lemma_div_nonincreasing(scale_nanos as int, 1_000_000_000);
            vstd::arithmetic::div_mod::lemma_div_pos_is_pos(scale_nanos as int, 1_000_000_000);
            vstd::arithmetic::div_mod::lemma_fundamental_div_mod(scale_nanos as int, 1_000_000_000);
            vstd::arithmetic::div_mod::lemma_mod_bound(scale_nanos as int, 1_000_000_000);
            assert(coarse * (ln_n as int) <= coarse * 28_000_000_000) by (nonlinear_arith)
                requires
                    ln_n as int <= 28_000_000_000,
                    coarse >= 0,
            ;
            assert(coarse * 28_000_000_000 <= 28 * scale_nanos) by (nonlinear_arith)
                requires
                    1_000_000_000 * (coarse as int) <= scale_nanos,
                    coarse >= 0,
            ;
            assert(coarse * (ln_n as int) >= 0) by (nonlinear_arith)
                requires
                    coarse >= 0,
                    ln_n >= 0,
            ;
        }
        coarse * (ln_n as u128)
    };
    if u < 0 {
        -(mag as i128)
    } else {
        mag as i128
    }
}

/// the negated natural logarithm of `x / 10^9`, in nanos, for `x` between 1
/// and 10^9: range reduction by doubling, then a three-term series on the
/// reduced argument
fn neg_ln_nanos(x: u64) -> (r: u64)
    requires
        1 <= x <= 1_000_000_000,
    ensures
        r <= 28_000_000_000,
{
    let s: u128 = 1_000_000_000;
    let mut y: u64 = x;
    let mut e: u64 = 0;
    while y < 500_000_000 && e < 31
        invariant
            1 <= y <= 1_000_000_000,
            e <= 31,
        decreases 31 - e,
    {
        y = y * 2;
        e = e + 1;
    }
    let yw: u128 = y as u128;
    proof {
        assert((s - yw) * s <= (s + yw) * s) by (nonlinear_arith)
            requires
                1 <= yw <= s,
        ;
        vstd::arithmetic::div_mod::lemma_multiply_divide_le(
            ((s - yw) * s) as int,
            (s + yw) as int,
            s as int,
        );
        vstd::arithmetic::div_mod::lemma_div_pos_is_pos(((s - yw) * s) as int, (s + yw) as int);
    }
    let t: u128 = (s - yw) * s / (s + yw);
    proof {
        assert(t * t <= s * s) by (nonlinear_arith)
            requires
                0 <= t <= s,
        ;
        vstd::arithmetic::div_mod::lemma_multiply_divide_le((t * t) as int, s as int, s as int);
        vstd::arithmetic::div_mod::lemma_div_pos_is_pos((t * t) as int, s as int);
    }
    let t2s: u128 = t * t / s;
    proof {
        let si = s as int;
        let ti = t as int;
        let t2si = t2s as int;
        assert(t2si * ti <= si * si) by (nonlinear_arith)
            requires
                0 <= t2si <= si,
                0 <= ti <= si,
        ;
        vstd::arithmetic::div_mod::lemma_multiply_divide_le(t2si * ti, si, si);
        vstd::arithmetic::div_mod::lemma_div_pos_is_pos(t2si * ti, si);
        vstd::arithmetic::div_mod::lemma_div_nonincreasing(t2si * ti / si, 3);
        vstd::arithmetic::div_mod::lemma_div_pos_is_pos(t2si * ti / si, 3);
        assert(t2si * t2si <= si * si) by (nonlinear_arith)
            requires
                0 <= t2si <= si,
        ;
        vstd::arithmetic::div_mod::lemma_multiply_divide_le(t2si * t2si, si, si);
        vstd::arithmetic::div_mod::lemma_div_pos_is_pos(t2si * t2si, si);
        let q = t2si * t2si / si;
        assert(q * ti <= si * si) by (nonlinear_arith)
            requires
                0 <= q <= si,
                0 <= ti <= si,
        ;
        vstd::arithmetic::div_mod::lemma_multiply_divide_le(q * ti, si, si);
        vstd::arithmetic::div_mod::lemma_div_pos_is_pos(q * ti, si);
        vstd::arithmetic::div_mod::lemma_div_nonincreasing(q * ti / si, 5);
        vstd::arithmetic::div_mod::lemma_div_pos_is_pos(q * ti / si, 5);
    }
    let r3: u128 = t2s * t / s / 3;
    let r5: u128 = t2s * t2s / s * t / s / 5;
    let series: u128 = 2 * (t + r3 + r5);
    let ln2_part: u128 = (e as u128) * 693_147_181;
    let total: u128 = ln2_part + series;
    proof {
        assert(ln2_part <= 31 * 693_147_181) by (nonlinear_arith)
            requires
                e <= 31,
                ln2_part == (e as int) * 693_147_181,
        ;
    }
    total as u64
}

} // verus!
