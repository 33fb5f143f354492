use vstd::prelude::*;
use crate::data_manipulation::aggregation::truncate_to_domain;
use crate::runtime::{rand_below, std_normal_nanos};

verus! {

/// The sensitive attribute a record carries: a string or an integer.
#[derive(Clone, PartialEq, Eq, Hash, Debug)]
pub enum SensitiveAttribute {
    Text(String),
    Integer(i32),
}

/// The model of a sensitive attribute: a variant tag, the integer value, and
/// the character sequence. Two attributes with one key are the same value.
pub type SensKey = (int, int, Seq<char>);

/// The whole observable model of a record: its QI list, its sensitive
/// attribute's key and its ingestion timestamp.
pub type RecordModel = (Seq<QuasiIdentifierTypes>, SensKey, u64);

/// The model of a record.
pub open spec fn record_model<A: Anonymizable>(r: A) -> RecordModel {
    (r.qis(), r.sens(), r.ts())
}

/// The model key of a sensitive attribute.
pub open spec fn sens_key(s: SensitiveAttribute) -> SensKey {
    match s {
        SensitiveAttribute::Text(t) => (0int, 0int, t@),
        SensitiveAttribute::Integer(i) => (1int, i as int, Seq::empty()),
    }
}

impl SensitiveAttribute {
    /// compare two sensitive attributes by value
    pub fn same_value(&self, other: &SensitiveAttribute) -> (r: bool)
        ensures
            r == (sens_key(*self) == sens_key(*other)),
    {
        match (self, other) {
            (SensitiveAttribute::Text(x), SensitiveAttribute::Text(y)) => x.eq(y),
            (SensitiveAttribute::Integer(x), SensitiveAttribute::Integer(y)) => *x == *y,
            _ => false,
        }
    }

    /// an owned copy of the attribute
    pub fn duplicate(&self) -> (r: SensitiveAttribute)
        ensures
            r == *self,
    {
        match self {
            SensitiveAttribute::Text(x) => SensitiveAttribute::Text(x.clone()),
            SensitiveAttribute::Integer(x) => SensitiveAttribute::Integer(*x),
        }
    }
}

/// Fixed-point scale: all distance-like quantities are rationals with this
/// denominator ("nanos"), so 1.0 is represented by `SCALE`.
pub const SCALE: u128 = 1_000_000_000;

/// Largest magnitude a QI value, domain bound, rank or code may have.
pub const VAL_BOUND: i64 = 1_000_000_000_000;

/// Largest weight a QI position may carry.
pub const W_BOUND: usize = 1_000_000;

/// Largest number of QI positions a record may have.
pub const QI_LEN_BOUND: usize = 4096;

/// value, min_value, max_value, weight of attribute
pub type IntervalType = (i64, i64, i64, usize);

/// rank, max_rank, weight of attribute
pub type OrdinalType = (i64, i64, usize);

/// value, max value, weight of attribute
pub type NominalType = (i64, i64, usize);

/// Possible quasi identifier data category types
#[derive(Clone, Copy, PartialEq, Eq, Debug)]
pub enum QuasiIdentifierTypes {
    /// value, min_value, max_value, weight of attribute
    Interval(IntervalType),
    /// rank, max_rank, weight of attribute
    Ordinal(OrdinalType),
    /// value, max value, weight of attribute
    Nominal(NominalType),
}

/// The raw numeric value carried by a QI (value, rank, or code).
pub open spec fn qi_value(q: QuasiIdentifierTypes) -> int {
    match q {
        QuasiIdentifierTypes::Interval((v, _, _, _)) => v as int,
        QuasiIdentifierTypes::Ordinal((r, _, _)) => r as int,
        QuasiIdentifierTypes::Nominal((c, _, _)) => c as int,
    }
}

/// The raw `i64` value carried by a QI.
pub open spec fn qi_raw(q: QuasiIdentifierTypes) -> i64 {
    match q {
        QuasiIdentifierTypes::Interval((v, _, _, _)) => v,
        QuasiIdentifierTypes::Ordinal((r, _, _)) => r,
        QuasiIdentifierTypes::Nominal((c, _, _)) => c,
    }
}

/// The weight of a QI position.
pub open spec fn qi_weight(q: QuasiIdentifierTypes) -> int {
    match q {
        QuasiIdentifierTypes::Interval((_, _, _, w)) => w as int,
        QuasiIdentifierTypes::Ordinal((_, _, w)) => w as int,
        QuasiIdentifierTypes::Nominal((_, _, w)) => w as int,
    }
}

/// The shape of a QI: the QI with its value erased. Two QIs of one stream
/// position agree on shape (same variant, domain and weight).
pub open spec fn qi_shape(q: QuasiIdentifierTypes) -> QuasiIdentifierTypes {
    match q {
        QuasiIdentifierTypes::Interval((_, lo, hi, w)) => QuasiIdentifierTypes::Interval(
            (0, lo, hi, w),
        ),
        QuasiIdentifierTypes::Ordinal((_, m, w)) => QuasiIdentifierTypes::Ordinal((0, m, w)),
        QuasiIdentifierTypes::Nominal((_, m, w)) => QuasiIdentifierTypes::Nominal((0, m, w)),
    }
}

/// Well-formedness of a single QI: bounded value, a non-degenerate domain and
/// a positive bounded weight.
pub open spec fn qi_wf(q: QuasiIdentifierTypes) -> bool {
    match q {
        QuasiIdentifierTypes::Interval((v, lo, hi, w)) => {
            &&& -VAL_BOUND <= v <= VAL_BOUND
            &&& -VAL_BOUND <= lo < hi <= VAL_BOUND
            &&& 1 <= w <= W_BOUND
        },
        QuasiIdentifierTypes::Ordinal((r, m, w)) => {
            &&& -VAL_BOUND <= r <= VAL_BOUND
            &&& 2 <= m <= VAL_BOUND
            &&& 1 <= w <= W_BOUND
        },
        QuasiIdentifierTypes::Nominal((c, m, w)) => {
            &&& -VAL_BOUND <= c <= VAL_BOUND
            &&& 0 <= m <= VAL_BOUND
            &&& 1 <= w <= W_BOUND
        },
    }
}

/// Well-formedness of a QI list.
pub open spec fn qis_wf(s: Seq<QuasiIdentifierTypes>) -> bool {
    forall|i: int| 0 <= i < s.len() ==> qi_wf(#[trigger] s[i])
}

/// Two QI lists describe the same stream: equal length and per-position shape.
pub open spec fn same_shape(a: Seq<QuasiIdentifierTypes>, b: Seq<QuasiIdentifierTypes>) -> bool {
    &&& a.len() == b.len()
    &&& forall|i: int| 0 <= i < a.len() ==> qi_shape(#[trigger] a[i]) == qi_shape(#[trigger] b[i])
}

/// The QI value lies inside its own domain: interval values between their
/// bounds, ordinal ranks between 1 and the greatest rank, nominal codes
/// between 0 and the greatest code.
pub open spec fn qi_in_domain(q: QuasiIdentifierTypes) -> bool {
    match q {
        QuasiIdentifierTypes::Interval((v, lo, hi, _)) => lo <= v <= hi,
        QuasiIdentifierTypes::Ordinal((r, m, _)) => 1 <= r <= m,
        QuasiIdentifierTypes::Nominal((c, m, _)) => 0 <= c <= m,
    }
}

/// Every QI of the list lies inside its domain.
pub open spec fn qis_in_domain(s: Seq<QuasiIdentifierTypes>) -> bool {
    forall|i: int| 0 <= i < s.len() ==> qi_in_domain(#[trigger] s[i])
}

/// Upper bound on the scaled distance contribution of one QI position.
pub open spec fn pos_dist_max() -> int {
    W_BOUND * 2 * VAL_BOUND * SCALE
}

/// Scaled distance contribution of one position (already multiplied by the
/// position's weight): interval and ordinal values are normalized by the
/// width of their domain, nominal values contribute all or nothing.
pub open spec fn pos_dist(x: QuasiIdentifierTypes, y: QuasiIdentifierTypes) -> int {
    match (x, y) {
        (
            QuasiIdentifierTypes::Interval((a, lo, hi, w)),
            QuasiIdentifierTypes::Interval((b, _, _, _)),
        ) => (w * abs_diff(a as int, b as int) * SCALE) / (hi - lo),
        (
            QuasiIdentifierTypes::Ordinal((a, m, w)),
            QuasiIdentifierTypes::Ordinal((b, _, _)),
        ) => (w * abs_diff(a as int, b as int) * SCALE) / (m - 1),
        (
            QuasiIdentifierTypes::Nominal((a, _, w)),
            QuasiIdentifierTypes::Nominal((b, _, _)),
        ) => if a == b {
            0
        } else {
            w * SCALE
        },
        _ => 0,
    }
}

/// |a - b| over mathematical integers.
pub open spec fn abs_diff(a: int, b: int) -> int {
    if a >= b {
        a - b
    } else {
        b - a
    }
}

/// Sum of the per-position scaled distances of the first `n` positions.
pub open spec fn dist_sum_to(
    a: Seq<QuasiIdentifierTypes>,
    b: Seq<QuasiIdentifierTypes>,
    n: int,
) -> int
    decreases n,
{
    if n <= 0 {
        0
    } else {
        dist_sum_to(a, b, n - 1) + pos_dist(a[n - 1], b[n - 1])
    }
}

/// Sum of the weights of the first `n` positions.
pub open spec fn weight_sum_to(a: Seq<QuasiIdentifierTypes>, n: int) -> int
    decreases n,
{
    if n <= 0 {
        0
    } else {
        weight_sum_to(a, n - 1) + qi_weight(a[n - 1])
    }
}

/// The weighted normalized distance between two QI lists, scaled by `SCALE`:
/// the sum of the per-position contributions divided by the total weight.
pub open spec fn spec_distance(a: Seq<QuasiIdentifierTypes>, b: Seq<QuasiIdentifierTypes>) -> int {
    dist_sum_to(a, b, a.len() as int) / weight_sum_to(a, a.len() as int)
}

/// Sum of squared differences of the raw values of the first `n` positions.
pub open spec fn info_loss_sum_to(
    a: Seq<QuasiIdentifierTypes>,
    b: Seq<QuasiIdentifierTypes>,
    n: int,
) -> int
    decreases n,
{
    if n <= 0 {
        0
    } else {
        info_loss_sum_to(a, b, n - 1) + (qi_value(a[n - 1]) - qi_value(b[n - 1])) * (qi_value(
            a[n - 1],
        ) - qi_value(b[n - 1]))
    }
}

/// The squared information loss between two QI lists: the exact sum of
/// squared differences of raw values. Its square root is the Euclidean
/// information loss; the square is kept so that the quantity stays an
/// integer, and comparisons order the same way.
pub open spec fn spec_info_loss_sq(
    a: Seq<QuasiIdentifierTypes>,
    b: Seq<QuasiIdentifierTypes>,
) -> int {
    info_loss_sum_to(a, b, a.len() as int)
}

impl QuasiIdentifierTypes {
    /// consume itself and extract the raw value of the quasi identifier
    pub fn extract_value(self) -> (r: i64)
        ensures
            r as int == qi_value(self),
    {
        match self {
            QuasiIdentifierTypes::Interval((value, _, _, _)) => value,
            QuasiIdentifierTypes::Ordinal((value, _, _)) => value,
            QuasiIdentifierTypes::Nominal((value, _, _)) => value,
        }
    }
}

/// One position's weight is at least 1 and at most `W_BOUND`, so the sum over
/// `n` positions lies between `n` and `n * W_BOUND`.
pub proof fn lemma_weight_sum_bounds(a: Seq<QuasiIdentifierTypes>, n: int)
    requires
        qis_wf(a),
        0 <= n <= a.len(),
    ensures
        n <= weight_sum_to(a, n) <= n * W_BOUND,
    decreases n,
{
    if n > 0 {
        lemma_weight_sum_bounds(a, n - 1);
        assert(qi_wf(a[n - 1]));
        assert((n - 1) * W_BOUND + W_BOUND == n * W_BOUND) by (nonlinear_arith);
    }
}

/// Each position contributes a nonnegative amount no larger than
/// `pos_dist_max()`.
pub proof fn lemma_pos_dist_bounds(x: QuasiIdentifierTypes, y: QuasiIdentifierTypes)
    requires
        qi_wf(x),
        qi_wf(y),
        qi_shape(x) == qi_shape(y),
    ensures
        0 <= pos_dist(x, y) <= pos_dist_max(),
{
    match (x, y) {
        (
            QuasiIdentifierTypes::Interval((a, lo, hi, w)),
            QuasiIdentifierTypes::Interval((b, _, _, _)),
        ) => {
            let num = w * abs_diff(a as int, b as int) * SCALE;
            assert(0 <= num <= pos_dist_max()) by (nonlinear_arith)
                requires
                    1 <= w <= W_BOUND,
                    0 <= abs_diff(a as int, b as int) <= 2 * VAL_BOUND,
                    num == w * abs_diff(a as int, b as int) * SCALE,
            ;
            vstd::arithmetic::div_mod::lemma_div_pos_is_pos(num, hi - lo);
            vstd::arithmetic::div_mod::lemma_div_is_ordered_by_denominator(num, 1, hi - lo);
            vstd::arithmetic::div_mod::lemma_div_basics(num);
        },
        (
            QuasiIdentifierTypes::Ordinal((a, m, w)),
            QuasiIdentifierTypes::Ordinal((b, _, _)),
        ) => {
            let num = w * abs_diff(a as int, b as int) * SCALE;
            assert(0 <= num <= pos_dist_max()) by (nonlinear_arith)
                requires
                    1 <= w <= W_BOUND,
                    0 <= abs_diff(a as int, b as int) <= 2 * VAL_BOUND,
                    num == w * abs_diff(a as int, b as int) * SCALE,
            ;
            vstd::arithmetic::div_mod::lemma_div_pos_is_pos(num, m - 1);
            vstd::arithmetic::div_mod::lemma_div_is_ordered_by_denominator(num, 1, m - 1);
            vstd::arithmetic::div_mod::lemma_div_basics(num);
        },
        (
            QuasiIdentifierTypes::Nominal((a, _, w)),
            QuasiIdentifierTypes::Nominal((b, _, _)),
        ) => {
            assert(w * SCALE <= pos_dist_max()) by (nonlinear_arith)
                requires
                    1 <= w <= W_BOUND,
            ;
        },
        _ => {},
    }
}

/// The distance sum over `n` positions lies between 0 and
/// `n * pos_dist_max()`.
pub proof fn lemma_dist_sum_bounds(a: Seq<QuasiIdentifierTypes>, b: Seq<QuasiIdentifierTypes>, n: int)
    requires
        qis_wf(a),
        qis_wf(b),
        same_shape(a, b),
        0 <= n <= a.len(),
    ensures
        0 <= dist_sum_to(a, b, n) <= n * pos_dist_max(),
    decreases n,
{
    if n > 0 {
        lemma_dist_sum_bounds(a, b, n - 1);
        lemma_pos_dist_bounds(a[n - 1], b[n - 1]);
        assert((n - 1) * pos_dist_max() + pos_dist_max() == n * pos_dist_max()) by (nonlinear_arith);
    }
}

/// compute the per-position scaled distance between two QIs of one shape
fn pos_dist_exec(x: &QuasiIdentifierTypes, y: &QuasiIdentifierTypes) -> (r: u128)
    requires
        qi_wf(*x),
        qi_wf(*y),
        qi_shape(*x) == qi_shape(*y),
    ensures
        r as int == pos_dist(*x, *y),
        r as int <= pos_dist_max(),
{
    proof {
        lemma_pos_dist_bounds(*x, *y);
    }
    match (*x, *y) {
        (
            QuasiIdentifierTypes::Interval((a, lo, hi, w)),
            QuasiIdentifierTypes::Interval((b, _, _, _)),
        ) => {
            let d: i64 = if a >= b {
                a - b
            } else {
                b - a
            };
            proof {
                assert(0 <= (w as int) * (d as int) <= 2_000_000_000_000_000_000) by (nonlinear_arith)
                    requires
                        1 <= w as int <= 1_000_000,
                        0 <= d as int <= 2_000_000_000_000,
                ;
            }
            let num: u128 = (w as u128) * (d as u128) * SCALE;
            proof {
                assert(w * (d as int) * SCALE == w * abs_diff(a as int, b as int) * SCALE);
            }
            num / ((hi - lo) as u128)
        },
        (
            QuasiIdentifierTypes::Ordinal((a, m, w)),
            QuasiIdentifierTypes::Ordinal((b, _, _)),
        ) => {
            let d: i64 = if a >= b {
                a - b
            } else {
                b - a
            };
            proof {
                assert(0 <= (w as int) * (d as int) <= 2_000_000_000_000_000_000) by (nonlinear_arith)
                    requires
                        1 <= w as int <= 1_000_000,
                        0 <= d as int <= 2_000_000_000_000,
                ;
            }
            let num: u128 = (w as u128) * (d as u128) * SCALE;
            proof {
                assert(w * (d as int) * SCALE == w * abs_diff(a as int, b as int) * SCALE);
            }
            num / ((m - 1) as u128)
        },
        (
            QuasiIdentifierTypes::Nominal((a, _, w)),
            QuasiIdentifierTypes::Nominal((b, _, _)),
        ) => {
            if a == b {
                0
            } else {
                (w as u128) * SCALE
            }
        },
        _ => 0,
    }
}

/// compare 2 QI lists and return the weighted normalized distance between
/// them, scaled by `SCALE`
pub fn calculate_difference_qis(
    a: &Vec<QuasiIdentifierTypes>,
    b: &Vec<QuasiIdentifierTypes>,
) -> (r: u128)
    requires
        qis_wf(a@),
        qis_wf(b@),
        same_shape(a@, b@),
        1 <= a@.len() <= QI_LEN_BOUND,
    ensures
        r as int == spec_distance(a@, b@),
{
    let n = a.len();
    let mut sum: u128 = 0;
    let mut wsum: u128 = 0;
    let mut i: usize = 0;
    while i < n
        invariant
            qis_wf(a@),
            qis_wf(b@),
            same_shape(a@, b@),
            1 <= n <= QI_LEN_BOUND,
            n == a@.len(),
            0 <= i <= n,
            sum as int == dist_sum_to(a@, b@, i as int),
            wsum as int == weight_sum_to(a@, i as int),
        decreases n - i,
    {
        proof {
            lemma_dist_sum_bounds(a@, b@, i as int);
            lemma_weight_sum_bounds(a@, i as int);
            lemma_pos_dist_bounds(a@[i as int], b@[i as int]);
            assert(i * pos_dist_max() <= QI_LEN_BOUND * pos_dist_max()) by (nonlinear_arith)
                requires
                    0 <= i <= QI_LEN_BOUND,
            ;
            assert(i * W_BOUND <= QI_LEN_BOUND * W_BOUND) by (nonlinear_arith)
                requires
                    0 <= i <= QI_LEN_BOUND,
            ;
        }
        let pd = pos_dist_exec(&a[i], &b[i]);
        sum = sum + pd;
        let w: usize = match a[i] {
            QuasiIdentifierTypes::Interval((_, _, _, w)) => w,
            QuasiIdentifierTypes::Ordinal((_, _, w)) => w,
            QuasiIdentifierTypes::Nominal((_, _, w)) => w,
        };
        wsum = wsum + w as u128;
        i = i + 1;
    }
    proof {
        lemma_weight_sum_bounds(a@, n as int);
    }
    sum / wsum
}

/// calculate the squared information loss between 2 QI lists
pub fn calculate_info_loss_qis(
    a: &Vec<QuasiIdentifierTypes>,
    b: &Vec<QuasiIdentifierTypes>,
) -> (r: u128)
    requires
        qis_wf(a@),
        qis_wf(b@),
        a@.len() == b@.len(),
        a@.len() <= QI_LEN_BOUND,
    ensures
        r as int == spec_info_loss_sq(a@, b@),
{
    let n = a.len();
    let mut sum: u128 = 0;
    let mut i: usize = 0;
    while i < n
        invariant
            qis_wf(a@),
            qis_wf(b@),
            n == a@.len(),
            a@.len() == b@.len(),
            n <= QI_LEN_BOUND,
            0 <= i <= n,
            sum as int == info_loss_sum_to(a@, b@, i as int),
        decreases n - i,
    {
        proof {
            lemma_info_loss_sum_bounds(a@, b@, i as int);
            assert(i * sq_max() <= QI_LEN_BOUND * sq_max()) by (nonlinear_arith)
                requires
                    0 <= i <= QI_LEN_BOUND,
            ;
        }
        let va = a[i].extract_value();
        let vb = b[i].extract_value();
        let d: i64 = if va >= vb {
            va - vb
        } else {
            vb - va
        };
        proof {
            assert(qi_wf(a@[i as int]));
            assert(qi_wf(b@[i as int]));
            let dv = qi_value(a@[i as int]) - qi_value(b@[i as int]);
            assert((d as int) * (d as int) == dv * dv) by (nonlinear_arith)
                requires
                    d as int == abs_diff(qi_value(a@[i as int]), qi_value(b@[i as int])),
                    dv == qi_value(a@[i as int]) - qi_value(b@[i as int]),
            ;
            assert((d as int) * (d as int) <= sq_max()) by (nonlinear_arith)
                requires
                    0 <= d as int <= 2 * VAL_BOUND,
            ;
        }
        sum = sum + (d as u128) * (d as u128);
        i = i + 1;
    }
    sum
}

/// Upper bound on one squared value difference.
pub open spec fn sq_max() -> int {
    4 * VAL_BOUND * VAL_BOUND
}

/// A QI is at distance zero from itself.
pub proof fn lemma_pos_dist_self(x: QuasiIdentifierTypes)
    requires
        qi_wf(x),
    ensures
        pos_dist(x, x) == 0,
{
    match x {
        QuasiIdentifierTypes::Interval((a, lo, hi, w)) => {
            assert(w * abs_diff(a as int, a as int) * SCALE == 0);
            vstd::arithmetic::div_mod::lemma_div_of0(hi - lo);
        },
        QuasiIdentifierTypes::Ordinal((a, m, w)) => {
            assert(w * abs_diff(a as int, a as int) * SCALE == 0);
            vstd::arithmetic::div_mod::lemma_div_of0(m - 1);
        },
        QuasiIdentifierTypes::Nominal((a, m, w)) => {},
    }
}

/// The per-position distance does not depend on the order of its arguments.
pub proof fn lemma_pos_dist_sym(x: QuasiIdentifierTypes, y: QuasiIdentifierTypes)
    requires
        qi_shape(x) == qi_shape(y),
    ensures
        pos_dist(x, y) == pos_dist(y, x),
{
}

/// The distance of every QI list to itself is zero.
pub proof fn lemma_distance_self_zero(a: Seq<QuasiIdentifierTypes>)
    requires
        qis_wf(a),
        a.len() >= 1,
    ensures
        spec_distance(a, a) == 0,
{
    assert forall|n: int| 0 <= n <= a.len() implies dist_sum_to(a, a, n) == 0 by {
        lemma_dist_sum_self_zero(a, n);
    }
    lemma_weight_sum_bounds(a, a.len() as int);
    vstd::arithmetic::div_mod::lemma_div_of0(weight_sum_to(a, a.len() as int));
}

proof fn lemma_dist_sum_self_zero(a: Seq<QuasiIdentifierTypes>, n: int)
    requires
        qis_wf(a),
        0 <= n <= a.len(),
    ensures
        dist_sum_to(a, a, n) == 0,
    decreases n,
{
    if n > 0 {
        lemma_dist_sum_self_zero(a, n - 1);
        lemma_pos_dist_self(a[n - 1]);
    }
}

/// The distance between two QI lists does not depend on the order of its
/// arguments.
pub proof fn lemma_distance_sym(a: Seq<QuasiIdentifierTypes>, b: Seq<QuasiIdentifierTypes>)
    requires
        same_shape(a, b),
    ensures
        spec_distance(a, b) == spec_distance(b, a),
{
    lemma_dist_sum_sym(a, b, a.len() as int);
    lemma_weight_sum_shape(a, b, a.len() as int);
}

proof fn lemma_dist_sum_sym(a: Seq<QuasiIdentifierTypes>, b: Seq<QuasiIdentifierTypes>, n: int)
    requires
        same_shape(a, b),
        0 <= n <= a.len(),
    ensures
        dist_sum_to(a, b, n) == dist_sum_to(b, a, n),
    decreases n,
{
    if n > 0 {
        lemma_dist_sum_sym(a, b, n - 1);
        lemma_pos_dist_sym(a[n - 1], b[n - 1]);
    }
}

/// Lists of one shape have one total weight.
proof fn lemma_weight_sum_shape(a: Seq<QuasiIdentifierTypes>, b: Seq<QuasiIdentifierTypes>, n: int)
    requires
        same_shape(a, b),
        0 <= n <= a.len(),
    ensures
        weight_sum_to(a, n) == weight_sum_to(b, n),
    decreases n,
{
    if n > 0 {
        lemma_weight_sum_shape(a, b, n - 1);
        assert(qi_shape(a[n - 1]) == qi_shape(b[n - 1]));
    }
}

/// Within its domain a position contributes at most its weight's worth of
/// distance.
proof fn lemma_pos_dist_domain_bound(x: QuasiIdentifierTypes, y: QuasiIdentifierTypes)
    requires
        qi_wf(x),
        qi_wf(y),
        qi_shape(x) == qi_shape(y),
        qi_in_domain(x),
        qi_in_domain(y),
    ensures
        0 <= pos_dist(x, y) <= qi_weight(x) * SCALE,
{
    lemma_pos_dist_bounds(x, y);
    match (x, y) {
        (
            QuasiIdentifierTypes::Interval((a, lo, hi, w)),
            QuasiIdentifierTypes::Interval((b, _, _, _)),
        ) => {
            let num = w * abs_diff(a as int, b as int) * SCALE;
            assert(num <= (hi - lo) * (w * SCALE)) by (nonlinear_arith)
                requires
                    0 <= abs_diff(a as int, b as int) <= hi - lo,
                    w >= 1,
                    num == w * abs_diff(a as int, b as int) * SCALE,
            ;
            vstd::arithmetic::div_mod::lemma_div_is_ordered(num, (hi - lo) * (w * SCALE), hi - lo);
            vstd::arithmetic::div_mod::lemma_div_multiples_vanish(w * SCALE, hi - lo);
        },
        (
            QuasiIdentifierTypes::Ordinal((a, m, w)),
            QuasiIdentifierTypes::Ordinal((b, _, _)),
        ) => {
            let num = w * abs_diff(a as int, b as int) * SCALE;
            assert(num <= (m - 1) * (w * SCALE)) by (nonlinear_arith)
                requires
                    0 <= abs_diff(a as int, b as int) <= m - 1,
                    w >= 1,
                    num == w * abs_diff(a as int, b as int) * SCALE,
            ;
            vstd::arithmetic::div_mod::lemma_div_is_ordered(num, (m - 1) * (w * SCALE), m - 1);
            vstd::arithmetic::div_mod::lemma_div_multiples_vanish(w * SCALE, m - 1);
        },
        _ => {},
    }
}

proof fn lemma_dist_sum_domain_bound(
    a: Seq<QuasiIdentifierTypes>,
    b: Seq<QuasiIdentifierTypes>,
    n: int,
)
    requires
        qis_wf(a),
        qis_wf(b),
        same_shape(a, b),
        qis_in_domain(a),
        qis_in_domain(b),
        0 <= n <= a.len(),
    ensures
        0 <= dist_sum_to(a, b, n) <= weight_sum_to(a, n) * SCALE,
    decreases n,
{
    if n > 0 {
        lemma_dist_sum_domain_bound(a, b, n - 1);
        lemma_pos_dist_domain_bound(a[n - 1], b[n - 1]);
        assert(weight_sum_to(a, n - 1) * SCALE + qi_weight(a[n - 1]) * SCALE == weight_sum_to(
            a,
            n,
        ) * SCALE) by (nonlinear_arith)
            requires
                weight_sum_to(a, n) == weight_sum_to(a, n - 1) + qi_weight(a[n - 1]),
        ;
    } else {
        lemma_weight_sum_bounds(a, 0);
    }
}

/// Between records whose QIs all lie within their domains, the scaled
/// distance never exceeds `SCALE`: the normalized distance is at most 1.
pub proof fn lemma_distance_unit_bound(a: Seq<QuasiIdentifierTypes>, b: Seq<QuasiIdentifierTypes>)
    requires
        qis_wf(a),
        qis_wf(b),
        same_shape(a, b),
        qis_in_domain(a),
        qis_in_domain(b),
        a.len() >= 1,
    ensures
        0 <= spec_distance(a, b) <= SCALE,
{
    let n = a.len() as int;
    lemma_dist_sum_domain_bound(a, b, n);
    lemma_weight_sum_bounds(a, n);
    let wsum = weight_sum_to(a, n);
    vstd::arithmetic::div_mod::lemma_div_pos_is_pos(dist_sum_to(a, b, n), wsum);
    assert(wsum * SCALE == wsum * (SCALE as int)) by (nonlinear_arith);
    vstd::arithmetic::div_mod::lemma_div_is_ordered(dist_sum_to(a, b, n), wsum * (SCALE as int), wsum);
    vstd::arithmetic::div_mod::lemma_div_multiples_vanish(SCALE as int, wsum);
}

/// The squared information loss is never negative.
pub proof fn lemma_info_loss_nonneg(a: Seq<QuasiIdentifierTypes>, b: Seq<QuasiIdentifierTypes>)
    requires
        qis_wf(a),
        qis_wf(b),
        a.len() == b.len(),
    ensures
        spec_info_loss_sq(a, b) >= 0,
{
    lemma_info_loss_sum_bounds(a, b, a.len() as int);
}

/// The shapes of a QI list, position by position.
pub open spec fn shape_seq(s: Seq<QuasiIdentifierTypes>) -> Seq<QuasiIdentifierTypes> {
    s.map_values(|q: QuasiIdentifierTypes| qi_shape(q))
}

/// An ordinal or nominal QI carries a value among its known codes; an
/// interval QI may carry any bounded value.
pub open spec fn qi_cat_ok(q: QuasiIdentifierTypes) -> bool {
    match q {
        QuasiIdentifierTypes::Interval(_) => true,
        QuasiIdentifierTypes::Ordinal((r, m, _)) => 0 <= r <= m,
        QuasiIdentifierTypes::Nominal((c, m, _)) => 0 <= c <= m,
    }
}

/// Every categorical QI of the list carries a known code.
pub open spec fn qis_cat_ok(s: Seq<QuasiIdentifierTypes>) -> bool {
    forall|i: int| 0 <= i < s.len() ==> qi_cat_ok(#[trigger] s[i])
}

/// The QI with its value replaced by `v`.
pub open spec fn qi_with_value(q: QuasiIdentifierTypes, v: i64) -> QuasiIdentifierTypes {
    match q {
        QuasiIdentifierTypes::Interval((_, lo, hi, w)) => QuasiIdentifierTypes::Interval(
            (v, lo, hi, w),
        ),
        QuasiIdentifierTypes::Ordinal((_, m, w)) => QuasiIdentifierTypes::Ordinal((v, m, w)),
        QuasiIdentifierTypes::Nominal((_, m, w)) => QuasiIdentifierTypes::Nominal((v, m, w)),
    }
}

/// The given QI may replace the current one: same variant, and a value a
/// record can take back (bounded for an interval, a known code for an
/// ordinal or nominal position).
pub open spec fn qi_update_ok(cur: QuasiIdentifierTypes, given: QuasiIdentifierTypes) -> bool {
    match (cur, given) {
        (QuasiIdentifierTypes::Interval(_), QuasiIdentifierTypes::Interval((v, _, _, _))) =>
            -VAL_BOUND <= v <= VAL_BOUND,
        (
            QuasiIdentifierTypes::Ordinal((_, m, _)),
            QuasiIdentifierTypes::Ordinal((r, _, _)),
        ) => 0 <= r <= m,
        (
            QuasiIdentifierTypes::Nominal((_, m, _)),
            QuasiIdentifierTypes::Nominal((c, _, _)),
        ) => 0 <= c <= m,
        _ => false,
    }
}

/// The given QI list may replace the current one, position by position.
pub open spec fn update_ok(cur: Seq<QuasiIdentifierTypes>, given: Seq<QuasiIdentifierTypes>) -> bool {
    &&& cur.len() == given.len()
    &&& forall|i: int| 0 <= i < cur.len() ==> qi_update_ok(cur[i], #[trigger] given[i])
}

/// The current QI list with its values replaced by the given list's values,
/// position by position; domains and weights stay the current ones.
pub open spec fn updated_qis(
    cur: Seq<QuasiIdentifierTypes>,
    given: Seq<QuasiIdentifierTypes>,
) -> Seq<QuasiIdentifierTypes> {
    Seq::new(cur.len(), |i: int| qi_with_value(cur[i], qi_raw(given[i])))
}

/// Replacing a QI list's values by its own values is the identity. Together
/// with the contract of `Anonymizable::update_quasi_identifiers` this is the
/// round-trip law: updating a record with its own quasi-identifiers
/// preserves the record's whole model.
pub proof fn lemma_update_qis_round_trip(s: Seq<QuasiIdentifierTypes>)
    ensures
        updated_qis(s, s) == s,
{
    assert(updated_qis(s, s) =~= s);
}

/// A randomized QI lies in its randomization range: an interval value inside
/// its domain, an ordinal rank or nominal code between 0 and its maximum.
pub open spec fn qi_in_randomized_range(q: QuasiIdentifierTypes) -> bool {
    match q {
        QuasiIdentifierTypes::Interval((v, lo, hi, _)) => lo <= v <= hi,
        QuasiIdentifierTypes::Ordinal((r, m, _)) => 0 <= r <= m,
        QuasiIdentifierTypes::Nominal((c, m, _)) => 0 <= c <= m,
    }
}

impl QuasiIdentifierTypes {
    /// replace the QI's value by a random one from its domain: an interval
    /// value is perturbed by rounded standard-normal noise and clamped to
    /// its domain, an ordinal rank or nominal code is drawn uniformly
    pub fn randomize(self) -> (r: QuasiIdentifierTypes)
        requires
            qi_wf(self),
        ensures
            qi_wf(r),
            qi_shape(r) == qi_shape(self),
            qi_in_randomized_range(r),
    {
        match self {
            QuasiIdentifierTypes::Interval((value, min, max, weight)) => {
                let e = std_normal_nanos();
                let off: i64 = if e >= 0 {
                    ((e as u64) / 1_000_000_000) as i64
                } else {
                    -((((-e) as u64) / 1_000_000_000) as i64)
                };
                QuasiIdentifierTypes::Interval(
                    (truncate_to_domain(value + off, min, max), min, max, weight),
                )
            },
            QuasiIdentifierTypes::Ordinal((_, max_rank, weight)) => {
                let random_ordinal_qi = rand_below((max_rank as u64) + 1) as i64;
                QuasiIdentifierTypes::Ordinal((random_ordinal_qi, max_rank, weight))
            },
            QuasiIdentifierTypes::Nominal((_, max_value, weight)) => {
                let random_nominal_qi = rand_below((max_value as u64) + 1) as i64;
                QuasiIdentifierTypes::Nominal((random_nominal_qi, max_value, weight))
            },
        }
    }
}

/// The role of this trait is to create a generic way of making sure that a
/// record type can be anonymized by the engine: it exposes a fixed list of
/// quasi-identifiers, replaces them, and exposes one sensitive attribute and
/// an ingestion timestamp. Every implementation fixes one QI shape for the
/// whole stream of its records.
pub trait Anonymizable: Sized {
    /// The record's QI list, as a mathematical sequence.
    spec fn qis(&self) -> Seq<QuasiIdentifierTypes>;

    /// The model of the record's sensitive attribute.
    spec fn sens(&self) -> SensKey;

    /// The record's ingestion timestamp, in nanoseconds.
    spec fn ts(&self) -> u64;

    /// Record well-formedness.
    spec fn wf(&self) -> bool;

    /// The QI shape every well-formed record of this type carries.
    spec fn shape() -> Seq<QuasiIdentifierTypes>;

    /// A well-formed record carries a well-formed, non-empty, bounded QI
    /// list of the type's one fixed shape, whose categorical values are
    /// known codes.
    proof fn lemma_wf_qis(&self)
        requires
            self.wf(),
        ensures
            qis_wf(self.qis()),
            1 <= self.qis().len() <= QI_LEN_BOUND,
            shape_seq(self.qis()) == Self::shape(),
            qis_cat_ok(self.qis()),
    ;

    /// return the values of the quasi identifiers of the record
    fn quasi_identifiers(&self) -> (r: Vec<QuasiIdentifierTypes>)
        requires
            self.wf(),
        ensures
            r@ == self.qis(),
    ;

    /// return a copy of the record with its quasi identifier values replaced
    /// by the given list's values, position by position; every other part of
    /// the record is preserved
    fn update_quasi_identifiers(&self, qi: Vec<QuasiIdentifierTypes>) -> (r: Self)
        requires
            self.wf(),
            update_ok(self.qis(), qi@),
        ensures
            r.wf(),
            r.qis() == updated_qis(self.qis(), qi@),
            r.sens() == self.sens(),
            r.ts() == self.ts(),
    ;

    /// return a copy of the sensitive attribute of the record
    fn sensitive_value(&self) -> (r: SensitiveAttribute)
        requires
            self.wf(),
        ensures
            sens_key(r) == self.sens(),
    ;

    /// get the timestamp at which the record entered the algorithm
    fn get_timestamp(&self) -> (r: u64)
        ensures
            r == self.ts(),
    ;

    /// extract all the values in string format to be used for creating CSV
    fn extract_string_values(&self, uuid: u128, dr_nanos: u64) -> Vec<String>;

    /// a fresh blank record
    fn blank() -> (r: Self)
        ensures
            r.wf(),
    ;

    /// an owned copy of the record, preserving its whole model
    fn duplicate(&self) -> (r: Self)
        requires
            self.wf(),
        ensures
            r.wf(),
            r.qis() == self.qis(),
            r.sens() == self.sens(),
            r.ts() == self.ts(),
    ;

    /// compare 2 records and return their weighted normalized distance,
    /// scaled by `SCALE`
    fn calculate_difference(&self, other: &Self) -> (r: u128)
        requires
            self.wf(),
            other.wf(),
        ensures
            r as int == spec_distance(self.qis(), other.qis()),
    {
        proof {
            self.lemma_wf_qis();
            other.lemma_wf_qis();
        }
        let a = self.quasi_identifiers();
        let b = other.quasi_identifiers();
        proof {
            lemma_shape_seq_same_shape(a@, b@);
        }
        calculate_difference_qis(&a, &b)
    }

    /// calculate the squared information loss between 2 records
    fn calculate_info_loss(&self, other: &Self) -> (r: u128)
        requires
            self.wf(),
            other.wf(),
        ensures
            r as int == spec_info_loss_sq(self.qis(), other.qis()),
    {
        proof {
            self.lemma_wf_qis();
            other.lemma_wf_qis();
        }
        let a = self.quasi_identifiers();
        let b = other.quasi_identifiers();
        proof {
            lemma_shape_seq_same_shape(a@, b@);
        }
        calculate_info_loss_qis(&a, &b)
    }

    /// suppress the record: replace every quasi identifier by a random value
    /// of its domain, preserving the rest of the record
    fn suppress(&self) -> (r: Self)
        requires
            self.wf(),
        ensures
            r.wf(),
            r.sens() == self.sens(),
            r.ts() == self.ts(),
            r.qis().len() == self.qis().len(),
            shape_seq(r.qis()) == shape_seq(self.qis()),
            forall|i: int| 0 <= i < r.qis().len() ==> qi_in_randomized_range(#[trigger] r.qis()[i]),
    {
        proof {
            self.lemma_wf_qis();
        }
        let qis = self.quasi_identifiers();
        let n = qis.len();
        let mut suppressed: Vec<QuasiIdentifierTypes> = Vec::new();
        let mut i: usize = 0;
        while i < n
            invariant
                qis_wf(qis@),
                n == qis@.len(),
                0 <= i <= n,
                suppressed@.len() == i,
                forall|j: int|
                    0 <= j < i ==> qi_shape(#[trigger] suppressed@[j]) == qi_shape(qis@[j]),
                forall|j: int| 0 <= j < i ==> qi_in_randomized_range(#[trigger] suppressed@[j]),
            decreases n - i,
        {
            let q = qis[i];
            suppressed.push(q.randomize());
            i = i + 1;
        }
        proof {
            assert forall|j: int| 0 <= j < self.qis().len() implies qi_update_ok(
                self.qis()[j],
                #[trigger] suppressed@[j],
            ) by {
                assert(qi_shape(suppressed@[j]) == qi_shape(self.qis()[j]));
                assert(qi_in_randomized_range(suppressed@[j]));
                assert(qi_wf(self.qis()[j]));
            }
            assert(update_ok(self.qis(), suppressed@));
        }
        let r = self.update_quasi_identifiers(suppressed);
        proof {
            assert forall|j: int| 0 <= j < r.qis().len() implies qi_shape(#[trigger] r.qis()[j])
                == qi_shape(self.qis()[j]) && qi_in_randomized_range(r.qis()[j]) by {
                assert(r.qis()[j] == qi_with_value(self.qis()[j], qi_raw(suppressed@[j])));
                assert(qi_shape(suppressed@[j]) == qi_shape(self.qis()[j]));
                assert(qi_in_randomized_range(suppressed@[j]));
            }
            assert(shape_seq(r.qis()) =~= shape_seq(self.qis()));
        }
        r
    }
}

/// A shape is its own shape.
pub proof fn lemma_shape_seq_idempotent(s: Seq<QuasiIdentifierTypes>)
    ensures
        shape_seq(shape_seq(s)) == shape_seq(s),
{
    assert(shape_seq(shape_seq(s)) =~= shape_seq(s)) by {
        assert forall|i: int| 0 <= i < s.len() implies shape_seq(shape_seq(s))[i] == shape_seq(
            s,
        )[i] by {
            assert(shape_seq(s)[i] == qi_shape(s[i]));
            assert(shape_seq(shape_seq(s))[i] == qi_shape(shape_seq(s)[i]));
        }
    }
}

/// Lists whose shape sequences agree are lists of one shape.
pub proof fn lemma_shape_seq_same_shape(a: Seq<QuasiIdentifierTypes>, b: Seq<QuasiIdentifierTypes>)
    requires
        shape_seq(a) == shape_seq(b),
    ensures
        same_shape(a, b),
{
    assert(a.len() == shape_seq(a).len());
    assert(b.len() == shape_seq(b).len());
    assert forall|i: int| 0 <= i < a.len() implies qi_shape(#[trigger] a[i]) == qi_shape(b[i]) by {
        assert(shape_seq(a)[i] == qi_shape(a[i]));
        assert(shape_seq(b)[i] == qi_shape(b[i]));
    }
}

/// The squared-difference sum over `n` positions lies between 0 and
/// `n * sq_max()`.
pub proof fn lemma_info_loss_sum_bounds(
    a: Seq<QuasiIdentifierTypes>,
    b: Seq<QuasiIdentifierTypes>,
    n: int,
)
    requires
        qis_wf(a),
        qis_wf(b),
        0 <= n <= a.len(),
        n <= b.len(),
    ensures
        0 <= info_loss_sum_to(a, b, n) <= n * sq_max(),
    decreases n,
{
    if n > 0 {
        lemma_info_loss_sum_bounds(a, b, n - 1);
        assert(qi_wf(a[n - 1]));
        assert(qi_wf(b[n - 1]));
        let dv = qi_value(a[n - 1]) - qi_value(b[n - 1]);
        assert(0 <= dv * dv <= sq_max()) by (nonlinear_arith)
            requires
                -2 * VAL_BOUND <= dv <= 2 * VAL_BOUND,
        ;
        assert((n - 1) * sq_max() + sq_max() == n * sq_max()) by (nonlinear_arith);
    }
}

} // verus!
