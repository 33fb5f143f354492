use vstd::prelude::*;
use crate::data_manipulation::anonymizable::{
    qi_raw, qi_shape, qi_value, qi_wf, qis_wf, QuasiIdentifierTypes, VAL_BOUND,
};

verus! {

/// Aggregation strategies over a list of QIs of one stream position.
pub enum AggregateType {
    Mean(Vec<QuasiIdentifierTypes>),
    Mode(Vec<QuasiIdentifierTypes>),
}

/// The raw values of a QI list, position by position.
pub open spec fn raw_values(s: Seq<QuasiIdentifierTypes>) -> Seq<i64> {
    s.map_values(|q: QuasiIdentifierTypes| qi_raw(q))
}

/// All QIs of the list share the shape of the first.
pub open spec fn uniform_shape(s: Seq<QuasiIdentifierTypes>) -> bool {
    forall|i: int| 0 <= i < s.len() ==> qi_shape(#[trigger] s[i]) == qi_shape(s[0])
}

/// Sum of the raw values of the first `n` positions.
pub open spec fn sum_raw_to(s: Seq<QuasiIdentifierTypes>, n: int) -> int
    decreases n,
{
    if n <= 0 {
        0
    } else {
        sum_raw_to(s, n - 1) + qi_value(s[n - 1])
    }
}

/// Division truncating toward zero, as the executable `/` of the machine does.
pub open spec fn div_trunc(a: int, n: int) -> int {
    if a >= 0 {
        a / n
    } else {
        -((-a) / n)
    }
}

/// How many of the first `n` elements equal `v`.
pub open spec fn count_to(s: Seq<i64>, v: i64, n: int) -> int
    decreases n,
{
    if n <= 0 {
        0
    } else {
        count_to(s, v, n - 1) + if s[n - 1] == v {
            1int
        } else {
            0int
        }
    }
}

/// How many elements of `s` equal `v`.
pub open spec fn count_val(s: Seq<i64>, v: i64) -> int {
    count_to(s, v, s.len() as int)
}

/// `c` is the mode of `s` with ties broken by the smallest value: `c` occurs
/// in `s`, no value occurs more often, and no smaller value occurs as often.
pub open spec fn is_min_mode(s: Seq<i64>, c: i64) -> bool {
    &&& s.contains(c)
    &&& forall|d: i64| #[trigger] s.contains(d) ==> count_val(s, d) <= count_val(s, c)
    &&& forall|d: i64|
        #[trigger] s.contains(d) && count_val(s, d) == count_val(s, c) ==> c <= d
}

/// The mode of `s` with ties broken by the smallest value.
pub open spec fn mode_spec(s: Seq<i64>) -> i64 {
    choose|c: i64| is_min_mode(s, c)
}

/// The aggregation of a non-empty list of QIs of one shape: the truncated
/// mean of the values for an interval, the smallest-code mode for an ordinal
/// or nominal. The domain and weight are inherited from the list.
pub open spec fn spec_aggregate(s: Seq<QuasiIdentifierTypes>) -> QuasiIdentifierTypes {
    match s[0] {
        QuasiIdentifierTypes::Interval((_, lo, hi, w)) => QuasiIdentifierTypes::Interval(
            (div_trunc(sum_raw_to(s, s.len() as int), s.len() as int) as i64, lo, hi, w),
        ),
        QuasiIdentifierTypes::Ordinal((_, m, w)) => QuasiIdentifierTypes::Ordinal(
            (mode_spec(raw_values(s)), m, w),
        ),
        QuasiIdentifierTypes::Nominal((_, m, w)) => QuasiIdentifierTypes::Nominal(
            (mode_spec(raw_values(s)), m, w),
        ),
    }
}

/// The arguments under an `AggregateType`.
pub open spec fn agg_list(a: AggregateType) -> Seq<QuasiIdentifierTypes> {
    match a {
        AggregateType::Mean(l) => l@,
        AggregateType::Mode(l) => l@,
    }
}

/// The list under an `AggregateType` is fit for its strategy: non-empty,
/// well formed, of one shape, and of the matching variant.
pub open spec fn agg_ok(a: AggregateType) -> bool {
    &&& agg_list(a).len() >= 1
    &&& qis_wf(agg_list(a))
    &&& uniform_shape(agg_list(a))
    &&& match a {
        AggregateType::Mean(l) => l@[0] is Interval,
        AggregateType::Mode(l) => l@[0] is Ordinal || l@[0] is Nominal,
    }
}

/// There is at most one smallest-value mode.
pub proof fn lemma_min_mode_unique(s: Seq<i64>, c1: i64, c2: i64)
    requires
        is_min_mode(s, c1),
        is_min_mode(s, c2),
    ensures
        c1 == c2,
{
    assert(count_val(s, c1) <= count_val(s, c2));
    assert(count_val(s, c2) <= count_val(s, c1));
    assert(c1 <= c2);
    assert(c2 <= c1);
}

/// The sum of `n` well-formed raw values is bounded by `n * VAL_BOUND`.
pub proof fn lemma_sum_raw_bounds(s: Seq<QuasiIdentifierTypes>, n: int)
    requires
        qis_wf(s),
        0 <= n <= s.len(),
    ensures
        -(n * VAL_BOUND) <= sum_raw_to(s, n) <= n * VAL_BOUND,
    decreases n,
{
    if n > 0 {
        lemma_sum_raw_bounds(s, n - 1);
        assert(qi_wf(s[n - 1]));
        assert((n - 1) * VAL_BOUND + VAL_BOUND == n * VAL_BOUND) by (nonlinear_arith);
    }
}

/// A truncated mean of values bounded by `v` is itself bounded by `v`.
pub proof fn lemma_div_trunc_bound(a: int, n: int, v: int)
    requires
        n >= 1,
        v >= 0,
        -(n * v) <= a <= n * v,
    ensures
        -v <= div_trunc(a, n) <= v,
{
    if a >= 0 {
        vstd::arithmetic::div_mod::lemma_div_pos_is_pos(a, n);
        vstd::arithmetic::div_mod::lemma_div_is_ordered(a, n * v, n);
        vstd::arithmetic::div_mod::lemma_div_multiples_vanish(v, n);
    } else {
        vstd::arithmetic::div_mod::lemma_div_pos_is_pos(-a, n);
        vstd::arithmetic::div_mod::lemma_div_is_ordered(-a, n * v, n);
        vstd::arithmetic::div_mod::lemma_div_multiples_vanish(v, n);
    }
}

/// check if the value that was randomly generated is contained within its
/// domain, clamping it to the nearer bound when it is not
pub fn truncate_to_domain(value: i64, min: i64, max: i64) -> (r: i64)
    ensures
        r as int == spec_clamp(value as int, min as int, max as int),
{
    if value <= min {
        min
    } else if value >= max {
        max
    } else {
        value
    }
}

/// Clamping to `[lo, hi]`: a value at or below `lo` becomes `lo`, a value at
/// or above `hi` becomes `hi`, anything between stays.
pub open spec fn spec_clamp(v: int, lo: int, hi: int) -> int {
    if v <= lo {
        lo
    } else if v >= hi {
        hi
    } else {
        v
    }
}

/// Clamping a second time changes nothing: clamping is idempotent on any
/// ordered domain.
pub proof fn lemma_clamp_idempotent(v: int, lo: int, hi: int)
    requires
        lo <= hi,
    ensures
        spec_clamp(spec_clamp(v, lo, hi), lo, hi) == spec_clamp(v, lo, hi),
{
}

/// Aggregating a single QI gives that QI back.
pub proof fn lemma_aggregate_singleton(q: QuasiIdentifierTypes)
    requires
        qi_wf(q),
    ensures
        spec_aggregate(seq![q]) == q,
{
    let s = seq![q];
    assert(raw_values(s).len() == 1);
    assert(raw_values(s)[0] == qi_raw(q));
    assert(raw_values(s).contains(qi_raw(q))) by {
        assert(raw_values(s)[0] == qi_raw(q));
    }
    assert forall|d: i64| #[trigger] raw_values(s).contains(d) implies d == qi_raw(q) by {
        let j = choose|j: int| 0 <= j < raw_values(s).len() && raw_values(s)[j] == d;
        assert(j == 0);
    }
    assert(is_min_mode(raw_values(s), qi_raw(q)));
    assert(mode_spec(raw_values(s)) == qi_raw(q)) by {
        lemma_min_mode_unique(raw_values(s), mode_spec(raw_values(s)), qi_raw(q));
    }
    assert(s[0] == q);
    assert(sum_raw_to(s, 0) == 0);
    assert(sum_raw_to(s, 1) == qi_value(q));
    match q {
        QuasiIdentifierTypes::Interval((v, lo, hi, w)) => {
            if v >= 0 {
                vstd::arithmetic::div_mod::lemma_div_basics(v as int);
            } else {
                vstd::arithmetic::div_mod::lemma_div_basics(-(v as int));
            }
            assert(div_trunc(sum_raw_to(s, 1), 1) == v as int);
        },
        _ => {},
    }
}

/// count how many elements of the list equal `v`
fn count_occurrences(list: &Vec<i64>, v: i64) -> (c: usize)
    ensures
        c as int == count_val(list@, v),
{
    let mut c: usize = 0;
    let mut i: usize = 0;
    while i < list.len()
        invariant
            0 <= i <= list@.len(),
            c as int == count_to(list@, v, i as int),
            c <= i,
        decreases list@.len() - i,
    {
        if list[i] == v {
            c = c + 1;
        }
        i = i + 1;
    }
    c
}

/// retrieve the smallest-value mode from a list of values
fn get_mode(list: &Vec<i64>) -> (m: i64)
    requires
        list@.len() >= 1,
    ensures
        is_min_mode(list@, m),
        m == mode_spec(list@),
{
    let mut best: i64 = list[0];
    let mut bcnt: usize = count_occurrences(list, best);
    proof {
        assert(list@.contains(best)) by {
            assert(list@[0] == best);
        }
    }
    let mut i: usize = 1;
    while i < list.len()
        invariant
            1 <= i <= list@.len(),
            list@.contains(best),
            bcnt as int == count_val(list@, best),
            forall|j: int| 0 <= j < i ==> count_val(list@, #[trigger] list@[j]) <= bcnt as int,
            forall|j: int|
                0 <= j < i && count_val(list@, #[trigger] list@[j]) == bcnt as int ==> best
                    <= list@[j],
        decreases list@.len() - i,
    {
        let v = list[i];
        let c = count_occurrences(list, v);
        if c > bcnt || (c == bcnt && v < best) {
            best = v;
            bcnt = c;
            proof {
                assert(list@.contains(best)) by {
                    assert(list@[i as int] == best);
                }
            }
        }
        i = i + 1;
    }
    proof {
        assert forall|d: i64| #[trigger] list@.contains(d) implies count_val(list@, d) <= bcnt
            as int by {
            let j = choose|j: int| 0 <= j < list@.len() && list@[j] == d;
            assert(count_val(list@, list@[j]) <= bcnt as int);
        }
        assert forall|d: i64|
            #[trigger] list@.contains(d) && count_val(list@, d) == count_val(
                list@,
                best,
            ) implies best <= d by {
            let j = choose|j: int| 0 <= j < list@.len() && list@[j] == d;
            assert(count_val(list@, list@[j]) == bcnt as int);
        }
        assert(is_min_mode(list@, best));
        lemma_min_mode_unique(list@, mode_spec(list@), best);
    }
    best
}

impl AggregateType {
    /// Aggregate the held list: the vector must contain QIs of one shape,
    /// interval QIs under `Mean` and ordinal or nominal QIs under `Mode`.
    pub fn aggregate(self) -> (r: QuasiIdentifierTypes)
        requires
            agg_ok(self),
        ensures
            r == spec_aggregate(agg_list(self)),
            qi_wf(r),
            qi_shape(r) == qi_shape(agg_list(self)[0]),
            !(agg_list(self)[0] is Interval) ==> raw_values(agg_list(self)).contains(qi_raw(r)),
    {
        match self {
            AggregateType::Mean(list) => Self::aggregate_interval(list),
            AggregateType::Mode(list) => Self::aggregate_mode(list),
        }
    }

    /// aggregate interval QIs by the truncated mean of their values
    fn aggregate_interval(list: Vec<QuasiIdentifierTypes>) -> (r: QuasiIdentifierTypes)
        requires
            list@.len() >= 1,
            qis_wf(list@),
            uniform_shape(list@),
            list@[0] is Interval,
        ensures
            r == spec_aggregate(list@),
            qi_wf(r),
            qi_shape(r) == qi_shape(list@[0]),
    {
        let n = list.len();
        let mut sum: i128 = 0;
        let mut i: usize = 0;
        while i < n
            invariant
                qis_wf(list@),
                n == list@.len(),
                0 <= i <= n,
                sum as int == sum_raw_to(list@, i as int),
                -(i as int * VAL_BOUND) <= sum as int <= i as int * VAL_BOUND,
            decreases n - i,
        {
            proof {
                assert(qi_wf(list@[i as int]));
                assert((i as int) * VAL_BOUND + VAL_BOUND == (i + 1) as int * VAL_BOUND)
                    by (nonlinear_arith);
                assert((i + 1) as int * VAL_BOUND <= list@.len() * VAL_BOUND) by (nonlinear_arith)
                    requires
                        i + 1 <= list@.len(),
                ;
                assert(list@.len() * VAL_BOUND <= 0x1_0000_0000_0000_0000 * VAL_BOUND)
                    by (nonlinear_arith)
                    requires
                        list@.len() <= 0x1_0000_0000_0000_0000,
                ;
            }
            let v = list[i].extract_value();
            sum = sum + v as i128;
            i = i + 1;
        }
        proof {
            lemma_sum_raw_bounds(list@, n as int);
            assert(n as int * VAL_BOUND <= 0x1_0000_0000_0000_0000 * VAL_BOUND) by (nonlinear_arith)
                requires
                    n as int <= 0x1_0000_0000_0000_0000,
            ;
        }
        let mean: i128 = div_trunc_i128(sum, n as i128);
        proof {
            lemma_div_trunc_bound(sum as int, n as int, VAL_BOUND as int);
        }
        match list[0] {
            QuasiIdentifierTypes::Interval((_, lo, hi, w)) => QuasiIdentifierTypes::Interval(
                (mean as i64, lo, hi, w),
            ),
            _ => {
                proof {
                    assert(false);
                }
                QuasiIdentifierTypes::Interval((0, 0, 1, 1))
            },
        }
    }

    /// aggregate ordinal or nominal QIs by their smallest-code mode
    fn aggregate_mode(list: Vec<QuasiIdentifierTypes>) -> (r: QuasiIdentifierTypes)
        requires
            list@.len() >= 1,
            qis_wf(list@),
            uniform_shape(list@),
            list@[0] is Ordinal || list@[0] is Nominal,
        ensures
            r == spec_aggregate(list@),
            qi_wf(r),
            qi_shape(r) == qi_shape(list@[0]),
            raw_values(list@).contains(qi_raw(r)),
    {
        let n = list.len();
        let mut mode_list: Vec<i64> = Vec::new();
        let mut i: usize = 0;
        while i < n
            invariant
                n == list@.len(),
                0 <= i <= n,
                mode_list@.len() == i,
                forall|j: int| 0 <= j < i ==> mode_list@[j] == qi_raw(#[trigger] list@[j]),
            decreases n - i,
        {
            let v = list[i].extract_value();
            mode_list.push(v);
            proof {
                assert(qi_raw(list@[i as int]) as int == qi_value(list@[i as int]));
            }
            i = i + 1;
        }
        proof {
            assert(mode_list@ =~= raw_values(list@));
        }
        let mode = get_mode(&mode_list);
        proof {
            let j = choose|j: int|
                0 <= j < raw_values(list@).len() && raw_values(list@)[j] == mode;
            assert(qi_wf(list@[j]));
        }
        match list[0] {
            QuasiIdentifierTypes::Ordinal((_, m, w)) => QuasiIdentifierTypes::Ordinal(
                (mode, m, w),
            ),
            QuasiIdentifierTypes::Nominal((_, m, w)) => QuasiIdentifierTypes::Nominal(
                (mode, m, w),
            ),
            _ => {
                proof {
                    assert(false);
                }
                QuasiIdentifierTypes::Nominal((0, 0, 1))
            },
        }
    }
}

/// division truncating toward zero on 128-bit values
fn div_trunc_i128(a: i128, n: i128) -> (r: i128)
    requires
        n >= 1,
        a != i128::MIN,
    ensures
        r as int == div_trunc(a as int, n as int),
{
    if a >= 0 {
        ((a as u128) / (n as u128)) as i128
    } else {
        let q = ((-a) as u128) / (n as u128);
        proof {
            vstd::arithmetic::div_mod::lemma_div_is_ordered(((-a) as u128) as int, -(a as int), n as int);
            vstd::arithmetic::div_mod::lemma_div_nonincreasing(-(a as int), n as int);
        }
        -(q as i128)
    }
}

} // verus!
