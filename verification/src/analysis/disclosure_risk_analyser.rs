use vstd::prelude::*;
use crate::data_manipulation::anonymizable::{Anonymizable, SCALE, spec_distance};

verus! {

/// The scaled distances of each ring record to the anonymized QI list.
pub open spec fn ring_dists<A: Anonymizable>(
    buf: Seq<A>,
    anon: Seq<crate::data_manipulation::anonymizable::QuasiIdentifierTypes>,
) -> Seq<int> {
    buf.map_values(|r: A| spec_distance(r.qis(), anon))
}

/// The least element of a non-empty integer sequence.
pub open spec fn min_int(s: Seq<int>) -> int
    decreases s.len(),
{
    if s.len() <= 1 {
        s[0]
    } else {
        vstd::math::min(min_int(s.drop_last()), s.last())
    }
}

/// How many elements of the sequence equal `v`.
pub open spec fn count_eq(s: Seq<int>, v: int) -> int
    decreases s.len(),
{
    if s.len() == 0 {
        0
    } else {
        count_eq(s.drop_last(), v) + if s.last() == v {
            1int
        } else {
            0int
        }
    }
}

/// The least element is at most every element.
proof fn lemma_min_int_le(s: Seq<int>, j: int)
    requires
        s.len() >= 1,
        0 <= j < s.len(),
    ensures
        min_int(s) <= s[j],
    decreases s.len(),
{
    if s.len() > 1 {
        if j < s.len() - 1 {
            lemma_min_int_le(s.drop_last(), j);
        }
    }
}

/// A value below the least element occurs nowhere.
proof fn lemma_count_eq_below_min(s: Seq<int>, v: int)
    requires
        s.len() >= 1,
        v < min_int(s),
    ensures
        count_eq(s, v) == 0,
    decreases s.len(),
{
    lemma_min_int_le(s, s.len() - 1);
    if s.len() > 1 {
        lemma_count_eq_below_min(s.drop_last(), v);
    } else {
        assert(s.drop_last().len() == 0);
        assert(count_eq(s.drop_last(), v) == 0);
    }
}

/// Analyses the risk of disclosure of the anonymized tuples: a ring of the
/// most recent originals, and the running probability that the freshest
/// original is among the closest to the anonymized release.
pub struct DisclosureRiskAnalyser<A: Anonymizable> {
    buffer_size: usize,
    pub current_linkage_probability_nanos: u64,
    sum_linkage_nanos: u128,
    count: u64,
    buffer: Vec<A>,
}

impl<A: Anonymizable> DisclosureRiskAnalyser<A> {
    /// The ring of recent originals, freshest first.
    pub closed spec fn ring(&self) -> Seq<A> {
        self.buffer@
    }

    /// The ring's fixed capacity.
    pub closed spec fn capacity(&self) -> int {
        self.buffer_size as int
    }

    /// The number of releases observed.
    pub closed spec fn spec_count(&self) -> int {
        self.count as int
    }

    /// The accumulated linkage mass, in nanos.
    pub closed spec fn spec_sum(&self) -> int {
        self.sum_linkage_nanos as int
    }

    /// The most recently reported linkage probability, in nanos.
    pub closed spec fn current(&self) -> int {
        self.current_linkage_probability_nanos as int
    }

    /// Analyser well-formedness: well-formed ring records within the
    /// capacity, and a linkage mass of at most `SCALE` per observed release.
    pub closed spec fn wf(&self) -> bool {
        &&& self.buffer_size >= 1
        &&& self.buffer@.len() <= self.buffer_size
        &&& forall|i: int| 0 <= i < self.buffer@.len() ==> (#[trigger] self.buffer@[i]).wf()
        &&& self.sum_linkage_nanos as int <= self.count as int * SCALE
    }

    /// an empty analyser whose ring holds at most `buffer_size` originals
    pub fn initialize(buffer_size: usize) -> (r: DisclosureRiskAnalyser<A>)
        requires
            buffer_size >= 1,
        ensures
            r.wf(),
            r.ring().len() == 0,
            r.spec_count() == 0,
            r.spec_sum() == 0,
            r.capacity() == buffer_size,
    {
        DisclosureRiskAnalyser {
            buffer_size,
            current_linkage_probability_nanos: 0,
            sum_linkage_nanos: 0,
            count: 0,
            buffer: Vec::new(),
        }
    }

    /// observe one release: remember the original in the ring (evicting the
    /// oldest at capacity) and update the linkage estimate against the
    /// anonymized record
    pub fn add_data(&mut self, value: A, anonymized_value: &A)
        requires
            old(self).wf(),
            value.wf(),
            anonymized_value.wf(),
        ensures
            final(self).wf(),
            old(self).spec_count() == u64::MAX ==> *final(self) == *old(self),
            old(self).spec_count() < u64::MAX ==> final(self).spec_count() == old(self).spec_count() + 1,
            old(self).spec_count() < u64::MAX ==> final(self).ring() == seq![value] + if old(
                self,
            ).ring().len() >= old(self).capacity() {
                old(self).ring().drop_last()
            } else {
                old(self).ring()
            },
            final(self).capacity() == old(self).capacity(),
            old(self).spec_count() < u64::MAX ==> ({
                let d = ring_dists(final(self).ring(), anonymized_value.qis());
                let m = min_int(d);
                if d[0] == m {
                    &&& final(self).spec_sum() == old(self).spec_sum() + (SCALE as int) / count_eq(d, m)
                    &&& final(self).current() == final(self).spec_sum() / final(self).spec_count()
                } else {
                    &&& final(self).spec_sum() == old(self).spec_sum()
                    &&& final(self).current() == old(self).current()
                }
            }),
    {
        if self.count == u64::MAX {
            return ;
        }
        if self.buffer.len() >= self.buffer_size {
            self.buffer.pop();
        }
        self.buffer.insert(0, value);
        self.count = self.count + 1;
        self.update_estimation(anonymized_value);
    }

    /// recompute the linkage estimate: find the ring records closest to the
    /// anonymized release; when the freshest original is among them, credit
    /// one release split evenly over the tied records
    fn update_estimation(&mut self, anonymized_value: &A)
        requires
            old(self).wf(),
            anonymized_value.wf(),
            old(self).ring().len() >= 1,
            1 <= old(self).spec_count(),
            old(self).spec_sum() <= (old(self).spec_count() - 1) * SCALE,
        ensures
            final(self).wf(),
            final(self).ring() == old(self).ring(),
            final(self).spec_count() == old(self).spec_count(),
            final(self).capacity() == old(self).capacity(),
            ({
                let d = ring_dists(old(self).ring(), anonymized_value.qis());
                let m = min_int(d);
                if d[0] == m {
                    &&& final(self).spec_sum() == old(self).spec_sum() + (SCALE as int) / count_eq(d, m)
                    &&& final(self).current() == final(self).spec_sum() / final(self).spec_count()
                } else {
                    &&& final(self).spec_sum() == old(self).spec_sum()
                    &&& final(self).current() == old(self).current()
                }
            }),
    {
        let ghost d = ring_dists(old(self).ring(), anonymized_value.qis());
        let n = self.buffer.len();
        let mut minimum_distance: u128 = self.buffer[0].calculate_difference(anonymized_value);
        let mut ties: u64 = 1;
        let mut zero_is_min: bool = true;
        proof {
            assert(d[0] == spec_distance(self.buffer@[0].qis(), anonymized_value.qis()));
            assert(d.take(1).drop_last() =~= d.take(0));
            assert(min_int(d.take(1)) == d[0]);
            assert(count_eq(d.take(1), min_int(d.take(1))) == 1) by {
                assert(d.take(1).last() == d[0]);
                assert(count_eq(d.take(1).drop_last(), d[0]) == 0);
            }
        }
        let mut i: usize = 1;
        while i < n
            invariant
                self == old(self),
                self.wf(),
                anonymized_value.wf(),
                n == self.buffer@.len(),
                1 <= n,
                d == ring_dists(self.buffer@, anonymized_value.qis()),
                d.len() == n,
                1 <= i <= n,
                minimum_distance as int == min_int(d.take(i as int)),
                ties as int == count_eq(d.take(i as int), min_int(d.take(i as int))),
                1 <= ties <= i,
                zero_is_min == (d[0] == min_int(d.take(i as int))),
            decreases n - i,
        {
            proof {
                assert(self.buffer@[i as int].wf());
                assert(d[i as int] == spec_distance(
                    self.buffer@[i as int].qis(),
                    anonymized_value.qis(),
                ));
                assert(d.take(i + 1).drop_last() =~= d.take(i as int));
                assert(d.take(i + 1).last() == d[i as int]);
            }
            let difference = self.buffer[i].calculate_difference(anonymized_value);
            if difference < minimum_distance {
                proof {
                    lemma_min_int_le(d.take(i as int), 0);
                    lemma_count_eq_below_min(d.take(i as int), d[i as int]);
                }
                minimum_distance = difference;
                ties = 1;
                zero_is_min = false;
            } else if difference == minimum_distance {
                ties = ties + 1;
            }
            i = i + 1;
        }
        proof {
            assert(d.take(n as int) =~= d);
        }
        if zero_is_min {
            let credit: u64 = (1_000_000_000u64) / ties;
            proof {
                vstd::arithmetic::div_mod::lemma_div_nonincreasing(SCALE as int, ties as int);
                vstd::arithmetic::div_mod::lemma_div_pos_is_pos(SCALE as int, ties as int);
                assert((self.count as int - 1) * SCALE + SCALE == self.count as int * SCALE)
                    by (nonlinear_arith);
            }
            self.sum_linkage_nanos = self.sum_linkage_nanos + credit as u128;
            let avg: u128 = self.sum_linkage_nanos / (self.count as u128);
            proof {
                vstd::arithmetic::div_mod::lemma_div_nonincreasing(
                    self.sum_linkage_nanos as int,
                    self.count as int,
                );
                vstd::arithmetic::div_mod::lemma_div_pos_is_pos(
                    self.sum_linkage_nanos as int,
                    self.count as int,
                );
                assert(self.sum_linkage_nanos as int / (self.count as int) <= SCALE) by {
                    vstd::arithmetic::div_mod::lemma_div_multiples_vanish(
                        SCALE as int,
                        self.count as int,
                    );
                    vstd::arithmetic::div_mod::lemma_div_is_ordered(
                        self.sum_linkage_nanos as int,
                        self.count as int * SCALE,
                        self.count as int,
                    );
                    assert(self.count as int * SCALE == self.count as int * (SCALE as int));
                }
            }
            self.current_linkage_probability_nanos = avg as u64;
        }
    }

    /// the most recently reported linkage probability, in nanos
    pub fn current_linkage_probability(&self) -> (r: u64)
        ensures
            r as int == self.current(),
    {
        self.current_linkage_probability_nanos
    }

    /// the overall linkage probability observed so far, in nanos
    pub fn calculate_disclosure_risk(&self) -> (r: u128)
        requires
            self.spec_count() >= 1,
        ensures
            r == self.spec_sum() / self.spec_count(),
    {
        self.sum_linkage_nanos / (self.count as u128)
    }
}

} // verus!
