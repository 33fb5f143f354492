use vstd::prelude::*;
use crate::analysis::analyser::{analyser_release_step, analysers_wf, Analyser};
use crate::anonymization::buffer::{Buffer, column, same_entries};
use crate::data_manipulation::aggregation::raw_values;
use crate::noise::laplace::numerical_noiser::{seq_max, seq_min};
use crate::data_manipulation::anonymizable::{record_model, qi_in_randomized_range, qi_shape, qi_update_ok, qi_wf, qis_wf, sens_key, shape_seq, update_ok, Anonymizable, QuasiIdentifierTypes, SensKey, SensitiveAttribute};
use crate::noise::noiser::Noiser;
use crate::publishing::publisher::Publisher;
use crate::runtime::{fresh_uuid, now_nanos};

verus! {

/// Largest recursive-diversity parameter.
pub const C_BOUND: i64 = 1_000_000_000_000;

/// Largest buffer capacity a cluster may be given.
pub const MAX_BUFFER_BOUND: usize = 30_000;

/// The total of the counts of a sensitive frequency map.
pub open spec fn sum_counts(s: Seq<(SensitiveAttribute, u64)>) -> int
    decreases s.len(),
{
    if s.len() == 0 {
        0
    } else {
        sum_counts(s.drop_last()) + s.last().1
    }
}

/// The count recorded for one sensitive value.
pub open spec fn sens_count(s: Seq<(SensitiveAttribute, u64)>, key: SensKey) -> int
    decreases s.len(),
{
    if s.len() == 0 {
        0
    } else {
        sens_count(s.drop_last(), key) + if sens_key(s.last().0) == key {
            s.last().1 as int
        } else {
            0int
        }
    }
}

/// The least count of a non-empty sensitive frequency map.
pub open spec fn min_count(s: Seq<(SensitiveAttribute, u64)>) -> int
    decreases s.len(),
{
    if s.len() <= 1 {
        s[0].1 as int
    } else {
        vstd::math::min(min_count(s.drop_last()), s.last().1 as int)
    }
}

/// No sensitive value appears under two entries.
pub open spec fn sens_keys_unique(s: Seq<(SensitiveAttribute, u64)>) -> bool {
    forall|i: int, j: int| 0 <= i < j < s.len() ==> sens_key(s[i].0) != sens_key(s[j].0)
}

/// The total of the counts of one position's code frequency map.
pub open spec fn cat_sum(m: Seq<(i64, u64)>) -> int
    decreases m.len(),
{
    if m.len() == 0 {
        0
    } else {
        cat_sum(m.drop_last()) + m.last().1
    }
}

/// The count recorded for one code.
pub open spec fn code_count(m: Seq<(i64, u64)>, code: i64) -> int
    decreases m.len(),
{
    if m.len() == 0 {
        0
    } else {
        code_count(m.drop_last(), code) + if m.last().0 == code {
            m.last().1 as int
        } else {
            0int
        }
    }
}

/// No code appears under two entries.
pub open spec fn codes_unique(m: Seq<(i64, u64)>) -> bool {
    forall|i: int, j: int| 0 <= i < j < m.len() ==> m[i].0 != m[j].0
}

/// No position appears under two entries of a categorical frequency map.
pub open spec fn positions_unique(c: Seq<(usize, Vec<(i64, u64)>)>) -> bool {
    forall|i: int, j: int| 0 <= i < j < c.len() ==> c[i].0 != c[j].0
}

/// The count recorded for one code at one position.
pub open spec fn cat_count(c: Seq<(usize, Vec<(i64, u64)>)>, p: int, code: i64) -> int
    decreases c.len(),
{
    if c.len() == 0 {
        0
    } else {
        cat_count(c.drop_last(), p, code) + if c.last().0 == p {
            code_count(c.last().1@, code)
        } else {
            0int
        }
    }
}

/// A position holds an entry in the categorical frequency map.
pub open spec fn has_position(c: Seq<(usize, Vec<(i64, u64)>)>, p: int) -> bool {
    exists|i: int| 0 <= i < c.len() && (#[trigger] c[i]).0 == p
}

/// The total count recorded at one position.
pub open spec fn pos_sum(c: Seq<(usize, Vec<(i64, u64)>)>, p: int) -> int
    decreases c.len(),
{
    if c.len() == 0 {
        0
    } else {
        pos_sum(c.drop_last(), p) + if c.last().0 == p {
            cat_sum(c.last().1@)
        } else {
            0int
        }
    }
}

/// An ordinal or nominal QI counts as categorical.
pub open spec fn is_categorical(q: QuasiIdentifierTypes) -> bool {
    !(q is Interval)
}

/// Every entry of the map sits at a categorical position of the shape.
pub open spec fn positions_in_shape(
    c: Seq<(usize, Vec<(i64, u64)>)>,
    shape: Seq<QuasiIdentifierTypes>,
) -> bool {
    forall|i: int|
        0 <= i < c.len() ==> (#[trigger] c[i]).0 < shape.len() && is_categorical(
            shape[c[i].0 as int],
        )
}

/// Every categorical position of the shape holds an entry.
pub open spec fn covers_categoricals(
    c: Seq<(usize, Vec<(i64, u64)>)>,
    shape: Seq<QuasiIdentifierTypes>,
) -> bool {
    forall|p: int| 0 <= p < shape.len() && is_categorical(#[trigger] shape[p]) ==> has_position(
        c,
        p,
    )
}

/// A position without an entry records nothing.
proof fn lemma_pos_sum_absent(c: Seq<(usize, Vec<(i64, u64)>)>, p: int)
    requires
        !has_position(c, p),
    ensures
        pos_sum(c, p) == 0,
    decreases c.len(),
{
    if c.len() > 0 {
        assert(!has_position(c.drop_last(), p)) by {
            if has_position(c.drop_last(), p) {
                let i = choose|i: int|
                    0 <= i < c.drop_last().len() && (#[trigger] c.drop_last()[i]).0 == p;
                assert(c[i].0 == p);
            }
        }
        lemma_pos_sum_absent(c.drop_last(), p);
        assert(c.last().0 != p) by {
            if c.last().0 == p {
                assert(c[c.len() - 1].0 == p);
            }
        }
    }
}

/// Under unique positions, the total at an entry's position is that entry's
/// sum.
proof fn lemma_pos_sum_unique(c: Seq<(usize, Vec<(i64, u64)>)>, i: int)
    requires
        positions_unique(c),
        0 <= i < c.len(),
    ensures
        pos_sum(c, c[i].0 as int) == cat_sum(c[i].1@),
    decreases c.len(),
{
    if i == c.len() - 1 {
        assert(!has_position(c.drop_last(), c[i].0 as int)) by {
            if has_position(c.drop_last(), c[i].0 as int) {
                let j = choose|j: int|
                    0 <= j < c.drop_last().len() && (#[trigger] c.drop_last()[j]).0 == c[i].0;
                assert(c[j].0 == c[i].0);
            }
        }
        lemma_pos_sum_absent(c.drop_last(), c[i].0 as int);
    } else {
        assert(positions_unique(c.drop_last()));
        lemma_pos_sum_unique(c.drop_last(), i);
        assert(c.last().0 != c[i].0);
    }
}

/// Updating one entry moves each position's total by that entry's
/// contribution.
proof fn lemma_pos_sum_update(
    c: Seq<(usize, Vec<(i64, u64)>)>,
    i: int,
    e: (usize, Vec<(i64, u64)>),
    p: int,
)
    requires
        0 <= i < c.len(),
    ensures
        pos_sum(c.update(i, e), p) == pos_sum(c, p) - (if c[i].0 == p {
            cat_sum(c[i].1@)
        } else {
            0int
        }) + (if e.0 == p {
            cat_sum(e.1@)
        } else {
            0int
        }),
    decreases c.len(),
{
    let t = c.update(i, e);
    if i == c.len() - 1 {
        assert(t.drop_last() =~= c.drop_last());
    } else {
        assert(t.drop_last() =~= c.drop_last().update(i, e));
        lemma_pos_sum_update(c.drop_last(), i, e, p);
    }
}

/// Updating one entry moves the sum by the difference of the counts.
proof fn lemma_sum_counts_update(s: Seq<(SensitiveAttribute, u64)>, i: int, e: (SensitiveAttribute, u64))
    requires
        0 <= i < s.len(),
    ensures
        sum_counts(s.update(i, e)) == sum_counts(s) - s[i].1 + e.1,
    decreases s.len(),
{
    let t = s.update(i, e);
    if i == s.len() - 1 {
        assert(t.drop_last() =~= s.drop_last());
    } else {
        assert(t.drop_last() =~= s.drop_last().update(i, e));
        lemma_sum_counts_update(s.drop_last(), i, e);
    }
}

/// Updating one entry moves each key's count by that entry's contribution.
proof fn lemma_sens_count_update(
    s: Seq<(SensitiveAttribute, u64)>,
    i: int,
    e: (SensitiveAttribute, u64),
    key: SensKey,
)
    requires
        0 <= i < s.len(),
    ensures
        sens_count(s.update(i, e), key) == sens_count(s, key) - (if sens_key(s[i].0) == key {
            s[i].1 as int
        } else {
            0int
        }) + (if sens_key(e.0) == key {
            e.1 as int
        } else {
            0int
        }),
    decreases s.len(),
{
    let t = s.update(i, e);
    if i == s.len() - 1 {
        assert(t.drop_last() =~= s.drop_last());
    } else {
        assert(t.drop_last() =~= s.drop_last().update(i, e));
        lemma_sens_count_update(s.drop_last(), i, e, key);
    }
}

/// Updating one entry moves the inner sum by the difference of the counts.
proof fn lemma_cat_sum_update(m: Seq<(i64, u64)>, i: int, e: (i64, u64))
    requires
        0 <= i < m.len(),
    ensures
        cat_sum(m.update(i, e)) == cat_sum(m) - m[i].1 + e.1,
    decreases m.len(),
{
    let t = m.update(i, e);
    if i == m.len() - 1 {
        assert(t.drop_last() =~= m.drop_last());
    } else {
        assert(t.drop_last() =~= m.drop_last().update(i, e));
        lemma_cat_sum_update(m.drop_last(), i, e);
    }
}

/// Updating one entry moves each code's count by that entry's contribution.
proof fn lemma_code_count_update(m: Seq<(i64, u64)>, i: int, e: (i64, u64), code: i64)
    requires
        0 <= i < m.len(),
    ensures
        code_count(m.update(i, e), code) == code_count(m, code) - (if m[i].0 == code {
            m[i].1 as int
        } else {
            0int
        }) + (if e.0 == code {
            e.1 as int
        } else {
            0int
        }),
    decreases m.len(),
{
    let t = m.update(i, e);
    if i == m.len() - 1 {
        assert(t.drop_last() =~= m.drop_last());
    } else {
        assert(t.drop_last() =~= m.drop_last().update(i, e));
        lemma_code_count_update(m.drop_last(), i, e, code);
    }
}

/// Updating one position's entry moves each position's count by that entry's
/// contribution.
proof fn lemma_cat_count_update(
    c: Seq<(usize, Vec<(i64, u64)>)>,
    i: int,
    e: (usize, Vec<(i64, u64)>),
    p: int,
    code: i64,
)
    requires
        0 <= i < c.len(),
    ensures
        cat_count(c.update(i, e), p, code) == cat_count(c, p, code) - (if c[i].0 == p {
            code_count(c[i].1@, code)
        } else {
            0int
        }) + (if e.0 == p {
            code_count(e.1@, code)
        } else {
            0int
        }),
    decreases c.len(),
{
    let t = c.update(i, e);
    if i == c.len() - 1 {
        assert(t.drop_last() =~= c.drop_last());
    } else {
        assert(t.drop_last() =~= c.drop_last().update(i, e));
        lemma_cat_count_update(c.drop_last(), i, e, p, code);
    }
}

/// A live micro-cluster: two buffer windows, frequency maps for the
/// diversity check, and its own noiser.
pub struct Cluster<A: Anonymizable, N: Noiser> {
    pub uuid: u128,
    pub k: usize,  // desired k level of cluster
    pub l: usize,  // desired l diversity level of cluster
    pub c: i64,  // desired recursive (l,c)-diversity
    pub centroid: A,  // centroid of the cluster
    pub w_current: Buffer<A>,  // current buffer of cluster
    pub w_prev: Buffer<A>,  // previous current buffer of cluster
    pub categorical_freq: Vec<(usize, Vec<(i64, u64)>)>,  // per-position code counts for l-diversity
    pub sensitive_freq: Vec<(SensitiveAttribute, u64)>,  // sensitive value counts for l-diversity
    pub complete_buffer_amount: usize,  // the count of all added tuples to the cluster
    pub last_arrival: u64,  // last arrival of a tuple into the cluster, in nanoseconds
    pub noiser: N,
}

impl<A: Anonymizable, N: Noiser> Cluster<A, N> {
    /// Cluster well-formedness: sound buffers whose centroid mirrors the
    /// current window's aggregation, frequency maps whose counts total the
    /// number of admissions, and a noiser fit for the stream's shape.
    pub open spec fn wf(&self) -> bool {
        &&& self.centroid.wf()
        &&& self.w_current.wf()
        &&& self.w_prev.wf()
        &&& self.w_current.buffer@.len() > 0 ==> self.centroid.qis()
            == self.w_current.centroid.qis()
        &&& self.w_current.buffer@.len() > 0 ==> self.w_prev.buffer@.len()
            == self.w_current.buffer@.len() - 1
        &&& sens_keys_unique(self.sensitive_freq@)
        &&& sum_counts(self.sensitive_freq@) == self.complete_buffer_amount
        &&& self.complete_buffer_amount > 0 ==> self.sensitive_freq@.len() >= 1
        &&& positions_unique(self.categorical_freq@)
        &&& forall|i: int|
            0 <= i < self.categorical_freq@.len() ==> codes_unique(
                (#[trigger] self.categorical_freq@[i]).1@,
            )
        &&& forall|p: int|
            has_position(self.categorical_freq@, p) ==> #[trigger] pos_sum(
                self.categorical_freq@,
                p,
            ) == self.complete_buffer_amount
        &&& positions_in_shape(self.categorical_freq@, A::shape())
        &&& self.complete_buffer_amount > 0 ==> covers_categoricals(
            self.categorical_freq@,
            A::shape(),
        )
        &&& self.complete_buffer_amount >= self.w_current.buffer@.len()
        &&& 1 <= self.k
        &&& 1 <= self.c <= C_BOUND
        &&& self.w_current.max_buffer_size <= MAX_BUFFER_BOUND
        &&& self.noiser.wf()
        &&& self.noiser.fits(A::shape())
    }

    /// a fresh empty cluster for the given parameters, owning the given
    /// noiser
    pub fn new(k: usize, l: usize, c: i64, max_buffer_size: usize, noiser: N) -> (r: Cluster<A, N>)
        requires
            1 <= k,
            1 <= c <= C_BOUND,
            max_buffer_size <= MAX_BUFFER_BOUND,
            noiser.wf(),
            forall|s: Seq<QuasiIdentifierTypes>| #[trigger] noiser.fits(s),
        ensures
            r.wf(),
            r.k == k,
            r.l == l,
            r.c == c,
            r.complete_buffer_amount == 0,
            r.w_current.buffer@.len() == 0,
            r.w_prev.buffer@.len() == 0,
            r.w_current.max_buffer_size == max_buffer_size,
    {
        Cluster {
            uuid: fresh_uuid(),
            k,
            l,
            c,
            centroid: A::blank(),
            w_current: Buffer::new(max_buffer_size),
            w_prev: Buffer::new(max_buffer_size),
            categorical_freq: Vec::new(),
            sensitive_freq: Vec::new(),
            complete_buffer_amount: 0,
            last_arrival: now_nanos(),
            noiser,
        }
    }

    /// add a tuple to the cluster: update the frequency maps, snapshot the
    /// current window into the previous one, admit the tuple and refresh the
    /// centroid
    pub fn add_tuple(&mut self, value: A)
        requires
            old(self).wf(),
            value.wf(),
            old(self).complete_buffer_amount < usize::MAX,
        ensures
            final(self).wf(),
            final(self).complete_buffer_amount == old(self).complete_buffer_amount + 1,
            final(self).w_current.buffer@.len() == old(self).w_current.buffer@.len() + 1,
            same_entries(
                final(self).w_current.buffer@,
                old(self).w_current.buffer@.push((false, value)),
            ),
            same_entries(final(self).w_prev.buffer@, old(self).w_current.buffer@),
            final(self).w_current.max_buffer_size == old(self).w_current.max_buffer_size,
            final(self).k == old(self).k,
            final(self).l == old(self).l,
            final(self).c == old(self).c,
            final(self).uuid == old(self).uuid,
            final(self).noiser == old(self).noiser,
            forall|key: SensKey| #[trigger] sens_count(final(self).sensitive_freq@, key)
                == sens_count(old(self).sensitive_freq@, key) + (if key == value.sens() {
                    1int
                } else {
                    0int
                }),
            final(self).cat_freq_stepped(*old(self), value),
            final(self).w_prev.centroid.qis() == old(self).w_current.centroid.qis(),
            final(self).w_prev.centroid.sens() == old(self).w_current.centroid.sens(),
            final(self).w_prev.centroid.ts() == old(self).w_current.centroid.ts(),
            final(self).w_prev.max_buffer_size == old(self).w_current.max_buffer_size,
    {
        self.update_frequencies(&value);
        let temp_buffer = self.w_current.duplicate();
        let new_centroid = self.w_current.add_tuple(value);
        self.centroid = new_centroid;
        self.w_prev = temp_buffer;
        self.complete_buffer_amount = self.complete_buffer_amount + 1;
        self.last_arrival = now_nanos();
        proof {
            assert(same_entries(
                self.w_current.buffer@,
                old(self).w_current.buffer@.push((false, value)),
            )) by {
                assert(self.w_current.buffer@ == old(self).w_current.buffer@.push(
                    (false, value),
                ));
            }
            let c = self.categorical_freq@;
            let oldc = old(self).categorical_freq@;
            assert forall|p: int| #[trigger] has_position(c, p) implies pos_sum(c, p)
                == self.complete_buffer_amount by {
                let i = choose|i: int| 0 <= i < c.len() && (#[trigger] c[i]).0 == p;
                assert(positions_in_shape(c, A::shape()));
                assert(c[i].0 < A::shape().len() && is_categorical(A::shape()[c[i].0 as int]));
                assert(0 <= p < A::shape().len() && is_categorical(A::shape()[p]));
                assert(pos_sum(c, p) == pos_sum(oldc, p) + 1);
                if has_position(oldc, p) {
                    assert(pos_sum(oldc, p) == old(self).complete_buffer_amount);
                } else {
                    lemma_pos_sum_absent(oldc, p);
                    if old(self).complete_buffer_amount > 0 {
                        assert(covers_categoricals(oldc, A::shape()));
                        assert(has_position(oldc, p));
                    }
                }
            }
        }
    }

    /// update all the maps containing frequencies of values
    fn update_frequencies(&mut self, value: &A)
        requires
            old(self).wf(),
            value.wf(),
            old(self).complete_buffer_amount < usize::MAX,
        ensures
            final(self).sens_freq_stepped(*old(self), *value),
            final(self).cat_freq_stepped(*old(self), *value),
            final(self).complete_buffer_amount == old(self).complete_buffer_amount,
            final(self).w_current == old(self).w_current,
            final(self).w_prev == old(self).w_prev,
            final(self).centroid == old(self).centroid,
            final(self).noiser == old(self).noiser,
            final(self).uuid == old(self).uuid,
            final(self).k == old(self).k,
            final(self).l == old(self).l,
            final(self).c == old(self).c,
            final(self).last_arrival == old(self).last_arrival,
    {
        self.update_categorical_frequency(value);
        self.update_sensitive_frequency(value);
    }

    /// The sensitive frequency map took one more observation of the given
    /// record's sensitive value.
    pub open spec fn sens_freq_stepped(&self, prev: Self, value: A) -> bool {
        &&& sens_keys_unique(self.sensitive_freq@)
        &&& sum_counts(self.sensitive_freq@) == sum_counts(prev.sensitive_freq@) + 1
        &&& self.sensitive_freq@.len() >= 1
        &&& forall|key: SensKey| #[trigger] sens_count(self.sensitive_freq@, key) == sens_count(
            prev.sensitive_freq@,
            key,
        ) + (if key == value.sens() {
            1int
        } else {
            0int
        })
    }

    /// The categorical frequency map took one more observation at every
    /// categorical position of the given record.
    pub open spec fn cat_freq_stepped(&self, prev: Self, value: A) -> bool {
        &&& forall|p: int| #[trigger] has_position(self.categorical_freq@, p) <==> (has_position(
            prev.categorical_freq@,
            p,
        ) || (0 <= p < A::shape().len() && is_categorical(A::shape()[p])))
        &&& positions_unique(self.categorical_freq@)
        &&& forall|i: int|
            0 <= i < self.categorical_freq@.len() ==> codes_unique(
                (#[trigger] self.categorical_freq@[i]).1@,
            )
        &&& positions_in_shape(self.categorical_freq@, A::shape())
        &&& covers_categoricals(self.categorical_freq@, A::shape())
        &&& forall|p: int| #[trigger] pos_sum(self.categorical_freq@, p) == pos_sum(
            prev.categorical_freq@,
            p,
        ) + (if 0 <= p < A::shape().len() && is_categorical(A::shape()[p]) {
            1int
        } else {
            0int
        })
        &&& forall|p: int, code: i64| #[trigger] cat_count(self.categorical_freq@, p, code)
            == cat_count(prev.categorical_freq@, p, code) + (if 0 <= p < A::shape().len()
            && is_categorical(A::shape()[p]) && code == crate::data_manipulation::anonymizable::qi_raw(value.qis()[p]) {
            1int
        } else {
            0int
        })
    }

    /// update the frequency of sensitive values that have been added to the
    /// cluster
    fn update_sensitive_frequency(&mut self, value: &A)
        requires
            old(self).wf_sens_only(),
            value.wf(),
            old(self).sum_bound(),
        ensures
            final(self).sens_freq_stepped(*old(self), *value),
            final(self).unchanged_but_sens(*old(self)),
    {
        let sensitive_attribute = value.sensitive_value();
        let n = self.sensitive_freq.len();
        let mut i: usize = 0;
        while i < n
            invariant
                self == old(self),
                old(self).sum_bound(),
                sens_keys_unique(self.sensitive_freq@),
                n == self.sensitive_freq@.len(),
                0 <= i <= n,
                sens_key(sensitive_attribute) == value.sens(),
                forall|j: int|
                    0 <= j < i ==> sens_key((#[trigger] self.sensitive_freq@[j]).0)
                        != value.sens(),
            decreases n - i,
        {
            if self.sensitive_freq[i].0.same_value(&sensitive_attribute) {
                let key_copy = self.sensitive_freq[i].0.duplicate();
                let cnt = self.sensitive_freq[i].1;
                proof {
                    lemma_sum_counts_le(self.sensitive_freq@, i as int);
                }
                self.sensitive_freq.set(i, (key_copy, cnt + 1));
                proof {
                    lemma_sum_counts_update(
                        old(self).sensitive_freq@,
                        i as int,
                        (key_copy, (cnt + 1) as u64),
                    );
                    assert forall|key: SensKey| #[trigger] sens_count(self.sensitive_freq@, key)
                        == sens_count(old(self).sensitive_freq@, key) + (if key == value.sens() {
                        1int
                    } else {
                        0int
                    }) by {
                        lemma_sens_count_update(
                            old(self).sensitive_freq@,
                            i as int,
                            (key_copy, (cnt + 1) as u64),
                            key,
                        );
                    }
                    assert(self.sensitive_freq@.len() >= 1);
                    assert forall|a: int, b: int|
                        0 <= a < b < self.sensitive_freq@.len() implies sens_key(
                        self.sensitive_freq@[a].0,
                    ) != sens_key(self.sensitive_freq@[b].0) by {
                        assert(sens_key(old(self).sensitive_freq@[a].0) != sens_key(
                            old(self).sensitive_freq@[b].0,
                        ));
                    }
                }
                return ;
            }
            i = i + 1;
        }
        proof {
            assert forall|key: SensKey| #[trigger] sens_count(
                self.sensitive_freq@.push((sensitive_attribute, 1u64)),
                key,
            ) == sens_count(self.sensitive_freq@, key) + (if key == value.sens() {
                1int
            } else {
                0int
            }) by {
                assert(self.sensitive_freq@.push((sensitive_attribute, 1u64)).drop_last()
                    =~= self.sensitive_freq@);
            }
            assert(self.sensitive_freq@.push((sensitive_attribute, 1u64)).drop_last()
                =~= self.sensitive_freq@);
        }
        self.sensitive_freq.push((sensitive_attribute, 1));
    }

    /// keep up to date which and how many times categorical data has been
    /// present inside the cluster
    fn update_categorical_frequency(&mut self, value: &A)
        requires
            old(self).wf(),
            value.wf(),
            old(self).complete_buffer_amount < usize::MAX,
        ensures
            final(self).cat_freq_stepped(*old(self), *value),
            final(self).unchanged_but_cat(*old(self)),
    {
        proof {
            value.lemma_wf_qis();
            assert forall|p: int| 0 <= p < value.qis().len() implies is_categorical(
                #[trigger] value.qis()[p],
            ) == is_categorical(A::shape()[p]) by {
                assert(crate::data_manipulation::anonymizable::shape_seq(value.qis())[p]
                    == crate::data_manipulation::anonymizable::qi_shape(value.qis()[p]));
            }
            assert(value.qis().len() == crate::data_manipulation::anonymizable::shape_seq(
                value.qis(),
            ).len());
        }
        let qi_list = value.quasi_identifiers();
        let ghost qis = value.qis();
        let ghost orig = old(self).categorical_freq@;
        let n = qi_list.len();
        let mut index: usize = 0;
        while index < n
            invariant
                old(self).wf(),
                value.wf(),
                old(self).complete_buffer_amount < usize::MAX,
                qis == value.qis(),
                qi_list@ == qis,
                orig == old(self).categorical_freq@,
                n == qis.len(),
                n == A::shape().len(),
                forall|p: int|
                    0 <= p < n ==> is_categorical(#[trigger] qis[p]) == is_categorical(
                        A::shape()[p],
                    ),
                0 <= index <= n,
                positions_unique(self.categorical_freq@),
                forall|i: int|
                    0 <= i < self.categorical_freq@.len() ==> codes_unique(
                        (#[trigger] self.categorical_freq@[i]).1@,
                    ),
                forall|p: int| #[trigger] pos_sum(self.categorical_freq@, p) == pos_sum(orig, p)
                    + (if 0 <= p < index && is_categorical(qis[p]) {
                    1int
                } else {
                    0int
                }),
                forall|p: int| #[trigger] has_position(self.categorical_freq@, p) <==> (
                has_position(orig, p) || (0 <= p < index && is_categorical(qis[p]))),
                forall|p: int, code: i64| #[trigger] cat_count(self.categorical_freq@, p, code)
                    == cat_count(orig, p, code) + (if 0 <= p < index && is_categorical(qis[p])
                    && code == crate::data_manipulation::anonymizable::qi_raw(qis[p]) {
                    1int
                } else {
                    0int
                }),
                self.unchanged_but_cat(*old(self)),
            decreases n - index,
        {
            proof {
                assert(crate::data_manipulation::anonymizable::shape_seq(qis)[index as int]
                    == crate::data_manipulation::anonymizable::qi_shape(qis[index as int]));
                if has_position(self.categorical_freq@, index as int) {
                    if has_position(orig, index as int) {
                        assert(pos_sum(orig, index as int) == old(self).complete_buffer_amount);
                    } else {
                        assert(old(self).complete_buffer_amount > 0 ==> covers_categoricals(
                            orig,
                            A::shape(),
                        ));
                        if old(self).complete_buffer_amount > 0 && is_categorical(
                            A::shape()[index as int],
                        ) {
                            assert(has_position(orig, index as int));
                        }
                        lemma_pos_sum_absent(orig, index as int);
                    }
                } else {
                    lemma_pos_sum_absent(orig, index as int);
                    assert(!has_position(orig, index as int));
                }
            }
            match qi_list[index] {
                QuasiIdentifierTypes::Interval(_) => {},
                QuasiIdentifierTypes::Ordinal((v, _, _)) => {
                    self.update_categorical_map_frequency(index, v);
                },
                QuasiIdentifierTypes::Nominal((v, _, _)) => {
                    self.update_categorical_map_frequency(index, v);
                },
            }
            index = index + 1;
        }
        proof {
            assert forall|i: int| 0 <= i < self.categorical_freq@.len() implies (
            #[trigger] self.categorical_freq@[i]).0 < A::shape().len() && is_categorical(
                A::shape()[self.categorical_freq@[i].0 as int],
            ) by {
                let p = self.categorical_freq@[i].0 as int;
                assert(has_position(self.categorical_freq@, p)) by {
                    assert(self.categorical_freq@[i].0 == p);
                }
                if has_position(orig, p) {
                    let j = choose|j: int| 0 <= j < orig.len() && (#[trigger] orig[j]).0 == p;
                    assert(positions_in_shape(orig, A::shape()));
                    assert(orig[j].0 < A::shape().len() && is_categorical(
                        A::shape()[orig[j].0 as int],
                    ));
                }
            }
        }
    }

    /// bump the count of the given code at the given QI position
    fn update_categorical_map_frequency(&mut self, index: usize, value: i64)
        requires
            positions_unique(old(self).categorical_freq@),
            forall|i: int|
                0 <= i < old(self).categorical_freq@.len() ==> codes_unique(
                    (#[trigger] old(self).categorical_freq@[i]).1@,
                ),
            pos_sum(old(self).categorical_freq@, index as int) < usize::MAX,
        ensures
            positions_unique(final(self).categorical_freq@),
            forall|i: int|
                0 <= i < final(self).categorical_freq@.len() ==> codes_unique(
                    (#[trigger] final(self).categorical_freq@[i]).1@,
                ),
            forall|p: int| #[trigger] pos_sum(final(self).categorical_freq@, p) == pos_sum(
                old(self).categorical_freq@,
                p,
            ) + (if p == index {
                1int
            } else {
                0int
            }),
            forall|p: int| #[trigger] has_position(final(self).categorical_freq@, p) <==> (
            has_position(old(self).categorical_freq@, p) || p == index),
            forall|p: int, code: i64| #[trigger] cat_count(final(self).categorical_freq@, p, code)
                == cat_count(old(self).categorical_freq@, p, code) + (if p == index && code
                == value {
                1int
            } else {
                0int
            }),
            final(self).unchanged_but_cat(*old(self)),
    {
        let n = self.categorical_freq.len();
        let mut i: usize = 0;
        while i < n
            invariant
                self == old(self),
                positions_unique(self.categorical_freq@),
                forall|ii: int|
                    0 <= ii < self.categorical_freq@.len() ==> codes_unique(
                        (#[trigger] self.categorical_freq@[ii]).1@,
                    ),
                pos_sum(self.categorical_freq@, index as int) < usize::MAX,
                n == self.categorical_freq@.len(),
                0 <= i <= n,
                forall|j: int| 0 <= j < i ==> (#[trigger] self.categorical_freq@[j]).0 != index,
            decreases n - i,
        {
            if self.categorical_freq[i].0 == index {
                let ghost orig = self.categorical_freq@;
                let (p, mut inner) = self.categorical_freq.remove(i);
                proof {
                    lemma_pos_sum_unique(orig, i as int);
                }
                bump_code(&mut inner, value);
                let ghost innerv = inner@;
                let ghost entry = (p, inner);
                self.categorical_freq.insert(i, (p, inner));
                proof {
                    assert(self.categorical_freq@ =~= orig.update(i as int, entry));
                    assert forall|q: int| #[trigger] pos_sum(self.categorical_freq@, q)
                        == pos_sum(orig, q) + (if q == index {
                        1int
                    } else {
                        0int
                    }) by {
                        lemma_pos_sum_update(orig, i as int, entry, q);
                    }
                    assert forall|q: int, code: i64| #[trigger] cat_count(
                        self.categorical_freq@,
                        q,
                        code,
                    ) == cat_count(orig, q, code) + (if q == index && code == value {
                        1int
                    } else {
                        0int
                    }) by {
                        lemma_cat_count_update(orig, i as int, entry, q, code);
                    }
                    assert forall|q: int| #[trigger] has_position(self.categorical_freq@, q)
                        <==> (has_position(orig, q) || q == index) by {
                        if has_position(orig, q) {
                            let j = choose|j: int|
                                0 <= j < orig.len() && (#[trigger] orig[j]).0 == q;
                            assert(self.categorical_freq@[j].0 == q);
                        }
                        if has_position(self.categorical_freq@, q) {
                            let j = choose|j: int|
                                0 <= j < self.categorical_freq@.len() && (
                                #[trigger] self.categorical_freq@[j]).0 == q;
                            assert(orig[j].0 == q || j == i);
                        }
                        if q == index {
                            assert(self.categorical_freq@[i as int].0 == q);
                        }
                    }
                }
                return ;
            }
            i = i + 1;
        }
        let ghost orig = self.categorical_freq@;
        proof {
            assert(!has_position(orig, index as int));
            lemma_pos_sum_absent(orig, index as int);
        }
        let mut cat_freq: Vec<(i64, u64)> = Vec::new();
        cat_freq.push((value, 1));
        let ghost innerv = cat_freq@;
        self.categorical_freq.push((index, cat_freq));
        proof {
            assert(self.categorical_freq@.drop_last() =~= orig);
            assert(innerv.drop_last() =~= Seq::<(i64, u64)>::empty());
            assert(cat_sum(Seq::<(i64, u64)>::empty()) == 0);
            assert(innerv.drop_last() == Seq::<(i64, u64)>::empty());
            assert(cat_sum(innerv) == 1);
            assert forall|q: int, code: i64| #[trigger] cat_count(
                self.categorical_freq@,
                q,
                code,
            ) == cat_count(orig, q, code) + (if q == index && code == value {
                1int
            } else {
                0int
            }) by {
                assert(code_count(Seq::<(i64, u64)>::empty(), code) == 0);
                assert(code_count(innerv, code) == if code == value {
                    1int
                } else {
                    0int
                });
            }
            assert forall|q: int| #[trigger] has_position(self.categorical_freq@, q) <==> (
            has_position(orig, q) || q == index) by {
                if has_position(orig, q) {
                    let j = choose|j: int| 0 <= j < orig.len() && (#[trigger] orig[j]).0 == q;
                    assert(self.categorical_freq@[j].0 == q);
                }
                if has_position(self.categorical_freq@, q) {
                    let j = choose|j: int|
                        0 <= j < self.categorical_freq@.len() && (
                        #[trigger] self.categorical_freq@[j]).0 == q;
                    if j < orig.len() {
                        assert(orig[j].0 == q);
                    }
                }
                if q == index {
                    assert(self.categorical_freq@[orig.len() as int].0 == q);
                }
            }
            assert forall|a: int, b: int|
                0 <= a < b < self.categorical_freq@.len() implies self.categorical_freq@[a].0
                != self.categorical_freq@[b].0 by {
                if b < orig.len() {
                    assert(orig[a].0 != orig[b].0);
                } else {
                    assert(self.categorical_freq@[b].0 == index);
                    assert(orig[a].0 != index) by {
                        if orig[a].0 == index {
                            assert(has_position(orig, index as int));
                        }
                    }
                }
            }
        }
    }

    /// Recursive (c,l)-diversity holds: the window reached the anonymity
    /// level, and the rarest sensitive value is strictly outnumbered by `c`
    /// times all the other values together.
    pub open spec fn spec_diversity_ok(&self) -> bool {
        &&& self.k <= self.w_current.buffer@.len()
        &&& min_count(self.sensitive_freq@) < self.c * (sum_counts(self.sensitive_freq@)
            - min_count(self.sensitive_freq@))
    }

    /// check if the cluster satisfies recursive (c,l)-diversity
    fn check_l_recursive_diversity(&self) -> (r: bool)
        requires
            self.wf(),
        ensures
            r == self.spec_diversity_ok(),
    {
        if self.k > self.w_current.buffer.len() {
            return false;
        }
        let n = self.sensitive_freq.len();
        proof {
            if n == 0 {
                assert(sum_counts(self.sensitive_freq@) == 0);
            }
        }
        let mut minc: u64 = self.sensitive_freq[0].1;
        let mut i: usize = 1;
        proof {
            assert(self.sensitive_freq@.take(1).len() == 1);
            assert(self.sensitive_freq@.take(1)[0] == self.sensitive_freq@[0]);
        }
        while i < n
            invariant
                n == self.sensitive_freq@.len(),
                1 <= i <= n,
                minc as int == min_count(self.sensitive_freq@.take(i as int)),
            decreases n - i,
        {
            proof {
                assert(self.sensitive_freq@.take(i + 1).drop_last() =~= self.sensitive_freq@.take(
                    i as int,
                ));
                assert(self.sensitive_freq@.take(i + 1).last() == self.sensitive_freq@[i as int]);
            }
            let c = self.sensitive_freq[i].1;
            if c < minc {
                minc = c;
            }
            i = i + 1;
        }
        proof {
            assert(self.sensitive_freq@.take(n as int) =~= self.sensitive_freq@);
            lemma_min_count_le_sum(self.sensitive_freq@);
        }
        let total: u64 = self.complete_buffer_amount as u64;
        proof {
            assert(self.complete_buffer_amount <= u64::MAX) by {
                assert(usize::MAX <= u64::MAX);
            }
        }
        let rest: u64 = total - minc;
        proof {
            assert((self.c as int) * (rest as int) <= C_BOUND * 0x1_0000_0000_0000_0000)
                by (nonlinear_arith)
                requires
                    1 <= self.c <= C_BOUND,
                    0 <= rest < 0x1_0000_0000_0000_0000,
            ;
            assert(0 <= (self.c as int) * (rest as int)) by (nonlinear_arith)
                requires
                    1 <= self.c,
                    0 <= rest,
            ;
        }
        (minc as i128) < (self.c as i128) * (rest as i128)
    }

    /// publish the last added data tuple, where it is still unreleased, and
    /// mark it released; an entry already released is never handed out again
    pub fn publish<P: Publisher<A>>(&mut self, publisher: &mut P, analysers: &mut Vec<Analyser<A>>)
        requires
            old(self).wf(),
            old(self).w_current.buffer@.len() >= 1,
            analysers_wf(old(analysers)@),
        ensures
            final(self).wf(),
            final(self).same_but_flags_and_noiser(*old(self)),
            same_entries(
                final(self).w_current.buffer@,
                old(self).w_current.buffer@.update(
                    old(self).w_current.buffer@.len() - 1,
                    (true, old(self).w_current.buffer@.last().1),
                ),
            ),
            forall|i: int|
                0 <= i < old(self).w_current.buffer@.len() && old(self).w_current.buffer@[i].0
                    ==> (#[trigger] final(self).w_current.buffer@[i]).0,
            analysers_wf(final(analysers)@),
            final(analysers)@.len() == old(analysers)@.len(),
            !old(self).w_current.buffer@.last().0 ==> {
                &&& final(publisher).sunk().len() == old(publisher).sunk().len() + 1
                &&& final(publisher).sunk().drop_last() == old(publisher).sunk()
                &&& event_matches(
                    final(publisher).sunk().last(),
                    record_model(old(self).w_current.buffer@.last().1),
                    old(self).uuid,
                )
                &&& forall|i: int|
                    0 <= i < old(analysers)@.len() ==> analyser_release_step(
                        old(analysers)@[i],
                        #[trigger] final(analysers)@[i],
                        record_model(old(self).w_current.buffer@.last().1),
                        final(publisher).sunk().last().0,
                    )
            },
            old(self).w_current.buffer@.last().0 ==> *final(publisher) == *old(publisher)
                && final(analysers)@ == old(analysers)@,
    {
        let n = self.w_current.buffer.len();
        let released = self.w_current.buffer[n - 1].0;
        if !released {
            let original = self.w_current.buffer[n - 1].1.duplicate();
            self.publish_data(&original, publisher, analysers);
            proof {
                assert(record_model(original) == record_model(
                    old(self).w_current.buffer@.last().1,
                ));
            }
        }
        let ghost before = self.w_current.buffer@;
        match self.w_current.buffer.pop() {
            Some((_, rec)) => {
                self.w_current.buffer.push((true, rec));
                proof {
                    assert(self.w_current.buffer@ =~= before.update(
                        before.len() - 1,
                        (true, before.last().1),
                    ));
                    assert(self.w_current.entry_qis() =~= old(self).w_current.entry_qis()) by {
                        assert forall|j: int|
                            0 <= j < self.w_current.buffer@.len() implies #[trigger] self.w_current.entry_qis()[j]
                            == old(self).w_current.entry_qis()[j] by {
                            assert(self.w_current.entry_qis()[j]
                                == self.w_current.buffer@[j].1.qis());
                            assert(old(self).w_current.entry_qis()[j] == old(self).w_current.buffer@[j].1.qis());
                        }
                    }
                }
            },
            None => {
                proof {
                    assert(false);
                }
            },
        }
    }

    /// publish every data tuple in the current window that is still
    /// unreleased, in insertion order, and mark each one released; an entry
    /// already released is never handed out again
    pub fn publish_all<P: Publisher<A>>(
        &mut self,
        publisher: &mut P,
        analysers: &mut Vec<Analyser<A>>,
    )
        requires
            old(self).wf(),
            analysers_wf(old(analysers)@),
        ensures
            final(self).wf(),
            final(self).same_but_flags_and_noiser(*old(self)),
            final(self).w_current.buffer@.len() == old(self).w_current.buffer@.len(),
            forall|i: int|
                0 <= i < final(self).w_current.buffer@.len() ==> (
                #[trigger] final(self).w_current.buffer@[i]).0
                    && final(self).w_current.buffer@[i].1 == old(self).w_current.buffer@[i].1,
            analysers_wf(final(analysers)@),
            final(analysers)@.len() == old(analysers)@.len(),
            final(publisher).sunk().len() == old(publisher).sunk().len() + pending_models(
                old(self).w_current.buffer@,
            ).len(),
            forall|l: int|
                0 <= l < old(publisher).sunk().len() ==> #[trigger] final(publisher).sunk()[l]
                    == old(publisher).sunk()[l],
            forall|l: int|
                0 <= l < pending_models(old(self).w_current.buffer@).len() ==> event_matches(
                    #[trigger] final(publisher).sunk()[old(publisher).sunk().len() + l],
                    pending_models(old(self).w_current.buffer@)[l],
                    old(self).uuid,
                ),
            forall|l: int|
                0 <= l < old(analysers)@.len() ==> crate::analysis::analyser::analyser_variant_kept(
                    old(analysers)@[l],
                    #[trigger] final(analysers)@[l],
                ),
    {
        let ghost oe = old(self).w_current.buffer@;
        let ghost sunk0 = publisher.sunk();
        proof {
            assert(oe.take(0).len() == 0);
            assert forall|l: int|
                0 <= l < old(analysers)@.len() implies crate::analysis::analyser::analyser_variant_kept(
                old(analysers)@[l],
                #[trigger] analysers@[l],
            ) by {
                crate::analysis::analyser::lemma_variant_kept_refl(analysers@[l]);
            }
        }
        let n = self.w_current.buffer.len();
        let mut i: usize = 0;
        while i < n
            invariant
                self.wf(),
                self.same_but_flags_and_noiser(*old(self)),
                analysers_wf(analysers@),
                analysers@.len() == old(analysers)@.len(),
                n == self.w_current.buffer@.len(),
                n == old(self).w_current.buffer@.len(),
                oe == old(self).w_current.buffer@,
                0 <= i <= n,
                forall|j: int|
                    0 <= j < i ==> (#[trigger] self.w_current.buffer@[j]).0
                        && self.w_current.buffer@[j].1 == old(self).w_current.buffer@[j].1,
                forall|j: int|
                    i <= j < n ==> #[trigger] self.w_current.buffer@[j] == old(self).w_current.buffer@[j],
                publisher.sunk().len() == sunk0.len() + pending_models(oe.take(i as int)).len(),
                forall|l: int|
                    0 <= l < sunk0.len() ==> #[trigger] publisher.sunk()[l] == sunk0[l],
                forall|l: int|
                    0 <= l < pending_models(oe.take(i as int)).len() ==> event_matches(
                        #[trigger] publisher.sunk()[sunk0.len() + l],
                        pending_models(oe.take(i as int))[l],
                        old(self).uuid,
                    ),
                forall|l: int|
                    0 <= l < old(analysers)@.len() ==> crate::analysis::analyser::analyser_variant_kept(
                        old(analysers)@[l],
                        #[trigger] analysers@[l],
                    ),
            decreases n - i,
        {
            proof {
                assert(oe.take(i + 1).drop_last() =~= oe.take(i as int));
                assert(oe.take(i + 1).last() == oe[i as int]);
            }
            let ghost sunk_pre = publisher.sunk();
            let ghost an_pre = analysers@;
            let released = self.w_current.buffer[i].0;
            if !released {
                let original = self.w_current.buffer[i].1.duplicate();
                self.publish_data(&original, publisher, analysers);
                proof {
                    assert(record_model(original) == record_model(oe[i as int].1));
                    assert(pending_models(oe.take(i + 1)) =~= pending_models(
                        oe.take(i as int),
                    ).push(record_model(oe[i as int].1)));
                    assert(publisher.sunk().len() == sunk_pre.len() + 1);
                    assert forall|l: int|
                        0 <= l < sunk_pre.len() implies #[trigger] publisher.sunk()[l]
                        == sunk_pre[l] by {
                        assert(publisher.sunk().drop_last() == sunk_pre);
                        assert(publisher.sunk().drop_last()[l] == publisher.sunk()[l]);
                    }
                    assert(sunk_pre.len() == sunk0.len() + pending_models(oe.take(i as int)).len());
                    assert(publisher.sunk()[sunk_pre.len() as int] == publisher.sunk().last());
                    assert forall|l: int|
                        0 <= l < old(analysers)@.len() implies crate::analysis::analyser::analyser_variant_kept(
                        old(analysers)@[l],
                        #[trigger] analysers@[l],
                    ) by {
                        crate::analysis::analyser::lemma_release_step_keeps_variant(
                            an_pre[l],
                            analysers@[l],
                            record_model(original),
                            publisher.sunk().last().0,
                        );
                        crate::analysis::analyser::lemma_variant_kept_trans(
                            old(analysers)@[l],
                            an_pre[l],
                            analysers@[l],
                        );
                    }
                }
            } else {
                proof {
                    assert(pending_models(oe.take(i + 1)) =~= pending_models(oe.take(i as int)));
                }
            }
            let ghost before = self.w_current.buffer@;
            let (_, rec) = self.w_current.buffer.remove(i);
            self.w_current.buffer.insert(i, (true, rec));
            proof {
                assert(self.w_current.buffer@ =~= before.update(i as int, (true, before[i as int].1)));
                assert(self.w_current.entry_qis() =~= before.map_values(
                    |e: crate::anonymization::buffer::DataContainer<A>| e.1.qis(),
                )) by {
                    assert forall|j: int|
                        0 <= j < self.w_current.buffer@.len() implies #[trigger] self.w_current.entry_qis()[j]
                        == before.map_values(
                        |e: crate::anonymization::buffer::DataContainer<A>| e.1.qis(),
                    )[j] by {
                        assert(self.w_current.entry_qis()[j] == self.w_current.buffer@[j].1.qis());
                    }
                }
            }
            i = i + 1;
        }
        proof {
            assert(oe.take(n as int) =~= oe);
        }
    }

    /// Everything except the window flags and the noiser's inner state is
    /// unchanged, and the windows keep their records.
    pub open spec fn same_but_flags_and_noiser(&self, prev: Self) -> bool {
        &&& self.uuid == prev.uuid
        &&& self.k == prev.k
        &&& self.l == prev.l
        &&& self.c == prev.c
        &&& self.centroid == prev.centroid
        &&& self.w_prev == prev.w_prev
        &&& self.categorical_freq == prev.categorical_freq
        &&& self.sensitive_freq == prev.sensitive_freq
        &&& self.complete_buffer_amount == prev.complete_buffer_amount
        &&& self.last_arrival == prev.last_arrival
        &&& self.w_current.max_buffer_size == prev.w_current.max_buffer_size
        &&& self.w_current.centroid == prev.w_current.centroid
        &&& same_records(self.w_current.buffer@, prev.w_current.buffer@)
    }

    /// publish a given data tuple looking at recursive (c,l)-diversity: a
    /// diverse cluster releases the noised centroid's QIs on the record, any
    /// other cluster suppresses the record; exactly one hand-off reaches the
    /// sink, carrying the record's sensitive value and timestamp under a
    /// released QI list of the record's shape, and every analyser takes the
    /// release's measurements
    fn publish_data<P: Publisher<A>>(
        &mut self,
        value: &A,
        publisher: &mut P,
        analysers: &mut Vec<Analyser<A>>,
    )
        requires
            old(self).wf(),
            value.wf(),
            analysers_wf(old(analysers)@),
        ensures
            final(self).wf(),
            final(self).same_but_noiser(*old(self)),
            analysers_wf(final(analysers)@),
            final(analysers)@.len() == old(analysers)@.len(),
            final(publisher).sunk().len() == old(publisher).sunk().len() + 1,
            final(publisher).sunk().drop_last() == old(publisher).sunk(),
            event_matches(
                final(publisher).sunk().last(),
                record_model(*value),
                old(self).uuid,
            ),
            forall|i: int|
                0 <= i < old(analysers)@.len() ==> analyser_release_step(
                    old(analysers)@[i],
                    #[trigger] final(analysers)@[i],
                    record_model(*value),
                    final(publisher).sunk().last().0,
                ),
    {
        proof {
            self.centroid.lemma_wf_qis();
            crate::data_manipulation::anonymizable::lemma_shape_seq_idempotent(
                self.centroid.qis(),
            );
            self.noiser.lemma_fits_shape(A::shape(), self.centroid.qis());
            value.lemma_wf_qis();
        }
        let diverse = self.check_l_recursive_diversity();
        let publish = if diverse {
            let centroid_qi = self.centroid.quasi_identifiers();
            let noised = self.noiser.add_noise(&centroid_qi);
            proof {
                assert forall|j: int| 0 <= j < value.qis().len() implies qi_update_ok(
                    value.qis()[j],
                    #[trigger] noised@[j],
                ) by {
                    assert(shape_seq(value.qis())[j] == qi_shape(value.qis()[j]));
                    assert(shape_seq(self.centroid.qis())[j] == qi_shape(
                        self.centroid.qis()[j],
                    ));
                    assert(qi_shape(noised@[j]) == qi_shape(self.centroid.qis()[j]));
                    assert(qi_wf(value.qis()[j]));
                    lemma_update_ok_pos(value.qis()[j], noised@[j]);
                }
                assert(update_ok(value.qis(), noised@));
            }
            let ghost noised0 = noised@;
            let p = value.update_quasi_identifiers(noised);
            proof {
                assert forall|j: int| 0 <= j < p.qis().len() implies qi_shape(
                    #[trigger] p.qis()[j],
                ) == qi_shape(value.qis()[j]) && qi_in_randomized_range(p.qis()[j]) by {
                    assert(p.qis()[j] == crate::data_manipulation::anonymizable::qi_with_value(
                        value.qis()[j],
                        crate::data_manipulation::anonymizable::qi_raw(noised0[j]),
                    ));
                    assert(shape_seq(value.qis())[j] == qi_shape(value.qis()[j]));
                    assert(shape_seq(self.centroid.qis())[j] == qi_shape(
                        self.centroid.qis()[j],
                    ));
                    assert(qi_shape(noised0[j]) == qi_shape(value.qis()[j]));
                    crate::anonymization::buffer::lemma_same_shape_with_value(
                        value.qis()[j],
                        noised0[j],
                    );
                    assert(p.qis()[j] == noised0[j]);
                }
            }
            p
        } else {
            let p = value.suppress();
            proof {
                assert forall|j: int| 0 <= j < p.qis().len() implies qi_shape(
                    #[trigger] p.qis()[j],
                ) == qi_shape(value.qis()[j]) && qi_in_randomized_range(p.qis()[j]) by {
                    assert(shape_seq(p.qis())[j] == qi_shape(p.qis()[j]));
                    assert(shape_seq(value.qis())[j] == qi_shape(value.qis()[j]));
                }
            }
            p
        };
        proof {
            crate::data_manipulation::anonymizable::lemma_shape_seq_idempotent(
                self.centroid.qis(),
            );
            self.noiser.lemma_fits_shape(self.centroid.qis(), A::shape());
        }
        let ghost morig = record_model(*value);
        let ghost rel = publish.qis();
        let mut dr: u64 = 0;
        let mut taken: Vec<Analyser<A>> = Vec::new();
        core::mem::swap(&mut taken, analysers);
        let ghost total = taken@.len();
        let mut remaining = taken.len();
        while remaining > 0
            invariant
                value.wf(),
                publish.wf(),
                morig == record_model(*value),
                rel == publish.qis(),
                publish.sens() == value.sens(),
                publish.ts() == value.ts(),
                remaining == taken@.len(),
                analysers@.len() + taken@.len() == total,
                total == old(analysers)@.len(),
                taken@ == old(analysers)@.skip(analysers@.len() as int),
                analysers_wf(analysers@),
                analysers_wf(taken@),
                forall|i: int|
                    0 <= i < analysers@.len() ==> analyser_release_step(
                        old(analysers)@[i],
                        #[trigger] analysers@[i],
                        morig,
                        rel,
                    ),
            decreases remaining,
        {
            proof {
                assert(crate::analysis::analyser::analyser_wf(taken@[0]));
                assert(taken@[0] == old(analysers)@[analysers@.len() as int]);
            }
            let ghost done = analysers@.len() as int;
            let analyser = taken.remove(0);
            match analyser {
                Analyser::Mse(mut mse) => {
                    let error = value.calculate_difference(&publish);
                    mse.add_error(error);
                    analysers.push(Analyser::Mse(mse));
                },
                Analyser::Sse(mut sse) => {
                    let error = value.calculate_info_loss(&publish);
                    sse.add_info_loss(error);
                    analysers.push(Analyser::Sse(sse));
                },
                Analyser::PublishingDelay(mut publishing_delay) => {
                    publishing_delay.add_delay(value);
                    analysers.push(Analyser::PublishingDelay(publishing_delay));
                },
                Analyser::DisclosureRiskAnalyser(mut disclosure_risk) => {
                    disclosure_risk.add_data(value.duplicate(), &publish);
                    dr = disclosure_risk.current_linkage_probability();
                    analysers.push(Analyser::DisclosureRiskAnalyser(disclosure_risk));
                },
                Analyser::ClusterAnalyser(cluster_analyser) => {
                    analysers.push(Analyser::ClusterAnalyser(cluster_analyser));
                },
            }
            proof {
                assert(analyser_release_step(old(analysers)@[done], analysers@[done], morig, rel));
                assert(taken@ =~= old(analysers)@.skip(analysers@.len() as int));
            }
            remaining = remaining - 1;
        }
        publisher.publish(publish, self.uuid, dr);
        proof {
            assert(publisher.sunk().last().0 == rel);
        }
    }

    /// Everything except the noiser's inner state is unchanged.
    pub open spec fn same_but_noiser(&self, prev: Self) -> bool {
        &&& self.uuid == prev.uuid
        &&& self.k == prev.k
        &&& self.l == prev.l
        &&& self.c == prev.c
        &&& self.centroid == prev.centroid
        &&& self.w_current == prev.w_current
        &&& self.w_prev == prev.w_prev
        &&& self.categorical_freq == prev.categorical_freq
        &&& self.sensitive_freq == prev.sensitive_freq
        &&& self.complete_buffer_amount == prev.complete_buffer_amount
        &&& self.last_arrival == prev.last_arrival
    }

    /// detect if the cluster is experiencing concept drift after the current
    /// window filled up: with an all-numeric stream the two windows'
    /// flattened values run through a two-sample Kolmogorov-Smirnov test,
    /// otherwise the distance between the two windows' centroids is held
    /// against the same critical value; a rejected null hypothesis resets
    /// the centroid to the previous window's, and the window always empties
    pub fn detect_concept_drift(&mut self)
        requires
            old(self).wf(),
            1 <= old(self).w_current.buffer@.len() <= MAX_BUFFER_BOUND + 1,
            1 <= old(self).w_prev.buffer@.len() <= MAX_BUFFER_BOUND + 1,
        ensures
            final(self).wf(),
            final(self).w_current.buffer@.len() == 0,
            final(self).w_prev == old(self).w_prev,
            final(self).sensitive_freq == old(self).sensitive_freq,
            final(self).categorical_freq == old(self).categorical_freq,
            final(self).complete_buffer_amount == old(self).complete_buffer_amount,
            final(self).uuid == old(self).uuid,
            final(self).k == old(self).k,
            final(self).l == old(self).l,
            final(self).c == old(self).c,
            final(self).noiser == old(self).noiser,
            final(self).last_arrival == old(self).last_arrival,
            final(self).w_current.max_buffer_size == old(self).w_current.max_buffer_size,
            ({
                let rejected = if old(self).categorical_freq@.len() == 0 {
                    ks_rejected(
                        spec_flatten(old(self).w_prev.entry_qis()),
                        spec_flatten(old(self).w_current.entry_qis()),
                    )
                } else {
                    distance_above_threshold(
                        crate::data_manipulation::anonymizable::spec_distance(
                            old(self).w_current.centroid.qis(),
                            old(self).w_prev.centroid.qis(),
                        ),
                        old(self).w_current.buffer@.len() as int,
                        old(self).w_prev.buffer@.len() as int,
                    )
                };
                if rejected {
                    final(self).w_current.centroid.qis() == old(self).w_prev.centroid.qis()
                        && final(self).centroid.qis() == old(self).w_prev.centroid.qis()
                } else {
                    final(self).w_current.centroid == old(self).w_current.centroid && final(self).centroid == old(self).centroid
                }
            }),
    {
        proof {
            self.w_current.centroid.lemma_wf_qis();
            self.w_prev.centroid.lemma_wf_qis();
            assert forall|i: int| 0 <= i < self.w_current.buffer@.len() implies (
            #[trigger] self.w_current.entry_qis()[i]).len() >= 1
                && self.w_current.entry_qis()[i].len() <= crate::data_manipulation::anonymizable::QI_LEN_BOUND by {
                self.w_current.buffer@[i].1.lemma_wf_qis();
                assert(self.w_current.entry_qis()[i] == self.w_current.buffer@[i].1.qis());
            }
            assert forall|i: int| 0 <= i < self.w_prev.buffer@.len() implies (
            #[trigger] self.w_prev.entry_qis()[i]).len() >= 1
                && self.w_prev.entry_qis()[i].len() <= crate::data_manipulation::anonymizable::QI_LEN_BOUND by {
                self.w_prev.buffer@[i].1.lemma_wf_qis();
                assert(self.w_prev.entry_qis()[i] == self.w_prev.buffer@[i].1.qis());
            }
        }
        let rejected = if self.categorical_freq.len() == 0 {
            let w_curr_qi = flatten_buffer_qi(&self.w_current);
            let w_prev_qi = flatten_buffer_qi(&self.w_prev);
            proof {
                lemma_flatten_len(self.w_current.entry_qis());
                lemma_flatten_len(self.w_prev.entry_qis());
            }
            ks_test_rejected(&w_prev_qi, &w_curr_qi)
        } else {
            let difference = self.w_current.centroid.calculate_difference(&self.w_prev.centroid);
            distance_exceeds_threshold(
                difference,
                self.w_current.buffer.len(),
                self.w_prev.buffer.len(),
            )
        };
        if rejected {
            let new_window_centroid = self.w_prev.centroid.duplicate();
            self.w_current.centroid = new_window_centroid;
            let new_centroid = self.w_current.centroid.duplicate();
            self.centroid = new_centroid;
        }
        self.w_current.reset();
    }

    /// the squared critical value of the two-sample Kolmogorov-Smirnov test
    /// at the ten percent level, as an exact fraction over the two window
    /// sizes
    pub fn calculate_threshold(&self) -> (r: (u128, u128))
        requires
            1 <= self.w_current.buffer@.len() <= MAX_BUFFER_BOUND + 1,
            1 <= self.w_prev.buffer@.len() <= MAX_BUFFER_BOUND + 1,
        ensures
            r.0 == 14_884 * (self.w_current.buffer@.len() + self.w_prev.buffer@.len()),
            r.1 == 10_000 * self.w_current.buffer@.len() * self.w_prev.buffer@.len(),
    {
        let curr_buff_size = self.w_current.buffer.len() as u128;
        let prev_buff_size = self.w_prev.buffer.len() as u128;
        proof {
            assert(10_000 * (curr_buff_size as int) * (prev_buff_size as int) <= 10_000 * (
            MAX_BUFFER_BOUND + 1) * (MAX_BUFFER_BOUND + 1)) by (nonlinear_arith)
                requires
                    1 <= curr_buff_size as int <= MAX_BUFFER_BOUND + 1,
                    1 <= prev_buff_size as int <= MAX_BUFFER_BOUND + 1,
            ;
            assert(0 <= 10_000 * (curr_buff_size as int) * (prev_buff_size as int))
                by (nonlinear_arith)
                requires
                    1 <= curr_buff_size as int,
                    1 <= prev_buff_size as int,
            ;
        }
        let scaled: u128 = 10_000 * curr_buff_size;
        proof {
            assert((scaled as int) * (prev_buff_size as int) <= 300_010_000 * 30_001)
                by (nonlinear_arith)
                requires
                    0 <= scaled as int <= 300_010_000,
                    0 <= prev_buff_size as int <= 30_001,
            ;
        }
        (14_884 * (curr_buff_size + prev_buff_size), scaled * prev_buff_size)
    }

    /// the per-position value range of the current window: for every QI
    /// position, the least and greatest raw value among the window's records
    pub fn print_domain_qis(&self) -> (r: Vec<(i64, i64)>)
        requires
            self.wf(),
            self.w_current.buffer@.len() >= 1,
        ensures
            r@.len() == A::shape().len(),
            forall|j: int|
                0 <= j < r@.len() ==> (#[trigger] r@[j]).0 as int == seq_min(
                    raw_values(column(self.w_current.entry_qis(), j)),
                ) && r@[j].1 as int == seq_max(
                    raw_values(column(self.w_current.entry_qis(), j)),
                ),
    {
        let ghost es = self.w_current.entry_qis();
        proof {
            assert forall|i: int| 0 <= i < self.w_current.buffer@.len() implies qis_wf(
                #[trigger] es[i],
            ) && es[i].len() == A::shape().len() by {
                self.w_current.buffer@[i].1.lemma_wf_qis();
                assert(es[i] == self.w_current.buffer@[i].1.qis());
                assert(es[i].len() == shape_seq(es[i]).len());
            }
        }
        let rows = self.w_current.buffer.len();
        let first = self.w_current.buffer[0].1.quasi_identifiers();
        let qn = first.len();
        let mut r: Vec<(i64, i64)> = Vec::new();
        let mut j: usize = 0;
        while j < qn
            invariant
                self.wf(),
                es == self.w_current.entry_qis(),
                rows == self.w_current.buffer@.len(),
                rows >= 1,
                qn == A::shape().len(),
                forall|i: int|
                    0 <= i < rows ==> qis_wf(#[trigger] es[i]) && es[i].len() == qn,
                0 <= j <= qn,
                r@.len() == j,
                forall|l: int|
                    0 <= l < j ==> (#[trigger] r@[l]).0 as int == seq_min(
                        raw_values(column(es, l)),
                    ) && r@[l].1 as int == seq_max(raw_values(column(es, l))),
            decreases qn - j,
        {
            let mut domain: Vec<i64> = Vec::new();
            let mut i: usize = 0;
            while i < rows
                invariant
                    self.wf(),
                    es == self.w_current.entry_qis(),
                    rows == self.w_current.buffer@.len(),
                    0 <= j < qn,
                    forall|k: int|
                        0 <= k < rows ==> qis_wf(#[trigger] es[k]) && es[k].len() == qn,
                    0 <= i <= rows,
                    domain@.len() == i,
                    forall|k: int|
                        0 <= k < i ==> #[trigger] domain@[k]
                            == crate::data_manipulation::anonymizable::qi_raw(es[k][j as int]),
                decreases rows - i,
            {
                let row = self.w_current.buffer[i].1.quasi_identifiers();
                proof {
                    assert(es[i as int] == self.w_current.buffer@[i as int].1.qis());
                }
                domain.push(row[j].extract_value());
                i = i + 1;
            }
            proof {
                assert(domain@ =~= raw_values(column(es, j as int))) by {
                    assert forall|k: int| 0 <= k < rows implies domain@[k] == raw_values(
                        column(es, j as int),
                    )[k] by {
                        assert(column(es, j as int)[k] == es[k][j as int]);
                    }
                }
            }
            let max = crate::noise::laplace::numerical_noiser::max_of(&domain);
            let min = crate::noise::laplace::numerical_noiser::min_of(&domain);
            r.push((min, max));
            j = j + 1;
        }
        r
    }

    /// the count recorded for one code at one QI position
    pub fn categorical_count(&self, position: usize, code: i64) -> (r: u64)
        requires
            positions_unique(self.categorical_freq@),
            forall|i: int|
                0 <= i < self.categorical_freq@.len() ==> codes_unique(
                    (#[trigger] self.categorical_freq@[i]).1@,
                ),
        ensures
            r as int == cat_count(self.categorical_freq@, position as int, code),
    {
        let n = self.categorical_freq.len();
        let mut i: usize = 0;
        while i < n
            invariant
                positions_unique(self.categorical_freq@),
                forall|ii: int|
                    0 <= ii < self.categorical_freq@.len() ==> codes_unique(
                        (#[trigger] self.categorical_freq@[ii]).1@,
                    ),
                n == self.categorical_freq@.len(),
                0 <= i <= n,
                forall|j: int| 0 <= j < i ==> (#[trigger] self.categorical_freq@[j]).0 != position,
            decreases n - i,
        {
            if self.categorical_freq[i].0 == position {
                let m = self.categorical_freq[i].1.len();
                let mut j: usize = 0;
                while j < m
                    invariant
                        positions_unique(self.categorical_freq@),
                        0 <= i < self.categorical_freq@.len(),
                        self.categorical_freq@[i as int].0 == position,
                        codes_unique(self.categorical_freq@[i as int].1@),
                        m == self.categorical_freq@[i as int].1@.len(),
                        0 <= j <= m,
                        forall|l: int|
                            0 <= l < j ==> (#[trigger] self.categorical_freq@[i as int].1@[l]).0
                                != code,
                    decreases m - j,
                {
                    if self.categorical_freq[i].1[j].0 == code {
                        let cnt = self.categorical_freq[i].1[j].1;
                        proof {
                            lemma_cat_count_found(
                                self.categorical_freq@,
                                i as int,
                                j as int,
                                position as int,
                                code,
                            );
                        }
                        return cnt;
                    }
                    j = j + 1;
                }
                proof {
                    lemma_cat_count_no_code(
                        self.categorical_freq@,
                        i as int,
                        position as int,
                        code,
                    );
                }
                return 0;
            }
            i = i + 1;
        }
        proof {
            lemma_cat_count_absent(self.categorical_freq@, position as int, code);
        }
        0
    }

    /// calculate the duration since the last arrival, in nanoseconds; a
    /// clock that went backwards reads as no age at all
    pub fn check_cluster_life_time(&self) -> (r: u64) {
        let now = now_nanos();
        if now >= self.last_arrival {
            now - self.last_arrival
        } else {
            0
        }
    }

    /// whether the current window has reached its capacity
    pub fn is_full(&self) -> (r: bool)
        ensures
            r == (self.w_current.buffer@.len() >= self.w_current.max_buffer_size),
    {
        self.w_current.is_full()
    }

    /// Only the categorical frequency map changed.
    pub open spec fn unchanged_but_cat(&self, prev: Self) -> bool {
        &&& self.sensitive_freq == prev.sensitive_freq
        &&& self.complete_buffer_amount == prev.complete_buffer_amount
        &&& self.w_current == prev.w_current
        &&& self.w_prev == prev.w_prev
        &&& self.centroid == prev.centroid
        &&& self.noiser == prev.noiser
        &&& self.uuid == prev.uuid
        &&& self.k == prev.k
        &&& self.l == prev.l
        &&& self.c == prev.c
        &&& self.last_arrival == prev.last_arrival
    }

    /// Only the sensitive frequency map changed.
    pub open spec fn unchanged_but_sens(&self, prev: Self) -> bool {
        &&& self.categorical_freq == prev.categorical_freq
        &&& self.complete_buffer_amount == prev.complete_buffer_amount
        &&& self.w_current == prev.w_current
        &&& self.w_prev == prev.w_prev
        &&& self.centroid == prev.centroid
        &&& self.noiser == prev.noiser
        &&& self.uuid == prev.uuid
        &&& self.k == prev.k
        &&& self.l == prev.l
        &&& self.c == prev.c
        &&& self.last_arrival == prev.last_arrival
    }

    /// What update_sensitive_frequency needs of the cluster.
    pub open spec fn wf_sens_only(&self) -> bool {
        sens_keys_unique(self.sensitive_freq@)
    }

    /// The sum of the counts stays below the machine bound.
    pub open spec fn sum_bound(&self) -> bool {
        sum_counts(self.sensitive_freq@) < usize::MAX
    }
}

/// bump the count of one code in a position's frequency map
fn bump_code(inner: &mut Vec<(i64, u64)>, code: i64)
    requires
        codes_unique(old(inner)@),
        cat_sum(old(inner)@) < usize::MAX,
    ensures
        codes_unique(final(inner)@),
        cat_sum(final(inner)@) == cat_sum(old(inner)@) + 1,
        forall|cd: i64| #[trigger] code_count(final(inner)@, cd) == code_count(old(inner)@, cd)
            + (if cd == code {
                1int
            } else {
                0int
            }),
{
    let n = inner.len();
    let mut j: usize = 0;
    while j < n
        invariant
            inner == old(inner),
            cat_sum(old(inner)@) < usize::MAX,
            codes_unique(inner@),
            n == inner@.len(),
            0 <= j <= n,
            forall|l: int| 0 <= l < j ==> (#[trigger] inner@[l]).0 != code,
        decreases n - j,
    {
        if inner[j].0 == code {
            let cnt = inner[j].1;
            proof {
                lemma_cat_sum_le(inner@, j as int);
            }
            inner.set(j, (code, cnt + 1));
            proof {
                lemma_cat_sum_update(old(inner)@, j as int, (code, (cnt + 1) as u64));
                assert forall|cd: i64| #[trigger] code_count(inner@, cd) == code_count(
                    old(inner)@,
                    cd,
                ) + (if cd == code {
                    1int
                } else {
                    0int
                }) by {
                    lemma_code_count_update(old(inner)@, j as int, (code, (cnt + 1) as u64), cd);
                }
                assert forall|a: int, b: int|
                    0 <= a < b < inner@.len() implies inner@[a].0 != inner@[b].0 by {
                    assert(old(inner)@[a].0 != old(inner)@[b].0);
                }
            }
            return ;
        }
        j = j + 1;
    }
    proof {
        assert forall|cd: i64| #[trigger] code_count(inner@.push((code, 1u64)), cd) == code_count(
            inner@,
            cd,
        ) + (if cd == code {
            1int
        } else {
            0int
        }) by {
            assert(inner@.push((code, 1u64)).drop_last() =~= inner@);
        }
        assert(inner@.push((code, 1u64)).drop_last() =~= inner@);
    }
    inner.push((code, 1));
}

/// Every single inner count is at most the inner total.
proof fn lemma_cat_sum_le(m: Seq<(i64, u64)>, i: int)
    requires
        0 <= i < m.len(),
    ensures
        m[i].1 <= cat_sum(m),
        cat_sum(m) >= 0,
    decreases m.len(),
{
    if m.len() > 0 {
        if i == m.len() - 1 {
            lemma_cat_sum_nonneg(m.drop_last());
        } else {
            lemma_cat_sum_le(m.drop_last(), i);
        }
    }
}

/// An inner sum of counts is never negative.
proof fn lemma_cat_sum_nonneg(m: Seq<(i64, u64)>)
    ensures
        cat_sum(m) >= 0,
    decreases m.len(),
{
    if m.len() > 0 {
        lemma_cat_sum_nonneg(m.drop_last());
    }
}

/// Largest flattened sample the drift test takes.
pub const KS_SAMPLE_BOUND: usize = 123_000_000;

/// The raw QI values of a window's records, flattened in buffer order.
pub open spec fn spec_flatten(es: Seq<Seq<QuasiIdentifierTypes>>) -> Seq<i64>
    decreases es.len(),
{
    if es.len() == 0 {
        Seq::empty()
    } else {
        spec_flatten(es.drop_last()) + raw_values(es.last())
    }
}

/// A flattened window holds one value per record and QI position.
proof fn lemma_flatten_len(es: Seq<Seq<QuasiIdentifierTypes>>)
    requires
        forall|i: int|
            1 <= (#[trigger] es[i]).len()
                <= crate::data_manipulation::anonymizable::QI_LEN_BOUND || !(0 <= i < es.len()),
    ensures
        es.len() <= spec_flatten(es).len() <= es.len()
            * crate::data_manipulation::anonymizable::QI_LEN_BOUND,
    decreases es.len(),
{
    if es.len() > 0 {
        lemma_flatten_len(es.drop_last());
        assert(es.last() == es[es.len() - 1]);
        assert(raw_values(es.last()).len() == es.last().len());
        assert((es.len() - 1) * crate::data_manipulation::anonymizable::QI_LEN_BOUND
            + crate::data_manipulation::anonymizable::QI_LEN_BOUND == es.len()
            * crate::data_manipulation::anonymizable::QI_LEN_BOUND) by (nonlinear_arith);
    }
}

/// How many sample values lie at or below `t`.
pub open spec fn cnt_le(s: Seq<i64>, t: i64) -> int
    decreases s.len(),
{
    if s.len() == 0 {
        0
    } else {
        cnt_le(s.drop_last(), t) + if s.last() <= t {
            1int
        } else {
            0int
        }
    }
}

/// No more values lie below a point than there are values.
proof fn lemma_cnt_le_bound(s: Seq<i64>, t: i64)
    ensures
        0 <= cnt_le(s, t) <= s.len(),
    decreases s.len(),
{
    if s.len() > 0 {
        lemma_cnt_le_bound(s.drop_last(), t);
    }
}

/// The deviation of the two samples' empirical distributions at `t`, scaled
/// by the product of the sample sizes.
pub open spec fn ks_dev(xs: Seq<i64>, ys: Seq<i64>, t: i64) -> int {
    crate::data_manipulation::anonymizable::abs_diff(
        cnt_le(xs, t) * ys.len(),
        cnt_le(ys, t) * xs.len(),
    )
}

/// The greatest deviation over the candidate evaluation points.
pub open spec fn max_dev(xs: Seq<i64>, ys: Seq<i64>, cands: Seq<i64>) -> int
    decreases cands.len(),
{
    if cands.len() == 0 {
        0
    } else {
        vstd::math::max(max_dev(xs, ys, cands.drop_last()), ks_dev(xs, ys, cands.last()))
    }
}

/// The two-sample Kolmogorov-Smirnov statistic, scaled by the product of the
/// sample sizes: the empirical distributions deviate most at one of the
/// sample values.
pub open spec fn ks_stat(xs: Seq<i64>, ys: Seq<i64>) -> int {
    max_dev(xs, ys, xs + ys)
}

/// The null hypothesis is rejected at the ten percent level: the statistic
/// exceeds 1.22 * sqrt((n + m) / (n * m)), decided exactly by squaring both
/// sides.
pub open spec fn ks_rejected(xs: Seq<i64>, ys: Seq<i64>) -> bool {
    10_000 * ks_stat(xs, ys) * ks_stat(xs, ys) > 14_884 * (xs.len() + ys.len()) * xs.len()
        * ys.len()
}

/// A scaled distance exceeds the same critical value, decided exactly by
/// squaring both sides.
pub open spec fn distance_above_threshold(d_nanos: int, n: int, m: int) -> bool {
    10_000 * d_nanos * d_nanos * n * m > 14_884 * (n + m) * 1_000_000_000 * 1_000_000_000
}

/// count how many sample values lie at or below `t`
fn count_le_exec(v: &Vec<i64>, t: i64) -> (c: usize)
    ensures
        c as int == cnt_le(v@, t),
{
    let mut c: usize = 0;
    let mut i: usize = 0;
    let n = v.len();
    proof {
        assert(v@.take(0).len() == 0);
    }
    while i < n
        invariant
            n == v@.len(),
            0 <= i <= n,
            c as int == cnt_le(v@.take(i as int), t),
            c <= i,
        decreases n - i,
    {
        proof {
            assert(v@.take(i + 1).drop_last() =~= v@.take(i as int));
            assert(v@.take(i + 1).last() == v@[i as int]);
        }
        if v[i] <= t {
            c = c + 1;
        }
        i = i + 1;
    }
    proof {
        assert(v@.take(n as int) =~= v@);
    }
    c
}

/// decide the two-sample Kolmogorov-Smirnov test exactly: the greatest
/// deviation of the two empirical distributions is held against the critical
/// value at the ten percent level by integer cross-multiplication
fn ks_test_rejected(xs: &Vec<i64>, ys: &Vec<i64>) -> (r: bool)
    requires
        1 <= xs@.len() <= KS_SAMPLE_BOUND,
        1 <= ys@.len() <= KS_SAMPLE_BOUND,
    ensures
        r == ks_rejected(xs@, ys@),
{
    let nx = xs.len();
    let ny = ys.len();
    let ghost cands = xs@ + ys@;
    let mut dmax: u128 = 0;
    let mut c: usize = 0;
    proof {
        assert(cands.take(0).len() == 0);
    }
    while c < nx + ny
        invariant
            nx == xs@.len(),
            ny == ys@.len(),
            1 <= nx <= KS_SAMPLE_BOUND,
            1 <= ny <= KS_SAMPLE_BOUND,
            cands == xs@ + ys@,
            0 <= c <= nx + ny,
            dmax as int == max_dev(xs@, ys@, cands.take(c as int)),
            dmax as int <= (nx as int) * (ny as int),
        decreases nx + ny - c,
    {
        let t: i64 = if c < nx {
            xs[c]
        } else {
            ys[c - nx]
        };
        proof {
            assert(cands.take(c + 1).drop_last() =~= cands.take(c as int));
            assert(cands.take(c + 1).last() == cands[c as int]);
            assert(cands[c as int] == t);
            lemma_cnt_le_bound(xs@, t);
            lemma_cnt_le_bound(ys@, t);
            assert(cnt_le(xs@, t) * (ny as int) <= (nx as int) * (ny as int)) by (nonlinear_arith)
                requires
                    0 <= cnt_le(xs@, t) <= nx as int,
                    0 <= ny as int,
            ;
            assert(cnt_le(ys@, t) * (nx as int) <= (ny as int) * (nx as int)) by (nonlinear_arith)
                requires
                    0 <= cnt_le(ys@, t) <= ny as int,
                    0 <= nx as int,
            ;
            assert((nx as int) * (ny as int) <= KS_SAMPLE_BOUND * KS_SAMPLE_BOUND)
                by (nonlinear_arith)
                requires
                    1 <= nx as int <= KS_SAMPLE_BOUND,
                    1 <= ny as int <= KS_SAMPLE_BOUND,
            ;
            assert((ny as int) * (nx as int) == (nx as int) * (ny as int)) by (nonlinear_arith);
        }
        let cx = count_le_exec(xs, t) as u128;
        let cy = count_le_exec(ys, t) as u128;
        let a = cx * (ny as u128);
        let b = cy * (nx as u128);
        let dev: u128 = if a >= b {
            a - b
        } else {
            b - a
        };
        if dev > dmax {
            dmax = dev;
        }
        c = c + 1;
    }
    proof {
        assert(cands.take((nx + ny) as int) =~= cands);
        assert((nx as int) * (ny as int) <= KS_SAMPLE_BOUND * KS_SAMPLE_BOUND)
            by (nonlinear_arith)
            requires
                1 <= nx as int <= KS_SAMPLE_BOUND,
                1 <= ny as int <= KS_SAMPLE_BOUND,
        ;
        assert(0 <= 10_000 * (dmax as int) * (dmax as int) <= 10_000 * ((KS_SAMPLE_BOUND as int)
            * (KS_SAMPLE_BOUND as int)) * ((KS_SAMPLE_BOUND as int) * (KS_SAMPLE_BOUND as int)))
            by (nonlinear_arith)
            requires
                0 <= dmax as int <= (KS_SAMPLE_BOUND as int) * (KS_SAMPLE_BOUND as int),
        ;
        assert(0 <= 14_884 * ((nx + ny) as int) * (nx as int) * (ny as int) <= 14_884 * (2
            * (KS_SAMPLE_BOUND as int)) * (KS_SAMPLE_BOUND as int) * (KS_SAMPLE_BOUND as int))
            by (nonlinear_arith)
            requires
                1 <= nx as int <= KS_SAMPLE_BOUND,
                1 <= ny as int <= KS_SAMPLE_BOUND,
        ;
    }
    proof {
        let nm = (KS_SAMPLE_BOUND as int) * (KS_SAMPLE_BOUND as int);
        assert(0 <= 10_000 * (dmax as int) <= 10_000 * nm) by (nonlinear_arith)
            requires
                0 <= dmax as int <= nm,
        ;
        assert(0 <= (10_000 * (dmax as int)) * (dmax as int) <= (10_000 * nm) * nm)
            by (nonlinear_arith)
            requires
                0 <= dmax as int <= nm,
                0 <= 10_000 * (dmax as int) <= 10_000 * nm,
        ;
        let s1 = 14_884 * ((nx as int) + (ny as int));
        assert(0 <= s1 * (nx as int) <= (14_884 * 2 * (KS_SAMPLE_BOUND as int)) * (
        KS_SAMPLE_BOUND as int)) by (nonlinear_arith)
            requires
                1 <= nx as int <= KS_SAMPLE_BOUND,
                1 <= ny as int <= KS_SAMPLE_BOUND,
                s1 == 14_884 * ((nx as int) + (ny as int)),
        ;
        assert(0 <= s1 * (nx as int) * (ny as int) <= (14_884 * 2 * (KS_SAMPLE_BOUND as int))
            * (KS_SAMPLE_BOUND as int) * (KS_SAMPLE_BOUND as int)) by (nonlinear_arith)
            requires
                1 <= ny as int <= KS_SAMPLE_BOUND,
                0 <= s1 * (nx as int) <= (14_884 * 2 * (KS_SAMPLE_BOUND as int)) * (
                KS_SAMPLE_BOUND as int),
        ;
    }
    let lhs: u128 = 10_000 * dmax * dmax;
    let rhs: u128 = 14_884 * ((nx as u128) + (ny as u128)) * (nx as u128) * (ny as u128);
    lhs > rhs
}

/// decide whether a scaled centroid distance exceeds the drift critical
/// value for the two window sizes, by integer cross-multiplication
fn distance_exceeds_threshold(d: u128, n: usize, m: usize) -> (r: bool)
    requires
        1 <= n <= MAX_BUFFER_BOUND + 1,
        1 <= m <= MAX_BUFFER_BOUND + 1,
    ensures
        r == distance_above_threshold(d as int, n as int, m as int),
{
    if d >= 2_000_000_000 {
        proof {
            assert(10_000 * (d as int) * (d as int) * (n as int) * (m as int) > 14_884 * ((n
                as int) + (m as int)) * 1_000_000_000 * 1_000_000_000) by (nonlinear_arith)
                requires
                    d as int >= 2_000_000_000,
                    1 <= n as int <= MAX_BUFFER_BOUND + 1,
                    1 <= m as int <= MAX_BUFFER_BOUND + 1,
            ;
        }
        true
    } else {
        let scaled: u128 = 10_000 * d;
        proof {
            assert((scaled as int) * (d as int) <= 20_000_000_000_000 * 2_000_000_000)
                by (nonlinear_arith)
                requires
                    0 <= scaled as int <= 20_000_000_000_000,
                    0 <= (d as int) < 2_000_000_000,
            ;
        }
        let sq: u128 = scaled * d;
        proof {
            assert((sq as int) * (n as int) <= 40_000_000_000_000_000_000_000 * 30_001)
                by (nonlinear_arith)
                requires
                    0 <= sq as int <= 40_000_000_000_000_000_000_000,
                    0 <= n as int <= 30_001,
            ;
        }
        let with_n: u128 = sq * (n as u128);
        proof {
            assert((with_n as int) * (m as int) <= 1_200_040_000_000_000_000_000_000_000
                * 30_001) by (nonlinear_arith)
                requires
                    0 <= with_n as int <= 1_200_040_000_000_000_000_000_000_000,
                    0 <= m as int <= 30_001,
            ;
        }
        let lhs: u128 = with_n * (m as u128);
        let rhs: u128 = 14_884 * ((n as u128) + (m as u128)) * 1_000_000_000 * 1_000_000_000;
        lhs > rhs
    }
}

/// flatten every raw QI value of the window's records, in buffer order
fn flatten_buffer_qi<M: Anonymizable>(buffer: &Buffer<M>) -> (r: Vec<i64>)
    requires
        buffer.entries_wf(),
    ensures
        r@ == spec_flatten(buffer.entry_qis()),
{
    let ghost es = buffer.entry_qis();
    proof {
        assert forall|i: int| 0 <= i < buffer.buffer@.len() implies (#[trigger] es[i])
            == buffer.buffer@[i].1.qis() by {
        }
    }
    let rows = buffer.buffer.len();
    let mut r: Vec<i64> = Vec::new();
    let mut i: usize = 0;
    proof {
        assert(es.take(0).len() == 0);
        assert(r@ =~= spec_flatten(es.take(0)));
    }
    while i < rows
        invariant
            buffer.entries_wf(),
            es == buffer.entry_qis(),
            rows == buffer.buffer@.len(),
            0 <= i <= rows,
            r@ == spec_flatten(es.take(i as int)),
        decreases rows - i,
    {
        let row = buffer.buffer[i].1.quasi_identifiers();
        proof {
            assert(es[i as int] == buffer.buffer@[i as int].1.qis());
            assert(row@ == es[i as int]);
        }
        let cols = row.len();
        let ghost before = r@;
        let mut j: usize = 0;
        while j < cols
            invariant
                cols == row@.len(),
                0 <= j <= cols,
                r@ == before + raw_values(row@).take(j as int),
            decreases cols - j,
        {
            proof {
                assert(raw_values(row@).take(j + 1) =~= raw_values(row@).take(j as int).push(
                    crate::data_manipulation::anonymizable::qi_raw(row@[j as int]),
                ));
            }
            r.push(row[j].extract_value());
            proof {
                assert(r@ =~= before + raw_values(row@).take(j + 1));
            }
            j = j + 1;
        }
        proof {
            assert(raw_values(row@).take(cols as int) =~= raw_values(row@));
            assert(es.take(i + 1).drop_last() =~= es.take(i as int));
            assert(es.take(i + 1).last() == es[i as int]);
            assert(r@ =~= spec_flatten(es.take(i + 1)));
        }
        i = i + 1;
    }
    proof {
        assert(es.take(rows as int) =~= es);
    }
    r
}

/// A map without the position records nothing for it.
proof fn lemma_cat_count_absent(c: Seq<(usize, Vec<(i64, u64)>)>, p: int, code: i64)
    requires
        !has_position(c, p),
    ensures
        cat_count(c, p, code) == 0,
    decreases c.len(),
{
    if c.len() > 0 {
        assert(!has_position(c.drop_last(), p)) by {
            if has_position(c.drop_last(), p) {
                let i = choose|i: int|
                    0 <= i < c.drop_last().len() && (#[trigger] c.drop_last()[i]).0 == p;
                assert(c[i].0 == p);
            }
        }
        lemma_cat_count_absent(c.drop_last(), p, code);
        assert(c.last().0 != p) by {
            if c.last().0 == p {
                assert(c[c.len() - 1].0 == p);
            }
        }
    }
}

/// Under unique positions, the count at an entry's position is that entry's
/// inner count.
proof fn lemma_cat_count_unique_entry(c: Seq<(usize, Vec<(i64, u64)>)>, i: int, code: i64)
    requires
        positions_unique(c),
        0 <= i < c.len(),
    ensures
        cat_count(c, c[i].0 as int, code) == code_count(c[i].1@, code),
    decreases c.len(),
{
    if i == c.len() - 1 {
        assert(!has_position(c.drop_last(), c[i].0 as int)) by {
            if has_position(c.drop_last(), c[i].0 as int) {
                let j = choose|j: int|
                    0 <= j < c.drop_last().len() && (#[trigger] c.drop_last()[j]).0 == c[i].0;
                assert(c[j].0 == c[i].0);
            }
        }
        lemma_cat_count_absent(c.drop_last(), c[i].0 as int, code);
    } else {
        assert(positions_unique(c.drop_last()));
        lemma_cat_count_unique_entry(c.drop_last(), i, code);
        assert(c.last().0 != c[i].0);
    }
}

/// An inner map that holds the code at an index counts that entry's count.
proof fn lemma_code_count_found(m: Seq<(i64, u64)>, j: int, code: i64)
    requires
        codes_unique(m),
        0 <= j < m.len(),
        m[j].0 == code,
    ensures
        code_count(m, code) == m[j].1,
    decreases m.len(),
{
    if j == m.len() - 1 {
        assert forall|l: int| 0 <= l < m.drop_last().len() implies (#[trigger] m.drop_last()[l]).0
            != code by {
            assert(m[l].0 != m[j].0);
        }
        lemma_code_count_none(m.drop_last(), code);
    } else {
        assert(codes_unique(m.drop_last()));
        lemma_code_count_found(m.drop_last(), j, code);
        assert(m.last().0 != m[j].0);
    }
}

/// An inner map without the code counts nothing for it.
proof fn lemma_code_count_none(m: Seq<(i64, u64)>, code: i64)
    requires
        forall|l: int| 0 <= l < m.len() ==> (#[trigger] m[l]).0 != code,
    ensures
        code_count(m, code) == 0,
    decreases m.len(),
{
    if m.len() > 0 {
        lemma_code_count_none(m.drop_last(), code);
    }
}

/// The count of a code found in the map is the found entry's count.
proof fn lemma_cat_count_found(
    c: Seq<(usize, Vec<(i64, u64)>)>,
    i: int,
    j: int,
    p: int,
    code: i64,
)
    requires
        positions_unique(c),
        0 <= i < c.len(),
        c[i].0 == p,
        codes_unique(c[i].1@),
        0 <= j < c[i].1@.len(),
        c[i].1@[j].0 == code,
    ensures
        cat_count(c, p, code) == c[i].1@[j].1,
{
    lemma_cat_count_unique_entry(c, i, code);
    lemma_code_count_found(c[i].1@, j, code);
}

/// The count of a code the position's entry does not hold is zero.
proof fn lemma_cat_count_no_code(c: Seq<(usize, Vec<(i64, u64)>)>, i: int, p: int, code: i64)
    requires
        positions_unique(c),
        0 <= i < c.len(),
        c[i].0 == p,
        forall|l: int| 0 <= l < c[i].1@.len() ==> (#[trigger] c[i].1@[l]).0 != code,
    ensures
        cat_count(c, p, code) == 0,
{
    lemma_cat_count_unique_entry(c, i, code);
    lemma_code_count_none(c[i].1@, code);
}

/// The models of a window's still-unreleased records, in insertion order.
pub open spec fn pending_models<A: Anonymizable>(
    entries: Seq<crate::anonymization::buffer::DataContainer<A>>,
) -> Seq<crate::data_manipulation::anonymizable::RecordModel>
    decreases entries.len(),
{
    if entries.len() == 0 {
        Seq::empty()
    } else {
        pending_models(entries.drop_last()) + if !entries.last().0 {
            seq![crate::data_manipulation::anonymizable::record_model(entries.last().1)]
        } else {
            Seq::empty()
        }
    }
}

/// A hand-off releases the given record from the given cluster: the sink
/// event keeps the record's sensitive model and timestamp, names the
/// cluster, and carries a released QI list of the record's own shape whose
/// values lie in their randomization ranges.
pub open spec fn event_matches(
    ev: crate::publishing::publisher::SinkEvent,
    m: crate::data_manipulation::anonymizable::RecordModel,
    uuid: u128,
) -> bool {
    &&& ev.1 == m.1
    &&& ev.2 == m.2
    &&& ev.3 == uuid
    &&& ev.0.len() == m.0.len()
    &&& forall|i: int|
        0 <= i < ev.0.len() ==> qi_shape(#[trigger] ev.0[i]) == qi_shape(m.0[i])
            && qi_in_randomized_range(ev.0[i])
}

/// Entry lists that agree flag by flag and model by model pend the same
/// releases.
pub proof fn lemma_pending_models_same_entries<A: Anonymizable>(
    a: Seq<crate::anonymization::buffer::DataContainer<A>>,
    b: Seq<crate::anonymization::buffer::DataContainer<A>>,
)
    requires
        same_entries(a, b),
    ensures
        pending_models(a) == pending_models(b),
    decreases a.len(),
{
    if a.len() > 0 {
        assert(same_entries(a.drop_last(), b.drop_last())) by {
            assert forall|i: int|
                0 <= i < a.drop_last().len() implies (#[trigger] a.drop_last()[i]).0
                == b.drop_last()[i].0 && a.drop_last()[i].1.qis() == b.drop_last()[i].1.qis()
                && a.drop_last()[i].1.sens() == b.drop_last()[i].1.sens()
                && a.drop_last()[i].1.ts() == b.drop_last()[i].1.ts() by {
                assert(a[i].0 == b[i].0 && a[i].1.qis() == b[i].1.qis() && a[i].1.sens()
                    == b[i].1.sens() && a[i].1.ts() == b[i].1.ts());
            }
        }
        lemma_pending_models_same_entries(a.drop_last(), b.drop_last());
        assert(a[a.len() - 1].0 == b[a.len() - 1].0 && a[a.len() - 1].1.qis() == b[a.len()
            - 1].1.qis() && a[a.len() - 1].1.sens() == b[a.len() - 1].1.sens() && a[a.len()
            - 1].1.ts() == b[a.len() - 1].1.ts());
        assert(pending_models(a) =~= pending_models(b));
    } else {
        assert(pending_models(a) =~= pending_models(b));
    }
}

/// A key's count never exceeds the total of all counts.
pub proof fn lemma_sens_count_le_sum(s: Seq<(SensitiveAttribute, u64)>, key: SensKey)
    ensures
        0 <= sens_count(s, key) <= sum_counts(s),
    decreases s.len(),
{
    if s.len() > 0 {
        lemma_sens_count_le_sum(s.drop_last(), key);
    }
}

/// A window whose entries are all released pends no releases.
pub proof fn lemma_pending_models_all_released<A: Anonymizable>(
    entries: Seq<crate::anonymization::buffer::DataContainer<A>>,
)
    requires
        forall|i: int| 0 <= i < entries.len() ==> (#[trigger] entries[i]).0,
    ensures
        pending_models(entries) == Seq::<crate::data_manipulation::anonymizable::RecordModel>::empty(),
    decreases entries.len(),
{
    if entries.len() > 0 {
        assert(entries[entries.len() - 1].0);
        lemma_pending_models_all_released(entries.drop_last());
        assert(pending_models(entries) =~= Seq::<
            crate::data_manipulation::anonymizable::RecordModel,
        >::empty());
    } else {
        assert(pending_models(entries) =~= Seq::<
            crate::data_manipulation::anonymizable::RecordModel,
        >::empty());
    }
}

/// The records of two entry lists agree pairwise, flags aside.
pub open spec fn same_records<M: Anonymizable>(
    a: Seq<crate::anonymization::buffer::DataContainer<M>>,
    b: Seq<crate::anonymization::buffer::DataContainer<M>>,
) -> bool {
    &&& a.len() == b.len()
    &&& forall|i: int| 0 <= i < a.len() ==> (#[trigger] a[i]).1 == b[i].1
}

/// A noised QI of a position's shape may replace the record's own QI there.
proof fn lemma_update_ok_pos(cur: QuasiIdentifierTypes, given: QuasiIdentifierTypes)
    requires
        qi_wf(cur),
        qi_shape(given) == qi_shape(cur),
        qi_in_randomized_range(given),
    ensures
        qi_update_ok(cur, given),
{
}

/// The least count of a non-empty map is between zero and the total.
proof fn lemma_min_count_le_sum(s: Seq<(SensitiveAttribute, u64)>)
    requires
        s.len() >= 1,
    ensures
        0 <= min_count(s) <= sum_counts(s),
    decreases s.len(),
{
    if s.len() == 1 {
        assert(s.drop_last().len() == 0);
        assert(sum_counts(s.drop_last()) == 0);
    } else {
        lemma_min_count_le_sum(s.drop_last());
    }
}

/// Every single count is at most the total.
proof fn lemma_sum_counts_le(s: Seq<(SensitiveAttribute, u64)>, i: int)
    requires
        0 <= i < s.len(),
    ensures
        s[i].1 <= sum_counts(s),
        sum_counts(s) >= 0,
    decreases s.len(),
{
    if s.len() > 0 {
        if i == s.len() - 1 {
            lemma_sum_counts_nonneg(s.drop_last());
        } else {
            lemma_sum_counts_le(s.drop_last(), i);
        }
    }
}

/// A sum of counts is never negative.
proof fn lemma_sum_counts_nonneg(s: Seq<(SensitiveAttribute, u64)>)
    ensures
        sum_counts(s) >= 0,
    decreases s.len(),
{
    if s.len() > 0 {
        lemma_sum_counts_nonneg(s.drop_last());
    }
}

} // verus!
