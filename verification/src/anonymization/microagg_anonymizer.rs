use vstd::prelude::*;
use crate::analysis::analyser::{analyser_counter_step, analysers_wf, Analyser};
use crate::analysis::cluster_analyser::ClusterAnalyser;
use crate::analysis::disclosure_risk_analyser::DisclosureRiskAnalyser;
use crate::analysis::mse_analyser::MseAnalyser;
use crate::analysis::publishing_delay_analyser::PublishingDelayAnalyser;
use crate::analysis::sse_analyser::SseAnalyser;
use crate::anonymization::buffer::agg_qis_spec;
use crate::anonymization::cluster::{
    event_matches, has_position, pending_models, pos_sum, sens_count, sum_counts, Cluster,
    C_BOUND, MAX_BUFFER_BOUND,
};
use crate::data_manipulation::anonymizable::{
    record_model, spec_distance, spec_info_loss_sq, Anonymizable, QuasiIdentifierTypes,
    RecordModel, SCALE,
};
use crate::noise::noiser::Noiser;
use crate::publishing::publisher::Publisher;
use crate::runtime::now_nanos;

verus! {

/// A set entry lies within the distance threshold of the record.
pub open spec fn candidate<A: Anonymizable, N: Noiser>(
    e: (u64, Cluster<A, N>),
    q: Seq<QuasiIdentifierTypes>,
    thr: int,
) -> bool {
    spec_distance(e.1.centroid.qis(), q) <= thr
}

/// The squared information loss between the record and a set entry's
/// centroid.
pub open spec fn entry_info_loss<A: Anonymizable, N: Noiser>(
    q: Seq<QuasiIdentifierTypes>,
    e: (u64, Cluster<A, N>),
) -> int {
    spec_info_loss_sq(q, e.1.centroid.qis())
}

/// Entry `j` is the best cluster for the record: within the threshold, of
/// least information loss, and first among the ties.
pub open spec fn chosen<A: Anonymizable, N: Noiser>(
    set: Seq<(u64, Cluster<A, N>)>,
    q: Seq<QuasiIdentifierTypes>,
    thr: int,
    j: int,
) -> bool {
    &&& 0 <= j < set.len()
    &&& candidate(set[j], q, thr)
    &&& forall|l: int|
        0 <= l < set.len() && candidate(#[trigger] set[l], q, thr) ==> entry_info_loss(q, set[j])
            <= entry_info_loss(q, set[l])
    &&& forall|l: int|
        0 <= l < j && candidate(#[trigger] set[l], q, thr) ==> entry_info_loss(q, set[j])
            < entry_info_loss(q, set[l])
}

/// A key is taken in the cluster set.
pub open spec fn has_key<A: Anonymizable, N: Noiser>(
    set: Seq<(u64, Cluster<A, N>)>,
    key: u64,
) -> bool {
    exists|i: int| 0 <= i < set.len() && (#[trigger] set[i]).0 == key
}

/// In a strictly sorted key list, the key at an index is at least the index.
proof fn lemma_sorted_keys_ge<A: Anonymizable, N: Noiser>(set: Seq<(u64, Cluster<A, N>)>, i: int)
    requires
        forall|a: int, b: int| 0 <= a < b < set.len() ==> set[a].0 < set[b].0,
        0 <= i < set.len(),
    ensures
        set[i].0 >= i,
    decreases i,
{
    if i > 0 {
        lemma_sorted_keys_ge(set, i - 1);
        assert(set[i - 1].0 < set[i].0);
    }
}

/// Every live cluster of a sound engine keeps the streaming invariants: its
/// current window fits the capacity, its centroid is the per-position
/// aggregation of the window, its admission count bounds the window, the
/// sensitive frequency counts total the admission count, every categorical
/// position's counts total the admission count, and its arrival key is
/// unique in the set and equal to the stored last arrival.
pub proof fn lemma_live_cluster_invariants<N: Noiser, A: Anonymizable, P: Publisher<A>>(
    engine: &MicroaggAnonymizer<N, A, P>,
    i: int,
)
    requires
        engine.wf(),
        0 <= i < engine.cluster_set@.len(),
    ensures
        ({
            let c = engine.cluster_set@[i].1;
            &&& c.w_current.buffer@.len() <= c.w_current.max_buffer_size
            &&& c.w_current.buffer@.len() > 0 ==> c.centroid.qis() == agg_qis_spec(
                c.w_current.entry_qis(),
            )
            &&& c.complete_buffer_amount >= c.w_current.buffer@.len()
            &&& sum_counts(c.sensitive_freq@) == c.complete_buffer_amount
            &&& forall|p: int|
                has_position(c.categorical_freq@, p) ==> #[trigger] pos_sum(
                    c.categorical_freq@,
                    p,
                ) == c.complete_buffer_amount
        }),
        engine.cluster_set@[i].0 == engine.cluster_set@[i].1.last_arrival,
        forall|j: int|
            0 <= j < engine.cluster_set@.len() && j != i ==> (#[trigger] engine.cluster_set@[j]).0
                != engine.cluster_set@[i].0,
{
    assert(engine.cluster_set@[i].1.wf());
    assert forall|j: int|
        0 <= j < engine.cluster_set@.len() && j != i implies (#[trigger] engine.cluster_set@[j]).0
        != engine.cluster_set@[i].0 by {
        if j < i {
            assert(engine.cluster_set@[j].0 < engine.cluster_set@[i].0);
        } else {
            assert(engine.cluster_set@[i].0 < engine.cluster_set@[j].0);
        }
    }
}

/// A cluster holding exactly one admission: the given record, counted once
/// under its sensitive value.
pub open spec fn singleton_admission<A: Anonymizable, N: Noiser>(
    c: Cluster<A, N>,
    m: RecordModel,
) -> bool {
    &&& c.complete_buffer_amount == 1
    &&& c.w_current.buffer@.len() == 1
    &&& record_model(c.w_current.buffer@[0].1) == m
    &&& sum_counts(c.sensitive_freq@) == 1
    &&& sens_count(c.sensitive_freq@, m.1) == 1
}

/// The chosen cluster as one admission leaves it: the same cluster took the
/// record, its admission count grew by one, the record's sensitive value
/// counts once more, and its window either grew by the admitted record or —
/// where the admission filled it to its capacity `cap` — was emptied by the
/// drift check.
pub open spec fn admitted_cluster_step<A: Anonymizable, N: Noiser>(
    before: Cluster<A, N>,
    after: Cluster<A, N>,
    m: RecordModel,
    cap: int,
) -> bool {
    &&& after.uuid == before.uuid
    &&& after.k == before.k
    &&& after.c == before.c
    &&& after.complete_buffer_amount == before.complete_buffer_amount + 1
    &&& sens_count(after.sensitive_freq@, m.1) == sens_count(before.sensitive_freq@, m.1) + 1
    &&& sum_counts(after.sensitive_freq@) == sum_counts(before.sensitive_freq@) + 1
    &&& if before.w_current.buffer@.len() + 1 >= cap {
        after.w_current.buffer@.len() == 0
    } else {
        after.w_current.buffer@.len() == before.w_current.buffer@.len() + 1 && record_model(
            after.w_current.buffer@.last().1,
        ) == m
    }
}

/// The record models a non-expired admission into the given cluster hands to
/// the sink, in hand-off order: the whole pending window once it reaches the
/// anonymity level `k`, the fresh record alone inside the publishing band
/// `k < |W| <= k_max + 1`, and, for a cluster retiring past its admission
/// budget, whatever the gates and the drift check left unreleased.
pub open spec fn admission_releases<A: Anonymizable, N: Noiser>(
    c: Cluster<A, N>,
    m: RecordModel,
    k: int,
    k_max: int,
    cap: int,
) -> Seq<RecordModel> {
    let n1 = c.w_current.buffer@.len() + 1;
    let pending = pending_models(c.w_current.buffer@);
    let retiring = c.complete_buffer_amount + 1 > k_max;
    let drifted = n1 >= cap;
    if n1 == k {
        pending.push(m)
    } else if k < n1 <= k_max + 1 {
        if retiring && !drifted {
            seq![m] + pending
        } else {
            seq![m]
        }
    } else {
        if retiring && !drifted {
            pending.push(m)
        } else {
            Seq::empty()
        }
    }
}

/// The record models an expired cluster's flush hands to the sink: its
/// pending window; where the anonymity level is one, the fresh replacement
/// cluster releases its single record right after.
pub open spec fn expiry_releases<A: Anonymizable, N: Noiser>(
    c: Cluster<A, N>,
    m: RecordModel,
    k: int,
) -> Seq<RecordModel> {
    if k == 1 {
        pending_models(c.w_current.buffer@).push(m)
    } else {
        pending_models(c.w_current.buffer@)
    }
}

/// Every still-unreleased record model of every cluster of the set, in set
/// order, each paired with its cluster's identifier.
pub open spec fn set_pending<A: Anonymizable, N: Noiser>(
    set: Seq<(u64, Cluster<A, N>)>,
) -> Seq<(RecordModel, u128)>
    decreases set.len(),
{
    if set.len() == 0 {
        Seq::empty()
    } else {
        set_pending(set.drop_last()) + pending_models(
            set.last().1.w_current.buffer@,
        ).map_values(|mm: RecordModel| (mm, set.last().1.uuid))
    }
}

/// The sink events release exactly the given record models, in order, from
/// the given cluster.
pub open spec fn events_match(
    events: Seq<crate::publishing::publisher::SinkEvent>,
    models: Seq<RecordModel>,
    uuid: u128,
) -> bool {
    &&& events.len() == models.len()
    &&& forall|i: int|
        0 <= i < events.len() ==> event_matches(#[trigger] events[i], models[i], uuid)
}

/// the micro aggregation differential privacy anonymization engine
pub struct MicroaggAnonymizer<N: Noiser, A: Anonymizable, P: Publisher<A>> {
    pub k: usize,  // k-anonymity level
    pub k_max: usize,  // maximum admissions before a cluster is retired
    pub l: usize,  // l-diversity level
    pub c: i64,  // recursive (l,c)-diversity
    pub delta: u64,  // life time delta in nanoseconds
    pub diff_thres_nanos: u128,  // scaled distance threshold between data points
    pub buffer_size: usize,  // window size used to detect concept drift
    pub publisher: P,
    pub cluster_set: Vec<(u64, Cluster<A, N>)>,
    pub noiser: N,
    pub analysers: Vec<Analyser<A>>,
}

impl<N: Noiser, A: Anonymizable, P: Publisher<A>> MicroaggAnonymizer<N, A, P> {
    /// Engine well-formedness: sound parameters, a fresh prototype noiser,
    /// sound analysers, and a cluster set whose keys are strictly sorted and
    /// match each cluster's last arrival, holding only live, well-formed,
    /// non-overfull clusters of this engine's configuration.
    pub open spec fn wf(&self) -> bool {
        &&& 1 <= self.k <= self.k_max
        &&& self.k_max < usize::MAX
        &&& 1 <= self.c <= C_BOUND
        &&& 2 <= self.buffer_size <= MAX_BUFFER_BOUND
        &&& self.diff_thres_nanos <= SCALE
        &&& self.noiser.wf()
        &&& forall|s: Seq<QuasiIdentifierTypes>| #[trigger] self.noiser.fits(s)
        &&& analysers_wf(self.analysers@)
        &&& forall|a: int, b: int|
            0 <= a < b < self.cluster_set@.len() ==> self.cluster_set@[a].0
                < self.cluster_set@[b].0
        &&& forall|i: int|
            0 <= i < self.cluster_set@.len() ==> (#[trigger] self.cluster_set@[i]).0
                == self.cluster_set@[i].1.last_arrival
        &&& forall|i: int|
            0 <= i < self.cluster_set@.len() ==> (#[trigger] self.cluster_set@[i]).1.wf()
        &&& forall|i: int|
            0 <= i < self.cluster_set@.len() ==> (
            #[trigger] self.cluster_set@[i]).1.w_current.buffer@.len() < self.buffer_size
        &&& forall|i: int|
            0 <= i < self.cluster_set@.len() ==> (
            #[trigger] self.cluster_set@[i]).1.w_current.max_buffer_size == self.buffer_size
        &&& forall|i: int|
            0 <= i < self.cluster_set@.len() ==> (
            #[trigger] self.cluster_set@[i]).1.complete_buffer_amount <= self.k_max
        &&& forall|i: int|
            0 <= i < self.cluster_set@.len() ==> (#[trigger] self.cluster_set@[i]).1.k == self.k
                && self.cluster_set@[i].1.c == self.c
    }

    /// a fresh engine around the given publisher and prototype noiser; the
    /// lifetime delta is given in seconds
    pub fn new(
        k: usize,
        k_max: usize,
        l: usize,
        c: i64,
        diff_thres_nanos: u128,
        delta: u64,
        buffer_size: usize,
        publisher: P,
        noiser: N,
    ) -> (r: MicroaggAnonymizer<N, A, P>)
        requires
            1 <= k <= k_max,
            k_max < usize::MAX,
            1 <= c <= C_BOUND,
            2 <= buffer_size <= MAX_BUFFER_BOUND,
            diff_thres_nanos <= SCALE,
            delta <= 18_446_744_073,
            noiser.wf(),
        ensures
            r.wf(),
            r.cluster_set@.len() == 0,
            r.k == k,
            r.k_max == k_max,
            r.l == l,
            r.c == c,
            r.diff_thres_nanos == diff_thres_nanos,
            r.delta == delta * 1_000_000_000,
            r.buffer_size == buffer_size,
            r.publisher == publisher,
            forall|s: Seq<QuasiIdentifierTypes>| #[trigger] r.noiser.fits(s),
            r.analysers@.len() == 5,
            r.analysers@[0] matches Analyser::Mse(m) && m.spec_count() == 0 && m.spec_sum() == 0,
            r.analysers@[1] matches Analyser::Sse(s) && s.spec_sum() == 0,
            r.analysers@[2] matches Analyser::PublishingDelay(d) && d.spec_count() == 0
                && d.spec_sum() == 0,
            r.analysers@[3] matches Analyser::ClusterAnalyser(ca) && ca.create_counter == 0
                && ca.delete_counter == 0,
            r.analysers@[4] matches Analyser::DisclosureRiskAnalyser(dr) && dr.spec_count() == 0
                && dr.spec_sum() == 0 && dr.capacity() == 100 && dr.ring().len() == 0,
    {
        let mut analysers: Vec<Analyser<A>> = Vec::new();
        analysers.push(Analyser::Mse(MseAnalyser::default()));
        analysers.push(Analyser::Sse(SseAnalyser::default()));
        analysers.push(Analyser::PublishingDelay(PublishingDelayAnalyser::default()));
        analysers.push(Analyser::ClusterAnalyser(ClusterAnalyser::default()));
        analysers.push(Analyser::DisclosureRiskAnalyser(DisclosureRiskAnalyser::initialize(100)));
        MicroaggAnonymizer {
            k,
            k_max,
            l,
            c,
            diff_thres_nanos,
            delta: delta * 1_000_000_000,
            buffer_size,
            publisher,
            cluster_set: Vec::new(),
            noiser: noiser.duplicate(),
            analysers,
        }
    }

    /// find the best cluster for the record: among the clusters within the
    /// distance threshold, remove and return the first one of least
    /// information loss; `None` where no cluster lies within the threshold
    pub fn find_best_cluster(&mut self, value: &A) -> (r: Option<Cluster<A, N>>)
        requires
            old(self).wf(),
            value.wf(),
        ensures
            final(self).wf(),
            match r {
                None => *final(self) == *old(self) && (forall|j: int|
                    0 <= j < old(self).cluster_set@.len() ==> !candidate(
                        #[trigger] old(self).cluster_set@[j],
                        value.qis(),
                        old(self).diff_thres_nanos as int,
                    )),
                Some(cluster) => exists|j: int|
                    {
                        &&& #[trigger] chosen(
                            old(self).cluster_set@,
                            value.qis(),
                            old(self).diff_thres_nanos as int,
                            j,
                        )
                        &&& cluster == old(self).cluster_set@[j].1
                        &&& final(self).cluster_set@ == old(self).cluster_set@.remove(j)
                        &&& final(self).publisher == old(self).publisher
                        &&& final(self).analysers == old(self).analysers
                        &&& final(self).noiser == old(self).noiser
                    },
            },
            final(self).k == old(self).k,
            final(self).k_max == old(self).k_max,
            final(self).l == old(self).l,
            final(self).c == old(self).c,
            final(self).delta == old(self).delta,
            final(self).diff_thres_nanos == old(self).diff_thres_nanos,
            final(self).buffer_size == old(self).buffer_size,
    {
        let n = self.cluster_set.len();
        let mut found = false;
        let mut best: usize = 0;
        let mut best_il: u128 = 0;
        let mut i: usize = 0;
        while i < n
            invariant
                self == old(self),
                self.wf(),
                value.wf(),
                n == self.cluster_set@.len(),
                0 <= i <= n,
                !found ==> forall|j: int|
                    0 <= j < i ==> !candidate(
                        #[trigger] self.cluster_set@[j],
                        value.qis(),
                        self.diff_thres_nanos as int,
                    ),
                found ==> 0 <= best < i,
                found ==> candidate(
                    self.cluster_set@[best as int],
                    value.qis(),
                    self.diff_thres_nanos as int,
                ),
                found ==> best_il as int == entry_info_loss(
                    value.qis(),
                    self.cluster_set@[best as int],
                ),
                found ==> forall|l: int|
                    0 <= l < i && candidate(
                        #[trigger] self.cluster_set@[l],
                        value.qis(),
                        self.diff_thres_nanos as int,
                    ) ==> best_il as int <= entry_info_loss(value.qis(), self.cluster_set@[l]),
                found ==> forall|l: int|
                    0 <= l < best && candidate(
                        #[trigger] self.cluster_set@[l],
                        value.qis(),
                        self.diff_thres_nanos as int,
                    ) ==> (best_il as int) < entry_info_loss(value.qis(), self.cluster_set@[l]),
            decreases n - i,
        {
            proof {
                assert(self.cluster_set@[i as int].1.wf());
            }
            let difference = self.cluster_set[i].1.centroid.calculate_difference(value);
            if (difference as u128) <= self.diff_thres_nanos {
                let info_loss = value.calculate_info_loss(&self.cluster_set[i].1.centroid);
                if !found || info_loss < best_il {
                    found = true;
                    best = i;
                    best_il = info_loss;
                }
            }
            i = i + 1;
        }
        if found {
            let ghost j = best as int;
            let (_, cluster) = self.cluster_set.remove(best);
            proof {
                assert(chosen(
                    old(self).cluster_set@,
                    value.qis(),
                    old(self).diff_thres_nanos as int,
                    j,
                ));
                assert forall|a: int, b: int|
                    0 <= a < b < self.cluster_set@.len() implies self.cluster_set@[a].0
                    < self.cluster_set@[b].0 by {
                    if b < j {
                        assert(old(self).cluster_set@[a].0 < old(self).cluster_set@[b].0);
                    } else if a < j {
                        assert(old(self).cluster_set@[a].0 < old(self).cluster_set@[b + 1].0);
                    } else {
                        assert(old(self).cluster_set@[a + 1].0 < old(self).cluster_set@[b + 1].0);
                    }
                }
            }
            Some(cluster)
        } else {
            None
        }
    }

    /// create a new cluster of this engine's configuration, with its own
    /// copy of the prototype noiser
    pub fn create_new_cluster(&self) -> (r: Cluster<A, N>)
        requires
            self.wf(),
        ensures
            r.wf(),
            r.complete_buffer_amount == 0,
            r.w_current.buffer@.len() == 0,
            r.w_prev.buffer@.len() == 0,
            r.w_current.max_buffer_size == self.buffer_size,
            r.k == self.k,
            r.c == self.c,
    {
        Cluster::new(self.k, self.l, self.c, self.buffer_size, self.noiser.duplicate())
    }

    /// whether any cluster sits under the key
    fn contains_key(&self, key: u64) -> (r: bool)
        ensures
            r == has_key(self.cluster_set@, key),
    {
        let n = self.cluster_set.len();
        let mut i: usize = 0;
        while i < n
            invariant
                n == self.cluster_set@.len(),
                0 <= i <= n,
                forall|j: int| 0 <= j < i ==> (#[trigger] self.cluster_set@[j]).0 != key,
            decreases n - i,
        {
            if self.cluster_set[i].0 == key {
                proof {
                    assert(has_key(self.cluster_set@, key)) by {
                        assert(self.cluster_set@[i as int].0 == key);
                    }
                }
                return true;
            }
            i = i + 1;
        }
        false
    }

    /// an arrival key no live cluster holds: the preferred key where free,
    /// else the clock, else the smallest unused value at or above the
    /// preferred key, so that a displaced arrival key keeps growing
    fn free_key(&self, pref: u64) -> (r: u64)
        requires
            self.wf(),
        ensures
            !has_key(self.cluster_set@, r),
    {
        if !self.contains_key(pref) {
            return pref;
        }
        let now = now_nanos();
        if !self.contains_key(now) {
            return now;
        }
        let n = self.cluster_set.len();
        let mut i: usize = 0;
        while i < n && self.cluster_set[i].0 < pref
            invariant
                self.wf(),
                n == self.cluster_set@.len(),
                0 <= i <= n,
                forall|j: int| 0 <= j < i ==> (#[trigger] self.cluster_set@[j]).0 < pref,
            decreases n - i,
        {
            i = i + 1;
        }
        let mut candidate: u64 = pref;
        while i < n && candidate < u64::MAX && self.cluster_set[i].0 == candidate
            invariant
                self.wf(),
                n == self.cluster_set@.len(),
                0 <= i <= n,
                pref <= candidate,
                forall|j: int| 0 <= j < i ==> (#[trigger] self.cluster_set@[j]).0 < candidate,
                i < n ==> self.cluster_set@[i as int].0 >= candidate,
            decreases n - i,
        {
            proof {
                if i + 1 < n {
                    assert(self.cluster_set@[i as int].0 < self.cluster_set@[i + 1].0);
                }
            }
            candidate = candidate + 1;
            i = i + 1;
        }
        if i < n && self.cluster_set[i].0 == candidate {
            // the candidate ran into the top of the key space; fall back to
            // the smallest unused counter value
            let mut l: usize = 0;
            while l < n
                invariant
                    self.wf(),
                    n == self.cluster_set@.len(),
                    0 <= l <= n,
                    forall|j: int| 0 <= j < l ==> (#[trigger] self.cluster_set@[j]).0 == j,
                decreases n - l,
            {
                proof {
                    lemma_sorted_keys_ge(self.cluster_set@, l as int);
                }
                if self.cluster_set[l].0 > l as u64 {
                    proof {
                        assert forall|j: int|
                            0 <= j < self.cluster_set@.len() implies (
                        #[trigger] self.cluster_set@[j]).0 != l as u64 by {
                            if j < l {
                                assert(self.cluster_set@[j].0 == j);
                            } else if j > l {
                                assert(self.cluster_set@[l as int].0 < self.cluster_set@[j].0);
                            }
                        }
                    }
                    return l as u64;
                }
                l = l + 1;
            }
            proof {
                assert forall|j: int|
                    0 <= j < self.cluster_set@.len() implies (#[trigger] self.cluster_set@[j]).0
                    != n as u64 by {
                    assert(self.cluster_set@[j].0 == j);
                }
            }
            n as u64
        } else {
            proof {
                assert forall|j: int|
                    0 <= j < self.cluster_set@.len() implies (#[trigger] self.cluster_set@[j]).0
                    != candidate by {
                    if j >= i {
                        if j > i {
                            assert(self.cluster_set@[i as int].0 < self.cluster_set@[j].0);
                        }
                    }
                }
            }
            candidate
        }
    }

    /// insert a cluster under an unused key, keeping the keys sorted
    fn insert_cluster(&mut self, key: u64, cluster: Cluster<A, N>)
        requires
            old(self).wf(),
            !has_key(old(self).cluster_set@, key),
            cluster.wf(),
            cluster.last_arrival == key,
            cluster.w_current.buffer@.len() < old(self).buffer_size,
            cluster.w_current.max_buffer_size == old(self).buffer_size,
            cluster.complete_buffer_amount <= old(self).k_max,
            cluster.k == old(self).k,
            cluster.c == old(self).c,
        ensures
            final(self).wf(),
            final(self).cluster_set@.len() == old(self).cluster_set@.len() + 1,
            final(self).publisher == old(self).publisher,
            final(self).analysers == old(self).analysers,
            final(self).noiser == old(self).noiser,
            final(self).k == old(self).k,
            final(self).k_max == old(self).k_max,
            final(self).l == old(self).l,
            final(self).c == old(self).c,
            final(self).delta == old(self).delta,
            final(self).diff_thres_nanos == old(self).diff_thres_nanos,
            final(self).buffer_size == old(self).buffer_size,
            exists|i: int|
                0 <= i < final(self).cluster_set@.len()
                    && #[trigger] final(self).cluster_set@.remove(i) == old(self).cluster_set@
                    && final(self).cluster_set@[i] == (key, cluster),
    {
        let n = self.cluster_set.len();
        let mut idx: usize = 0;
        while idx < n && self.cluster_set[idx].0 < key
            invariant
                self == old(self),
                self.wf(),
                n == self.cluster_set@.len(),
                0 <= idx <= n,
                forall|j: int| 0 <= j < idx ==> (#[trigger] self.cluster_set@[j]).0 < key,
            decreases n - idx,
        {
            idx = idx + 1;
        }
        proof {
            if idx < n {
                assert(self.cluster_set@[idx as int].0 != key) by {
                    if self.cluster_set@[idx as int].0 == key {
                        assert(has_key(self.cluster_set@, key));
                    }
                }
            }
        }
        let ghost before = self.cluster_set@;
        self.cluster_set.insert(idx, (key, cluster));
        proof {
            assert forall|a: int, b: int|
                0 <= a < b < self.cluster_set@.len() implies self.cluster_set@[a].0
                < self.cluster_set@[b].0 by {
                if b < idx {
                    assert(before[a].0 < before[b].0);
                } else if b == idx {
                    assert(self.cluster_set@[a].0 == before[a].0);
                } else if a == idx {
                    assert(self.cluster_set@[b].0 == before[b - 1].0);
                    if idx < n {
                        assert(key < before[b - 1].0) by {
                            if b - 1 > idx {
                                assert(before[idx as int].0 < before[b - 1].0);
                            }
                        }
                    }
                } else if a < idx {
                    assert(self.cluster_set@[a].0 == before[a].0);
                    assert(self.cluster_set@[b].0 == before[b - 1].0);
                    assert(before[a].0 < before[b - 1].0 || a == b - 1);
                    if a == b - 1 {
                        assert(before[a].0 < key);
                        assert(false);
                    }
                } else {
                    assert(self.cluster_set@[a].0 == before[a - 1].0);
                    assert(self.cluster_set@[b].0 == before[b - 1].0);
                    assert(before[a - 1].0 < before[b - 1].0);
                }
            }
            assert(self.cluster_set@.remove(idx as int) =~= before);
            assert(self.cluster_set@[idx as int] == (key, cluster));
        }
    }

    /// let the cluster analyser count one creation or deletion; every other
    /// analyser is untouched
    fn count_cluster_event(analysers: &mut Vec<Analyser<A>>, created: bool)
        requires
            analysers_wf(old(analysers)@),
        ensures
            analysers_wf(final(analysers)@),
            final(analysers)@.len() == old(analysers)@.len(),
            forall|i: int|
                0 <= i < old(analysers)@.len() ==> analyser_counter_step(
                    old(analysers)@[i],
                    #[trigger] final(analysers)@[i],
                    created,
                ),
    {
        let mut taken: Vec<Analyser<A>> = Vec::new();
        core::mem::swap(&mut taken, analysers);
        let ghost total = taken@.len();
        let mut remaining = taken.len();
        while remaining > 0
            invariant
                remaining == taken@.len(),
                analysers@.len() + taken@.len() == total,
                total == old(analysers)@.len(),
                taken@ == old(analysers)@.skip(analysers@.len() as int),
                analysers_wf(analysers@),
                analysers_wf(taken@),
                forall|i: int|
                    0 <= i < analysers@.len() ==> analyser_counter_step(
                        old(analysers)@[i],
                        #[trigger] analysers@[i],
                        created,
                    ),
            decreases remaining,
        {
            proof {
                assert(crate::analysis::analyser::analyser_wf(taken@[0]));
                assert(taken@[0] == old(analysers)@[analysers@.len() as int]);
            }
            let ghost done = analysers@.len() as int;
            let analyser = taken.remove(0);
            match analyser {
                Analyser::ClusterAnalyser(mut cluster_analyser) => {
                    if created {
                        cluster_analyser.add_count();
                    } else {
                        cluster_analyser.remove_count();
                    }
                    analysers.push(Analyser::ClusterAnalyser(cluster_analyser));
                },
                other => {
                    analysers.push(other);
                },
            }
            proof {
                assert(analyser_counter_step(old(analysers)@[done], analysers@[done], created));
                assert(taken@ =~= old(analysers)@.skip(analysers@.len() as int));
            }
            remaining = remaining - 1;
        }
    }

    /// release every still-unreleased record of every live cluster, in set
    /// order, leaving the clusters in place: the shutdown drain, run when the
    /// stream stops and the remaining records are owed to the sink
    pub fn drain(&mut self)
        requires
            old(self).wf(),
        ensures
            final(self).wf(),
            final(self).k == old(self).k,
            final(self).k_max == old(self).k_max,
            final(self).l == old(self).l,
            final(self).c == old(self).c,
            final(self).delta == old(self).delta,
            final(self).diff_thres_nanos == old(self).diff_thres_nanos,
            final(self).buffer_size == old(self).buffer_size,
            final(self).analysers@.len() == old(self).analysers@.len(),
            final(self).cluster_set@.len() == old(self).cluster_set@.len(),
            forall|i: int|
                0 <= i < final(self).cluster_set@.len() ==> (#[trigger] final(self).cluster_set@[i]).0 == old(self).cluster_set@[i].0 && final(self).cluster_set@[i].1.uuid
                    == old(self).cluster_set@[i].1.uuid
                    && final(self).cluster_set@[i].1.complete_buffer_amount == old(self).cluster_set@[i].1.complete_buffer_amount
                    && final(self).cluster_set@[i].1.w_current.buffer@.len() == old(self).cluster_set@[i].1.w_current.buffer@.len(),
            forall|i: int, l: int|
                0 <= i < final(self).cluster_set@.len() && 0 <= l < final(self).cluster_set@[i].1.w_current.buffer@.len() ==> (#[trigger] final(self).cluster_set@[i].1.w_current.buffer@[l]).0 && final(self).cluster_set@[i].1.w_current.buffer@[l].1 == old(self).cluster_set@[i].1.w_current.buffer@[l].1,
            final(self).publisher.sunk().len() == old(self).publisher.sunk().len() + set_pending(
                old(self).cluster_set@,
            ).len(),
            forall|l: int|
                0 <= l < old(self).publisher.sunk().len() ==> #[trigger] final(self).publisher.sunk()[l] == old(self).publisher.sunk()[l],
            forall|l: int|
                0 <= l < set_pending(old(self).cluster_set@).len() ==> event_matches(
                    #[trigger] final(self).publisher.sunk()[old(self).publisher.sunk().len() + l],
                    set_pending(old(self).cluster_set@)[l].0,
                    set_pending(old(self).cluster_set@)[l].1,
                ),
    {
        let ghost oldset = self.cluster_set@;
        let ghost sunk0 = self.publisher.sunk();
        proof {
            assert(oldset.take(0).len() == 0);
        }
        let n = self.cluster_set.len();
        let mut i: usize = 0;
        while i < n
            invariant
                self.wf(),
                self.k == old(self).k,
                self.k_max == old(self).k_max,
                self.l == old(self).l,
                self.c == old(self).c,
                self.delta == old(self).delta,
                self.diff_thres_nanos == old(self).diff_thres_nanos,
                self.buffer_size == old(self).buffer_size,
                self.analysers@.len() == old(self).analysers@.len(),
                n == self.cluster_set@.len(),
                oldset == old(self).cluster_set@,
                sunk0 == old(self).publisher.sunk(),
                n == oldset.len(),
                0 <= i <= n,
                forall|j: int| i <= j < n ==> #[trigger] self.cluster_set@[j] == oldset[j],
                forall|j: int|
                    0 <= j < i ==> (#[trigger] self.cluster_set@[j]).0 == oldset[j].0
                        && self.cluster_set@[j].1.uuid == oldset[j].1.uuid
                        && self.cluster_set@[j].1.complete_buffer_amount
                        == oldset[j].1.complete_buffer_amount
                        && self.cluster_set@[j].1.w_current.buffer@.len()
                        == oldset[j].1.w_current.buffer@.len(),
                forall|j: int, l: int|
                    0 <= j < i && 0 <= l < self.cluster_set@[j].1.w_current.buffer@.len() ==> (
                    #[trigger] self.cluster_set@[j].1.w_current.buffer@[l]).0
                        && self.cluster_set@[j].1.w_current.buffer@[l].1
                        == oldset[j].1.w_current.buffer@[l].1,
                self.publisher.sunk().len() == sunk0.len() + set_pending(
                    oldset.take(i as int),
                ).len(),
                forall|l: int|
                    0 <= l < sunk0.len() ==> #[trigger] self.publisher.sunk()[l] == sunk0[l],
                forall|l: int|
                    0 <= l < set_pending(oldset.take(i as int)).len() ==> event_matches(
                        #[trigger] self.publisher.sunk()[sunk0.len() + l],
                        set_pending(oldset.take(i as int))[l].0,
                        set_pending(oldset.take(i as int))[l].1,
                    ),
            decreases n - i,
        {
            proof {
                assert(oldset.take(i + 1).drop_last() =~= oldset.take(i as int));
                assert(oldset.take(i + 1).last() == oldset[i as int]);
            }
            let ghost sunk_pre = self.publisher.sunk();
            let ghost before = self.cluster_set@;
            let (key, mut cluster) = self.cluster_set.remove(i);
            cluster.publish_all(&mut self.publisher, &mut self.analysers);
            let ghost drained = cluster;
            self.cluster_set.insert(i, (key, cluster));
            proof {
                assert(self.cluster_set@ =~= before.update(i as int, (key, drained)));
                let seg = pending_models(oldset[i as int].1.w_current.buffer@).map_values(
                    |mm: RecordModel| (mm, oldset[i as int].1.uuid),
                );
                assert(set_pending(oldset.take(i + 1)) =~= set_pending(oldset.take(i as int))
                    + seg);
                assert forall|l: int| 0 <= l < seg.len() implies event_matches(
                    #[trigger] self.publisher.sunk()[sunk_pre.len() + l],
                    seg[l].0,
                    seg[l].1,
                ) by {
                    assert(seg[l].0 == pending_models(oldset[i as int].1.w_current.buffer@)[l]);
                    assert(seg[l].1 == oldset[i as int].1.uuid);
                }
                assert(sunk_pre.len() == sunk0.len() + set_pending(oldset.take(i as int)).len());
                assert forall|l: int|
                    0 <= l < set_pending(oldset.take(i + 1)).len() implies event_matches(
                    #[trigger] self.publisher.sunk()[sunk0.len() + l],
                    set_pending(oldset.take(i + 1))[l].0,
                    set_pending(oldset.take(i + 1))[l].1,
                ) by {
                    let oldlen = set_pending(oldset.take(i as int)).len();
                    if l < oldlen {
                        assert(self.publisher.sunk()[sunk0.len() + l] == sunk_pre[sunk0.len()
                            + l]);
                        assert(set_pending(oldset.take(i + 1))[l] == set_pending(
                            oldset.take(i as int),
                        )[l]);
                        assert(event_matches(
                            sunk_pre[sunk0.len() + l],
                            set_pending(oldset.take(i as int))[l].0,
                            set_pending(oldset.take(i as int))[l].1,
                        ));
                    } else {
                        assert(set_pending(oldset.take(i + 1))[l] == seg[l - oldlen]);
                        assert(sunk0.len() + l == sunk_pre.len() + (l - oldlen));
                    }
                }
                assert forall|a: int, b: int|
                    0 <= a < b < self.cluster_set@.len() implies self.cluster_set@[a].0
                    < self.cluster_set@[b].0 by {
                    assert(before[a].0 < before[b].0);
                }
            }
            i = i + 1;
        }
        proof {
            assert(oldset.take(n as int) =~= oldset);
        }
    }

    /// feed one data tuple through the anonymization algorithm: route it to
    /// the best live cluster or a fresh one, release what the window's state
    /// calls for, run the drift check on a full window, and retire a cluster
    /// past its admission budget
    pub fn anonymize(&mut self, value: A)
        requires
            old(self).wf(),
            value.wf(),
        ensures
            final(self).wf(),
            final(self).k == old(self).k,
            final(self).k_max == old(self).k_max,
            final(self).l == old(self).l,
            final(self).c == old(self).c,
            final(self).delta == old(self).delta,
            final(self).diff_thres_nanos == old(self).diff_thres_nanos,
            final(self).buffer_size == old(self).buffer_size,
            final(self).analysers@.len() == old(self).analysers@.len(),
            final(self).cluster_set@.len() == old(self).cluster_set@.len() + 1 || final(self).cluster_set@.len() == old(self).cluster_set@.len() || final(self).cluster_set@.len()
                + 1 == old(self).cluster_set@.len(),
            forall|l: int|
                0 <= l < old(self).publisher.sunk().len() ==> #[trigger] final(self).publisher.sunk()[l] == old(self).publisher.sunk()[l],
            ({
                let thr = old(self).diff_thres_nanos as int;
                let q = value.qis();
                let m = record_model(value);
                let oldset = old(self).cluster_set@;
                let events = final(self).publisher.sunk().skip(
                    old(self).publisher.sunk().len() as int,
                );
                if forall|j: int| 0 <= j < oldset.len() ==> !candidate(#[trigger] oldset[j], q, thr) {
                    // no cluster in range: a fresh cluster holds exactly the
                    // record, nothing is published, creations count one more
                    &&& final(self).cluster_set@.len() == oldset.len() + 1
                    &&& exists|i: int|
                        0 <= i < final(self).cluster_set@.len()
                            && #[trigger] final(self).cluster_set@.remove(i) == oldset
                            && singleton_admission(final(self).cluster_set@[i].1, m)
                            && !final(self).cluster_set@[i].1.w_current.buffer@[0].0
                    &&& final(self).publisher == old(self).publisher
                    &&& forall|i: int|
                        0 <= i < old(self).analysers@.len() ==> analyser_counter_step(
                            old(self).analysers@[i],
                            #[trigger] final(self).analysers@[i],
                            true,
                        )
                } else {
                    exists|j: int|
                        #[trigger] chosen(oldset, q, thr, j) && ({
                            let picked = oldset[j].1;
                            ||| ({
                                // the cluster was not expired: it admitted
                                // the record, released what its window's
                                // state called for, and was reinserted or
                                // retired past its admission budget
                                &&& events_match(
                                    events,
                                    admission_releases(
                                        picked,
                                        m,
                                        old(self).k as int,
                                        old(self).k_max as int,
                                        old(self).buffer_size as int,
                                    ),
                                    picked.uuid,
                                )
                                &&& if picked.complete_buffer_amount + 1 > old(self).k_max {
                                    final(self).cluster_set@ == oldset.remove(j) && (forall|i: int|
                                        0 <= i < old(self).analysers@.len()
                                            ==> crate::analysis::analyser::analyser_lifecycle_step(
                                            old(self).analysers@[i],
                                            #[trigger] final(self).analysers@[i],
                                            false,
                                        ))
                                } else {
                                    final(self).cluster_set@.len() == oldset.len() && (exists|i: int|
                                        0 <= i < final(self).cluster_set@.len()
                                            && #[trigger] final(self).cluster_set@.remove(i)
                                            == oldset.remove(j) && admitted_cluster_step(
                                            picked,
                                            final(self).cluster_set@[i].1,
                                            m,
                                            old(self).buffer_size as int,
                                        )) && (forall|i: int|
                                        0 <= i < old(self).analysers@.len()
                                            ==> crate::analysis::analyser::analyser_variant_kept(
                                            old(self).analysers@[i],
                                            #[trigger] final(self).analysers@[i],
                                        ))
                                }
                            })
                            ||| ({
                                // the cluster had expired at selection: its
                                // pending window was flushed and a fresh
                                // replacement took the record
                                &&& events.len() == expiry_releases(
                                    picked,
                                    m,
                                    old(self).k as int,
                                ).len()
                                &&& forall|i: int|
                                    0 <= i < pending_models(picked.w_current.buffer@).len()
                                        ==> event_matches(
                                        #[trigger] events[i],
                                        pending_models(picked.w_current.buffer@)[i],
                                        picked.uuid,
                                    )
                                &&& final(self).cluster_set@.len() == oldset.len()
                                &&& exists|i: int|
                                    0 <= i < final(self).cluster_set@.len()
                                        && #[trigger] final(self).cluster_set@.remove(i)
                                        == oldset.remove(j) && singleton_admission(
                                        final(self).cluster_set@[i].1,
                                        m,
                                    ) && (old(self).k == 1 ==> events.len() >= 1 && event_matches(
                                        events.last(),
                                        m,
                                        final(self).cluster_set@[i].1.uuid,
                                    ))
                                &&& forall|i: int|
                                    0 <= i < old(self).analysers@.len()
                                        ==> crate::analysis::analyser::analyser_variant_kept(
                                        old(self).analysers@[i],
                                        #[trigger] final(self).analysers@[i],
                                    )
                            })
                        })
                }
            }),
    {
        let ghost m = record_model(value);
        let ghost q = value.qis();
        let ghost thr = self.diff_thres_nanos as int;
        let ghost oldset = self.cluster_set@;
        let ghost sunk0 = self.publisher.sunk();
        let ghost an0 = self.analysers@;
        match self.find_best_cluster(&value) {
            None => {
                let mut cluster = self.create_new_cluster();
                let ghost c0 = cluster;
                cluster.add_tuple(value);
                proof {
                    crate::anonymization::cluster::lemma_sens_count_le_sum(
                        c0.sensitive_freq@,
                        m.1,
                    );
                    assert(cluster.w_current.buffer@[0].0 == false);
                    assert(record_model(cluster.w_current.buffer@[0].1) == m);
                    assert(singleton_admission(cluster, m));
                }
                let key = self.free_key(cluster.last_arrival);
                cluster.last_arrival = key;
                let ghost kept = cluster;
                proof {
                    assert(self.cluster_set@ == oldset);
                }
                self.insert_cluster(key, cluster);
                proof {
                    assert(exists|i: int|
                        0 <= i < self.cluster_set@.len() && #[trigger] self.cluster_set@.remove(i)
                            == oldset && self.cluster_set@[i] == (key, kept));
                }
                Self::count_cluster_event(&mut self.analysers, true);
                proof {
                    let i0 = choose|i: int|
                        0 <= i < self.cluster_set@.len() && #[trigger] self.cluster_set@.remove(i)
                            == oldset && self.cluster_set@[i] == (key, kept);
                    assert(singleton_admission(self.cluster_set@[i0].1, m));
                    assert(!self.cluster_set@[i0].1.w_current.buffer@[0].0);
                    assert(self.publisher == old(self).publisher);
                }
            },
            Some(cluster) => {
                proof {
                    assert(exists|jj: int|
                        #[trigger] chosen(oldset, q, thr, jj) && cluster == oldset[jj].1
                            && self.cluster_set@ == oldset.remove(jj));
                }
                let ghost j = choose|jj: int|
                    #[trigger] chosen(oldset, q, thr, jj) && cluster == oldset[jj].1
                        && self.cluster_set@ == oldset.remove(jj);
                let ghost picked = cluster;
                let ghost kk = self.k as int;
                let ghost kmax = self.k_max as int;
                let ghost cap = self.buffer_size as int;
                let ghost pend = pending_models(picked.w_current.buffer@);
                let mut cluster = cluster;
                let lifetime = cluster.check_cluster_life_time();
                let expired = lifetime >= self.delta;
                if expired {
                    cluster.publish_all(&mut self.publisher, &mut self.analysers);
                    cluster = self.create_new_cluster();
                }
                let ghost pre_add = cluster;
                let ghost sunk_b = self.publisher.sunk();
                let ghost an_b = self.analysers@;
                let ghost c0 = cluster;
                cluster.add_tuple(value);
                proof {
                    assert(pending_models(cluster.w_current.buffer@) == pending_models(
                        pre_add.w_current.buffer@,
                    ).push(m)) by {
                        crate::anonymization::cluster::lemma_pending_models_same_entries(
                            cluster.w_current.buffer@,
                            pre_add.w_current.buffer@.push((false, value)),
                        );
                        assert(pre_add.w_current.buffer@.push((false, value)).drop_last()
                            =~= pre_add.w_current.buffer@);
                        assert(pending_models(pre_add.w_current.buffer@.push((false, value)))
                            =~= pending_models(pre_add.w_current.buffer@).push(m));
                    }
                    if expired {
                        crate::anonymization::cluster::lemma_sens_count_le_sum(
                            c0.sensitive_freq@,
                            m.1,
                        );
                        assert(record_model(cluster.w_current.buffer@[0].1) == m);
                        assert(singleton_admission(cluster, m));
                        crate::anonymization::cluster::lemma_pending_models_all_released(
                            pre_add.w_current.buffer@,
                        );
                        assert(pending_models(pre_add.w_current.buffer@).push(m) =~= seq![m]);
                    } else {
                        assert(pre_add == picked);
                    }
                }
                let ghost n1 = cluster.w_current.buffer@.len() as int;
                let ghost post_add = cluster;
                let ghost gate1 = n1 == kk;
                let ghost gate2 = kk < n1 <= kmax + 1;
                let ghost gate_models: Seq<RecordModel> = if gate1 {
                    pending_models(pre_add.w_current.buffer@).push(m)
                } else if gate2 {
                    seq![m]
                } else {
                    Seq::empty()
                };

                if cluster.w_current.buffer.len() == self.k {
                    cluster.publish_all(&mut self.publisher, &mut self.analysers);
                    proof {
                        crate::anonymization::cluster::lemma_pending_models_all_released(
                            cluster.w_current.buffer@,
                        );
                    }
                } else if self.k < cluster.w_current.buffer.len() && cluster.w_current.buffer.len()
                    <= self.k_max + 1 {
                    proof {
                        assert(!post_add.w_current.buffer@.last().0);
                        assert(record_model(post_add.w_current.buffer@.last().1) == m);
                    }
                    cluster.publish(&mut self.publisher, &mut self.analysers);
                    proof {
                        assert(pending_models(cluster.w_current.buffer@) == pending_models(
                            pre_add.w_current.buffer@,
                        )) by {
                            let updated = post_add.w_current.buffer@.update(
                                post_add.w_current.buffer@.len() - 1,
                                (true, post_add.w_current.buffer@.last().1),
                            );
                            crate::anonymization::cluster::lemma_pending_models_same_entries(
                                cluster.w_current.buffer@,
                                updated,
                            );
                            assert(updated.len() == post_add.w_current.buffer@.len());
                            assert(updated.len() >= 1);
                            assert(updated.last().0);
                            assert(pending_models(updated) =~= pending_models(
                                updated.drop_last(),
                            ));
                            assert(updated.drop_last() =~= post_add.w_current.buffer@.drop_last());
                            crate::anonymization::cluster::lemma_pending_models_same_entries(
                                post_add.w_current.buffer@.drop_last(),
                                pre_add.w_current.buffer@,
                            );
                        }
                    }
                }
                let ghost post_gates = cluster;
                let ghost sunk_c = self.publisher.sunk();
                let ghost an_c = self.analysers@;
                proof {
                    // the publishing gates released exactly gate_models
                    assert(sunk_c.len() == sunk_b.len() + gate_models.len());
                    assert forall|l: int| 0 <= l < sunk_b.len() implies #[trigger] sunk_c[l]
                        == sunk_b[l] by {
                        if gate2 {
                            assert(sunk_c.drop_last() == sunk_b);
                            assert(sunk_c.drop_last()[l] == sunk_c[l]);
                        }
                    }
                    assert forall|l: int| 0 <= l < gate_models.len() implies event_matches(
                        #[trigger] sunk_c[sunk_b.len() + l],
                        gate_models[l],
                        post_add.uuid,
                    ) by {
                        if gate2 {
                            assert(sunk_c[sunk_b.len() + l] == sunk_c.last());
                        }
                    }
                    // the analysers took only release steps so far
                    assert forall|i: int|
                        0 <= i < an0.len()
                            implies crate::analysis::analyser::analyser_variant_kept(
                        an0[i],
                        #[trigger] an_c[i],
                    ) by {
                        crate::analysis::analyser::lemma_variant_kept_refl(an0[i]);
                        if !expired {
                            if gate1 {
                            } else if gate2 {
                                crate::analysis::analyser::lemma_release_step_keeps_variant(
                                    an_b[i],
                                    an_c[i],
                                    m,
                                    sunk_c.last().0,
                                );
                            }
                        } else {
                            if gate1 {
                                crate::analysis::analyser::lemma_variant_kept_trans(
                                    an0[i],
                                    an_b[i],
                                    an_c[i],
                                );
                            } else if gate2 {
                                crate::analysis::analyser::lemma_release_step_keeps_variant(
                                    an_b[i],
                                    an_c[i],
                                    m,
                                    sunk_c.last().0,
                                );
                                crate::analysis::analyser::lemma_variant_kept_trans(
                                    an0[i],
                                    an_b[i],
                                    an_c[i],
                                );
                            }
                        }
                    }
                }

                if cluster.is_full() {
                    cluster.detect_concept_drift();
                }
                let ghost post_drift = cluster;
                let ghost drifted = n1 >= cap;

                if cluster.complete_buffer_amount > self.k_max {
                    let ghost retire_models = pending_models(post_drift.w_current.buffer@);
                    cluster.publish_all(&mut self.publisher, &mut self.analysers);
                    let ghost an_d = self.analysers@;
                    let ghost sunk_d = self.publisher.sunk();
                    Self::count_cluster_event(&mut self.analysers, false);
                    proof {
                        assert(!expired);
                        assert forall|i: int|
                            0 <= i < an0.len()
                                implies crate::analysis::analyser::analyser_lifecycle_step(
                            an0[i],
                            #[trigger] self.analysers@[i],
                            false,
                        ) by {
                            crate::analysis::analyser::lemma_variant_kept_trans(
                                an0[i],
                                an_c[i],
                                an_d[i],
                            );
                            crate::analysis::analyser::lemma_lifecycle_compose(
                                an0[i],
                                an_d[i],
                                self.analysers@[i],
                                false,
                            );
                        }
                        // which models the retirement flush released
                        if gate1 {
                            assert(retire_models =~= Seq::<RecordModel>::empty()) by {
                                crate::anonymization::cluster::lemma_pending_models_all_released(
                                    post_drift.w_current.buffer@,
                                );
                            }
                        } else if drifted {
                            assert(post_drift.w_current.buffer@.len() == 0);
                            assert(retire_models =~= Seq::<RecordModel>::empty());
                        }
                        // the retirement condition, against the old state
                        assert(cluster.complete_buffer_amount == picked.complete_buffer_amount
                            + 1);
                        assert(picked.complete_buffer_amount + 1 > kmax);
                        assert(n1 == picked.w_current.buffer@.len() + 1);
                        assert(pending_models(pre_add.w_current.buffer@) == pend);
                        // the total released this call, in order
                        let models = admission_releases(picked, m, kk, kmax, cap);
                        if gate1 {
                            assert(models =~= gate_models + retire_models);
                        } else if gate2 {
                            if drifted {
                                assert(models =~= gate_models + retire_models);
                            } else {
                                assert(retire_models == pend);
                                assert(models =~= gate_models + retire_models);
                            }
                        } else {
                            if drifted {
                                assert(models =~= gate_models + retire_models);
                            } else {
                                assert(retire_models == pend.push(m));
                                assert(models =~= gate_models + retire_models);
                            }
                        }
                        assert(sunk_b == sunk0);
                        assert(post_add.uuid == picked.uuid);
                        assert(post_drift.uuid == picked.uuid);
                        assert(self.publisher.sunk() == sunk_d);
                        assert(sunk_c.len() == sunk0.len() + gate_models.len());
                        assert(sunk_d.len() == sunk_c.len() + retire_models.len());
                        assert(self.publisher.sunk().len() == sunk0.len() + models.len());
                        assert forall|l: int| 0 <= l < models.len() implies event_matches(
                            #[trigger] self.publisher.sunk()[sunk0.len() + l],
                            models[l],
                            picked.uuid,
                        ) by {
                            if l < gate_models.len() {
                                assert(sunk_d[sunk0.len() + l] == sunk_c[sunk0.len() + l]);
                                assert(event_matches(
                                    sunk_c[sunk0.len() + l],
                                    gate_models[l],
                                    post_add.uuid,
                                ));
                                assert(models[l] == gate_models[l]);
                            } else {
                                let r = l - gate_models.len();
                                assert(event_matches(
                                    sunk_d[sunk_c.len() + r],
                                    retire_models[r],
                                    post_drift.uuid,
                                ));
                                assert(sunk0.len() + l == sunk_c.len() + r);
                                assert(models[l] == retire_models[r]);
                            }
                        }
                        let events = self.publisher.sunk().skip(sunk0.len() as int);
                        assert forall|l: int| 0 <= l < events.len() implies #[trigger] events[l]
                            == self.publisher.sunk()[sunk0.len() + l] by {
                        }
                        assert(events_match(events, models, picked.uuid));
                    }
                } else {
                    let key = self.free_key(cluster.last_arrival);
                    cluster.last_arrival = key;
                    let ghost kept = cluster;
                    self.insert_cluster(key, cluster);
                    proof {
                        let i0 = choose|i: int|
                            0 <= i < self.cluster_set@.len()
                                && #[trigger] self.cluster_set@.remove(i) == oldset.remove(j)
                                && self.cluster_set@[i] == (key, kept);
                        let events = self.publisher.sunk().skip(sunk0.len() as int);
                        assert forall|l: int| 0 <= l < events.len() implies #[trigger] events[l]
                            == self.publisher.sunk()[sunk0.len() + l] by {
                        }
                        if !expired {
                            assert(admitted_cluster_step(
                                picked,
                                self.cluster_set@[i0].1,
                                m,
                                old(self).buffer_size as int,
                            ));
                            let models = admission_releases(picked, m, kk, kmax, cap);
                            assert(models =~= gate_models);
                            assert(self.publisher.sunk() == sunk_c);
                            assert(events_match(events, models, picked.uuid));
                        } else {
                            assert(singleton_admission(self.cluster_set@[i0].1, m));
                            let fmodels = expiry_releases(picked, m, kk);
                            assert(gate1 <==> kk == 1);
                            if kk == 1 {
                                assert(gate_models =~= seq![m]);
                                assert(fmodels =~= pend.push(m));
                            } else {
                                assert(!gate1 && !gate2);
                                assert(fmodels =~= pend);
                            }
                            assert(events.len() == fmodels.len());
                            assert forall|i: int| 0 <= i < pend.len() implies event_matches(
                                #[trigger] events[i],
                                pend[i],
                                picked.uuid,
                            ) by {
                                assert(events[i] == sunk_c[sunk0.len() + i]);
                                assert(sunk_c[sunk0.len() + i] == sunk_b[sunk0.len() + i]);
                            }
                            if kk == 1 {
                                assert(event_matches(
                                    events.last(),
                                    m,
                                    self.cluster_set@[i0].1.uuid,
                                )) by {
                                    assert(sunk_b.len() == sunk0.len() + pend.len());
                                    assert(sunk_c.len() == sunk_b.len() + 1);
                                    assert(self.publisher.sunk() == sunk_c);
                                    assert(events.len() == pend.len() + 1);
                                    assert(events.last() == events[events.len() - 1]);
                                    assert(events[events.len() - 1] == self.publisher.sunk()[
                                    sunk0.len() + events.len() - 1]);
                                    assert(sunk0.len() + events.len() - 1 == sunk_b.len());
                                    assert(event_matches(
                                        sunk_c[sunk_b.len() + 0int],
                                        gate_models[0],
                                        post_add.uuid,
                                    ));
                                    assert(sunk_c[sunk_b.len() + 0int] == sunk_c[
                                    sunk_b.len() as int]);
                                    assert(gate_models[0] == m);
                                    assert(self.cluster_set@[i0].1.uuid == post_add.uuid);
                                }
                            }
                        }
                    }
                }
            },
        }
    }
}

} // verus!
