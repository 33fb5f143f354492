use vstd::prelude::*;
use crate::analysis::cluster_analyser::ClusterAnalyser;
use crate::analysis::disclosure_risk_analyser::DisclosureRiskAnalyser;
use crate::analysis::mse_analyser::MseAnalyser;
use crate::analysis::publishing_delay_analyser::PublishingDelayAnalyser;
use crate::analysis::sse_analyser::SseAnalyser;
use crate::data_manipulation::anonymizable::Anonymizable;

verus! {

/// This enum encompasses all the different analysers used in the framework.
pub enum Analyser<A: Anonymizable> {
    Mse(MseAnalyser),
    Sse(SseAnalyser),
    PublishingDelay(PublishingDelayAnalyser),
    ClusterAnalyser(ClusterAnalyser),
    DisclosureRiskAnalyser(DisclosureRiskAnalyser<A>),
}

/// An analyser is well formed where it carries inner state with an
/// invariant of its own.
pub open spec fn analyser_wf<A: Anonymizable>(a: Analyser<A>) -> bool {
    match a {
        Analyser::DisclosureRiskAnalyser(d) => d.wf(),
        _ => true,
    }
}

/// Every analyser of the list is well formed.
pub open spec fn analysers_wf<A: Anonymizable>(s: Seq<Analyser<A>>) -> bool {
    forall|i: int| 0 <= i < s.len() ==> analyser_wf(#[trigger] s[i])
}

/// One release as it steps an analyser: the error analysers take the
/// release's measurements of the original against the released QI list
/// (saturating at their type bounds), the delay analyser counts it, the
/// disclosure-risk ring remembers the original, and the cluster analyser is
/// untouched.
pub open spec fn analyser_release_step<A: Anonymizable>(
    before: Analyser<A>,
    after: Analyser<A>,
    orig: crate::data_manipulation::anonymizable::RecordModel,
    released: Seq<crate::data_manipulation::anonymizable::QuasiIdentifierTypes>,
) -> bool {
    match (before, after) {
        (Analyser::Mse(b), Analyser::Mse(a)) => {
            &&& a.spec_count() == if b.spec_count() < u64::MAX {
                b.spec_count() + 1
            } else {
                b.spec_count()
            }
            &&& a.spec_sum() == if b.spec_sum() + crate::data_manipulation::anonymizable::spec_distance(orig.0, released) <= u128::MAX {
                b.spec_sum() + crate::data_manipulation::anonymizable::spec_distance(
                    orig.0,
                    released,
                )
            } else {
                b.spec_sum()
            }
        },
        (Analyser::Sse(b), Analyser::Sse(a)) => {
            a.spec_sum() == if b.spec_sum() + crate::data_manipulation::anonymizable::spec_info_loss_sq(orig.0, released) <= u128::MAX {
                b.spec_sum() + crate::data_manipulation::anonymizable::spec_info_loss_sq(
                    orig.0,
                    released,
                )
            } else {
                b.spec_sum()
            }
        },
        (Analyser::PublishingDelay(b), Analyser::PublishingDelay(a)) => {
            &&& a.spec_count() == if b.spec_count() < u64::MAX {
                b.spec_count() + 1
            } else {
                b.spec_count()
            }
            &&& b.spec_sum() <= a.spec_sum() <= b.spec_sum() + u64::MAX
        },
        (Analyser::ClusterAnalyser(b), Analyser::ClusterAnalyser(a)) => a == b,
        (Analyser::DisclosureRiskAnalyser(b), Analyser::DisclosureRiskAnalyser(a)) => {
            &&& a.capacity() == b.capacity()
            &&& (b.spec_count() == u64::MAX ==> a == b)
            &&& (b.spec_count() < u64::MAX ==> a.spec_count() == b.spec_count() + 1
                && a.ring().len() >= 1 && a.ring()[0].qis() == orig.0 && a.ring()[0].sens()
                == orig.1 && a.ring()[0].ts() == orig.2)
        },
        _ => false,
    }
}

/// One cluster-lifecycle event as it steps an analyser: the cluster
/// analyser's counter advances (saturating at its type bound), every other
/// analyser is untouched.
pub open spec fn analyser_counter_step<A: Anonymizable>(
    before: Analyser<A>,
    after: Analyser<A>,
    created: bool,
) -> bool {
    match (before, after) {
        (Analyser::ClusterAnalyser(b), Analyser::ClusterAnalyser(a)) => {
            if created {
                a.create_counter as int == (if b.create_counter < i32::MAX {
                    b.create_counter + 1
                } else {
                    b.create_counter as int
                }) && a.delete_counter == b.delete_counter
            } else {
                a.delete_counter as int == (if b.delete_counter < i32::MAX {
                    b.delete_counter + 1
                } else {
                    b.delete_counter as int
                }) && a.create_counter == b.create_counter
            }
        },
        (x, y) => y == x,
    }
}

/// A whole engine step that retires a cluster, as it touches one analyser:
/// the cluster analyser counts the deletion, every other analyser keeps its
/// kind (having taken the step's releases).
pub open spec fn analyser_lifecycle_step<A: Anonymizable>(
    before: Analyser<A>,
    after: Analyser<A>,
    created: bool,
) -> bool {
    match (before, after) {
        (Analyser::ClusterAnalyser(b), Analyser::ClusterAnalyser(a)) => {
            if created {
                a.create_counter as int == (if b.create_counter < i32::MAX {
                    b.create_counter + 1
                } else {
                    b.create_counter as int
                }) && a.delete_counter == b.delete_counter
            } else {
                a.delete_counter as int == (if b.delete_counter < i32::MAX {
                    b.delete_counter + 1
                } else {
                    b.delete_counter as int
                }) && a.create_counter == b.create_counter
            }
        },
        (Analyser::Mse(_), Analyser::Mse(_)) => true,
        (Analyser::Sse(_), Analyser::Sse(_)) => true,
        (Analyser::PublishingDelay(_), Analyser::PublishingDelay(_)) => true,
        (Analyser::DisclosureRiskAnalyser(b), Analyser::DisclosureRiskAnalyser(a)) => a.capacity()
            == b.capacity(),
        _ => false,
    }
}

/// The analyser at a position keeps its kind across a step, and the cluster
/// analyser and the ring's capacity stay untouched by releases.
pub open spec fn analyser_variant_kept<A: Anonymizable>(
    before: Analyser<A>,
    after: Analyser<A>,
) -> bool {
    match (before, after) {
        (Analyser::Mse(_), Analyser::Mse(_)) => true,
        (Analyser::Sse(_), Analyser::Sse(_)) => true,
        (Analyser::PublishingDelay(_), Analyser::PublishingDelay(_)) => true,
        (Analyser::ClusterAnalyser(b), Analyser::ClusterAnalyser(a)) => a == b,
        (Analyser::DisclosureRiskAnalyser(b), Analyser::DisclosureRiskAnalyser(a)) => a.capacity()
            == b.capacity(),
        _ => false,
    }
}

/// A release step keeps the analyser's kind.
pub proof fn lemma_release_step_keeps_variant<A: Anonymizable>(
    before: Analyser<A>,
    after: Analyser<A>,
    orig: crate::data_manipulation::anonymizable::RecordModel,
    released: Seq<crate::data_manipulation::anonymizable::QuasiIdentifierTypes>,
)
    requires
        analyser_release_step(before, after, orig, released),
    ensures
        analyser_variant_kept(before, after),
{
}

/// Every analyser keeps its own kind.
pub proof fn lemma_variant_kept_refl<A: Anonymizable>(a: Analyser<A>)
    ensures
        analyser_variant_kept(a, a),
{
}

/// Releases followed by one lifecycle count make a lifecycle step.
pub proof fn lemma_lifecycle_compose<A: Anonymizable>(
    a: Analyser<A>,
    b: Analyser<A>,
    c: Analyser<A>,
    created: bool,
)
    requires
        analyser_variant_kept(a, b),
        analyser_counter_step(b, c, created),
    ensures
        analyser_lifecycle_step(a, c, created),
{
}

/// Keeping the kind composes across steps.
pub proof fn lemma_variant_kept_trans<A: Anonymizable>(
    a: Analyser<A>,
    b: Analyser<A>,
    c: Analyser<A>,
)
    requires
        analyser_variant_kept(a, b),
        analyser_variant_kept(b, c),
    ensures
        analyser_variant_kept(a, c),
{
}

} // verus!
