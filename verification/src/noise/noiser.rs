use vstd::prelude::*;
use crate::data_manipulation::anonymizable::{
    qi_in_randomized_range, qi_raw, qi_shape, qis_cat_ok, qis_wf, shape_seq,
    QuasiIdentifierTypes, QI_LEN_BOUND,
};

verus! {

/// This trait lets you implement a custom noising function to add
/// differential privacy noise to the QI list of a record. The engine owns
/// one prototype noiser and hands every new cluster its own copy.
pub trait Noiser: Sized {
    /// Noiser well-formedness.
    spec fn wf(&self) -> bool;

    /// The noiser can take a QI list of this shape: either it has noised
    /// nothing yet, or it grew its per-position state along lists of the
    /// same kinds and domains.
    spec fn fits(&self, s: Seq<QuasiIdentifierTypes>) -> bool;

    /// Whether a noiser fits a list depends only on the list's shape.
    proof fn lemma_fits_shape(&self, a: Seq<QuasiIdentifierTypes>, b: Seq<QuasiIdentifierTypes>)
        requires
            self.fits(a),
            shape_seq(a) == shape_seq(b),
        ensures
            self.fits(b),
    ;

    /// The codes the noiser has observed at one QI position; empty where the
    /// position carries no categorical state yet.
    spec fn observed_at(&self, i: int) -> Seq<i64>;

    /// a fresh noiser with this noiser's configuration, fit for any stream
    fn duplicate(&self) -> (r: Self)
        requires
            self.wf(),
        ensures
            r.wf(),
            forall|s: Seq<QuasiIdentifierTypes>| #[trigger] r.fits(s),
            forall|i: int| #[trigger] r.observed_at(i) == Seq::<i64>::empty(),
    ;

    /// add noise to a QI list: the result keeps the length and per-position
    /// shape of the input, every noised value lies in its position's
    /// randomization range, a categorical position answers with its own code
    /// or one observed at that position before, and the position remembers
    /// the input's code
    fn add_noise(&mut self, qis: &Vec<QuasiIdentifierTypes>) -> (r: Vec<QuasiIdentifierTypes>)
        requires
            old(self).wf(),
            old(self).fits(qis@),
            qis_wf(qis@),
            qis_cat_ok(qis@),
            1 <= qis@.len() <= QI_LEN_BOUND,
        ensures
            final(self).wf(),
            final(self).fits(qis@),
            r@.len() == qis@.len(),
            forall|i: int| 0 <= i < r@.len() ==> qi_shape(#[trigger] r@[i]) == qi_shape(qis@[i]),
            forall|i: int| 0 <= i < r@.len() ==> qi_in_randomized_range(#[trigger] r@[i]),
            forall|i: int|
                0 <= i < r@.len() && !(qis@[i] is Interval) ==> (qi_raw(#[trigger] r@[i])
                    == qi_raw(qis@[i]) || old(self).observed_at(i).contains(qi_raw(r@[i]))),
            forall|i: int|
                0 <= i < qis@.len() && !(qis@[i] is Interval) ==> #[trigger] final(self).observed_at(i) == (if old(self).observed_at(i).contains(qi_raw(qis@[i])) {
                    old(self).observed_at(i)
                } else {
                    old(self).observed_at(i).push(qi_raw(qis@[i]))
                }),
    ;
}

} // verus!
