use vstd::prelude::*;
use crate::data_manipulation::aggregation::{AggregateType, raw_values, spec_aggregate};
use crate::data_manipulation::anonymizable::{Anonymizable, QuasiIdentifierTypes, qi_cat_ok, qi_raw, qi_shape, qi_update_ok, qi_wf, qi_with_value, qis_cat_ok, qis_wf, shape_seq, update_ok, updated_qis};

verus! {

/// used to keep note which data tuple has already been published or not
pub type DataContainer<M> = (bool, M);

/// Buffer used for containing individual data tuples and the generalized
/// centroid. Also used for checking concept drift in a cluster by comparing
/// two buffers with each other.
pub struct Buffer<M: Anonymizable> {
    pub max_buffer_size: usize,
    pub centroid: M,
    pub buffer: Vec<DataContainer<M>>,
}

/// One column of a QI matrix: the QIs of one stream position, record by
/// record.
pub open spec fn column(es: Seq<Seq<QuasiIdentifierTypes>>, j: int) -> Seq<QuasiIdentifierTypes> {
    es.map_values(|row: Seq<QuasiIdentifierTypes>| row[j])
}

/// The per-position aggregation of a non-empty QI matrix: position by
/// position, the aggregate of that position's column.
pub open spec fn agg_qis_spec(es: Seq<Seq<QuasiIdentifierTypes>>) -> Seq<QuasiIdentifierTypes> {
    Seq::new(es[0].len(), |j: int| spec_aggregate(column(es, j)))
}

impl<M: Anonymizable> Buffer<M> {
    /// The QI matrix of the buffer's entries, in insertion order.
    pub open spec fn entry_qis(&self) -> Seq<Seq<QuasiIdentifierTypes>> {
        self.buffer@.map_values(|e: DataContainer<M>| e.1.qis())
    }

    /// The centroid and every entry are well-formed records.
    pub open spec fn entries_wf(&self) -> bool {
        &&& self.centroid.wf()
        &&& forall|i: int| 0 <= i < self.buffer@.len() ==> (#[trigger] self.buffer@[i]).1.wf()
    }

    /// Buffer well-formedness: every entry and the centroid are well formed,
    /// and a non-empty buffer's centroid carries the per-position
    /// aggregation of the entries' QIs.
    pub open spec fn wf(&self) -> bool {
        &&& self.entries_wf()
        &&& self.buffer@.len() > 0 ==> self.centroid.qis() == agg_qis_spec(self.entry_qis())
    }

    /// a fresh buffer of the given capacity, around a blank centroid
    pub fn new(max_buffer_size: usize) -> (r: Buffer<M>)
        ensures
            r.wf(),
            r.buffer@.len() == 0,
            r.max_buffer_size == max_buffer_size,
    {
        Buffer { max_buffer_size, centroid: M::blank(), buffer: Vec::new() }
    }

    /// add a data tuple, update the centroid and return a copy of the
    /// centroid
    pub fn add_tuple(&mut self, value: M) -> (r: M)
        requires
            old(self).wf(),
            value.wf(),
        ensures
            final(self).wf(),
            final(self).buffer@ == old(self).buffer@.push((false, value)),
            final(self).max_buffer_size == old(self).max_buffer_size,
            final(self).centroid.qis() == agg_qis_spec(final(self).entry_qis()),
            final(self).centroid.sens() == old(self).centroid.sens(),
            final(self).centroid.ts() == old(self).centroid.ts(),
            r.wf(),
            r.qis() == final(self).centroid.qis(),
    {
        self.buffer.push((false, value));
        self.update_centroid();
        self.centroid.duplicate()
    }

    /// aggregate all the QIs in the buffer into a centroid
    pub fn update_centroid(&mut self)
        requires
            old(self).entries_wf(),
            old(self).buffer@.len() >= 1,
        ensures
            final(self).wf(),
            final(self).buffer == old(self).buffer,
            final(self).max_buffer_size == old(self).max_buffer_size,
            final(self).centroid.qis() == agg_qis_spec(old(self).entry_qis()),
            final(self).centroid.sens() == old(self).centroid.sens(),
            final(self).centroid.ts() == old(self).centroid.ts(),
    {
        let ghost es = self.entry_qis();
        proof {
            self.centroid.lemma_wf_qis();
            assert forall|i: int| 0 <= i < self.buffer@.len() implies qis_wf(#[trigger] es[i])
                && qis_cat_ok(es[i]) && shape_seq(es[i]) == M::shape() && es[i].len()
                == M::shape().len() by {
                self.buffer@[i].1.lemma_wf_qis();
                assert(es[i] == self.buffer@[i].1.qis());
                assert(es[i].len() == shape_seq(es[i]).len());
            }
            assert(self.centroid.qis().len() == M::shape().len()) by {
                assert(self.centroid.qis().len() == shape_seq(self.centroid.qis()).len());
            }
        }
        let rows = self.buffer.len();
        let first = self.buffer[0].1.quasi_identifiers();
        let qn = first.len();
        let mut new_qi: Vec<QuasiIdentifierTypes> = Vec::new();
        let mut j: usize = 0;
        while j < qn
            invariant
                self == old(self),
                self.entries_wf(),
                es == self.entry_qis(),
                rows == self.buffer@.len(),
                rows >= 1,
                qn == M::shape().len(),
                forall|i: int|
                    0 <= i < rows ==> qis_wf(#[trigger] es[i]) && qis_cat_ok(es[i]) && shape_seq(
                        es[i],
                    ) == M::shape() && es[i].len() == qn,
                0 <= j <= qn,
                new_qi@.len() == j,
                forall|l: int| 0 <= l < j ==> #[trigger] new_qi@[l] == spec_aggregate(column(es, l)),
                forall|l: int| 0 <= l < j ==> qi_wf(#[trigger] new_qi@[l]),
                forall|l: int|
                    0 <= l < j ==> qi_shape(#[trigger] new_qi@[l]) == qi_shape(es[0][l]),
                forall|l: int| 0 <= l < j ==> qi_cat_ok(#[trigger] new_qi@[l]),
            decreases qn - j,
        {
            let mut col: Vec<QuasiIdentifierTypes> = Vec::new();
            let mut i: usize = 0;
            while i < rows
                invariant
                    self == old(self),
                    self.entries_wf(),
                    es == self.entry_qis(),
                    rows == self.buffer@.len(),
                    0 <= j < qn,
                    forall|k: int|
                        0 <= k < rows ==> qis_wf(#[trigger] es[k]) && qis_cat_ok(es[k])
                            && shape_seq(es[k]) == M::shape() && es[k].len() == qn,
                    0 <= i <= rows,
                    col@.len() == i,
                    forall|k: int| 0 <= k < i ==> #[trigger] col@[k] == es[k][j as int],
                decreases rows - i,
            {
                let row = self.buffer[i].1.quasi_identifiers();
                proof {
                    assert(es[i as int] == self.buffer@[i as int].1.qis());
                }
                col.push(row[j]);
                i = i + 1;
            }
            proof {
                assert(col@ =~= column(es, j as int));
                assert forall|k: int| 0 <= k < rows implies qi_wf(#[trigger] col@[k]) && qi_cat_ok(
                    col@[k],
                ) && qi_shape(col@[k]) == qi_shape(col@[0]) by {
                    assert(col@[k] == es[k][j as int]);
                    assert(shape_seq(es[k])[j as int] == qi_shape(es[k][j as int]));
                    assert(shape_seq(es[0])[j as int] == qi_shape(es[0][j as int]));
                    assert(qi_shape(col@[k]) == M::shape()[j as int]);
                    assert(qi_shape(col@[0]) == M::shape()[j as int]);
                }
            }
            let is_interval = match col[0] {
                QuasiIdentifierTypes::Interval(_) => true,
                _ => false,
            };
            let aggregate_type = if is_interval {
                AggregateType::Mean(col)
            } else {
                AggregateType::Mode(col)
            };
            let agg = aggregate_type.aggregate();
            proof {
                if !(column(es, j as int)[0] is Interval) {
                    let raws = raw_values(column(es, j as int));
                    let k = choose|k: int| 0 <= k < raws.len() && raws[k] == qi_raw(agg);
                    assert(raws[k] == qi_raw(column(es, j as int)[k]));
                    assert(qi_cat_ok(column(es, j as int)[k]));
                    assert(qi_shape(column(es, j as int)[k]) == qi_shape(agg));
                }
            }
            new_qi.push(agg);
            j = j + 1;
        }
        proof {
            assert forall|l: int| 0 <= l < qn implies qi_update_ok(
                self.centroid.qis()[l],
                #[trigger] new_qi@[l],
            ) by {
                assert(shape_seq(self.centroid.qis())[l] == qi_shape(self.centroid.qis()[l]));
                assert(shape_seq(es[0])[l] == qi_shape(es[0][l]));
                assert(qi_shape(self.centroid.qis()[l]) == M::shape()[l]);
                assert(qi_shape(new_qi@[l]) == M::shape()[l]);
            }
            assert(update_ok(self.centroid.qis(), new_qi@));
        }
        let ghost old_centroid_qis = self.centroid.qis();
        let ghost given = new_qi@;
        let new_centroid = self.centroid.update_quasi_identifiers(new_qi);
        self.centroid = new_centroid;
        proof {
            assert(self.centroid.qis() == updated_qis(old_centroid_qis, given));
            assert(old_centroid_qis.len() == qn);
            assert forall|l: int| 0 <= l < qn implies #[trigger] self.centroid.qis()[l]
                == agg_qis_spec(es)[l] by {
                assert(self.centroid.qis()[l] == qi_with_value(
                    old_centroid_qis[l],
                    qi_raw(given[l]),
                ));
                assert(shape_seq(old_centroid_qis)[l] == qi_shape(old_centroid_qis[l]));
                assert(shape_seq(es[0])[l] == qi_shape(es[0][l]));
                assert(qi_shape(old_centroid_qis[l]) == M::shape()[l]);
                assert(qi_shape(given[l]) == M::shape()[l]);
                assert(qi_shape(old_centroid_qis[l]) == qi_shape(given[l]));
                lemma_same_shape_with_value(old_centroid_qis[l], given[l]);
                assert(given[l] == spec_aggregate(column(es, l)));
            }
            assert(self.centroid.qis() =~= agg_qis_spec(es));
        }
    }

    /// an owned copy of the buffer, preserving every entry's flag and model
    pub fn duplicate(&self) -> (r: Buffer<M>)
        requires
            self.entries_wf(),
        ensures
            r.entries_wf(),
            r.max_buffer_size == self.max_buffer_size,
            same_entries(r.buffer@, self.buffer@),
            r.centroid.wf(),
            r.centroid.qis() == self.centroid.qis(),
            r.centroid.sens() == self.centroid.sens(),
            r.centroid.ts() == self.centroid.ts(),
            self.wf() ==> r.wf(),
    {
        let mut entries: Vec<DataContainer<M>> = Vec::new();
        let n = self.buffer.len();
        let mut i: usize = 0;
        while i < n
            invariant
                self.entries_wf(),
                n == self.buffer@.len(),
                0 <= i <= n,
                entries@.len() == i,
                forall|j: int|
                    0 <= j < i ==> (#[trigger] entries@[j]).0 == self.buffer@[j].0
                        && entries@[j].1.wf() && entries@[j].1.qis() == self.buffer@[j].1.qis()
                        && entries@[j].1.sens() == self.buffer@[j].1.sens()
                        && entries@[j].1.ts() == self.buffer@[j].1.ts(),
            decreases n - i,
        {
            let flag = self.buffer[i].0;
            let rec = self.buffer[i].1.duplicate();
            entries.push((flag, rec));
            i = i + 1;
        }
        let r = Buffer {
            max_buffer_size: self.max_buffer_size,
            centroid: self.centroid.duplicate(),
            buffer: entries,
        };
        proof {
            if self.wf() && self.buffer@.len() > 0 {
                assert(r.entry_qis() =~= self.entry_qis()) by {
                    assert forall|j: int| 0 <= j < n implies r.entry_qis()[j]
                        == self.entry_qis()[j] by {
                        assert(r.entry_qis()[j] == r.buffer@[j].1.qis());
                        assert(self.entry_qis()[j] == self.buffer@[j].1.qis());
                    }
                }
            }
        }
        r
    }

    /// empty the buffer after the null hypothesis was kept
    pub fn reset(&mut self)
        requires
            old(self).entries_wf(),
        ensures
            final(self).wf(),
            final(self).buffer@.len() == 0,
            final(self).max_buffer_size == old(self).max_buffer_size,
            final(self).centroid == old(self).centroid,
    {
        self.buffer = Vec::new();
    }

    /// used for checking if the buffer needs to be emptied
    pub fn is_full(&self) -> (r: bool)
        ensures
            r == (self.buffer@.len() >= self.max_buffer_size),
    {
        self.buffer.len() >= self.max_buffer_size
    }
}

/// Two entry lists agree flag by flag and record model by record model.
pub open spec fn same_entries<M: Anonymizable>(
    a: Seq<DataContainer<M>>,
    b: Seq<DataContainer<M>>,
) -> bool {
    &&& a.len() == b.len()
    &&& forall|i: int|
        0 <= i < a.len() ==> (#[trigger] a[i]).0 == b[i].0 && a[i].1.qis() == b[i].1.qis()
            && a[i].1.sens() == b[i].1.sens() && a[i].1.ts() == b[i].1.ts()
}

/// Replacing the value of a QI by the value of a QI of the same shape gives
/// back that second QI.
pub proof fn lemma_same_shape_with_value(cur: QuasiIdentifierTypes, given: QuasiIdentifierTypes)
    requires
        qi_shape(cur) == qi_shape(given),
    ensures
        qi_with_value(cur, qi_raw(given)) == given,
{
}

impl<M: Anonymizable> Default for Buffer<M> {
    fn default() -> (r: Buffer<M>)
        ensures
            r.wf(),
            r.buffer@.len() == 0,
            r.max_buffer_size == 0,
    {
        Buffer::new(0)
    }
}

} // verus!
