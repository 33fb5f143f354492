use vstd::prelude::*;
use crate::data_manipulation::anonymizable::{Anonymizable, QuasiIdentifierTypes, SensKey, SensitiveAttribute, VAL_BOUND, qi_raw, shape_seq, updated_qis};

verus! {

/// A census record with six numeric quasi-identifiers and the income class
/// as its sensitive attribute.
#[derive(Clone, PartialEq, Eq, Debug)]
pub struct Adult {
    pub timestamp: i64,
    pub age: i64,
    pub fnlwgt: i64,
    pub education_num: i64,
    pub capital_gain: i64,
    pub capital_loss: i64,
    pub hours_per_week: i64,
    pub class: String,
    pub time_generated: u64,
}

impl Adult {
    /// the age as an interval QI over [1, 100]
    fn get_age_qi(&self) -> (r: QuasiIdentifierTypes)
        ensures
            r == self.qis()[0],
    {
        proof {
            assert(self.qis()[0] == QuasiIdentifierTypes::Interval((self.age, 1, 100, 1)));
        }
        QuasiIdentifierTypes::Interval((self.age, 1, 100, 1))
    }

    /// the final sampling weight as an interval QI over [1, 1500000]
    fn get_fnlwgt_qi(&self) -> (r: QuasiIdentifierTypes)
        ensures
            r == self.qis()[1],
    {
        QuasiIdentifierTypes::Interval((self.fnlwgt, 1, 1_500_000, 1))
    }

    /// the years of education as an interval QI over [1, 20]
    fn get_education_num_qi(&self) -> (r: QuasiIdentifierTypes)
        ensures
            r == self.qis()[2],
    {
        QuasiIdentifierTypes::Interval((self.education_num, 1, 20, 1))
    }

    /// the capital gain as an interval QI over [0, 100000]
    fn get_capital_gain_qi(&self) -> (r: QuasiIdentifierTypes)
        ensures
            r == self.qis()[3],
    {
        QuasiIdentifierTypes::Interval((self.capital_gain, 0, 100_000, 1))
    }

    /// the capital loss as an interval QI over [0, 5000]
    fn get_capital_loss_qi(&self) -> (r: QuasiIdentifierTypes)
        ensures
            r == self.qis()[4],
    {
        QuasiIdentifierTypes::Interval((self.capital_loss, 0, 5_000, 1))
    }

    /// the weekly hours as an interval QI over [1, 100]
    fn get_hours_per_week_qi(&self) -> (r: QuasiIdentifierTypes)
        ensures
            r == self.qis()[5],
    {
        QuasiIdentifierTypes::Interval((self.hours_per_week, 1, 100, 1))
    }

    /// a record of zeros with an empty class
    pub fn new_blank() -> (r: Adult)
        ensures
            r.wf(),
            r.ts() == 0,
    {
        Adult {
            timestamp: 0,
            age: 0,
            fnlwgt: 0,
            education_num: 0,
            capital_gain: 0,
            capital_loss: 0,
            hours_per_week: 0,
            class: String::new(),
            time_generated: 0,
        }
    }
}

impl Default for Adult {
    fn default() -> (r: Adult)
        ensures
            r.wf(),
            r.ts() == 0,
    {
        Adult::new_blank()
    }
}

impl Anonymizable for Adult {
    open spec fn qis(&self) -> Seq<QuasiIdentifierTypes> {
        seq![
            QuasiIdentifierTypes::Interval((self.age, 1, 100, 1)),
            QuasiIdentifierTypes::Interval((self.fnlwgt, 1, 1_500_000, 1)),
            QuasiIdentifierTypes::Interval((self.education_num, 1, 20, 1)),
            QuasiIdentifierTypes::Interval((self.capital_gain, 0, 100_000, 1)),
            QuasiIdentifierTypes::Interval((self.capital_loss, 0, 5_000, 1)),
            QuasiIdentifierTypes::Interval((self.hours_per_week, 1, 100, 1)),
        ]
    }

    open spec fn sens(&self) -> SensKey {
        (0int, 0int, self.class@)
    }

    open spec fn ts(&self) -> u64 {
        self.time_generated
    }

    open spec fn wf(&self) -> bool {
        &&& -VAL_BOUND <= self.age <= VAL_BOUND
        &&& -VAL_BOUND <= self.fnlwgt <= VAL_BOUND
        &&& -VAL_BOUND <= self.education_num <= VAL_BOUND
        &&& -VAL_BOUND <= self.capital_gain <= VAL_BOUND
        &&& -VAL_BOUND <= self.capital_loss <= VAL_BOUND
        &&& -VAL_BOUND <= self.hours_per_week <= VAL_BOUND
    }

    open spec fn shape() -> Seq<QuasiIdentifierTypes> {
        seq![
            QuasiIdentifierTypes::Interval((0i64, 1, 100, 1)),
            QuasiIdentifierTypes::Interval((0i64, 1, 1_500_000, 1)),
            QuasiIdentifierTypes::Interval((0i64, 1, 20, 1)),
            QuasiIdentifierTypes::Interval((0i64, 0, 100_000, 1)),
            QuasiIdentifierTypes::Interval((0i64, 0, 5_000, 1)),
            QuasiIdentifierTypes::Interval((0i64, 1, 100, 1)),
        ]
    }

    proof fn lemma_wf_qis(&self) {
        assert(shape_seq(self.qis()) =~= Self::shape());
    }

    fn quasi_identifiers(&self) -> (r: Vec<QuasiIdentifierTypes>) {
        let age = self.get_age_qi();
        let fnlwgt = self.get_fnlwgt_qi();
        let education_num = self.get_education_num_qi();
        let capital_gain = self.get_capital_gain_qi();
        let capital_loss = self.get_capital_loss_qi();
        let hours_per_week = self.get_hours_per_week_qi();
        let mut r: Vec<QuasiIdentifierTypes> = Vec::new();
        r.push(age);
        r.push(fnlwgt);
        r.push(education_num);
        r.push(capital_gain);
        r.push(capital_loss);
        r.push(hours_per_week);
        proof {
            assert(r@ =~= self.qis());
        }
        r
    }

    fn update_quasi_identifiers(&self, qi: Vec<QuasiIdentifierTypes>) -> (r: Self) {
        let ghost qi0: Seq<QuasiIdentifierTypes> = qi@;
        let r = Adult {
            timestamp: self.timestamp,
            age: qi[0].extract_value(),
            fnlwgt: qi[1].extract_value(),
            education_num: qi[2].extract_value(),
            capital_gain: qi[3].extract_value(),
            capital_loss: qi[4].extract_value(),
            hours_per_week: qi[5].extract_value(),
            class: self.class.clone(),
            time_generated: self.time_generated,
        };
        proof {
            assert(qi_raw(qi0[0]) == r.age);
            assert(r.qis() =~= updated_qis(self.qis(), qi0));
        }
        r
    }

    fn sensitive_value(&self) -> (r: SensitiveAttribute) {
        SensitiveAttribute::Text(self.class.clone())
    }

    fn get_timestamp(&self) -> (r: u64) {
        self.time_generated
    }

    fn extract_string_values(&self, uuid: u128, dr_nanos: u64) -> Vec<String> {
        let mut row: Vec<String> = Vec::new();
        row.push(uuid.to_string());
        row.push(dr_nanos.to_string());
        row.push(self.timestamp.to_string());
        row.push(self.age.to_string());
        row.push(self.fnlwgt.to_string());
        row.push(self.education_num.to_string());
        row.push(self.capital_gain.to_string());
        row.push(self.capital_loss.to_string());
        row.push(self.hours_per_week.to_string());
        row.push(self.class.clone());
        row
    }

    fn blank() -> (r: Self) {
        Adult::new_blank()
    }

    fn duplicate(&self) -> (r: Self) {
        Adult {
            timestamp: self.timestamp,
            age: self.age,
            fnlwgt: self.fnlwgt,
            education_num: self.education_num,
            capital_gain: self.capital_gain,
            capital_loss: self.capital_loss,
            hours_per_week: self.hours_per_week,
            class: self.class.clone(),
            time_generated: self.time_generated,
        }
    }
}

} // verus!
