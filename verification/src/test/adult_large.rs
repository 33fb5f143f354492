use vstd::prelude::*;
use crate::data_manipulation::anonymizable::{Anonymizable, QuasiIdentifierTypes, SensKey, SensitiveAttribute, VAL_BOUND, qi_raw, shape_seq, updated_qis};

verus! {

/// Greatest education code.
pub const EDU_MAX: i64 = 15;

/// Greatest marital status code.
pub const MAR_MAX: i64 = 6;

/// Greatest workclass code.
pub const WORK_MAX: i64 = 7;

/// Greatest native country code.
pub const NAT_MAX: i64 = 40;

/// Greatest occupation code.
pub const OCC_MAX: i64 = 13;

/// A census record with six numeric and five categorical quasi-identifiers
/// and the income class as its sensitive attribute. The categorical
/// attributes are held as codes; mapping them to and from their labels is
/// the importer's business.
#[derive(Clone, PartialEq, Eq, Debug)]
pub struct AdultLarge {
    pub timestamp: i64,
    pub age: i64,
    pub fnlwgt: i64,
    pub education_num: i64,
    pub capital_gain: i64,
    pub capital_loss: i64,
    pub hours_per_week: i64,
    pub education: i64,
    pub marital_status: i64,
    pub workclass: i64,
    pub native_country: i64,
    pub occupation: i64,
    pub class: String,
    pub time_generated: u64,
}

impl AdultLarge {
    /// a record of zeros with an empty class
    pub fn new_blank() -> (r: AdultLarge)
        ensures
            r.wf(),
            r.ts() == 0,
    {
        AdultLarge {
            timestamp: 0,
            age: 0,
            fnlwgt: 0,
            education_num: 0,
            capital_gain: 0,
            capital_loss: 0,
            hours_per_week: 0,
            education: 0,
            marital_status: 0,
            workclass: 0,
            native_country: 0,
            occupation: 0,
            class: String::new(),
            time_generated: 0,
        }
    }
}

impl Default for AdultLarge {
    fn default() -> (r: AdultLarge)
        ensures
            r.wf(),
            r.ts() == 0,
    {
        AdultLarge::new_blank()
    }
}

impl Anonymizable for AdultLarge {
    open spec fn qis(&self) -> Seq<QuasiIdentifierTypes> {
        seq![
            QuasiIdentifierTypes::Interval((self.age, 1, 100, 1)),
            QuasiIdentifierTypes::Interval((self.fnlwgt, 1, 1_500_000, 1)),
            QuasiIdentifierTypes::Interval((self.education_num, 1, 20, 1)),
            QuasiIdentifierTypes::Interval((self.capital_gain, 0, 100_000, 1)),
            QuasiIdentifierTypes::Interval((self.capital_loss, 0, 5_000, 1)),
            QuasiIdentifierTypes::Interval((self.hours_per_week, 1, 100, 1)),
            QuasiIdentifierTypes::Nominal((self.education, EDU_MAX, 1)),
            QuasiIdentifierTypes::Nominal((self.marital_status, MAR_MAX, 1)),
            QuasiIdentifierTypes::Nominal((self.workclass, WORK_MAX, 1)),
            QuasiIdentifierTypes::Nominal((self.native_country, NAT_MAX, 1)),
            QuasiIdentifierTypes::Nominal((self.occupation, OCC_MAX, 1)),
        ]
    }

    open spec fn sens(&self) -> SensKey {
        (0int, 0int, self.class@)
    }

    open spec fn ts(&self) -> u64 {
        self.time_generated
    }

    open spec fn wf(&self) -> bool {
        &&& -VAL_BOUND <= self.age <= VAL_BOUND
        &&& -VAL_BOUND <= self.fnlwgt <= VAL_BOUND
        &&& -VAL_BOUND <= self.education_num <= VAL_BOUND
        &&& -VAL_BOUND <= self.capital_gain <= VAL_BOUND
        &&& -VAL_BOUND <= self.capital_loss <= VAL_BOUND
        &&& -VAL_BOUND <= self.hours_per_week <= VAL_BOUND
        &&& 0 <= self.education <= EDU_MAX
        &&& 0 <= self.marital_status <= MAR_MAX
        &&& 0 <= self.workclass <= WORK_MAX
        &&& 0 <= self.native_country <= NAT_MAX
        &&& 0 <= self.occupation <= OCC_MAX
    }

    open spec fn shape() -> Seq<QuasiIdentifierTypes> {
        seq![
            QuasiIdentifierTypes::Interval((0i64, 1, 100, 1)),
            QuasiIdentifierTypes::Interval((0i64, 1, 1_500_000, 1)),
            QuasiIdentifierTypes::Interval((0i64, 1, 20, 1)),
            QuasiIdentifierTypes::Interval((0i64, 0, 100_000, 1)),
            QuasiIdentifierTypes::Interval((0i64, 0, 5_000, 1)),
            QuasiIdentifierTypes::Interval((0i64, 1, 100, 1)),
            QuasiIdentifierTypes::Nominal((0i64, EDU_MAX, 1)),
            QuasiIdentifierTypes::Nominal((0i64, MAR_MAX, 1)),
            QuasiIdentifierTypes::Nominal((0i64, WORK_MAX, 1)),
            QuasiIdentifierTypes::Nominal((0i64, NAT_MAX, 1)),
            QuasiIdentifierTypes::Nominal((0i64, OCC_MAX, 1)),
        ]
    }

    proof fn lemma_wf_qis(&self) {
        assert(shape_seq(self.qis()) =~= Self::shape());
    }

    fn quasi_identifiers(&self) -> (r: Vec<QuasiIdentifierTypes>) {
        let mut r: Vec<QuasiIdentifierTypes> = Vec::new();
        r.push(QuasiIdentifierTypes::Interval((self.age, 1, 100, 1)));
        r.push(QuasiIdentifierTypes::Interval((self.fnlwgt, 1, 1_500_000, 1)));
        r.push(QuasiIdentifierTypes::Interval((self.education_num, 1, 20, 1)));
        r.push(QuasiIdentifierTypes::Interval((self.capital_gain, 0, 100_000, 1)));
        r.push(QuasiIdentifierTypes::Interval((self.capital_loss, 0, 5_000, 1)));
        r.push(QuasiIdentifierTypes::Interval((self.hours_per_week, 1, 100, 1)));
        r.push(QuasiIdentifierTypes::Nominal((self.education, EDU_MAX, 1)));
        r.push(QuasiIdentifierTypes::Nominal((self.marital_status, MAR_MAX, 1)));
        r.push(QuasiIdentifierTypes::Nominal((self.workclass, WORK_MAX, 1)));
        r.push(QuasiIdentifierTypes::Nominal((self.native_country, NAT_MAX, 1)));
        r.push(QuasiIdentifierTypes::Nominal((self.occupation, OCC_MAX, 1)));
        proof {
            assert(r@ =~= self.qis());
        }
        r
    }

    fn update_quasi_identifiers(&self, qi: Vec<QuasiIdentifierTypes>) -> (r: Self) {
        let ghost qi0: Seq<QuasiIdentifierTypes> = qi@;
        let r = AdultLarge {
            timestamp: self.timestamp,
            age: qi[0].extract_value(),
            fnlwgt: qi[1].extract_value(),
            education_num: qi[2].extract_value(),
            capital_gain: qi[3].extract_value(),
            capital_loss: qi[4].extract_value(),
            hours_per_week: qi[5].extract_value(),
            education: qi[6].extract_value(),
            marital_status: qi[7].extract_value(),
            workclass: qi[8].extract_value(),
            native_country: qi[9].extract_value(),
            occupation: qi[10].extract_value(),
            class: self.class.clone(),
            time_generated: self.time_generated,
        };
        proof {
            assert(qi_raw(qi0[0]) == r.age);
            assert(r.qis() =~= updated_qis(self.qis(), qi0));
        }
        r
    }

    fn sensitive_value(&self) -> (r: SensitiveAttribute) {
        SensitiveAttribute::Text(self.class.clone())
    }

    fn get_timestamp(&self) -> (r: u64) {
        self.time_generated
    }

    fn extract_string_values(&self, uuid: u128, dr_nanos: u64) -> Vec<String> {
        let mut row: Vec<String> = Vec::new();
        row.push(uuid.to_string());
        row.push(dr_nanos.to_string());
        row.push(self.timestamp.to_string());
        row.push(self.age.to_string());
        row.push(self.fnlwgt.to_string());
        row.push(self.education_num.to_string());
        row.push(self.capital_gain.to_string());
        row.push(self.capital_loss.to_string());
        row.push(self.hours_per_week.to_string());
        row.push(self.education.to_string());
        row.push(self.marital_status.to_string());
        row.push(self.workclass.to_string());
        row.push(self.native_country.to_string());
        row.push(self.occupation.to_string());
        row.push(self.class.clone());
        row
    }

    fn blank() -> (r: Self) {
        AdultLarge::new_blank()
    }

    fn duplicate(&self) -> (r: Self) {
        AdultLarge {
            timestamp: self.timestamp,
            age: self.age,
            fnlwgt: self.fnlwgt,
            education_num: self.education_num,
            capital_gain: self.capital_gain,
            capital_loss: self.capital_loss,
            hours_per_week: self.hours_per_week,
            education: self.education,
            marital_status: self.marital_status,
            workclass: self.workclass,
            native_country: self.native_country,
            occupation: self.occupation,
            class: self.class.clone(),
            time_generated: self.time_generated,
        }
    }
}

} // verus!
