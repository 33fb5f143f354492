use vstd::prelude::*;
use crate::data_manipulation::anonymizable::{Anonymizable, QuasiIdentifierTypes, SensKey, SensitiveAttribute, VAL_BOUND, qi_raw, qi_update_ok, shape_seq, updated_qis};

verus! {

/// Event metadata carried by a stream record; opaque to the anonymizer.
#[derive(Clone, PartialEq, Eq, Debug)]
pub struct StrmMeta {
    pub event_contract_ref: String,
    pub nonce: Option<i32>,
    pub timestamp: Option<i64>,
    pub key_link: Option<String>,
    pub billing_id: Option<String>,
    pub consent_levels: Vec<i32>,
}

/// A walking-session event record: its age is an interval QI over [33, 85],
/// its gender a nominal QI over {male, female}, its id the sensitive
/// attribute. All other fields ride along untouched.
#[derive(Clone, PartialEq, Eq, Debug)]
pub struct MuellerStream {
    pub strm_meta: StrmMeta,
    pub id: String,
    pub gender: Option<String>,
    pub age: Option<i64>,
    pub run_id: Option<i32>,
    pub running: Option<bool>,
    pub side: Option<String>,
    pub bout: Option<i64>,
    pub start: Option<String>,
    pub end: Option<String>,
    pub time_generated: u64,
}

/// an owned copy of an optional string
fn dup_opt_string(o: &Option<String>) -> (r: Option<String>)
    ensures
        r == *o,
{
    match o {
        Some(s) => Some(s.clone()),
        None => None,
    }
}

impl StrmMeta {
    /// a fresh metadata block for the stream's contract
    pub fn new_default() -> (r: StrmMeta)
    {
        StrmMeta {
            event_contract_ref: "diff_priv/mueller-steps/1.0.0".to_owned(),
            nonce: None,
            timestamp: None,
            key_link: None,
            billing_id: None,
            consent_levels: Vec::new(),
        }
    }
}

impl Default for StrmMeta {
    fn default() -> (r: StrmMeta) {
        StrmMeta::new_default()
    }
}

impl MuellerStream {
    /// a record with a zero age, male gender and empty payload
    pub fn new_blank() -> (r: MuellerStream)
        ensures
            r.wf(),
            r.ts() == 0,
    {
        MuellerStream {
            strm_meta: StrmMeta::new_default(),
            id: String::new(),
            gender: Some("male".to_owned()),
            age: Some(0),
            run_id: None,
            running: None,
            side: None,
            bout: None,
            start: None,
            end: None,
            time_generated: 0,
        }
    }
}

impl Default for MuellerStream {
    fn default() -> (r: MuellerStream)
        ensures
            r.wf(),
            r.ts() == 0,
    {
        MuellerStream::new_blank()
    }
}

impl Anonymizable for MuellerStream {
    open spec fn qis(&self) -> Seq<QuasiIdentifierTypes> {
        seq![
            QuasiIdentifierTypes::Interval((self.age->0, 33, 85, 1)),
            QuasiIdentifierTypes::Nominal(
                (
                    if self.gender->0@ == "male"@ {
                        0i64
                    } else {
                        1i64
                    },
                    1,
                    1,
                ),
            ),
        ]
    }

    open spec fn sens(&self) -> SensKey {
        (0int, 0int, self.id@)
    }

    open spec fn ts(&self) -> u64 {
        self.time_generated
    }

    open spec fn wf(&self) -> bool {
        &&& self.age is Some
        &&& -VAL_BOUND <= self.age->0 <= VAL_BOUND
        &&& self.gender is Some
        &&& (self.gender->0@ == "male"@ || self.gender->0@ == "female"@)
    }

    open spec fn shape() -> Seq<QuasiIdentifierTypes> {
        seq![
            QuasiIdentifierTypes::Interval((0i64, 33, 85, 1)),
            QuasiIdentifierTypes::Nominal((0i64, 1, 1)),
        ]
    }

    proof fn lemma_wf_qis(&self) {
        assert(shape_seq(self.qis()) =~= Self::shape());
    }

    fn quasi_identifiers(&self) -> (r: Vec<QuasiIdentifierTypes>) {
        let age_v: i64 = match &self.age {
            Some(v) => *v,
            None => {
                proof {
                    assert(false);
                }
                0
            },
        };
        let code: i64 = match &self.gender {
            Some(g) => {
                if g.eq(&"male".to_owned()) {
                    0
                } else {
                    1
                }
            },
            None => {
                proof {
                    assert(false);
                }
                0
            },
        };
        let mut r: Vec<QuasiIdentifierTypes> = Vec::new();
        r.push(QuasiIdentifierTypes::Interval((age_v, 33, 85, 1)));
        r.push(QuasiIdentifierTypes::Nominal((code, 1, 1)));
        proof {
            assert(r@ =~= self.qis());
        }
        r
    }

    fn update_quasi_identifiers(&self, qi: Vec<QuasiIdentifierTypes>) -> (r: Self) {
        let ghost qi0: Seq<QuasiIdentifierTypes> = qi@;
        let mut qi = qi;
        let gender_qi = match qi.pop() {
            Some(q) => q,
            None => {
                proof {
                    assert(false);
                }
                QuasiIdentifierTypes::Nominal((0, 1, 1))
            },
        };
        let age_qi = match qi.pop() {
            Some(q) => q,
            None => {
                proof {
                    assert(false);
                }
                QuasiIdentifierTypes::Interval((0, 33, 85, 1))
            },
        };
        let code = gender_qi.extract_value();
        let age = age_qi.extract_value();
        let gender: String = if code == 0 {
            "male".to_owned()
        } else {
            "female".to_owned()
        };
        let r = MuellerStream {
            strm_meta: self.strm_meta.clone(),
            id: self.id.clone(),
            gender: Some(gender),
            age: Some(age),
            run_id: self.run_id,
            running: self.running,
            side: dup_opt_string(&self.side),
            bout: self.bout,
            start: dup_opt_string(&self.start),
            end: dup_opt_string(&self.end),
            time_generated: self.time_generated,
        };
        proof {
            reveal_strlit("male");
            reveal_strlit("female");
            assert(qi_update_ok(self.qis()[1], qi0[1]));
            assert(qi_raw(qi0[0]) == age);
            assert(qi_raw(qi0[1]) == code);
            assert(0 <= code <= 1);
            assert(r.qis()[0] == updated_qis(self.qis(), qi0)[0]);
            if code == 0 {
                assert(r.gender->0@ == "male"@);
                assert(r.qis()[1] == updated_qis(self.qis(), qi0)[1]);
            } else {
                assert(r.gender->0@ == "female"@);
                assert("male"@.len() == 4);
                assert("female"@.len() == 6);
                assert("female"@ != "male"@);
                assert(r.qis()[1] == updated_qis(self.qis(), qi0)[1]);
            }
            assert(r.qis() =~= updated_qis(self.qis(), qi0));
        }
        r
    }

    fn sensitive_value(&self) -> (r: SensitiveAttribute) {
        SensitiveAttribute::Text(self.id.clone())
    }

    fn get_timestamp(&self) -> (r: u64) {
        self.time_generated
    }

    fn extract_string_values(&self, uuid: u128, dr_nanos: u64) -> Vec<String> {
        let mut row: Vec<String> = Vec::new();
        row.push(uuid.to_string());
        row.push(dr_nanos.to_string());
        row.push(self.id.clone());
        row.push(
            match &self.gender {
                Some(g) => g.clone(),
                None => String::new(),
            },
        );
        row.push(
            match &self.age {
                Some(a) => a.to_string(),
                None => String::new(),
            },
        );
        row
    }

    fn blank() -> (r: Self) {
        MuellerStream::new_blank()
    }

    fn duplicate(&self) -> (r: Self) {
        MuellerStream {
            strm_meta: self.strm_meta.clone(),
            id: self.id.clone(),
            gender: dup_opt_string(&self.gender),
            age: self.age,
            run_id: self.run_id,
            running: self.running,
            side: dup_opt_string(&self.side),
            bout: self.bout,
            start: dup_opt_string(&self.start),
            end: dup_opt_string(&self.end),
            time_generated: self.time_generated,
        }
    }
}

} // verus!
