use diff_priv::data_manipulation::aggregation::{truncate_to_domain, AggregateType};
use diff_priv::data_manipulation::anonymizable::Anonymizable;
use diff_priv::data_manipulation::anonymizable::QuasiIdentifierTypes::Interval;
use diff_priv::data_manipulation::mueller::MuellerStream;
use diff_priv::test::adult::Adult;
use diff_priv::test::adult_large::AdultLarge;

fn mueller(age: i64, gender: &str) -> MuellerStream {
    MuellerStream {
        age: Some(age),
        gender: Some(gender.to_string()),
        ..MuellerStream::default()
    }
}

#[test]
fn clamping_is_idempotent() {
    let once = truncate_to_domain(12, 0, 10);
    assert_eq!(truncate_to_domain(once, 0, 10), once);
    let once = truncate_to_domain(-3, 0, 10);
    assert_eq!(truncate_to_domain(once, 0, 10), once);
    let once = truncate_to_domain(7, 0, 10);
    assert_eq!(truncate_to_domain(once, 0, 10), once);
}

#[test]
fn aggregating_a_singleton_gives_it_back() {
    let q = Interval((7, 0, 10, 2));
    let aggregated = AggregateType::Mean(vec![q]).aggregate();
    assert_eq!(aggregated, q);
}

#[test]
fn distance_of_a_record_to_itself_is_zero() {
    let m = mueller(47, "female");
    assert_eq!(m.calculate_difference(&m), 0);
}

#[test]
fn distance_is_symmetric() {
    let a = mueller(36, "male");
    let b = mueller(61, "female");
    assert_eq!(a.calculate_difference(&b), b.calculate_difference(&a));
}

#[test]
fn in_domain_distances_never_exceed_one() {
    let pairs = [
        (33, "male", 85, "female"),
        (33, "male", 33, "female"),
        (60, "female", 61, "female"),
    ];
    for (a_age, a_g, b_age, b_g) in pairs {
        let d = mueller(a_age, a_g).calculate_difference(&mueller(b_age, b_g));
        assert!(d <= 1_000_000_000);
    }
}

#[test]
fn updating_with_own_qis_is_the_identity() {
    let record = Adult {
        timestamp: 11,
        age: 37,
        fnlwgt: 8_000,
        education_num: 12,
        capital_gain: 500,
        capital_loss: 20,
        hours_per_week: 40,
        class: "<=50K".to_string(),
        time_generated: 9,
    };
    let round_tripped = record.update_quasi_identifiers(record.quasi_identifiers());
    assert_eq!(round_tripped, record);

    let m = mueller(51, "female");
    let round_tripped = m.update_quasi_identifiers(m.quasi_identifiers());
    assert_eq!(round_tripped, m);
}

#[test]
fn info_loss_covers_every_position() {
    let a = AdultLarge {
        age: 30,
        education: 2,
        ..AdultLarge::default()
    };
    let b = AdultLarge {
        age: 33,
        education: 5,
        ..AdultLarge::default()
    };
    // 3 * 3 from the age and 3 * 3 from the education code
    assert_eq!(a.calculate_info_loss(&b), 18);
}
