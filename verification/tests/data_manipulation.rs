use diff_priv::data_manipulation::aggregation::{truncate_to_domain, AggregateType};
use diff_priv::data_manipulation::anonymizable::Anonymizable;
use diff_priv::data_manipulation::anonymizable::QuasiIdentifierTypes::{Interval, Nominal, Ordinal};
use diff_priv::data_manipulation::mueller::MuellerStream;

fn mueller(age: i64, gender: &str) -> MuellerStream {
    MuellerStream {
        age: Some(age),
        gender: Some(gender.to_string()),
        ..MuellerStream::default()
    }
}

#[test]
fn truncating_to_domain_integer() {
    let min = 0;
    let value = 5;
    let max = 10;

    assert_eq!(truncate_to_domain(value, min, max), 5)
}

#[test]
fn truncate_to_domain_integer_max() {
    let min = 0;
    let value = 11;
    let max = 10;

    assert_eq!(truncate_to_domain(value, min, max), 10)
}

#[test]
fn truncate_to_domain_float() {
    let min = 0;
    let value = 5;
    let max = 10;

    assert!(truncate_to_domain(value, min, max) as f64 - 5.0 <= f64::EPSILON)
}

#[test]
fn truncate_to_domain_float_max() {
    let min = 0;
    let value = 10;
    let max = 5;

    assert!(truncate_to_domain(value, min, max) as f64 - 5.0 <= f64::EPSILON)
}

#[test]
fn get_quasi_identifiers() {
    let m = mueller(32, "male");

    let mut quasi_identifiers = m.quasi_identifiers();

    match quasi_identifiers.remove(0) {
        Interval((32, 33, 85, 1)) => {}
        _ => {
            panic!()
        }
    }

    match quasi_identifiers.remove(0) {
        Nominal((0, 1, 1)) => {}
        _ => {
            panic!()
        }
    }
}

#[test]
fn update_quasi_identifiers() {
    let m = mueller(32, "male");
    let centroid = mueller(50, "female");

    let anonymized = m.update_quasi_identifiers(centroid.quasi_identifiers());

    assert_eq!(anonymized.age, Some(50));
    assert_eq!(anonymized.gender, Some("female".to_string()))
}

#[test]
fn calculate_difference() {
    let m = mueller(37, "male");
    let centroid = mueller(50, "female");

    let difference = m.calculate_difference(&centroid);

    assert_eq!(difference as f64 / 1_000_000_000.0, 0.625)
}

#[test]
fn calculate_difference_zero() {
    let m = mueller(37, "male");
    let centroid = mueller(37, "male");

    let difference = m.calculate_difference(&centroid);

    assert_eq!(difference as f64 / 1_000_000_000.0, 0.0)
}

#[test]
fn calculate_difference_one() {
    let m = mueller(33, "male");
    let centroid = mueller(85, "female");

    let difference = m.calculate_difference(&centroid);

    assert_eq!(difference as f64 / 1_000_000_000.0, 1.0)
}

#[test]
fn calculate_info_loss() {
    let m = mueller(33, "male");
    let centroid = mueller(50, "female");

    let info_loss_sq = m.calculate_info_loss(&centroid);
    assert_eq!(info_loss_sq, 290);
    let info_loss = (info_loss_sq as f64).sqrt();
    assert!((info_loss - 17.29) <= f64::EPSILON)
}

#[test]
fn aggregation_interval_integer() {
    let agg1 = Interval((1, 0, 10, 1));
    let agg2 = Interval((4, 0, 10, 1));
    let agg3 = Interval((6, 0, 10, 1));
    let agg4 = Interval((10, 0, 10, 1));

    let aggregation = AggregateType::Mean(vec![agg1, agg2, agg3, agg4]).aggregate();

    assert_eq!(aggregation.extract_value(), 5)
}

#[test]
fn aggregation_ordinal() {
    let agg1 = Ordinal((1, 10, 1));
    let agg2 = Ordinal((1, 10, 1));
    let agg3 = Ordinal((2, 10, 1));
    let agg4 = Ordinal((4, 10, 1));

    let aggregation = AggregateType::Mode(vec![agg1, agg2, agg3, agg4]).aggregate();

    assert_eq!(aggregation.extract_value(), 1)
}

#[test]
fn aggregation_nominal() {
    let agg1 = Nominal((1, 4, 10));
    let agg2 = Nominal((1, 4, 10));
    let agg3 = Nominal((2, 4, 10));
    let agg4 = Nominal((4, 4, 10));

    let aggregation = AggregateType::Mode(vec![agg1, agg2, agg3, agg4]).aggregate();

    assert_eq!(aggregation.extract_value(), 1)
}

#[test]
fn aggregation_mode_tie_takes_smallest() {
    let agg1 = Nominal((2, 4, 1));
    let agg2 = Nominal((1, 4, 1));
    let agg3 = Nominal((2, 4, 1));
    let agg4 = Nominal((1, 4, 1));

    let aggregation = AggregateType::Mode(vec![agg1, agg2, agg3, agg4]).aggregate();

    assert_eq!(aggregation.extract_value(), 1)
}

#[test]
fn suppress_randomizes_within_domain() {
    let m = mueller(30, "male");
    let suppressed = m.suppress();
    let age = suppressed.age.unwrap();
    assert!((33..=85).contains(&age));
    let gender = suppressed.gender.unwrap();
    assert!(gender == "male" || gender == "female");
    assert_eq!(suppressed.id, m.id);
}
