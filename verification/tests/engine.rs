use diff_priv::anonymization::microagg_anonymizer::MicroaggAnonymizer;
use diff_priv::data_manipulation::mueller::MuellerStream;
use diff_priv::noise::laplace::laplace_noiser::LaplaceNoiser;
use diff_priv::publishing::csv_publisher::CsvPublisher;
use diff_priv::test::csv_exporter::CsvExporter;
use diff_priv::test::dummy_publisher::DummyPublisher;
use diff_priv::test::environment::{Dataset, Datasets};

fn mueller(age: i64, gender: &str) -> MuellerStream {
    MuellerStream {
        age: Some(age),
        gender: Some(gender.to_string()),
        ..MuellerStream::default()
    }
}

fn mueller_with_id(age: i64, gender: &str, id: &str) -> MuellerStream {
    MuellerStream {
        age: Some(age),
        gender: Some(gender.to_string()),
        id: id.to_string(),
        ..MuellerStream::default()
    }
}

fn csv_engine(
    k: usize,
) -> MicroaggAnonymizer<LaplaceNoiser, MuellerStream, CsvPublisher> {
    let noiser = LaplaceNoiser::new(100_000_000, 3, 100_000_000);
    let exporter = CsvExporter::new(
        "out.csv".to_string(),
        Datasets::Mueller(Dataset { path: "in.csv", export: "out" }),
    );
    let publisher = CsvPublisher::new(exporter);
    MicroaggAnonymizer::new(k, 10, 2, 2, 650_000_000, 10, 5, publisher, noiser)
}

#[test]
fn find_best_cluster() {
    let noiser = LaplaceNoiser::new(100_000_000, 3, 100_000_000);
    let publisher = DummyPublisher::default();
    let mut anonymizer: MicroaggAnonymizer<LaplaceNoiser, MuellerStream, DummyPublisher> =
        MicroaggAnonymizer::new(2, 10, 2, 2, 650_000_000, 10, 5, publisher, noiser);

    let mueller1 = mueller(30, "male");

    assert!(anonymizer.find_best_cluster(&mueller1).is_none());

    anonymizer.anonymize(mueller1);

    assert_eq!(anonymizer.cluster_set.len(), 1);

    let mueller2 = mueller(30, "male");

    assert!(anonymizer.find_best_cluster(&mueller2).is_some());

    anonymizer.anonymize(mueller2);

    let mueller3 = mueller(50, "female");

    assert_eq!(anonymizer.cluster_set.len(), 1);

    anonymizer.anonymize(mueller3);

    assert_eq!(anonymizer.cluster_set.len(), 2)
}

#[test]
fn first_record_creates_a_cluster() {
    let mut engine = csv_engine(3);
    engine.anonymize(mueller(30, "male"));

    assert_eq!(engine.cluster_set.len(), 1);
    assert_eq!(engine.publisher.exporter.data.len(), 0);
}

#[test]
fn close_record_reuses_the_cluster() {
    let mut engine = csv_engine(3);
    engine.anonymize(mueller(30, "male"));
    engine.anonymize(mueller(30, "male"));

    assert_eq!(engine.cluster_set.len(), 1);
    assert_eq!(engine.publisher.exporter.data.len(), 0);
}

#[test]
fn distant_record_opens_a_second_cluster() {
    let mut engine = csv_engine(3);
    engine.anonymize(mueller(30, "male"));
    engine.anonymize(mueller(30, "male"));
    // (1 * |50 - 30| / 52 + 1 * 1) / 2 exceeds the 0.65 threshold
    engine.anonymize(mueller(50, "female"));

    assert_eq!(engine.cluster_set.len(), 2);
    assert_eq!(engine.publisher.exporter.data.len(), 0);
}

#[test]
fn reaching_k_releases_the_window() {
    let mut engine = csv_engine(3);
    engine.anonymize(mueller_with_id(30, "male", "a"));
    engine.anonymize(mueller_with_id(31, "male", "b"));
    assert_eq!(engine.publisher.exporter.data.len(), 0);
    engine.anonymize(mueller_with_id(32, "female", "c"));

    // exactly three rows, all carrying the one cluster's identifier
    let rows = &engine.publisher.exporter.data;
    assert_eq!(rows.len(), 3);
    assert_eq!(rows[0][0], rows[1][0]);
    assert_eq!(rows[1][0], rows[2][0]);
}

#[test]
fn failing_diversity_suppresses_within_domains() {
    // three records of one sensitive value: the sorted counts are [3], the
    // recursive check 3 < 2 * 0 fails, and every release is suppressed; a
    // suppressed release still keeps each QI inside its domain
    let mut engine = csv_engine(3);
    engine.anonymize(mueller_with_id(40, "male", "same"));
    engine.anonymize(mueller_with_id(41, "male", "same"));
    engine.anonymize(mueller_with_id(42, "female", "same"));

    let rows = &engine.publisher.exporter.data;
    assert_eq!(rows.len(), 3);
    for row in rows {
        let age: i64 = row[4].parse().unwrap();
        assert!((33..=85).contains(&age));
        assert!(row[3] == "male" || row[3] == "female");
    }
}

#[test]
fn released_rows_stay_within_domains() {
    // distinct sensitive values pass the diversity gate, so the releases are
    // the noised centroid; the noise is clamped to each QI's domain
    let mut engine = csv_engine(3);
    engine.anonymize(mueller_with_id(40, "male", "a"));
    engine.anonymize(mueller_with_id(41, "male", "b"));
    engine.anonymize(mueller_with_id(42, "female", "c"));

    let rows = &engine.publisher.exporter.data;
    assert_eq!(rows.len(), 3);
    for row in rows {
        let age: i64 = row[4].parse().unwrap();
        assert!((33..=85).contains(&age));
        assert!(row[3] == "male" || row[3] == "female");
    }
}

#[test]
fn overfull_cluster_is_retired() {
    // k_max of 3: the fifth admission pushes the best cluster past its
    // budget, so it is flushed and dropped rather than reinserted
    let noiser = LaplaceNoiser::new(100_000_000, 3, 100_000_000);
    let publisher = DummyPublisher::default();
    let mut engine: MicroaggAnonymizer<LaplaceNoiser, MuellerStream, DummyPublisher> =
        MicroaggAnonymizer::new(2, 3, 2, 2, 650_000_000, 10, 5, publisher, noiser);

    engine.anonymize(mueller(40, "male"));
    engine.anonymize(mueller(40, "male"));
    engine.anonymize(mueller(40, "male"));
    assert_eq!(engine.cluster_set.len(), 1);
    engine.anonymize(mueller(40, "male"));
    assert_eq!(engine.cluster_set.len(), 0);
}

#[test]
fn draining_releases_every_pending_record() {
    // two records sit below the anonymity level, so nothing was released;
    // the shutdown drain hands both to the sink and the cluster stays
    let mut engine = csv_engine(3);
    engine.anonymize(mueller_with_id(30, "male", "a"));
    engine.anonymize(mueller_with_id(31, "male", "b"));
    assert_eq!(engine.publisher.exporter.data.len(), 0);

    engine.drain();

    assert_eq!(engine.publisher.exporter.data.len(), 2);
    assert_eq!(engine.cluster_set.len(), 1);

    // a second drain finds everything released and hands out nothing
    engine.drain();
    assert_eq!(engine.publisher.exporter.data.len(), 2);
}
