use diff_priv::anonymization::buffer::Buffer;
use diff_priv::anonymization::cluster::Cluster;
use diff_priv::data_manipulation::mueller::MuellerStream;
use diff_priv::noise::laplace::laplace_noiser::LaplaceNoiser;
use diff_priv::publishing::csv_publisher::CsvPublisher;
use diff_priv::test::csv_exporter::CsvExporter;
use diff_priv::test::environment::{Dataset, Datasets};

fn mueller(age: i64, gender: &str) -> MuellerStream {
    MuellerStream {
        age: Some(age),
        gender: Some(gender.to_string()),
        ..MuellerStream::default()
    }
}

fn create_test_buffer(qi_list: Vec<(i64, &str)>) -> Vec<(bool, MuellerStream)> {
    qi_list
        .into_iter()
        .map(|(age, gender)| (false, mueller(age, gender)))
        .collect()
}

fn setup_cluster(
    w_current_qis: Vec<(i64, &str)>,
    w_prev_qis: Vec<(i64, &str)>,
    max_buffer_size: usize,
    value: MuellerStream,
) -> Cluster<MuellerStream, LaplaceNoiser> {
    let mut w_current: Buffer<MuellerStream> = Buffer {
        buffer: create_test_buffer(w_current_qis),
        max_buffer_size,
        centroid: MuellerStream::new_blank(),
    };
    w_current.update_centroid();

    let mut w_prev: Buffer<MuellerStream> = Buffer {
        buffer: create_test_buffer(w_prev_qis),
        max_buffer_size,
        centroid: MuellerStream::new_blank(),
    };
    w_prev.update_centroid();

    let mut cluster: Cluster<MuellerStream, LaplaceNoiser> = Cluster {
        uuid: 0,
        k: 3,
        l: 3,
        c: 3,
        centroid: w_current.centroid.clone(),
        w_current,
        w_prev,
        categorical_freq: Vec::new(),
        sensitive_freq: Vec::new(),
        complete_buffer_amount: 0,
        last_arrival: 0,
        noiser: LaplaceNoiser::new(100_000_000, 3, 100_000_000),
    };

    cluster.add_tuple(value);

    cluster
}

fn exporter() -> CsvExporter {
    CsvExporter::new(
        "out.csv".to_string(),
        Datasets::Mueller(Dataset { path: "in.csv", export: "out" }),
    )
}

#[test]
fn no_concept_drift() {
    let w_current_qis = [
        (46, "male"),
        (44, "male"),
        (45, "female"),
        (80, "male"),
        (55, "male"),
        (36, "male"),
        (70, "female"),
        (43, "female"),
    ];

    let w_prev_qis = [
        (44, "male"),
        (45, "female"),
        (80, "male"),
        (55, "male"),
        (36, "male"),
        (70, "female"),
        (43, "female"),
    ];

    let value = mueller(45, "male");

    let mut cluster = setup_cluster(w_current_qis.to_vec(), w_prev_qis.to_vec(), 8, value);

    cluster.detect_concept_drift();

    assert_eq!(cluster.w_current.buffer.len(), 0);
    assert_eq!(cluster.centroid, cluster.w_current.centroid);
    assert_ne!(cluster.w_current.centroid, cluster.w_prev.centroid)
}

#[test]
fn detected_concept_drift() {
    let w_current_qis = [
        (33, "male"),
        (33, "male"),
        (33, "female"),
        (33, "female"),
        (33, "male"),
        (33, "female"),
        (33, "male"),
        (33, "female"),
    ];

    let w_prev_qis = [
        (33, "male"),
        (33, "female"),
        (33, "female"),
        (33, "male"),
        (33, "female"),
        (33, "male"),
        (33, "female"),
    ];

    let value = mueller(85, "male");

    let mut cluster = setup_cluster(w_current_qis.to_vec(), w_prev_qis.to_vec(), 8, value);

    // the windows are too alike to reject the null hypothesis on their own,
    // so force a distant centroid on the current window
    cluster.w_current.centroid = mueller(55, "male");

    // the previous window's genders tie four against four, and a tie resolves
    // to the smallest code: the previous centroid reads as male, so only the
    // age gap remains and it stays below the critical value
    cluster.detect_concept_drift();

    assert_eq!(cluster.w_current.buffer.len(), 0);
    assert_eq!(cluster.w_current.centroid, mueller(55, "male"));
    assert_ne!(cluster.w_current.centroid, cluster.w_prev.centroid)
}

#[test]
fn drift_rejected_resets_centroid() {
    // a one-sided current window far from the previous one: the centroid
    // distance (1 * |85-33| / 52 + 1 * 1) / 2 = 1 exceeds the critical value
    // 1.22 * sqrt(17 / 72), so the centroid falls back to the previous one
    let w_current_qis = [
        (85, "female"),
        (85, "female"),
        (85, "female"),
        (85, "female"),
        (85, "female"),
        (85, "female"),
        (85, "female"),
        (85, "female"),
    ];

    let w_prev_qis = [
        (33, "male"),
        (33, "male"),
        (33, "male"),
        (33, "male"),
        (33, "male"),
        (33, "male"),
        (33, "male"),
    ];

    let value = mueller(85, "female");

    let mut cluster = setup_cluster(w_current_qis.to_vec(), w_prev_qis.to_vec(), 8, value);
    // the snapshot taken at admission replaced the previous window, so put
    // the distant window back
    let mut w_prev: Buffer<MuellerStream> = Buffer {
        buffer: create_test_buffer(w_prev_qis.to_vec()),
        max_buffer_size: 8,
        centroid: MuellerStream::new_blank(),
    };
    w_prev.update_centroid();
    cluster.w_prev = w_prev;

    cluster.detect_concept_drift();

    assert_eq!(cluster.w_current.buffer.len(), 0);
    assert_eq!(cluster.w_current.centroid, cluster.w_prev.centroid);
    assert_eq!(cluster.centroid, cluster.w_current.centroid);
}

#[test]
fn update_categorical_frequency() {
    let noiser = LaplaceNoiser::new(100_000_000, 3, 100_000_000);
    let mut cluster: Cluster<MuellerStream, LaplaceNoiser> = Cluster::new(3, 3, 3, 10, noiser);

    cluster.add_tuple(mueller(30, "male"));
    cluster.add_tuple(mueller(40, "female"));
    cluster.add_tuple(mueller(50, "female"));

    assert_eq!(cluster.categorical_count(1, 0), 1);
    assert_eq!(cluster.categorical_count(1, 1), 2)
}

#[test]
fn calculate_ks_threshold_mixed_data_types() {
    let w_current_qis = [
        (33, "male"),
        (33, "male"),
        (33, "female"),
        (33, "female"),
        (33, "male"),
        (33, "female"),
        (33, "male"),
        (33, "female"),
    ];

    let w_prev_qis = [
        (33, "male"),
        (33, "female"),
        (33, "female"),
        (33, "male"),
        (33, "female"),
        (33, "male"),
        (33, "female"),
    ];

    let value = mueller(83, "male");

    let cluster = setup_cluster(w_current_qis.to_vec(), w_prev_qis.to_vec(), 8, value);

    let (num, den) = cluster.calculate_threshold();
    let critical_value = (num as f64 / den as f64).sqrt();
    assert!((critical_value - 0.592_813_442_642_605_5) <= f64::EPSILON)
}

#[test]
fn sensitive_counts_follow_admissions() {
    let noiser = LaplaceNoiser::new(100_000_000, 3, 100_000_000);
    let mut cluster: Cluster<MuellerStream, LaplaceNoiser> = Cluster::new(3, 2, 2, 10, noiser);

    let mut a = mueller(40, "male");
    a.id = "alpha".to_string();
    let mut b = mueller(41, "female");
    b.id = "beta".to_string();
    let mut a2 = mueller(42, "male");
    a2.id = "alpha".to_string();

    cluster.add_tuple(a);
    cluster.add_tuple(b);
    cluster.add_tuple(a2);

    assert_eq!(cluster.complete_buffer_amount, 3);
    let total: u64 = cluster.sensitive_freq.iter().map(|e| e.1).sum();
    assert_eq!(total, 3);
}

#[test]
fn publish_all_releases_each_entry_once() {
    let noiser = LaplaceNoiser::new(100_000_000, 3, 100_000_000);
    let mut cluster: Cluster<MuellerStream, LaplaceNoiser> = Cluster::new(2, 2, 2, 10, noiser);
    let mut publisher = CsvPublisher::new(exporter());
    let mut analysers = Vec::new();

    cluster.add_tuple(mueller(40, "male"));
    cluster.add_tuple(mueller(44, "female"));

    cluster.publish_all(&mut publisher, &mut analysers);
    assert_eq!(publisher.exporter.data.len(), 2);

    // every entry is marked released, so nothing is ever handed out twice
    cluster.publish_all(&mut publisher, &mut analysers);
    assert_eq!(publisher.exporter.data.len(), 2);

    cluster.publish(&mut publisher, &mut analysers);
    assert_eq!(publisher.exporter.data.len(), 2);
}

fn adult_with(v: i64) -> diff_priv::test::adult::Adult {
    diff_priv::test::adult::Adult {
        age: v,
        fnlwgt: v,
        education_num: v,
        capital_gain: v,
        capital_loss: v,
        hours_per_week: v,
        ..diff_priv::test::adult::Adult::default()
    }
}

fn setup_numeric_cluster(
    cur: Vec<i64>,
    prev: Vec<i64>,
    admitted: i64,
) -> Cluster<diff_priv::test::adult::Adult, LaplaceNoiser> {
    let mut w_current: Buffer<diff_priv::test::adult::Adult> = Buffer {
        buffer: cur.into_iter().map(|v| (false, adult_with(v))).collect(),
        max_buffer_size: 8,
        centroid: diff_priv::test::adult::Adult::new_blank(),
    };
    w_current.update_centroid();

    let mut w_prev: Buffer<diff_priv::test::adult::Adult> = Buffer {
        buffer: prev.into_iter().map(|v| (false, adult_with(v))).collect(),
        max_buffer_size: 8,
        centroid: diff_priv::test::adult::Adult::new_blank(),
    };
    w_prev.update_centroid();

    let mut cluster = Cluster {
        uuid: 0,
        k: 3,
        l: 3,
        c: 3,
        centroid: w_current.centroid.clone(),
        w_current,
        w_prev,
        categorical_freq: Vec::new(),
        sensitive_freq: Vec::new(),
        complete_buffer_amount: 0,
        last_arrival: 0,
        noiser: LaplaceNoiser::new(100_000_000, 3, 100_000_000),
    };
    let saved_prev = cluster.w_prev.duplicate();
    cluster.add_tuple(adult_with(admitted));
    // keep the distant window: admission snapshots the current one over it
    cluster.w_prev = saved_prev;
    cluster
}

#[test]
fn numeric_drift_runs_the_ks_test() {
    // an all-numeric stream: the windows separate completely, the statistic
    // reaches its greatest value, and the null hypothesis is rejected
    let mut cluster =
        setup_numeric_cluster(vec![1000; 8], vec![10, 10, 10, 10, 10, 10, 10], 1000);

    cluster.detect_concept_drift();

    assert_eq!(cluster.w_current.buffer.len(), 0);
    assert_eq!(cluster.w_current.centroid, cluster.w_prev.centroid);
    assert_eq!(cluster.centroid, cluster.w_current.centroid);
}

#[test]
fn numeric_windows_alike_keep_the_centroid() {
    let mut cluster = setup_numeric_cluster(vec![10; 8], vec![10, 10, 10, 10, 10, 10, 10], 10);

    let centroid_before = cluster.w_current.centroid.clone();
    cluster.detect_concept_drift();

    assert_eq!(cluster.w_current.buffer.len(), 0);
    assert_eq!(cluster.w_current.centroid, centroid_before);
}
