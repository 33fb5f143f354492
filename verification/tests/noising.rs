use diff_priv::data_manipulation::anonymizable::QuasiIdentifierTypes::{Interval, Nominal, Ordinal};
use diff_priv::data_manipulation::anonymizable::{Anonymizable, QuasiIdentifierTypes};
use diff_priv::anonymization::cluster::Cluster;
use diff_priv::data_manipulation::mueller::MuellerStream;
use diff_priv::noise::laplace::laplace_noiser::LaplaceNoiser;
use diff_priv::noise::laplace::numerical_noiser::laplace_noise_nanos;
use diff_priv::noise::noiser::Noiser;

const BUCKET_COUNT: usize = 100;
const SAMPLE_SIZE: usize = 50000;

fn truncate(index: i32) -> usize {
    if index >= BUCKET_COUNT as i32 {
        return BUCKET_COUNT - 1;
    }

    if index < 0 {
        return 0_usize;
    }

    index as usize
}

fn x_to_index(x: f64, x0: f64, x1: f64) -> usize {
    let index = ((x - x0) / (x1 - x0) * BUCKET_COUNT as f64).floor() as i32;
    truncate(index)
}

#[test]
fn generate_noise() {
    let mut buckets = [0; BUCKET_COUNT];

    let x0 = -8.0;
    let x1 = 8.0;

    for _ in 0..SAMPLE_SIZE {
        // one Laplace draw at unit scale
        let nanos = laplace_noise_nanos(1_000_000_000);
        let x = nanos as f64 / 1_000_000_000.0;
        let index = x_to_index(x, x0, x1);
        buckets[index] += 1;
    }

    let x_test = -1.0;
    let index_test = x_to_index(x_test, x0, x1);
    let fraction_below_x_test =
        buckets[0..index_test].iter().sum::<i32>() as f64 / SAMPLE_SIZE as f64;

    assert!((0.16..=0.17).contains(&fraction_below_x_test));
}

#[test]
fn add_noise_keeps_shapes_and_domains() {
    let mut noiser = LaplaceNoiser::new(100_000_000, 3, 100_000_000);
    let qis: Vec<QuasiIdentifierTypes> = vec![
        Interval((40, 33, 85, 1)),
        Ordinal((2, 5, 1)),
        Nominal((1, 4, 1)),
    ];
    for _ in 0..50 {
        let noised = noiser.add_noise(&qis);
        assert_eq!(noised.len(), 3);
        match noised[0] {
            Interval((v, 33, 85, 1)) => assert!((33..=85).contains(&v)),
            _ => panic!(),
        }
        match noised[1] {
            Ordinal((r, 5, 1)) => assert!((0..=5).contains(&r)),
            _ => panic!(),
        }
        match noised[2] {
            Nominal((c, 4, 1)) => assert!((0..=4).contains(&c)),
            _ => panic!(),
        }
    }
}

#[test]
fn randomize_draws_from_the_domain() {
    // were the uniform draw to hand its bound back unchanged, an ordinal
    // randomization would exceed its greatest rank
    for _ in 0..100 {
        let q = Ordinal((2, 5, 1)).randomize();
        match q {
            Ordinal((r, 5, 1)) => assert!((0..=5).contains(&r)),
            _ => panic!(),
        }
        let q = Interval((40, 33, 85, 1)).randomize();
        match q {
            Interval((v, 33, 85, 1)) => assert!((33..=85).contains(&v)),
            _ => panic!(),
        }
    }
}

#[test]
fn fresh_clusters_get_distinct_identifiers() {
    let a: Cluster<MuellerStream, LaplaceNoiser> =
        Cluster::new(2, 2, 2, 5, LaplaceNoiser::new(100_000_000, 2, 100_000_000));
    let b: Cluster<MuellerStream, LaplaceNoiser> =
        Cluster::new(2, 2, 2, 5, LaplaceNoiser::new(100_000_000, 2, 100_000_000));
    assert_ne!(a.uuid, b.uuid);
}
