use diff_priv::anonymization::buffer::Buffer;
use diff_priv::data_manipulation::mueller::MuellerStream;

fn mueller(age: i64, gender: &str) -> MuellerStream {
    MuellerStream {
        age: Some(age),
        gender: Some(gender.to_string()),
        ..MuellerStream::default()
    }
}

#[test]
fn update_centroid() {
    let mueller1 = mueller(30, "male");
    let mueller2 = mueller(40, "female");
    let mueller3 = mueller(50, "female");

    let centroid = mueller(40, "female");

    let mut buffer: Buffer<MuellerStream> = Buffer::default();
    buffer.add_tuple(mueller1);
    buffer.add_tuple(mueller2);
    buffer.add_tuple(mueller3);

    assert_eq!(buffer.centroid, centroid)
}

#[test]
fn is_full() {
    let mut buffer: Buffer<MuellerStream> = Buffer::new(3);

    buffer.add_tuple(mueller(30, "male"));
    buffer.add_tuple(mueller(40, "female"));
    buffer.add_tuple(mueller(50, "female"));

    assert!(buffer.is_full())
}

#[test]
fn reset_empties_the_window() {
    let mut buffer: Buffer<MuellerStream> = Buffer::new(3);
    buffer.add_tuple(mueller(30, "male"));
    let centroid_before = buffer.centroid.clone();
    buffer.reset();
    assert_eq!(buffer.buffer.len(), 0);
    assert_eq!(buffer.centroid, centroid_before);
}

#[test]
fn admitting_truncates_the_interval_mean() {
    // (30 + 41) / 2 truncates toward zero
    let mut buffer: Buffer<MuellerStream> = Buffer::new(5);
    buffer.add_tuple(mueller(30, "male"));
    let snapshot = buffer.add_tuple(mueller(41, "male"));
    assert_eq!(snapshot.age, Some(35));
    assert_eq!(buffer.centroid.age, Some(35));
}
