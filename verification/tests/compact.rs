use histogram::compact;
use histogram::percentile::{Histograms, PERCENT};
use histogram::{atomic, Bucket, Error, Histogram};

#[test]
fn compact_keeps_what_is_not_zero() {
    let mut histogram = Histogram::new(0, 7, 64).unwrap();
    histogram.add(5, 3).unwrap();
    histogram.add(1024, 1).unwrap();
    histogram.add(u64::MAX, 9).unwrap();
    let sparse = compact::Histogram::from(&histogram);
    assert_eq!(sparse.params(), (0, 7, 64));
    assert_eq!(sparse.index(), &[5usize, 512, 7423][..]);
    assert_eq!(sparse.count(), &[3u64, 1, 9][..]);
    assert_eq!(sparse.total_count(), 13);
}

#[test]
fn compact_round_trip_reads_every_bucket_alike() {
    let mut histogram = Histogram::new(2, 3, 10).unwrap();
    for value in [0u64, 1, 2, 31, 32, 64, 65, 500, 1023] {
        histogram.add(value, value + 1).unwrap();
    }
    let sparse = compact::Histogram::from_standard(&histogram);
    for index in 0..histogram.as_slice().len() {
        assert_eq!(sparse.get_count(index), histogram.get_count(index));
        assert_eq!(sparse.get_bucket(index), histogram.get_bucket(index));
    }
    assert_eq!(sparse.total_count(), histogram.total_count());
}

#[test]
fn compact_of_an_empty_histogram() {
    let histogram = Histogram::new(0, 7, 64).unwrap();
    let sparse = compact::Histogram::from(&histogram);
    assert!(sparse.index().is_empty());
    assert!(sparse.count().is_empty());
    assert_eq!(sparse.total_count(), 0);
    assert_eq!(sparse.get_count(0), 0);
    assert_eq!(sparse.get_count(7423), 0);
    assert_eq!(sparse.percentile(50 * PERCENT), Err(Error::Empty));
}

#[test]
fn compact_round_trip_of_a_shared_histogram() {
    let histogram = atomic::Histogram::new(0, 7, 64).unwrap();
    for value in [0u64, 7, 7, 100, 1024, 1 << 40] {
        histogram.increment(value).unwrap();
    }
    let sparse = compact::Histogram::from(&histogram);
    for index in 0..histogram.as_slice().len() {
        assert_eq!(sparse.get_count(index), histogram.get_count(index));
    }
    let again = compact::Histogram::from_atomic(&histogram);
    assert_eq!(again.index(), sparse.index());
    assert_eq!(again.count(), sparse.count());
}

#[test]
fn compact_percentiles_match_the_dense_ones() {
    let mut histogram = Histogram::new(0, 7, 64).unwrap();
    for i in 0..=100 {
        histogram.increment(i).unwrap();
    }
    histogram.increment(1024).unwrap();
    let sparse = compact::Histogram::from(&histogram);
    let requested = [0, 25 * PERCENT, 50 * PERCENT, 99_900_000, 100 * PERCENT];
    assert_eq!(sparse.percentiles(&requested), histogram.percentiles(&requested));
    assert_eq!(
        sparse.percentile(99_900_000),
        Ok(Bucket {
            count: 1,
            lower: 1024,
            upper: 1031
        })
    );
}

#[test]
fn compact_from_parts_takes_a_sparse_form() {
    let sparse = compact::Histogram::from_parts(2, 3, 10, vec![0, 16, 47], vec![7, 2, 1]).unwrap();
    assert_eq!(sparse.params(), (2, 3, 10));
    assert_eq!(sparse.get_count(0), 7);
    assert_eq!(sparse.get_count(1), 0);
    assert_eq!(sparse.get_count(16), 2);
    assert_eq!(sparse.get_count(47), 1);
    assert_eq!(sparse.total_count(), 10);
    assert!(compact::Histogram::from_parts(2, 3, 10, vec![], vec![]).is_some());
}

#[test]
fn compact_from_parts_refuses_what_is_not_one() {
    // not a layout
    assert!(compact::Histogram::from_parts(2, 3, 65, vec![], vec![]).is_none());
    assert!(compact::Histogram::from_parts(5, 5, 10, vec![], vec![]).is_none());
    // a layout of more buckets than can be allocated
    assert!(compact::Histogram::from_parts(0, 62, 64, vec![], vec![]).is_none());
    // more of the one than of the other
    assert!(compact::Histogram::from_parts(2, 3, 10, vec![0, 1], vec![1]).is_none());
    // an index beyond the last bucket
    assert!(compact::Histogram::from_parts(2, 3, 10, vec![48], vec![1]).is_none());
    // indices that do not rise
    assert!(compact::Histogram::from_parts(2, 3, 10, vec![3, 3], vec![1, 1]).is_none());
    assert!(compact::Histogram::from_parts(2, 3, 10, vec![4, 3], vec![1, 1]).is_none());
    // a counter of zero
    assert!(compact::Histogram::from_parts(2, 3, 10, vec![3, 4], vec![1, 0]).is_none());
}
