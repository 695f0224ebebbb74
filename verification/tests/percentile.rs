use histogram::percentile::{
    get_bucket, percentile, percentiles, percentiles_with_total, HUNDRED_PERCENT, PERCENT,
};
use histogram::{Bucket, Error, Histogram};

#[test]
fn percentile_units() {
    assert_eq!(PERCENT, 1_000_000);
    assert_eq!(HUNDRED_PERCENT, 100 * PERCENT);
}

#[test]
fn percentiles_walk_once_over_the_buckets() {
    let mut histogram = Histogram::new(0, 7, 64).unwrap();
    histogram.add(1, 10).unwrap();
    histogram.add(2, 10).unwrap();
    histogram.add(1000, 80).unwrap();
    let answer = percentiles(
        &histogram,
        &[10 * PERCENT, 11 * PERCENT, 20 * PERCENT, 21 * PERCENT, HUNDRED_PERCENT],
    )
    .unwrap();
    let lowers: Vec<u64> = answer.iter().map(|(_, b)| b.lower).collect();
    assert_eq!(lowers, vec![1, 2, 2, 1000, 1000]);
    assert_eq!(percentile(&histogram, 50 * PERCENT).map(|b| b.count), Ok(80));
}

#[test]
fn percentiles_with_a_total_that_the_counters_do_not_reach() {
    // the sum was read as ten, but the counters hold four when they are walked
    let mut histogram = Histogram::new(0, 7, 64).unwrap();
    histogram.add(3, 2).unwrap();
    histogram.add(40, 2).unwrap();
    let answer =
        percentiles_with_total(&histogram, 10, &[10 * PERCENT, 40 * PERCENT, 50 * PERCENT, 90 * PERCENT])
            .unwrap();
    let summary: Vec<(u64, u64)> = answer.iter().map(|(p, b)| (*p, b.lower)).collect();
    assert_eq!(
        summary,
        vec![
            (10 * PERCENT, 3),
            (40 * PERCENT, 40),
            (50 * PERCENT, 40),
            (90 * PERCENT, 40)
        ]
    );
}

#[test]
fn percentiles_with_a_total_and_no_counters() {
    let histogram = Histogram::new(0, 7, 64).unwrap();
    // nothing is held: the first bucket stands for the highest that holds anything
    assert_eq!(
        percentiles_with_total(&histogram, 5, &[50 * PERCENT]),
        Ok(vec![(
            50 * PERCENT,
            Bucket {
                count: 0,
                lower: 0,
                upper: 0
            }
        )])
    );
    assert_eq!(
        percentiles_with_total(&histogram, 0, &[50 * PERCENT]),
        Err(Error::Empty)
    );
}

#[test]
fn percentiles_with_a_total_below_what_the_counters_hold() {
    let mut histogram = Histogram::new(0, 7, 64).unwrap();
    histogram.add(3, 50).unwrap();
    histogram.add(40, 50).unwrap();
    // of a total of ten, everything is reached in the first bucket that holds anything
    let answer = percentiles_with_total(&histogram, 10, &[HUNDRED_PERCENT]).unwrap();
    assert_eq!(answer[0].1.lower, 3);
}

#[test]
fn percentiles_of_huge_totals() {
    let mut histogram = Histogram::new(0, 7, 64).unwrap();
    histogram.add(1, u64::MAX).unwrap();
    histogram.add(2, u64::MAX).unwrap();
    histogram.add(3, u64::MAX).unwrap();
    assert_eq!(percentile(&histogram, 33 * PERCENT).map(|b| b.lower), Ok(1));
    assert_eq!(percentile(&histogram, 34 * PERCENT).map(|b| b.lower), Ok(2));
    assert_eq!(percentile(&histogram, 67 * PERCENT).map(|b| b.lower), Ok(3));
    assert_eq!(percentile(&histogram, u64::MAX).map(|b| b.lower), Ok(3));
}

#[test]
fn get_bucket_of_any_histogram() {
    let mut histogram = Histogram::new(2, 3, 10).unwrap();
    histogram.add(70, 6).unwrap();
    assert_eq!(
        get_bucket(&histogram, 16),
        Bucket {
            count: 6,
            lower: 64,
            upper: 71
        }
    );
    let sparse = histogram::compact::Histogram::from(&histogram);
    assert_eq!(get_bucket(&sparse, 16), get_bucket(&histogram, 16));
    assert_eq!(get_bucket(&sparse, 15).count, 0);
}
