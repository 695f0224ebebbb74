use histogram::config::Config;
use histogram::{BuildError, Error};

#[test]
fn config_rejects_bad_parameters() {
    assert!(matches!(Config::new(0, 7, 65), Err(BuildError::MaxPowerTooHigh)));
    assert!(matches!(Config::new(0, 0, 255), Err(BuildError::MaxPowerTooHigh)));
    assert!(matches!(Config::new(4, 4, 8), Err(BuildError::MaxPowerTooLow)));
    assert!(matches!(Config::new(0, 0, 0), Err(BuildError::MaxPowerTooLow)));
    assert!(matches!(Config::new(200, 100, 64), Err(BuildError::MaxPowerTooLow)));
    // n <= 64 and a + b < n is all that a layout needs
    assert!(Config::new(0, 63, 64).is_ok());
    assert!(Config::new(0, 62, 64).is_ok());
    assert!(Config::new(1, 60, 62).is_ok());
    assert!(Config::new(63, 0, 64).is_ok());
    assert!(Config::new(0, 7, 64).is_ok());
    assert!(Config::new(0, 0, 1).is_ok());
    assert!(Config::new(3, 4, 8).is_ok());
}

#[test]
fn config_params_and_total_bins() {
    let config = Config::new(0, 7, 64).unwrap();
    assert_eq!(config.params(), (0, 7, 64));
    assert_eq!(config.total_bins(), 128 + 57 * 128);
    let config = Config::new(2, 3, 10).unwrap();
    assert_eq!(config.total_bins(), 8 + 5 * 8);
    let config = Config::new(0, 0, 1).unwrap();
    assert_eq!(config.total_bins(), 2);
}

#[test]
fn config_value_to_index_exact() {
    let config = Config::new(0, 7, 64).unwrap();
    assert_eq!(config.value_to_index(0), Ok(0));
    assert_eq!(config.value_to_index(1), Ok(1));
    assert_eq!(config.value_to_index(127), Ok(127));
    assert_eq!(config.value_to_index(128), Ok(128));
    assert_eq!(config.value_to_index(255), Ok(255));
    assert_eq!(config.value_to_index(256), Ok(256));
    assert_eq!(config.value_to_index(257), Ok(256));
    assert_eq!(config.value_to_index(258), Ok(257));
    assert_eq!(config.value_to_index(1024), Ok(512));
    assert_eq!(config.value_to_index(1031), Ok(512));
    assert_eq!(config.value_to_index(1032), Ok(513));
    assert_eq!(config.value_to_index(u64::MAX), Ok(7423));

    let config = Config::new(2, 3, 10).unwrap();
    // linear region: values below 32, four to a bucket
    assert_eq!(config.value_to_index(0), Ok(0));
    assert_eq!(config.value_to_index(3), Ok(0));
    assert_eq!(config.value_to_index(4), Ok(1));
    assert_eq!(config.value_to_index(31), Ok(7));
    // first band: 32..64, eight buckets of four
    assert_eq!(config.value_to_index(32), Ok(8));
    assert_eq!(config.value_to_index(35), Ok(8));
    assert_eq!(config.value_to_index(63), Ok(15));
    // second band: 64..128, eight buckets of eight
    assert_eq!(config.value_to_index(64), Ok(16));
    assert_eq!(config.value_to_index(71), Ok(16));
    assert_eq!(config.value_to_index(72), Ok(17));
    assert_eq!(config.value_to_index(1023), Ok(47));
}

#[test]
fn config_value_out_of_range() {
    let config = Config::new(2, 3, 10).unwrap();
    assert_eq!(config.value_to_index(1023), Ok(47));
    assert_eq!(config.value_to_index(1024), Err(Error::OutOfRange));
    assert_eq!(config.value_to_index(u64::MAX), Err(Error::OutOfRange));
    let config = Config::new(0, 0, 1).unwrap();
    assert_eq!(config.value_to_index(1), Ok(1));
    assert_eq!(config.value_to_index(2), Err(Error::OutOfRange));
    let config = Config::new(0, 7, 64).unwrap();
    assert!(config.value_to_index(u64::MAX).is_ok());
}

#[test]
fn config_bounds_exact() {
    let config = Config::new(0, 7, 64).unwrap();
    assert_eq!(config.index_to_lower_bound(0), 0);
    assert_eq!(config.index_to_upper_bound(0), 0);
    assert_eq!(config.index_to_lower_bound(127), 127);
    assert_eq!(config.index_to_upper_bound(127), 127);
    assert_eq!(config.index_to_lower_bound(128), 128);
    assert_eq!(config.index_to_upper_bound(128), 128);
    assert_eq!(config.index_to_lower_bound(256), 256);
    assert_eq!(config.index_to_upper_bound(256), 257);
    assert_eq!(config.index_to_lower_bound(512), 1024);
    assert_eq!(config.index_to_upper_bound(512), 1031);
    assert_eq!(config.index_to_lower_bound(7423), u64::MAX - (1 << 56) + 1);
    assert_eq!(config.index_to_upper_bound(7423), u64::MAX);

    let config = Config::new(2, 3, 10).unwrap();
    assert_eq!(config.index_to_lower_bound(0), 0);
    assert_eq!(config.index_to_upper_bound(0), 3);
    assert_eq!(config.index_to_lower_bound(7), 28);
    assert_eq!(config.index_to_upper_bound(7), 31);
    assert_eq!(config.index_to_lower_bound(8), 32);
    assert_eq!(config.index_to_upper_bound(8), 35);
    assert_eq!(config.index_to_lower_bound(16), 64);
    assert_eq!(config.index_to_upper_bound(16), 71);
    assert_eq!(config.index_to_lower_bound(47), 960);
    assert_eq!(config.index_to_upper_bound(47), 1023);
}

fn layouts() -> Vec<(u8, u8, u8)> {
    vec![
        (0, 0, 1),
        (0, 0, 8),
        (0, 3, 8),
        (2, 3, 10),
        (3, 4, 8),
        (0, 7, 16),
        (5, 2, 20),
        (0, 7, 64),
        (10, 5, 64),
        (0, 10, 63),
        (60, 3, 64),
    ]
}

#[test]
fn config_value_lies_in_its_bucket() {
    for (a, b, n) in layouts() {
        let config = Config::new(a, b, n).unwrap();
        let limit: u128 = 1u128 << n;
        let mut values: Vec<u64> = (0..2000u64).collect();
        for shift in 0..64u32 {
            let power = 1u64 << shift;
            values.push(power - 1);
            values.push(power);
            values.push(power + 1);
            values.push(power + power / 3);
        }
        values.push(u64::MAX);
        for value in values {
            if (value as u128) < limit {
                let index = config.value_to_index(value).unwrap();
                assert!(index < config.total_bins());
                assert!(config.index_to_lower_bound(index) <= value);
                assert!(value <= config.index_to_upper_bound(index));
            } else {
                assert_eq!(config.value_to_index(value), Err(Error::OutOfRange));
            }
        }
    }
}

#[test]
fn config_buckets_are_contiguous() {
    for (a, b, n) in layouts() {
        let config = Config::new(a, b, n).unwrap();
        let bins = config.total_bins();
        assert_eq!(config.index_to_lower_bound(0), 0);
        let last = if n == 64 {
            u64::MAX
        } else {
            (1u64 << n) - 1
        };
        assert_eq!(config.index_to_upper_bound(bins - 1), last);
        for index in 0..bins - 1 {
            assert!(config.index_to_lower_bound(index) <= config.index_to_upper_bound(index));
            assert_eq!(
                config.index_to_upper_bound(index) + 1,
                config.index_to_lower_bound(index + 1)
            );
        }
    }
}

#[test]
fn config_bounds_map_back_to_their_bucket() {
    for (a, b, n) in layouts() {
        let config = Config::new(a, b, n).unwrap();
        for index in 0..config.total_bins() {
            let lower = config.index_to_lower_bound(index);
            let upper = config.index_to_upper_bound(index);
            assert_eq!(config.value_to_index(lower), Ok(index));
            assert_eq!(config.value_to_index(upper), Ok(index));
        }
    }
}

#[test]
fn config_counts_its_buckets_where_they_can_be_allocated() {
    assert_eq!(Config::new(0, 7, 64).unwrap().checked_total_bins(), Some(7424));
    assert_eq!(Config::new(2, 3, 10).unwrap().checked_total_bins(), Some(48));
    assert_eq!(Config::new(0, 0, 1).unwrap().checked_total_bins(), Some(2));
    assert_eq!(Config::new(0, 63, 64).unwrap().checked_total_bins(), None);
    assert_eq!(Config::new(0, 62, 64).unwrap().checked_total_bins(), None);
    assert_eq!(Config::new(0, 61, 64).unwrap().checked_total_bins(), None);
    assert_eq!(Config::new(1, 60, 62).unwrap().checked_total_bins(), None);
}

#[test]
fn config_bounds_of_the_largest_layout() {
    // a bucket for every value
    let config = Config::new(0, 63, 64).unwrap();
    assert_eq!(config.params(), (0, 63, 64));
    assert_eq!(config.index_to_lower_bound(0), 0);
    assert_eq!(config.index_to_upper_bound(0), 0);
    assert_eq!(config.index_to_lower_bound(12345), 12345);
    assert_eq!(config.index_to_upper_bound(12345), 12345);
    assert_eq!(config.value_to_index(12345), Ok(12345));
    assert_eq!(config.value_to_index(u64::MAX), Ok(usize::MAX));
    assert_eq!(config.index_to_lower_bound(usize::MAX), u64::MAX);
    assert_eq!(config.index_to_upper_bound(usize::MAX), u64::MAX);
    let config = Config::new(0, 62, 64).unwrap();
    // two to a bucket from 2^63 on
    let index = (1usize << 62) + (1usize << 62);
    assert_eq!(config.index_to_lower_bound(index), 1u64 << 63);
    assert_eq!(config.index_to_upper_bound(index), (1u64 << 63) + 1);
    assert_eq!(config.index_to_upper_bound(index - 1), (1u64 << 63) - 1);
    assert_eq!(config.value_to_index((1u64 << 63) + 1), Ok(index));
    assert_eq!(config.value_to_index(u64::MAX), Ok(index + (1usize << 62) - 1));
}
