use datetime::tick;
use datetime::tick::{
    from_larger_units, from_sec_nsec, from_sec_usec, to_larger_unit, to_msec, to_sec,
    to_sec_nsec, to_sec_usec, to_usec,
};

#[test]
fn unit_scale_table() {
    assert_eq!(tick::PER_NANOSECOND, 100);
    assert_eq!(tick::MICROSECOND, 10);
    assert_eq!(tick::MILLISECOND, 1000 * tick::MICROSECOND);
    assert_eq!(tick::SECOND, 1000 * tick::MILLISECOND);
    assert_eq!(tick::MINUTE, 60 * tick::SECOND);
    assert_eq!(tick::HOUR, 60 * tick::MINUTE);
    assert_eq!(tick::DAY, 24 * tick::HOUR);
    assert_eq!(tick::STANDARD_DAY, tick::DAY);
    assert_eq!(tick::STANDARD_WEEK, 7 * tick::DAY);
}

#[test]
fn to_larger_unit_rounds_to_nearest() {
    assert_eq!(to_larger_unit(0, 10), 0);
    assert_eq!(to_larger_unit(4, 10), 0);
    assert_eq!(to_larger_unit(6, 10), 1);
    assert_eq!(to_larger_unit(-4, 10), 0);
    assert_eq!(to_larger_unit(-6, 10), -1);
    assert_eq!(to_larger_unit(14, 10), 1);
    assert_eq!(to_larger_unit(16, 10), 2);
    assert_eq!(to_larger_unit(4, 3), 1);
    assert_eq!(to_larger_unit(5, 3), 2);
    assert_eq!(to_larger_unit(3, 1), 3);
    assert_eq!(to_larger_unit(i64::MAX, 1), i64::MAX);
    assert_eq!(to_larger_unit(i64::MIN, 1), i64::MIN);
    assert_eq!(to_larger_unit(i64::MAX, 2), 4611686018427387904);
    assert_eq!(to_larger_unit(i64::MIN, 2), -4611686018427387904);
}

#[test]
fn to_larger_unit_rounds_halves_to_even() {
    assert_eq!(to_larger_unit(5, 10), 0);
    assert_eq!(to_larger_unit(15, 10), 2);
    assert_eq!(to_larger_unit(25, 10), 2);
    assert_eq!(to_larger_unit(35, 10), 4);
    assert_eq!(to_larger_unit(-5, 10), 0);
    assert_eq!(to_larger_unit(-15, 10), -2);
    assert_eq!(to_larger_unit(-25, 10), -2);
    assert_eq!(to_larger_unit(-35, 10), -4);
}

#[test]
fn to_whole_units() {
    assert_eq!(to_sec(15_000_000), 2);
    assert_eq!(to_sec(25_000_000), 2);
    assert_eq!(to_sec(-15_000_000), -2);
    assert_eq!(to_sec(-5_000_000), 0);
    assert_eq!(to_sec(14_999_999), 1);
    assert_eq!(to_msec(15_000), 2);
    assert_eq!(to_msec(-25_000), -2);
    assert_eq!(to_msec(25_001), 3);
    assert_eq!(to_usec(15), 2);
    assert_eq!(to_usec(25), 2);
    assert_eq!(to_usec(-26), -3);
}

#[test]
fn to_seconds_and_fraction() {
    assert_eq!(to_sec_usec(0), (0, 0));
    assert_eq!(to_sec_usec(-1), (0, 0));
    assert_eq!(to_sec_usec(-15), (-1, 999_998));
    assert_eq!(to_sec_usec(12_345_678), (1, 234_568));
    assert_eq!(to_sec_usec(9_999_995), (1, 0));
    assert_eq!(to_sec_nsec(0), (0, 0));
    assert_eq!(to_sec_nsec(-1), (-1, 999_999_900));
    assert_eq!(to_sec_nsec(12_345_678), (1, 234_567_800));
    assert_eq!(to_sec_nsec(i64::MIN), (-922337203686, 522_419_200));
}

#[test]
fn from_larger_units_is_exact() {
    assert_eq!(from_larger_units(3, 4, 5, 6), Some(39));
    assert_eq!(from_larger_units(1, 0, 10_000_000, 10), Some(10_000_000));
    assert_eq!(from_larger_units(-1, 0, 1, 0), Some(-1));
    assert_eq!(from_larger_units(5, 0, -1, 0), Some(-5));
    assert_eq!(from_larger_units(i64::MIN, 0, 1, 0), Some(i64::MIN));
    assert_eq!(from_larger_units(i64::MAX, 0, 1, 0), Some(i64::MAX));
    assert_eq!(from_larger_units(i64::MIN, i64::MAX, 1, 1), Some(-1));
    assert_eq!(
        from_larger_units(0x1_0000_0001, 0, 0x4000_0000, 0),
        Some(0x4000_0000_4000_0000)
    );
    assert_eq!(
        from_larger_units(i64::MAX, i64::MIN, 0x4000_0000, 0x4000_0000),
        Some(-0x4000_0000)
    );
}

#[test]
fn from_larger_units_reports_overflow() {
    assert_eq!(from_larger_units(i64::MAX, 1, 1, 1), None);
    assert_eq!(from_larger_units(i64::MIN, -1, 1, 1), None);
    assert_eq!(from_larger_units(i64::MIN, 0, -1, 0), None);
    assert_eq!(from_larger_units(1 << 40, 0, 1 << 30, 0), None);
    assert_eq!(from_larger_units(-(1 << 40), 0, 1 << 30, 0), None);
    assert_eq!(from_larger_units(1 << 33, 0, 1 << 30, 0), None);
    assert_eq!(from_larger_units(-(1 << 33), 0, 1 << 30, 0), Some(i64::MIN));
}

#[test]
fn from_seconds_and_fraction() {
    assert_eq!(from_sec_usec(1, 1), Some(10_000_010));
    assert_eq!(from_sec_usec(-1, 2_000_000), Some(10_000_000));
    assert_eq!(from_sec_usec(922337203685, 477580), Some(9223372036854775800));
    assert_eq!(from_sec_usec(922337203685, 477581), None);
    assert_eq!(from_sec_usec(-922337203685, -477580), Some(-9223372036854775800));
    assert_eq!(from_sec_usec(-922337203685, -477581), None);
    assert_eq!(from_sec_usec(i64::MAX, 0), None);
    assert_eq!(from_sec_usec(i64::MIN, 0), None);
    assert_eq!(from_sec_nsec(1, 150), Some(10_000_002));
    assert_eq!(from_sec_nsec(0, 250), Some(2));
    assert_eq!(from_sec_nsec(0, 50), Some(0));
    assert_eq!(from_sec_nsec(0, 51), Some(1));
    assert_eq!(from_sec_nsec(0, -50), Some(0));
    assert_eq!(from_sec_nsec(0, -150), Some(-2));
    assert_eq!(from_sec_nsec(922337203685, 477_580_700), Some(i64::MAX));
    assert_eq!(from_sec_nsec(922337203685, 477_580_750), None);
    assert_eq!(from_sec_nsec(-922337203685, -477_580_800), Some(i64::MIN));
    assert_eq!(from_sec_nsec(-922337203685, -477_580_851), None);
}

#[test]
fn seconds_and_nanoseconds_round_trip() {
    for &t in [0i64, 1, -1, 9_999_999, -9_999_999, 10_000_000, 1234567890, i64::MAX, i64::MIN]
        .iter()
    {
        let (sec, nsec) = to_sec_nsec(t);
        assert!(0 <= nsec && nsec < 1_000_000_000);
        assert_eq!(from_sec_nsec(sec, nsec as i64), Some(t));
    }
}
