use datetime::duration::Duration;
use datetime::fmtutil::{Align, Formatter};
use datetime::instant::Instant;
use datetime::posix::{Timespec, Timeval};
use datetime::tick;

fn check_text(expected: &str, ticks: i64) {
    let output = Instant { ticks: ticks }.to_string();
    if output.as_str() != expected {
        panic!("ticks: {}, expected: '{}', output: '{}'", ticks, expected, output);
    }
}

#[test]
fn format() {
    check_text("2000-01-01T00:00:00Z", 0);
    check_text("2000-01-01T00:00:01Z", tick::SECOND);
    check_text("1999-12-31T23:59:59Z", -tick::SECOND);
    check_text("2000-01-01T00:01:00Z", tick::MINUTE);
    check_text("1999-12-31T23:59:00Z", -tick::MINUTE);
    check_text("2000-01-01T01:00:00Z", tick::HOUR);
    check_text("1999-12-31T23:00:00Z", -tick::HOUR);
    check_text("2000-01-02T00:00:00Z", tick::DAY);
    check_text("1999-12-31T00:00:00Z", -tick::DAY);
}

#[test]
fn format_drops_the_fraction_of_a_second() {
    check_text("2000-01-01T00:00:00Z", 9_999_999);
    check_text("1999-12-31T23:59:59Z", -1);
    check_text("2000-02-29T12:34:56Z", 59 * tick::DAY + 452_960_000_000 + 1234);
    check_text("1970-01-01T00:00:00Z", Instant::unix_epoch().ticks);
}

#[test]
fn format_years_outside_four_digits() {
    check_text("0000-01-01T00:00:00Z", -730485 * tick::DAY);
    check_text("-001-12-31T00:00:00Z", -730486 * tick::DAY);
    check_text("10000-01-01T00:00:00Z", 2921940 * tick::DAY);
    check_text("-27228-04-18T21:11:54Z", i64::MIN);
    check_text("31227-09-14T02:48:05Z", i64::MAX);
    assert_eq!(Instant::min_value().ticks, i64::MIN);
    assert_eq!(Instant::max_value().ticks, i64::MAX);
}

#[test]
fn instant_field_is_padded_to_its_width() {
    let mut out: Vec<u8> = Vec::new();
    Instant { ticks: 0 }.fmt(
        &Formatter { width: Some(22), precision: None, fill: '.', align: Align::Center },
        &mut out,
    );
    assert_eq!(out, b"..2000-01-01T00:00:00Z".to_vec());
    assert_eq!(Instant { ticks: 0 }.to_utf8(), b"2000-01-01T00:00:00Z".to_vec());
}

#[test]
fn arithmetic_with_durations() {
    let t = Instant { ticks: 100 };
    assert_eq!(t + Duration { ticks: 5 }, Instant { ticks: 105 });
    assert_eq!(t - Duration { ticks: 5 }, Instant { ticks: 95 });
    assert_eq!(t + Duration { ticks: -200 }, Instant { ticks: -100 });
    assert!(Instant { ticks: -1 } < Instant { ticks: 0 });
    assert_eq!(Instant { ticks: 105 } - t, Duration { ticks: 5 });
    assert_eq!(t - Instant { ticks: 105 }, Duration { ticks: -5 });
    assert_eq!(Instant::max_value() - Instant { ticks: 0 }, Duration::max_value());
}

#[test]
fn unix_epoch_is_day_minus_10957() {
    assert_eq!(Instant::unix_epoch().ticks, -10957 * tick::DAY);
    assert_eq!(datetime::instant::EPOCH_UNIX_SECOND, 10957 * 86400);
    assert_eq!(datetime::instant::UNIX_EPOCH_DAY, -10957);
}

#[test]
fn conversions_from_posix_time() {
    assert_eq!(
        Instant::from_timespec(&Timespec { tv_sec: 946_684_800, tv_nsec: 0 }),
        Some(Duration { ticks: 0 })
    );
    assert_eq!(
        Instant::from_timespec(&Timespec { tv_sec: 0, tv_nsec: 0 }),
        Some(Duration { ticks: -9_466_848_000_000_000 })
    );
    assert_eq!(
        Instant::from_timespec(&Timespec { tv_sec: 946_684_801, tv_nsec: 150 }),
        Some(Duration { ticks: 10_000_002 })
    );
    assert_eq!(
        Instant::from_timespec(&Timespec { tv_sec: 946_684_801, tv_nsec: 250 }),
        Some(Duration { ticks: 10_000_002 })
    );
    assert_eq!(Instant::from_timespec(&Timespec { tv_sec: i64::MIN, tv_nsec: 0 }), None);
    assert_eq!(Instant::from_timespec(&Timespec { tv_sec: i64::MAX, tv_nsec: 0 }), None);
    assert_eq!(
        Instant::from_timespec(&Timespec { tv_sec: 946_684_800 + 922337203685, tv_nsec: 477_580_700 }),
        Some(Duration { ticks: i64::MAX })
    );
    assert_eq!(
        Instant::from_timespec(&Timespec { tv_sec: 946_684_800 + 922337203685, tv_nsec: 477_580_800 }),
        None
    );
    assert_eq!(
        Instant::from_timesval(&Timeval { tv_sec: 946_684_800, tv_usec: 0 }),
        Some(Duration { ticks: 0 })
    );
    assert_eq!(
        Instant::from_timesval(&Timeval { tv_sec: 946_684_799, tv_usec: 999_999 }),
        Some(Duration { ticks: -10 })
    );
    assert_eq!(Instant::from_timesval(&Timeval { tv_sec: i64::MIN, tv_usec: 0 }), None);
    assert_eq!(
        Instant::from_timesval(&Timeval { tv_sec: 946_684_800 + 922337203685, tv_usec: 477_581 }),
        None
    );
}

#[test]
fn conversions_to_posix_time() {
    assert_eq!(
        Instant { ticks: 0 }.to_timespec(),
        Timespec { tv_sec: 946_684_800, tv_nsec: 0 }
    );
    assert_eq!(
        Instant { ticks: -1 }.to_timespec(),
        Timespec { tv_sec: 946_684_799, tv_nsec: 999_999_900 }
    );
    assert_eq!(Instant::unix_epoch().to_timespec(), Timespec { tv_sec: 0, tv_nsec: 0 });
    assert_eq!(
        Instant { ticks: 0 }.to_timeval(),
        Timeval { tv_sec: 946_684_800, tv_usec: 0 }
    );
    assert_eq!(
        Instant { ticks: -15 }.to_timeval(),
        Timeval { tv_sec: 946_684_799, tv_usec: 999_998 }
    );
    assert_eq!(
        Instant { ticks: i64::MAX }.to_timespec(),
        Timespec { tv_sec: 946_684_800 + 922337203685, tv_nsec: 477_580_700 }
    );
}
