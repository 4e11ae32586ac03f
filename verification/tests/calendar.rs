use datetime::calendar_iso8601::{from_cjd, to_cjd};
use datetime::div_mod::div_mod;

fn check_point(cjd: i64, y: i64, m: i64, d: i64) {
    let out_cjd = to_cjd(y, m, d);
    if out_cjd != cjd {
        panic!("{:04}-{:02}-{:02}: expected {}, got {}", y, m, d, cjd, out_cjd);
    }

    let (y2, m2, d2) = from_cjd(cjd);
    if y != y2 || m != m2 || d != d2 {
        panic!(
            "{}: expected {:04}-{:02}-{:02}, got {:04}-{:02}-{:02}",
            cjd, y, m, d, y2, m2, d2
        );
    }
}

#[test]
fn cjd_point() {
    check_point(0, 2000, 1, 1);
    check_point(1, 2000, 1, 2);
    check_point(-1, 1999, 12, 31);
    check_point(146097, 2400, 1, 1);
    check_point(-146097, 1600, 1, 1);
}

const MONTHS: [i64; 12] = [31, 28, 31, 30, 31, 30, 31, 31, 30, 31, 30, 31];

fn check_range(start: i64, end: i64) {
    let mut y = start;
    let mut m = 1;
    let mut d = 1;
    let mut last_cjd = to_cjd(y, m, d) - 1;
    while y < end {
        let cjd = to_cjd(y, m, d);
        if cjd != last_cjd + 1 {
            panic!("Nonconsecutive date.");
        }
        last_cjd = cjd;
        let (y2, m2, d2) = from_cjd(cjd);
        if y != y2 || m != m2 || d != d2 {
            panic!(
                "Bad conversion: {:04}-{:02}-{:02} to {} to {:04}-{:02}-{:02}",
                y, m, d, cjd, y2, m2, d2
            );
        }
        d += 1;
        if d > MONTHS[(m - 1) as usize] {
            let is_leap =
                m == 2 && d == 29 && (y % 4) == 0 && ((y % 100) != 0 || (y % 400) == 0);
            if !is_leap {
                m += 1;
                d = 1;
                if m >= 13 {
                    m = 1;
                    y += 1;
                }
            }
        }
    }
}

#[test]
fn cjd_range() {
    check_range(1596, 2404);
}

#[test]
fn cjd_known_dates() {
    check_point(-10957, 1970, 1, 1);
    check_point(59, 2000, 2, 29);
    check_point(60, 2000, 3, 1);
    check_point(366, 2001, 1, 1);
    check_point(-36465, 1900, 3, 1);
    check_point(36584, 2100, 3, 1);
    check_point(-146038, 1600, 2, 29);
    check_point(-730485, 0, 1, 1);
    check_point(-730486, -1, 12, 31);
    check_point(-730850, -1, 1, 1);
    check_point(2921940, 10000, 1, 1);
}

#[test]
fn cjd_every_day_number_round_trips() {
    let mut cjd: i64 = -300_000;
    while cjd <= 300_000 {
        let (y, m, d) = from_cjd(cjd);
        assert!(1 <= m && m <= 12);
        assert!(1 <= d && d <= 31);
        assert_eq!(to_cjd(y, m, d), cjd);
        cjd += 1;
    }
}

#[test]
fn cjd_far_day_numbers_round_trip() {
    for &cjd in [
        i64::MIN,
        i64::MIN + 1,
        -1_000_000_000_000,
        -10_675_200,
        10_675_199,
        1_000_000_000_000,
        i64::MAX - 1,
        i64::MAX,
    ]
    .iter()
    {
        let (y, m, d) = from_cjd(cjd);
        assert_eq!(to_cjd(y, m, d), cjd);
    }
}

#[test]
fn cjd_day_outside_the_month_counts_on() {
    assert_eq!(to_cjd(2000, 1, 32), to_cjd(2000, 2, 1));
    assert_eq!(to_cjd(2001, 2, 29), to_cjd(2001, 3, 1));
    assert_eq!(to_cjd(2000, 1, 0), -1);
}

#[test]
fn div_mod_rounds_down() {
    assert_eq!(div_mod(7, 2), (3, 1));
    assert_eq!(div_mod(-7, 2), (-4, 1));
    assert_eq!(div_mod(7, -2), (-4, -1));
    assert_eq!(div_mod(-7, -2), (3, -1));
    assert_eq!(div_mod(-6, 3), (-2, 0));
    assert_eq!(div_mod(0, 5), (0, 0));
    assert_eq!(div_mod(i64::MIN, 1), (i64::MIN, 0));
    assert_eq!(div_mod(i64::MIN, i64::MIN), (1, 0));
    assert_eq!(div_mod(i64::MAX, i64::MIN), (-1, -1));
    assert_eq!(div_mod(-1, 146097), (-1, 146096));
}
