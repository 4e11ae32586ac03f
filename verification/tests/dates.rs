use datetime::format_iso8601::{parse_date, parse_date_bytes, read_int, Date};

fn check_date(s: &str, d: Date) {
    match parse_date(s) {
        None => panic!("Could not parse: {}", s),
        Some(x) => {
            if x != d {
                panic!("Incorrect parse: {}", s);
            }
        }
    }
}

#[test]
fn test_read_date() {
    check_date("2000", Date::Year(2000));
    check_date("+2000", Date::Year(2000));
    check_date("-10000", Date::Year(-10000));
    check_date("+0000", Date::Year(0));
    check_date("-0000", Date::Year(0));
    check_date("2000-12", Date::YearMonth(2000, 12));
    check_date("1492-07-31", Date::YearMonthDay(1492, 7, 31));
    check_date("1950-001", Date::YearDay(1950, 1));
    check_date("1999-365", Date::YearDay(1999, 365));
    check_date("1995-W01", Date::YearWeek(1995, 1));
    check_date("2007-W44-7", Date::YearWeekDay(2007, 44, 7));
}

#[test]
fn dates_at_the_ends_of_their_ranges() {
    check_date("2000-01", Date::YearMonth(2000, 1));
    check_date("2000-02-31", Date::YearMonthDay(2000, 2, 31));
    check_date("2000-04-01", Date::YearMonthDay(2000, 4, 1));
    check_date("2000-366", Date::YearDay(2000, 366));
    check_date("2001-366", Date::YearDay(2001, 366));
    check_date("2000-W53", Date::YearWeek(2000, 53));
    check_date("2000-W01-1", Date::YearWeekDay(2000, 1, 1));
    check_date("02000-W53-7", Date::YearWeekDay(2000, 53, 7));
    check_date("123456-12-01", Date::YearMonthDay(123456, 12, 1));
    check_date("-0044-03-15", Date::YearMonthDay(-44, 3, 15));
}

#[test]
fn malformed_dates_are_rejected() {
    for s in [
        "", "-", "+", "200", "20000-", "2000-", "2000-1", "2000-13", "2000-00", "2000-1234",
        "2000-12-", "2000-12-1", "2000-12-001", "2000-12-00", "2000-12-32", "2000-12-31x",
        "2000-000", "2000-367", "2000-365-", "2000-W", "2000-W1", "2000-W00", "2000-W54",
        "2000-W001", "2000-W10-", "2000-W10-0", "2000-W10-8", "2000-W10-01", "2000-W10-1x",
        "2000-w10", "2000W10", "2000x", "x2000", " 2000", "2000 ", "++2000", "2000/12",
        "2000-12/31", "2000-W10/1", "20\u{e9}0",
    ]
    .iter()
    {
        assert_eq!(parse_date(s), None, "input: '{}'", s);
    }
    assert_eq!(parse_date_bytes(b"2000\xff"), None);
    assert_eq!(parse_date_bytes(b"2000-12"), Some(Date::YearMonth(2000, 12)));
}

#[test]
fn years_beyond_64_bits_saturate() {
    check_date("9223372036854775807", Date::Year(i64::MAX));
    check_date("9223372036854775808", Date::Year(i64::MAX));
    check_date("99999999999999999999999-12", Date::YearMonth(i64::MAX, 12));
    check_date("-99999999999999999999999", Date::Year(-i64::MAX));
    check_date("-9223372036854775806", Date::Year(-9223372036854775806));
}

#[test]
fn read_int_reads_a_run_of_digits() {
    assert_eq!(read_int(b"1234", 0), (1234, 4));
    assert_eq!(read_int(b"1234-56", 0), (1234, 4));
    assert_eq!(read_int(b"1234-56", 5), (56, 2));
    assert_eq!(read_int(b"1234-56", 4), (0, 0));
    assert_eq!(read_int(b"1234", 4), (0, 0));
    assert_eq!(read_int(b"", 0), (0, 0));
    assert_eq!(read_int(b"007x", 0), (7, 3));
    assert_eq!(read_int(b"92233720368547758070", 0), (i64::MAX, 20));
}

#[test]
fn dates_are_ordered_by_shape_then_fields() {
    assert!(Date::Year(2000) < Date::Year(2001));
    assert!(Date::YearMonth(2000, 1) < Date::YearMonth(2000, 2));
    assert_eq!(Date::YearDay(1999, 365), Date::YearDay(1999, 365));
    assert!(Date::YearDay(1999, 365) != Date::YearWeek(1999, 365));
}
