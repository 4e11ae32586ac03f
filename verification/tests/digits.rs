use datetime::decimal::{parse_digits, pow10_u64, scan_digits, write_decimal, write_padded};

#[test]
fn scan_stops_at_the_first_byte_that_is_no_digit() {
    assert_eq!(scan_digits(b"123abc", 0), 3);
    assert_eq!(scan_digits(b"123abc", 1), 3);
    assert_eq!(scan_digits(b"123abc", 3), 3);
    assert_eq!(scan_digits(b"123", 0), 3);
    assert_eq!(scan_digits(b"123", 3), 3);
    assert_eq!(scan_digits(b"/0123456789:", 1), 11);
    assert_eq!(scan_digits(b"", 0), 0);
}

#[test]
fn digits_are_read_as_a_number() {
    assert_eq!(parse_digits(b"x0123y", 1, 5), Some(123));
    assert_eq!(parse_digits(b"x0123y", 1, 1), Some(0));
    assert_eq!(parse_digits(b"18446744073709551615", 0, 20), Some(u64::MAX));
    assert_eq!(parse_digits(b"18446744073709551616", 0, 20), None);
    assert_eq!(parse_digits(b"99999999999999999999", 0, 20), None);
    assert_eq!(parse_digits(b"000018446744073709551615", 0, 24), Some(u64::MAX));
}

#[test]
fn numbers_are_written_in_decimal() {
    let mut out: Vec<u8> = Vec::new();
    write_decimal(&mut out, 0);
    out.push(b' ');
    write_decimal(&mut out, 9);
    out.push(b' ');
    write_decimal(&mut out, 10);
    out.push(b' ');
    write_decimal(&mut out, 1234567890);
    out.push(b' ');
    write_decimal(&mut out, u64::MAX);
    assert_eq!(out, b"0 9 10 1234567890 18446744073709551615".to_vec());
}

#[test]
fn numbers_are_written_with_zeros_in_front() {
    let mut out: Vec<u8> = Vec::new();
    write_padded(&mut out, 7, 2);
    out.push(b' ');
    write_padded(&mut out, 0, 4);
    out.push(b' ');
    write_padded(&mut out, 12345, 3);
    out.push(b' ');
    write_padded(&mut out, 12, 0);
    out.push(b' ');
    write_padded(&mut out, 42, 2);
    assert_eq!(out, b"07 0000 345  42".to_vec());
}

#[test]
fn powers_of_ten() {
    assert_eq!(pow10_u64(0), 1);
    assert_eq!(pow10_u64(1), 10);
    assert_eq!(pow10_u64(6), 1_000_000);
    assert_eq!(pow10_u64(7), 10_000_000);
}
