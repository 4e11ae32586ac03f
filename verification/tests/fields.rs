use datetime::fmtutil::{write_bytes, write_char, write_field, Align, Formatter};

fn field(width: Option<usize>, fill: char, align: Align, data: &[u8]) -> Vec<u8> {
    let mut out: Vec<u8> = Vec::new();
    write_field(
        &mut out,
        &Formatter { width: width, precision: None, fill: fill, align: align },
        data,
    );
    out
}

#[test]
fn field_without_width_is_the_text() {
    assert_eq!(field(None, '*', Align::Left, b"abc"), b"abc".to_vec());
    assert_eq!(field(None, '*', Align::Right, b""), b"".to_vec());
}

#[test]
fn field_narrower_than_the_text_is_the_text() {
    assert_eq!(field(Some(0), '*', Align::Left, b"abc"), b"abc".to_vec());
    assert_eq!(field(Some(3), '*', Align::Right, b"abc"), b"abc".to_vec());
    assert_eq!(field(Some(2), '*', Align::Center, b"abc"), b"abc".to_vec());
}

#[test]
fn field_is_filled_on_the_side_away_from_the_text() {
    assert_eq!(field(Some(6), '*', Align::Left, b"abc"), b"abc***".to_vec());
    assert_eq!(field(Some(6), '*', Align::Right, b"abc"), b"***abc".to_vec());
    assert_eq!(field(Some(6), '*', Align::Center, b"abc"), b"***abc".to_vec());
    assert_eq!(field(Some(6), '*', Align::Unknown, b"abc"), b"***abc".to_vec());
    assert_eq!(field(Some(2), ' ', Align::Left, b""), b"  ".to_vec());
}

#[test]
fn field_fill_is_written_in_utf8() {
    assert_eq!(field(Some(5), '\u{e9}', Align::Left, b"abc"), "abc\u{e9}\u{e9}".as_bytes().to_vec());
    assert_eq!(field(Some(4), '\u{20ac}', Align::Right, b"abc"), "\u{20ac}abc".as_bytes().to_vec());
    assert_eq!(
        field(Some(5), '\u{1f600}', Align::Right, b"abc"),
        "\u{1f600}\u{1f600}abc".as_bytes().to_vec()
    );
}

#[test]
fn field_is_appended_to_what_was_written() {
    let mut out: Vec<u8> = b"x=".to_vec();
    write_field(
        &mut out,
        &Formatter { width: Some(4), precision: None, fill: '0', align: Align::Right },
        b"7",
    );
    assert_eq!(out, b"x=0007".to_vec());
}

#[test]
fn characters_are_written_in_utf8() {
    for &c in ['\0', 'a', '\u{7f}', '\u{80}', '\u{7ff}', '\u{800}', '\u{d7ff}', '\u{e000}',
        '\u{ffff}', '\u{10000}', '\u{10ffff}']
        .iter()
    {
        let mut out: Vec<u8> = Vec::new();
        write_char(&mut out, c);
        let mut buf = [0u8; 4];
        assert_eq!(out, c.encode_utf8(&mut buf).as_bytes().to_vec());
    }
    let mut out: Vec<u8> = b"ab".to_vec();
    write_bytes(&mut out, b"cd");
    assert_eq!(out, b"abcd".to_vec());
}
