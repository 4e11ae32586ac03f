//! Writing a field of text with padding, for the types that render
//! themselves as text.

use vstd::prelude::*;
use vstd::utf8::encode_scalar;

verus! {

/// Where the text stands in a field that is wider than the text.
#[derive(PartialEq, Eq, Structural, Clone, Copy, Debug)]
pub enum Align {
    Left,
    Right,
    Center,
    Unknown,
}

/// How a value is written as a field of text: the least width of the
/// field in bytes, the number of fractional digits, the character that fills
/// the field up, and the side that the text stands on.
#[derive(Clone, Copy, Debug)]
pub struct Formatter {
    pub width: Option<usize>,
    pub precision: Option<usize>,
    pub fill: char,
    pub align: Align,
}

/// The text `unit`, `n` times in a row.
pub open spec fn repeated(unit: Seq<u8>, n: nat) -> Seq<u8>
    decreases n,
{
    if n == 0 {
        Seq::<u8>::empty()
    } else {
        repeated(unit, (n - 1) as nat) + unit
    }
}

/// The number of fill characters that a text of `len` bytes takes in a field
/// of the given width.
pub open spec fn padding(len: nat, width: Option<usize>) -> nat {
    match width {
        Some(w) => if w > len {
            (w - len) as nat
        } else {
            0
        },
        None => 0,
    }
}

/// The field that a text makes: the text alone where it fills the width, and
/// else the text with the fill character after it, where the text stands on
/// the left, or before it, in every other case.
pub open spec fn field_text(f: Formatter, data: Seq<u8>) -> Seq<u8> {
    let fill = repeated(encode_scalar(f.fill as u32), padding(data.len(), f.width));
    if f.align == Align::Left {
        data + fill
    } else {
        fill + data
    }
}

/// The characters that a text of ASCII bytes holds.
pub open spec fn ascii_chars(bytes: Seq<u8>) -> Seq<char> {
    Seq::new(bytes.len(), |i: int| bytes[i] as char)
}

/// Whether every byte of the text is an ASCII character.
pub open spec fn is_ascii_text(bytes: Seq<u8>) -> bool {
    forall|i: int| 0 <= i < bytes.len() ==> #[trigger] bytes[i] < 0x80
}

/// Append the UTF-8 encoding of a character.
pub fn write_char(out: &mut Vec<u8>, c: char)
    ensures
        final(out)@ == old(out)@ + encode_scalar(c as u32),
{
    let v: u32 = c as u32;
    if v <= 0x7f {
        out.push((v & 0x7f) as u8);
        assert(final(out)@ =~= old(out)@ + encode_scalar(c as u32));
    } else if v <= 0x7ff {
        out.push(0xc0 | ((v >> 6) & 0x1f) as u8);
        out.push(0x80 | (v & 0x3f) as u8);
        assert(final(out)@ =~= old(out)@ + encode_scalar(c as u32));
    } else if v <= 0xffff {
        proof {
            vstd::utf8::char_is_scalar(c);
        }
        out.push(0xe0 | ((v >> 12) & 0x0f) as u8);
        out.push(0x80 | ((v >> 6) & 0x3f) as u8);
        out.push(0x80 | (v & 0x3f) as u8);
        assert(final(out)@ =~= old(out)@ + encode_scalar(c as u32));
    } else {
        out.push(0xf0 | ((v >> 18) & 0x7) as u8);
        out.push(0x80 | ((v >> 12) & 0x3f) as u8);
        out.push(0x80 | ((v >> 6) & 0x3f) as u8);
        out.push(0x80 | (v & 0x3f) as u8);
        assert(final(out)@ =~= old(out)@ + encode_scalar(c as u32));
    }
}

/// Append a text.
pub fn write_bytes(out: &mut Vec<u8>, data: &[u8])
    ensures
        final(out)@ == old(out)@ + data@,
{
    let mut i: usize = 0;
    while i < data.len()
        invariant
            i <= data.len(),
            out@ == old(out)@ + data@.subrange(0, i as int),
        decreases data.len() - i,
    {
        out.push(data[i]);
        i = i + 1;
        assert(out@ =~= old(out)@ + data@.subrange(0, i as int));
    }
    assert(data@.subrange(0, i as int) =~= data@);
}

/// Write a single field to a buffer with the selected padding and
/// alignment. The field must already be converted to a slice of UTF-8 data.
pub fn write_field(out: &mut Vec<u8>, f: &Formatter, data: &[u8])
    ensures
        final(out)@ == old(out)@ + field_text(*f, data@),
{
    let padding: usize = match f.width {
        Some(width) => {
            let sz: usize = data.len();
            if width > sz {
                width - sz
            } else {
                0
            }
        },
        None => 0,
    };
    let left: bool = match f.align {
        Align::Left => true,
        _ => false,
    };
    if left {
        write_bytes(out, data);
    }
    let ghost unit = encode_scalar(f.fill as u32);
    let ghost before = out@;
    let mut i: usize = 0;
    while i < padding
        invariant
            i <= padding,
            unit == encode_scalar(f.fill as u32),
            out@ == before + repeated(unit, i as nat),
        decreases padding - i,
    {
        write_char(out, f.fill);
        i = i + 1;
        assert(out@ =~= before + repeated(unit, i as nat));
    }
    if !left {
        write_bytes(out, data);
    }
    assert(out@ =~= old(out)@ + field_text(*f, data@));
}

/// `String::from_utf8` on ASCII bytes, which are valid UTF-8: the string
/// holds one character for each byte, the one with the byte's code.
#[verifier::external_body]
pub(crate) fn string_from_ascii(bytes: Vec<u8>) -> (s: String)
    requires
        is_ascii_text(bytes@),
    ensures
        s@ == ascii_chars(bytes@),
{
    match String::from_utf8(bytes) {
        Ok(s) => s,
        Err(_) => String::new(),
    }
}

} // verus!
