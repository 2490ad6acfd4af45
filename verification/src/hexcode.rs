//! Bytes as hexadecimal text.
use vstd::prelude::*;
use vstd::utf8::*;

verus! {

/// The hexadecimal digit of a number below sixteen.
pub open spec fn hex_digit(n: int) -> char {
    if n < 10 {
        (0x30 + n) as char
    } else {
        (0x57 + n) as char
    }
}

/// The number that a hexadecimal digit, given as a byte, stands for.
pub open spec fn hex_number(b: u8) -> Option<u8> {
    if 0x30 <= b <= 0x39 {
        Some((b - 0x30) as u8)
    } else if 0x61 <= b <= 0x66 {
        Some((b - 0x57) as u8)
    } else if 0x41 <= b <= 0x46 {
        Some((b - 0x37) as u8)
    } else {
        None
    }
}

/// The character at a place of the hexadecimal text of some bytes.
pub open spec fn hex_char(bytes: Seq<u8>, i: int) -> char {
    if i % 2 == 0 {
        hex_digit(bytes[i / 2] as int / 16)
    } else {
        hex_digit(bytes[i / 2] as int % 16)
    }
}

/// Some bytes as hexadecimal text, two digits for each, the higher one first.
pub open spec fn hex_text(bytes: Seq<u8>) -> Seq<char> {
    Seq::new(2 * bytes.len(), |i: int| hex_char(bytes, i))
}

/// Whether a text, given as bytes, is made of pairs of hexadecimal digits.
pub open spec fn is_hex(b: Seq<u8>) -> bool {
    b.len() % 2 == 0 && forall|i: int| 0 <= i < b.len() ==> hex_number(#[trigger] b[i]) is Some
}

/// The byte that a pair of hexadecimal digits stands for.
pub open spec fn hex_byte(b: Seq<u8>, i: int) -> u8 {
    (hex_number(b[2 * i])->0 * 16 + hex_number(b[2 * i + 1])->0) as u8
}

/// The bytes that a hexadecimal text stands for.
pub open spec fn hex_bytes(s: Seq<char>) -> Option<Seq<u8>> {
    let b = encode_utf8(s);
    if is_hex(b) {
        Some(Seq::new(b.len() / 2, |i: int| hex_byte(b, i)))
    } else {
        None
    }
}

/// What optional bytes hold.
pub open spec fn opt_bytes(o: Option<Vec<u8>>) -> Option<Seq<u8>> {
    match o {
        Some(v) => Some(v@),
        None => None,
    }
}

fn digit_of(n: u8) -> (r: char)
    requires
        n < 16,
    ensures
        r == hex_digit(n as int),
{
    if n < 10 {
        (0x30 + n) as char
    } else {
        (0x57 + n) as char
    }
}

/// The number that a hexadecimal digit, given as a byte, stands for.
pub fn hex_value(byte: u8) -> (r: Option<u8>)
    ensures
        r == hex_number(byte),
{
    if 0x30 <= byte && byte <= 0x39 {
        Some(byte - 0x30)
    } else if 0x61 <= byte && byte <= 0x66 {
        Some(byte - 0x57)
    } else if 0x41 <= byte && byte <= 0x46 {
        Some(byte - 0x37)
    } else {
        None
    }
}

/// The bytes as hexadecimal text.
pub fn hex_encode(bytes: &Vec<u8>) -> (r: String)
    ensures
        r@ == hex_text(bytes@),
{
    let mut out = String::new();
    let n: usize = bytes.len();
    for i in 0..n
        invariant
            n == bytes@.len(),
            out@ == hex_text(bytes@).take(2 * i),
    {
        let b: u8 = bytes[i];
        let ghost whole = hex_text(bytes@);
        out.push(digit_of(b / 16));
        out.push(digit_of(b % 16));
        assert(whole[2 * i] == hex_char(bytes@, 2 * i));
        assert(whole[2 * i + 1] == hex_char(bytes@, 2 * i + 1));
        assert((2 * i) / 2 == i && (2 * i + 1) / 2 == i);
        assert(whole.take(2 * (i + 1)) =~= whole.take(2 * i).push(whole[2 * i]).push(
            whole[2 * i + 1],
        ));
    }
    assert(hex_text(bytes@).take(2 * n) =~= hex_text(bytes@));
    out
}

/// The bytes that the hexadecimal text stands for; `None` where it is not one.
pub fn hex_decode(value: &str) -> (r: Option<Vec<u8>>)
    ensures
        opt_bytes(r) == hex_bytes(value@),
{
    let raw = value.as_bytes();
    let n: usize = raw.len();
    let ghost b = encode_utf8(value@);
    if n % 2 != 0 {
        return None;
    }
    let half: usize = n / 2;
    let mut out: Vec<u8> = Vec::new();
    for i in 0..half
        invariant
            raw@ == b,
            n == b.len(),
            n == 2 * half,
            out@.len() == i,
            forall|j: int| 0 <= j < 2 * i ==> hex_number(#[trigger] b[j]) is Some,
            forall|j: int| 0 <= j < i ==> #[trigger] out@[j] == hex_byte(b, j),
            b == encode_utf8(value@),
    {
        let high: u8 = match hex_value(raw[2 * i]) {
            Some(v) => v,
            None => {
                assert(hex_number(b[2 * i]) is None);
                return None;
            },
        };
        let low: u8 = match hex_value(raw[2 * i + 1]) {
            Some(v) => v,
            None => {
                assert(hex_number(b[2 * i + 1]) is None);
                return None;
            },
        };
        assert(high < 16 && low < 16);
        out.push(high * 16 + low);
    }
    assert(is_hex(b));
    assert(out@ =~= Seq::new(b.len() / 2, |i: int| hex_byte(b, i)));
    Some(out)
}

/// What was written as hexadecimal text is read back.
pub proof fn law_hex_reads_back(bytes: Seq<u8>)
    ensures
        hex_bytes(hex_text(bytes)) == Some(bytes),
{
    let s = hex_text(bytes);
    assert forall|i: int| 0 <= i < s.len() implies '\0' <= #[trigger] s[i] <= '\u{7f}' by {
        assert(s[i] == hex_char(bytes, i));
        assert(0 <= i / 2 < bytes.len());
    }
    is_ascii_chars_encode_utf8(s);
    let b = encode_utf8(s);
    assert forall|i: int| 0 <= i < b.len() implies hex_number(#[trigger] b[i]) is Some by {
        assert(s[i] == hex_char(bytes, i));
        assert(s[i] as u8 == b[i]);
    }
    assert forall|i: int| 0 <= i < bytes.len() implies hex_byte(b, i) == #[trigger] bytes[i] by {
        assert(s[2 * i] == hex_char(bytes, 2 * i));
        assert(s[2 * i + 1] == hex_char(bytes, 2 * i + 1));
        assert((2 * i) / 2 == i && (2 * i + 1) / 2 == i);
        assert(s[2 * i] as u8 == b[2 * i]);
        assert(s[2 * i + 1] as u8 == b[2 * i + 1]);
    }
    assert(Seq::new(b.len() / 2, |i: int| hex_byte(b, i)) =~= bytes);
}

/// A byte is written as two digits, the higher one first; digits are read in lower case and in upper
/// case, and no other character is one.
pub proof fn law_bytes_have_two_digits(bytes: Seq<u8>, i: int, b: u8)
    requires
        0 <= i < bytes.len(),
    ensures
        hex_text(bytes).len() == 2 * bytes.len(),
        16 * hex_number(hex_text(bytes)[2 * i] as u8)->0 + hex_number(
            hex_text(bytes)[2 * i + 1] as u8,
        )->0 == bytes[i],
        '0' as u8 <= b <= '9' as u8 ==> hex_number(b) == Some((b - 48) as u8),
        'a' as u8 <= b <= 'f' as u8 ==> hex_number(b) == Some((10 + b - 97) as u8),
        'A' as u8 <= b <= 'F' as u8 ==> hex_number(b) == Some((10 + b - 65) as u8),
        hex_number(b) is Some ==> ('0' as u8 <= b <= '9' as u8 || 'a' as u8 <= b <= 'f' as u8
            || 'A' as u8 <= b <= 'F' as u8),
{
    assert((2 * i) % 2 == 0 && (2 * i) / 2 == i);
    assert((2 * i + 1) % 2 == 1 && (2 * i + 1) / 2 == i);
    assert(hex_text(bytes)[2 * i] == hex_digit(bytes[i] as int / 16));
    assert(hex_text(bytes)[2 * i + 1] == hex_digit(bytes[i] as int % 16));
}

} // verus!
