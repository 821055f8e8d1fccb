//! Postgres bytea text, `\xdeadbeef`.

use crate::text::chars_of;
use vstd::prelude::*;

verus! {

/// What is wrong with a bytea text.
#[derive(Debug, Clone, Copy, PartialEq, Eq, Structural)]
pub enum ByteaError {
    /// A pair is not a number in base sixteen.
    InvalidDigit,
    /// The text cannot be cut into pairs of bytes: it ends within a pair, or a cut falls into a
    /// character.
    Misaligned,
}

impl ByteaError {
    /// The wording of the error.
    pub open spec fn wording(self) -> Seq<char> {
        match self {
            ByteaError::InvalidDigit => "invalid digit found in string"@,
            ByteaError::Misaligned => "byte string cannot be cut into pairs"@,
        }
    }

    /// The wording of the error.
    pub fn message(self) -> (m: &'static str)
        ensures
            m@ == self.wording(),
    {
        match self {
            ByteaError::InvalidDigit => "invalid digit found in string",
            ByteaError::Misaligned => "byte string cannot be cut into pairs",
        }
    }
}

/// The value of a digit in base sixteen.
pub open spec fn hex_value(c: char) -> Option<u8> {
    if '0' <= c <= '9' {
        Some((c as u32 - '0' as u32) as u8)
    } else if 'a' <= c <= 'f' {
        Some((c as u32 - 'a' as u32 + 10) as u8)
    } else if 'A' <= c <= 'F' {
        Some((c as u32 - 'A' as u32 + 10) as u8)
    } else {
        None
    }
}

/// The digit in base sixteen with the value `d`, in lower case.
pub open spec fn hex_digit(d: u8) -> char {
    if d < 10 {
        ('0' as u32 + d) as char
    } else {
        ('a' as u32 + d - 10) as char
    }
}

/// The byte that a pair of characters writes: two digits, or a `+` and a digit.
pub open spec fn hex_pair(a: char, b: char) -> Option<u8> {
    match (hex_value(a), hex_value(b)) {
        (Some(x), Some(y)) => Some((x * 16 + y) as u8),
        (None, Some(y)) => if a == '+' {
            Some(y)
        } else {
            None
        },
        _ => None,
    }
}

/// How many bytes a character takes in UTF-8.
pub open spec fn utf8_width(c: char) -> int {
    let u = c as u32;
    if u < 0x80 {
        1
    } else if u < 0x800 {
        2
    } else if u < 0x10000 {
        3
    } else {
        4
    }
}

/// The bytes that pairs of digits write. The text is cut into pieces of two bytes each, and the
/// first piece that is no pair of digits decides how it fails.
pub open spec fn hex_bytes(s: Seq<char>) -> Result<Seq<u8>, ByteaError>
    decreases s.len(),
{
    if s.len() == 0 {
        Ok(Seq::empty())
    } else if utf8_width(s[0]) == 2 {
        Err(ByteaError::InvalidDigit)
    } else if utf8_width(s[0]) > 2 || s.len() == 1 || utf8_width(s[1]) > 1 {
        Err(ByteaError::Misaligned)
    } else {
        match hex_pair(s[0], s[1]) {
            None => Err(ByteaError::InvalidDigit),
            Some(b) => match hex_bytes(s.skip(2)) {
                Ok(tail) => Ok(seq![b] + tail),
                Err(e) => Err(e),
            },
        }
    }
}

/// The digits of a bytea text: what stands behind the prefix `\x`, where it has one.
pub open spec fn bytea_digits(s: Seq<char>) -> Seq<char> {
    if s.len() >= 2 && s[0] == '\\' && s[1] == 'x' {
        s.skip(2)
    } else {
        s
    }
}

/// The bytes that a bytea text writes.
pub open spec fn bytea_bytes(s: Seq<char>) -> Result<Seq<u8>, ByteaError> {
    hex_bytes(bytea_digits(s))
}

fn hex_of(c: char) -> (r: Option<u8>)
    ensures
        r == hex_value(c),
{
    if '0' <= c && c <= '9' {
        Some((c as u32 - '0' as u32) as u8)
    } else if 'a' <= c && c <= 'f' {
        Some((c as u32 - 'a' as u32 + 10) as u8)
    } else if 'A' <= c && c <= 'F' {
        Some((c as u32 - 'A' as u32 + 10) as u8)
    } else {
        None
    }
}

fn pair_of(a: char, b: char) -> (r: Option<u8>)
    ensures
        r == hex_pair(a, b),
{
    match (hex_of(a), hex_of(b)) {
        (Some(x), Some(y)) => Some(x * 16 + y),
        (None, Some(y)) => if a == '+' {
            Some(y)
        } else {
            None
        },
        _ => None,
    }
}

/// Reads a bytea text, and tells a text that cannot be cut into pairs from one with a wrong digit.
pub fn read_bytea_hex(s: &str) -> (r: Result<Vec<u8>, ByteaError>)
    ensures
        match (r, bytea_bytes(s@)) {
            (Ok(v), Ok(bytes)) => v@ == bytes,
            (Err(e), Err(f)) => e == f,
            _ => false,
        },
{
    let v = chars_of(s);
    let mut i: usize = if v.len() >= 2 && v[0] == '\\' && v[1] == 'x' {
        2
    } else {
        0
    };
    assert(v@.skip(0) =~= v@);
    let ghost whole = bytea_bytes(s@);
    let mut bytes: Vec<u8> = Vec::new();
    proof {
        if let Ok(all) = whole {
            assert(bytes@ + all =~= all);
        }
    }
    while i < v.len()
        invariant
            i <= v.len(),
            whole == bytea_bytes(s@),
            match (whole, hex_bytes(v@.skip(i as int))) {
                (Ok(all), Ok(tail)) => all == bytes@ + tail,
                (Err(e), Err(f)) => e == f,
                _ => false,
            },
        decreases v.len() - i,
    {
        let ghost rest = v@.skip(i as int);
        let first: u32 = v[i] as u32;
        if 0x80 <= first && first < 0x800 {
            return Err(ByteaError::InvalidDigit);
        }
        if first >= 0x800 || i + 1 == v.len() || v[i + 1] as u32 >= 0x80 {
            return Err(ByteaError::Misaligned);
        }
        match pair_of(v[i], v[i + 1]) {
            None => {
                return Err(ByteaError::InvalidDigit);
            },
            Some(b) => {
                assert(rest.skip(2) =~= v@.skip(i + 2));
                proof {
                    if let Ok(tail) = hex_bytes(rest.skip(2)) {
                        assert(bytes@ + (seq![b] + tail) =~= bytes@.push(b) + tail);
                    }
                }
                bytes.push(b);
                i = i + 2;
            },
        }
    }
    assert(bytes@ + Seq::<u8>::empty() =~= bytes@);
    Ok(bytes)
}

/// Reads the Postgres hex form of bytes, `\xdeadbeef`. The prefix may be missing.
pub fn parse_bytea_hex(s: &str) -> (r: Result<Vec<u8>, ByteaError>)
    requires
        bytea_bytes(s@) != Err::<Seq<u8>, ByteaError>(ByteaError::Misaligned),
    ensures
        match (r, bytea_bytes(s@)) {
            (Ok(v), Ok(bytes)) => v@ == bytes,
            (Err(e), Err(f)) => e == f && e == ByteaError::InvalidDigit,
            _ => false,
        },
{
    read_bytea_hex(s)
}

/// Bytes in the Postgres hex form.
pub open spec fn bytea_literal(bytes: Seq<u8>) -> Seq<char> {
    seq!['\\', 'x'] + hex_digits(bytes)
}

/// Two digits in base sixteen for each byte.
pub open spec fn hex_digits(bytes: Seq<u8>) -> Seq<char>
    decreases bytes.len(),
{
    if bytes.len() == 0 {
        Seq::empty()
    } else {
        hex_digits(bytes.drop_last()) + seq![
            hex_digit(bytes.last() / 16),
            hex_digit(bytes.last() % 16),
        ]
    }
}

fn digit_of(d: u8) -> (c: char)
    requires
        d < 16,
    ensures
        c == hex_digit(d),
{
    if d < 10 {
        (48u8 + d) as char
    } else {
        (87u8 + d) as char
    }
}

/// Writes bytes in the Postgres hex form.
pub fn bytea_text(bytes: &Vec<u8>) -> (s: String)
    ensures
        s@ == bytea_literal(bytes@),
{
    let mut s = String::new();
    s.push('\\');
    s.push('x');
    assert(s@ =~= seq!['\\', 'x'] + hex_digits(bytes@.take(0)));
    for i in 0..bytes.len()
        invariant
            s@ == seq!['\\', 'x'] + hex_digits(bytes@.take(i as int)),
    {
        assert(bytes@.take(i + 1).drop_last() =~= bytes@.take(i as int));
        let b: u8 = bytes[i];
        s.push(digit_of(b / 16));
        s.push(digit_of(b % 16));
        assert(s@ =~= seq!['\\', 'x'] + hex_digits(bytes@.take(i + 1)));
    }
    assert(bytes@.take(bytes@.len() as int) =~= bytes@);
    s
}

proof fn lemma_digits_of_first(bytes: Seq<u8>)
    requires
        bytes.len() > 0,
    ensures
        hex_digits(bytes) == seq![hex_digit(bytes[0] / 16), hex_digit(bytes[0] % 16)] + hex_digits(
            bytes.drop_first(),
        ),
    decreases bytes.len(),
{
    let first = seq![hex_digit(bytes[0] / 16), hex_digit(bytes[0] % 16)];
    if bytes.len() == 1 {
        assert(bytes.drop_last() =~= Seq::<u8>::empty());
        assert(bytes.drop_first() =~= Seq::<u8>::empty());
        assert(hex_digits(bytes) =~= first + hex_digits(bytes.drop_first()));
    } else {
        lemma_digits_of_first(bytes.drop_last());
        assert(bytes.drop_last().drop_first() =~= bytes.drop_first().drop_last());
        assert(hex_digits(bytes) =~= first + hex_digits(bytes.drop_first()));
    }
}

proof fn lemma_hex_round_trip(bytes: Seq<u8>)
    ensures
        hex_bytes(hex_digits(bytes)) == Ok::<Seq<u8>, ByteaError>(bytes),
    decreases bytes.len(),
{
    if bytes.len() == 0 {
        assert(bytes =~= Seq::<u8>::empty());
    } else {
        lemma_digits_of_first(bytes);
        lemma_hex_round_trip(bytes.drop_first());
        assert(hex_digits(bytes).skip(2) =~= hex_digits(bytes.drop_first()));
        assert(bytes =~= seq![bytes[0]] + bytes.drop_first());
    }
}

/// Reading bytes that were written in the hex form gives the bytes back.
pub proof fn bytea_round_trip(bytes: Seq<u8>)
    ensures
        bytea_bytes(bytea_literal(bytes)) == Ok::<Seq<u8>, ByteaError>(bytes),
{
    lemma_hex_round_trip(bytes);
    assert(bytea_literal(bytes).skip(2) =~= hex_digits(bytes));
}

} // verus!
