//! Decimal integers as text: reading them and writing them.

use crate::text::text_of;
use vstd::prelude::*;

verus! {

/// Why a text is not an integer of the wanted type.
#[derive(Debug, Clone, Copy, PartialEq, Eq, Structural)]
pub enum IntError {
    /// There is no text.
    Empty,
    /// A character is not a decimal digit, or there are no digits after the sign.
    InvalidDigit,
    /// The number is above the largest value of the type.
    PosOverflow,
    /// The number is below the smallest value of the type.
    NegOverflow,
}

/// Why a run of digits has no value within a limit.
#[derive(Debug, Clone, Copy, PartialEq, Eq, Structural)]
pub enum DigitFault {
    Invalid,
    TooLarge,
}

impl IntError {
    /// The wording of the error.
    pub fn message(self) -> (m: &'static str)
        ensures
            m@ == self.wording(),
    {
        match self {
            IntError::Empty => "cannot parse integer from empty string",
            IntError::InvalidDigit => "invalid digit found in string",
            IntError::PosOverflow => "number too large to fit in target type",
            IntError::NegOverflow => "number too small to fit in target type",
        }
    }

    /// The wording of the error, as characters.
    pub open spec fn wording(self) -> Seq<char> {
        match self {
            IntError::Empty => "cannot parse integer from empty string"@,
            IntError::InvalidDigit => "invalid digit found in string"@,
            IntError::PosOverflow => "number too large to fit in target type"@,
            IntError::NegOverflow => "number too small to fit in target type"@,
        }
    }
}

/// The value of a decimal digit.
pub open spec fn digit_value(c: char) -> Option<nat> {
    if '0' <= c <= '9' {
        Some((c as u32 - '0' as u32) as nat)
    } else {
        None
    }
}

/// The decimal digit with the value `d`.
pub open spec fn digit_char(d: nat) -> char {
    ('0' as u32 + d) as char
}

/// One more digit behind a number, unless it is no digit or the result is above `limit`.
pub open spec fn with_digit(acc: nat, c: char, limit: nat) -> Result<nat, DigitFault> {
    match digit_value(c) {
        None => Err(DigitFault::Invalid),
        Some(d) => if acc * 10 + d > limit {
            Err(DigitFault::TooLarge)
        } else {
            Ok(acc * 10 + d)
        },
    }
}

/// The value of the digits of `s` behind the number `acc`. The first character that is no digit,
/// or that takes the value above `limit`, decides how it fails.
pub open spec fn magnitude(s: Seq<char>, acc: nat, limit: nat) -> Result<nat, DigitFault>
    decreases s.len(),
{
    if s.len() == 0 {
        Ok(acc)
    } else {
        match with_digit(acc, s[0], limit) {
            Err(f) => Err(f),
            Ok(a) => magnitude(s.drop_first(), a, limit),
        }
    }
}

/// The unsigned integer that `s` writes, at most `max`: digits, with an optional `+` before them.
pub open spec fn parsed_unsigned(s: Seq<char>, max: nat) -> Result<nat, IntError> {
    if s.len() == 0 {
        Err(IntError::Empty)
    } else if s.len() == 1 && s[0] == '+' {
        Err(IntError::InvalidDigit)
    } else {
        match magnitude(if s[0] == '+' { s.drop_first() } else { s }, 0, max) {
            Ok(m) => Ok(m),
            Err(DigitFault::Invalid) => Err(IntError::InvalidDigit),
            Err(DigitFault::TooLarge) => Err(IntError::PosOverflow),
        }
    }
}

/// The signed integer that `s` writes, from `-max - 1` to `max`: digits, with an optional `+` or
/// `-` before them.
pub open spec fn parsed_signed(s: Seq<char>, max: nat) -> Result<int, IntError> {
    if s.len() == 1 && s[0] == '-' {
        Err(IntError::InvalidDigit)
    } else if s.len() > 0 && s[0] == '-' {
        match magnitude(s.drop_first(), 0, max + 1) {
            Ok(m) => Ok(-m),
            Err(DigitFault::Invalid) => Err(IntError::InvalidDigit),
            Err(DigitFault::TooLarge) => Err(IntError::NegOverflow),
        }
    } else {
        match parsed_unsigned(s, max) {
            Ok(m) => Ok(m as int),
            Err(e) => Err(e),
        }
    }
}

fn magnitude_from(v: &Vec<char>, from: usize, limit: u64) -> (r: Result<u64, DigitFault>)
    requires
        from <= v@.len(),
    ensures
        match (r, magnitude(v@.skip(from as int), 0, limit as nat)) {
            (Ok(n), Ok(m)) => n == m,
            (Err(e), Err(f)) => e == f,
            _ => false,
        },
{
    let mut acc: u64 = 0;
    let mut i: usize = from;
    while i < v.len()
        invariant
            from <= i <= v@.len(),
            acc <= limit,
            magnitude(v@.skip(from as int), 0, limit as nat) == magnitude(
                v@.skip(i as int),
                acc as nat,
                limit as nat,
            ),
        decreases v@.len() - i,
    {
        assert(v@.skip(i as int).drop_first() =~= v@.skip(i + 1));
        let c: char = v[i];
        if !('0' <= c && c <= '9') {
            return Err(DigitFault::Invalid);
        }
        let d: u32 = c as u32 - '0' as u32;
        let a: u128 = acc as u128 * 10 + d as u128;
        if a > limit as u128 {
            return Err(DigitFault::TooLarge);
        }
        acc = a as u64;
        i = i + 1;
    }
    Ok(acc)
}

fn parse_unsigned(v: &Vec<char>, max: u64) -> (r: Result<u64, IntError>)
    ensures
        match (r, parsed_unsigned(v@, max as nat)) {
            (Ok(n), Ok(m)) => n == m && n <= max,
            (Err(e), Err(f)) => e == f,
            _ => false,
        },
{
    if v.len() == 0 {
        return Err(IntError::Empty);
    }
    if v.len() == 1 && v[0] == '+' {
        return Err(IntError::InvalidDigit);
    }
    let from: usize = if v[0] == '+' { 1 } else { 0 };
    assert(v@.skip(0) =~= v@);
    assert(v@.skip(1) =~= v@.drop_first());
    proof {
        lemma_magnitude_bounded(v@.skip(from as int), 0, max as nat);
    }
    match magnitude_from(v, from, max) {
        Ok(n) => Ok(n),
        Err(DigitFault::Invalid) => Err(IntError::InvalidDigit),
        Err(DigitFault::TooLarge) => Err(IntError::PosOverflow),
    }
}

fn parse_signed(v: &Vec<char>, max: u64) -> (r: Result<i128, IntError>)
    requires
        max < u64::MAX,
    ensures
        match (r, parsed_signed(v@, max as nat)) {
            (Ok(n), Ok(m)) => n == m && -max - 1 <= n <= max,
            (Err(e), Err(f)) => e == f,
            _ => false,
        },
{
    if v.len() == 1 && v[0] == '-' {
        return Err(IntError::InvalidDigit);
    }
    if v.len() > 0 && v[0] == '-' {
        assert(v@.skip(1) =~= v@.drop_first());
        proof {
            lemma_magnitude_bounded(v@.skip(1), 0, (max + 1) as nat);
        }
        match magnitude_from(v, 1, max + 1) {
            Ok(n) => Ok(-(n as i128)),
            Err(DigitFault::Invalid) => Err(IntError::InvalidDigit),
            Err(DigitFault::TooLarge) => Err(IntError::NegOverflow),
        }
    } else {
        match parse_unsigned(v, max) {
            Ok(n) => Ok(n as i128),
            Err(e) => Err(e),
        }
    }
}

/// The `u64` that the characters write.
pub fn parse_u64(v: &Vec<char>) -> (r: Result<u64, IntError>)
    ensures
        match (r, parsed_unsigned(v@, u64::MAX as nat)) {
            (Ok(n), Ok(m)) => n == m,
            (Err(e), Err(f)) => e == f,
            _ => false,
        },
{
    parse_unsigned(v, u64::MAX)
}

/// The `i64` that the characters write.
pub fn parse_i64(v: &Vec<char>) -> (r: Result<i64, IntError>)
    ensures
        match (r, parsed_signed(v@, i64::MAX as nat)) {
            (Ok(n), Ok(m)) => n == m,
            (Err(e), Err(f)) => e == f,
            _ => false,
        },
{
    match parse_signed(v, i64::MAX as u64) {
        Ok(n) => Ok(n as i64),
        Err(e) => Err(e),
    }
}

/// The `i32` that the characters write.
pub fn parse_i32(v: &Vec<char>) -> (r: Result<i32, IntError>)
    ensures
        match (r, parsed_signed(v@, i32::MAX as nat)) {
            (Ok(n), Ok(m)) => n == m,
            (Err(e), Err(f)) => e == f,
            _ => false,
        },
{
    match parse_signed(v, i32::MAX as u64) {
        Ok(n) => Ok(n as i32),
        Err(e) => Err(e),
    }
}

proof fn lemma_magnitude_bounded(s: Seq<char>, acc: nat, limit: nat)
    requires
        acc <= limit,
    ensures
        magnitude(s, acc, limit) matches Ok(m) ==> m <= limit,
    decreases s.len(),
{
    if s.len() > 0 {
        if let Ok(a) = with_digit(acc, s[0], limit) {
            lemma_magnitude_bounded(s.drop_first(), a, limit);
        }
    }
}

/// The decimal digits of `n`.
pub open spec fn decimal(n: nat) -> Seq<char>
    decreases n,
{
    if n < 10 {
        seq![digit_char(n)]
    } else {
        decimal(n / 10).push(digit_char(n % 10))
    }
}

/// The decimal digits of `n`, with a `-` before them where `n` is negative.
pub open spec fn signed_decimal(n: int) -> Seq<char> {
    if n < 0 {
        seq!['-'] + decimal((-n) as nat)
    } else {
        decimal(n as nat)
    }
}

/// The decimal digits of `n`, with zeros before them up to `width` characters.
pub open spec fn zero_padded(n: nat, width: nat) -> Seq<char> {
    Seq::new(
        if decimal(n).len() < width {
            (width - decimal(n).len()) as nat
        } else {
            0
        },
        |i: int| '0',
    ) + decimal(n)
}

fn digit(d: u8) -> (c: char)
    requires
        d < 10,
    ensures
        c == digit_char(d as nat),
{
    (48u8 + d) as char
}

/// The decimal digits of `n`.
pub fn decimal_chars(n: u128) -> (v: Vec<char>)
    ensures
        v@ == decimal(n as nat),
    decreases n,
{
    if n < 10 {
        let mut v: Vec<char> = Vec::new();
        v.push(digit(n as u8));
        assert(v@ =~= seq![digit_char(n as nat)]);
        v
    } else {
        let mut v: Vec<char> = decimal_chars(n / 10);
        v.push(digit((n % 10) as u8));
        v
    }
}

/// The decimal text of `n`.
pub fn decimal_text(n: u128) -> (s: String)
    ensures
        s@ == decimal(n as nat),
{
    text_of(&decimal_chars(n))
}

/// The decimal text of `n`, signed where it is negative.
pub fn signed_decimal_text(n: i64) -> (s: String)
    ensures
        s@ == signed_decimal(n as int),
{
    if n < 0 {
        let mut s = String::new();
        s.push('-');
        let digits = decimal_text((-(n as i128)) as u128);
        s.append(digits.as_str());
        assert(s@ =~= signed_decimal(n as int));
        s
    } else {
        decimal_text(n as u128)
    }
}

/// The decimal text of `n`, filled with zeros up to `width` characters.
pub fn zero_padded_text(n: u64, width: usize) -> (s: String)
    ensures
        s@ == zero_padded(n as nat, width as nat),
{
    let digits = decimal_chars(n as u128);
    let mut s = String::new();
    let fill: usize = if digits.len() < width { width - digits.len() } else { 0 };
    for i in 0..fill
        invariant
            s@ == Seq::new(i as nat, |k: int| '0'),
    {
        s.push('0');
        assert(s@ =~= Seq::new((i + 1) as nat, |k: int| '0'));
    }
    let digits = text_of(&digits);
    s.append(digits.as_str());
    assert(s@ =~= zero_padded(n as nat, width as nat));
    s
}

pub proof fn lemma_magnitude_push(s: Seq<char>, c: char, acc: nat, limit: nat)
    ensures
        magnitude(s.push(c), acc, limit) == match magnitude(s, acc, limit) {
            Ok(a) => with_digit(a, c, limit),
            Err(f) => Err(f),
        },
    decreases s.len(),
{
    if s.len() == 0 {
        assert(s.push(c).drop_first() =~= Seq::<char>::empty());
        reveal_with_fuel(magnitude, 2);
    } else {
        assert(s.push(c).drop_first() =~= s.drop_first().push(c));
        if let Ok(a) = with_digit(acc, s[0], limit) {
            lemma_magnitude_push(s.drop_first(), c, a, limit);
        }
    }
}

proof fn lemma_decimal_magnitude(n: nat, limit: nat)
    requires
        n <= limit,
    ensures
        magnitude(decimal(n), 0, limit) == Ok::<nat, DigitFault>(n),
    decreases n,
{
    if n < 10 {
        assert(seq![digit_char(n)] =~= Seq::<char>::empty().push(digit_char(n)));
        lemma_magnitude_push(Seq::empty(), digit_char(n), 0, limit);
    } else {
        lemma_decimal_magnitude(n / 10, limit);
        lemma_magnitude_push(decimal(n / 10), digit_char(n % 10), 0, limit);
    }
}

/// Every character of a decimal text is a digit, and there is at least one.
pub proof fn decimal_is_digits(n: nat)
    ensures
        decimal(n).len() > 0,
        forall|i: int| 0 <= i < decimal(n).len() ==> '0' <= #[trigger] decimal(n)[i] <= '9',
    decreases n,
{
    if n >= 10 {
        decimal_is_digits(n / 10);
    }
}

/// Reading the decimal text of an unsigned number gives the number back.
pub proof fn unsigned_round_trip(n: nat, max: nat)
    requires
        n <= max,
    ensures
        parsed_unsigned(decimal(n), max) == Ok::<nat, IntError>(n),
{
    decimal_is_digits(n);
    assert('0' <= decimal(n)[0] <= '9');
    lemma_decimal_magnitude(n, max);
}

/// Reading the decimal text of a signed number gives the number back.
pub proof fn signed_round_trip(n: int, max: nat)
    requires
        -max - 1 <= n <= max,
    ensures
        parsed_signed(signed_decimal(n), max) == Ok::<int, IntError>(n),
{
    if n < 0 {
        decimal_is_digits((-n) as nat);
        lemma_decimal_magnitude((-n) as nat, max + 1);
        assert(signed_decimal(n).drop_first() =~= decimal((-n) as nat));
    } else {
        decimal_is_digits(n as nat);
        assert('0' <= decimal(n as nat)[0] <= '9');
        unsigned_round_trip(n as nat, max);
    }
}

/// Different numbers have different zero-padded texts.
pub proof fn zero_padded_injective(a: nat, b: nat, width: nat)
    requires
        zero_padded(a, width) == zero_padded(b, width),
    ensures
        a == b,
{
    lemma_padded_magnitude(a, width, a + b);
    lemma_padded_magnitude(b, width, a + b);
}

proof fn lemma_padded_magnitude(n: nat, width: nat, limit: nat)
    requires
        n <= limit,
    ensures
        magnitude(zero_padded(n, width), 0, limit) == Ok::<nat, DigitFault>(n),
{
    let fill: nat = if decimal(n).len() < width {
        (width - decimal(n).len()) as nat
    } else {
        0
    };
    lemma_zeros_before(fill, decimal(n), limit);
    lemma_decimal_magnitude(n, limit);
}

proof fn lemma_zeros_before(k: nat, s: Seq<char>, limit: nat)
    ensures
        magnitude(Seq::new(k, |i: int| '0') + s, 0, limit) == magnitude(s, 0, limit),
    decreases k,
{
    let zeros = Seq::new(k, |i: int| '0');
    if k == 0 {
        assert(zeros + s =~= s);
    } else {
        assert((zeros + s).drop_first() =~= Seq::new((k - 1) as nat, |i: int| '0') + s);
        lemma_zeros_before((k - 1) as nat, s, limit);
    }
}

} // verus!
