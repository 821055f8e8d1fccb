//! The texts that stand for floating-point numbers. Whether a text is one is decided here; the
//! number itself is left to the reader of the text.

use crate::text::chars_of;
use vstd::prelude::*;

verus! {

/// Why a text is no floating-point number.
#[derive(Debug, Clone, Copy, PartialEq, Eq, Structural)]
pub enum FloatError {
    Empty,
    Invalid,
}

impl FloatError {
    /// The wording of the error.
    pub fn message(self) -> (m: &'static str)
        ensures
            m@ == self.wording(),
    {
        match self {
            FloatError::Empty => "cannot parse float from empty string",
            FloatError::Invalid => "invalid float literal",
        }
    }

    /// The wording of the error, as characters.
    pub open spec fn wording(self) -> Seq<char> {
        match self {
            FloatError::Empty => "cannot parse float from empty string"@,
            FloatError::Invalid => "invalid float literal"@,
        }
    }
}

/// `s` without its leading digits.
pub open spec fn after_digits(s: Seq<char>) -> Seq<char>
    decreases s.len(),
{
    if s.len() > 0 && '0' <= s[0] <= '9' {
        after_digits(s.drop_first())
    } else {
        s
    }
}

/// `s` without a leading sign.
pub open spec fn after_sign(s: Seq<char>) -> Seq<char> {
    if s.len() > 0 && (s[0] == '+' || s[0] == '-') {
        s.drop_first()
    } else {
        s
    }
}

/// Digits, with an optional sign before them.
pub open spec fn is_exponent(s: Seq<char>) -> bool {
    after_sign(s).len() > 0 && after_digits(after_sign(s)).len() == 0
}

/// What stands behind the fraction: `s` starts behind the whole digits.
pub open spec fn after_fraction(s: Seq<char>) -> Seq<char> {
    if s.len() > 0 && s[0] == '.' {
        after_digits(s.drop_first())
    } else {
        s
    }
}

/// How many digits the fraction has: `s` starts behind the whole digits.
pub open spec fn fraction_digits(s: Seq<char>) -> int {
    if s.len() > 0 && s[0] == '.' {
        s.len() - 1 - after_fraction(s).len()
    } else {
        0
    }
}

/// Digits with an optional fraction, at least one digit in all, and an optional exponent.
pub open spec fn is_decimal_number(s: Seq<char>) -> bool {
    let whole = after_digits(s);
    let rest = after_fraction(whole);
    &&& s.len() - whole.len() + fraction_digits(whole) > 0
    &&& rest.len() == 0 || ((rest[0] == 'e' || rest[0] == 'E') && is_exponent(rest.drop_first()))
}

/// The lower-case form of an ASCII letter; any other character stays as it is.
pub open spec fn ascii_lower(c: char) -> char {
    if 'A' <= c <= 'Z' {
        (c as u32 + 32) as char
    } else {
        c
    }
}

/// Whether `s` is `word`, which is in lower case, in any mix of cases.
pub open spec fn is_word(s: Seq<char>, word: Seq<char>) -> bool {
    s.len() == word.len() && forall|i: int|
        0 <= i < s.len() ==> ascii_lower(#[trigger] s[i]) == word[i]
}

/// Whether `s` writes a floating-point number: an optional sign, and then a decimal number or one
/// of the words `inf`, `infinity` and `nan`.
pub open spec fn is_float(s: Seq<char>) -> bool {
    let t = after_sign(s);
    ||| is_decimal_number(t)
    ||| is_word(t, "nan"@)
    ||| is_word(t, "inf"@)
    ||| is_word(t, "infinity"@)
}

/// Why `s` is no floating-point number, where it is none.
pub open spec fn float_fault(s: Seq<char>) -> Option<FloatError> {
    if s.len() == 0 {
        Some(FloatError::Empty)
    } else if is_float(s) {
        None
    } else {
        Some(FloatError::Invalid)
    }
}

fn skip_digits(v: &Vec<char>, from: usize) -> (to: usize)
    requires
        from <= v.len(),
    ensures
        from <= to <= v.len(),
        v@.skip(to as int) == after_digits(v@.skip(from as int)),
{
    let mut i: usize = from;
    while i < v.len() && '0' <= v[i] && v[i] <= '9'
        invariant
            from <= i <= v.len(),
            after_digits(v@.skip(from as int)) == after_digits(v@.skip(i as int)),
        decreases v.len() - i,
    {
        assert(v@.skip(i as int).drop_first() =~= v@.skip(i + 1));
        i = i + 1;
    }
    i
}

fn skip_sign(v: &Vec<char>, from: usize) -> (to: usize)
    requires
        from <= v.len(),
    ensures
        from <= to <= v.len(),
        v@.skip(to as int) == after_sign(v@.skip(from as int)),
{
    if from < v.len() && (v[from] == '+' || v[from] == '-') {
        assert(v@.skip(from as int).drop_first() =~= v@.skip(from + 1));
        from + 1
    } else {
        from
    }
}

fn decimal_number(v: &Vec<char>, from: usize) -> (b: bool)
    requires
        from <= v.len(),
    ensures
        b == is_decimal_number(v@.skip(from as int)),
{
    let whole = skip_digits(v, from);
    let mut digits: usize = whole - from;
    let mut rest: usize = whole;
    let ghost behind = v@.skip(whole as int);
    if whole < v.len() && v[whole] == '.' {
        assert(behind.drop_first() =~= v@.skip(whole + 1));
        rest = skip_digits(v, whole + 1);
        digits = digits + (rest - whole - 1);
    }
    if digits == 0 {
        return false;
    }
    if rest == v.len() {
        return true;
    }
    if v[rest] == 'e' || v[rest] == 'E' {
        assert(v@.skip(rest as int).drop_first() =~= v@.skip(rest + 1));
        let start = skip_sign(v, rest + 1);
        start < v.len() && skip_digits(v, start) == v.len()
    } else {
        false
    }
}

fn word_from(v: &Vec<char>, from: usize, word: &str) -> (b: bool)
    requires
        from <= v.len(),
    ensures
        b == is_word(v@.skip(from as int), word@),
{
    let w = chars_of(word);
    let ghost s = v@.skip(from as int);
    if v.len() - from != w.len() {
        return false;
    }
    for i in 0..w.len()
        invariant
            s == v@.skip(from as int),
            w@ == word@,
            s.len() == w@.len() == v.len() - from,
            forall|k: int| 0 <= k < i ==> ascii_lower(#[trigger] s[k]) == w@[k],
    {
        let c: char = v[from + i];
        assert(s[i as int] == c);
        let lower: char = if 'A' <= c && c <= 'Z' {
            (c as u8 + 32) as char
        } else {
            c
        };
        if lower != w[i] {
            return false;
        }
    }
    true
}

/// Whether a text is a floating-point number, and if not, why.
pub fn check_float(s: &str) -> (r: Result<(), FloatError>)
    ensures
        match float_fault(s@) {
            None => r is Ok,
            Some(e) => r == Err::<(), FloatError>(e),
        },
{
    let v = chars_of(s);
    if v.len() == 0 {
        return Err(FloatError::Empty);
    }
    assert(v@.skip(0) =~= v@);
    let start = skip_sign(&v, 0);
    if decimal_number(&v, start) || word_from(&v, start, "nan") || word_from(&v, start, "inf")
        || word_from(&v, start, "infinity") {
        Ok(())
    } else {
        Err(FloatError::Invalid)
    }
}

} // verus!
