//! What a text of digits is worth, and which texts are numbers at all.

use crate::float_text;
use crate::number;
use crate::number::{DigitFault, IntError};
use crate::postgres::bytea;
use crate::postgres::bytea::ByteaError;
use crate::postgres::cells::{BoolCell, CellFault, CellReader, FloatCell, Int32Cell, Int64Cell};
use vstd::prelude::*;

verus! {

/// Whether every character is a decimal digit.
pub open spec fn is_digits(s: Seq<char>) -> bool {
    forall|i: int| 0 <= i < s.len() ==> '0' <= #[trigger] s[i] <= '9'
}

/// What a run of decimal digits is worth: each digit counts ten times as much as the one behind
/// it, and the last counts once.
pub open spec fn place_value(s: Seq<char>) -> nat
    decreases s.len(),
{
    if s.len() == 0 {
        0
    } else {
        (place_value(s.drop_last()) * 10 + (s.last() as u32 - 48)) as nat
    }
}

proof fn lemma_magnitude_is_place_value(s: Seq<char>, limit: nat)
    requires
        is_digits(s),
    ensures
        number::magnitude(s, 0, limit) == if place_value(s) <= limit {
            Ok::<nat, DigitFault>(place_value(s))
        } else {
            Err(DigitFault::TooLarge)
        },
    decreases s.len(),
{
    if s.len() > 0 {
        let front = s.drop_last();
        assert forall|i: int| 0 <= i < front.len() implies '0' <= #[trigger] front[i] <= '9' by {
            assert(front[i] == s[i]);
        }
        assert('0' <= s[s.len() - 1] <= '9');
        assert(s =~= front.push(s.last()));
        lemma_magnitude_is_place_value(front, limit);
        number::lemma_magnitude_push(front, s.last(), 0, limit);
    }
}

proof fn lemma_magnitude_is_of_digits(s: Seq<char>, limit: nat)
    requires
        number::magnitude(s, 0, limit) is Ok,
    ensures
        is_digits(s),
    decreases s.len(),
{
    if s.len() > 0 {
        let front = s.drop_last();
        assert(s =~= front.push(s.last()));
        number::lemma_magnitude_push(front, s.last(), 0, limit);
        lemma_magnitude_is_of_digits(front, limit);
        assert forall|i: int| 0 <= i < s.len() implies '0' <= #[trigger] s[i] <= '9' by {
            if i < front.len() {
                assert(front[i] == s[i]);
            }
        }
    }
}

/// Digits are read as what they are worth, with a sign before them or without, and refused where
/// that is out of the range of the type.
pub proof fn digits_are_read_by_place(s: Seq<char>, max: nat)
    requires
        s.len() > 0,
        is_digits(s),
    ensures
        number::parsed_unsigned(s, max) == if place_value(s) <= max {
            Ok::<nat, IntError>(place_value(s))
        } else {
            Err(IntError::PosOverflow)
        },
        number::parsed_unsigned(seq!['+'] + s, max) == number::parsed_unsigned(s, max),
        number::parsed_signed(s, max) == if place_value(s) <= max {
            Ok::<int, IntError>(place_value(s) as int)
        } else {
            Err(IntError::PosOverflow)
        },
        number::parsed_signed(seq!['+'] + s, max) == number::parsed_signed(s, max),
        number::parsed_signed(seq!['-'] + s, max) == if place_value(s) <= max + 1 {
            Ok::<int, IntError>(-place_value(s))
        } else {
            Err(IntError::NegOverflow)
        },
{
    assert('0' <= s[0] <= '9');
    lemma_magnitude_is_place_value(s, max);
    lemma_magnitude_is_place_value(s, max + 1);
    assert((seq!['+'] + s).drop_first() =~= s);
    assert((seq!['-'] + s).drop_first() =~= s);
}

/// Only digits are read, with at most one sign before them: a number without a sign is never
/// negative, and an unsigned number has no `-`.
pub proof fn only_digits_are_read(s: Seq<char>, max: nat)
    ensures
        number::parsed_unsigned(s, max) is Ok ==> exists|d: Seq<char>|
            d.len() > 0 && #[trigger] is_digits(d) && (s == d || s == seq!['+'] + d),
        number::parsed_signed(s, max) is Ok ==> exists|d: Seq<char>|
            d.len() > 0 && #[trigger] is_digits(d) && (s == d || s == seq!['+'] + d || s == seq!['-']
                + d),
        s.len() == 0 <==> number::parsed_unsigned(s, max) == Err::<nat, IntError>(IntError::Empty),
        s.len() == 0 <==> number::parsed_signed(s, max) == Err::<int, IntError>(IntError::Empty),
{
    if s.len() > 0 {
        let d = if s[0] == '+' || s[0] == '-' {
            s.drop_first()
        } else {
            s
        };
        assert(s[0] == '+' ==> s =~= seq!['+'] + d);
        assert(s[0] == '-' ==> s =~= seq!['-'] + d);
        if number::parsed_unsigned(s, max) is Ok {
            if s[0] == '-' {
                lemma_magnitude_is_of_digits(s, max);
                assert('0' <= s[0]);
            }
            lemma_magnitude_is_of_digits(d, max);
        }
        if number::parsed_signed(s, max) is Ok {
            if s[0] == '-' {
                lemma_magnitude_is_of_digits(d, max + 1);
            } else {
                lemma_magnitude_is_of_digits(d, max);
            }
        }
    }
}

/// A character that is no digit is an invalid digit, wherever it stands behind digits that fit.
pub proof fn stray_character_is_invalid(d: Seq<char>, c: char, rest: Seq<char>, max: nat)
    requires
        is_digits(d),
        place_value(d) <= max,
        !('0' <= c <= '9'),
        d.len() == 0 ==> c != '+' && c != '-',
    ensures
        number::parsed_unsigned(d + seq![c] + rest, max) == Err::<nat, IntError>(
            IntError::InvalidDigit,
        ),
        number::parsed_signed(d + seq![c] + rest, max) == Err::<int, IntError>(
            IntError::InvalidDigit,
        ),
{
    let s = d + seq![c] + rest;
    lemma_magnitude_is_place_value(d, max);
    number::lemma_magnitude_push(d, c, 0, max);
    assert(s =~= d.push(c) + rest);
    lemma_fault_stays(d.push(c), rest, 0, max);
    if d.len() > 0 {
        assert('0' <= d[0] <= '9');
        assert(s[0] == d[0]);
    } else {
        assert(s[0] == c);
    }
}

proof fn lemma_fault_stays(s: Seq<char>, rest: Seq<char>, acc: nat, limit: nat)
    requires
        number::magnitude(s, acc, limit) is Err,
    ensures
        number::magnitude(s + rest, acc, limit) == number::magnitude(s, acc, limit),
    decreases s.len(),
{
    assert((s + rest)[0] == s[0]);
    assert((s + rest).drop_first() =~= s.drop_first() + rest);
    if let Ok(a) = number::with_digit(acc, s[0], limit) {
        lemma_fault_stays(s.drop_first(), rest, a, limit);
    }
}

/// A number is written with digits that are worth it, without a needless zero before them, and
/// with a `-` exactly where it is negative.
pub proof fn decimal_is_worth_number(n: nat)
    ensures
        is_digits(number::decimal(n)),
        number::decimal(n).len() > 0,
        place_value(number::decimal(n)) == n,
        number::decimal(n).len() > 1 ==> number::decimal(n)[0] != '0',
        number::signed_decimal(n as int) == number::decimal(n),
        n > 0 ==> number::signed_decimal(-n) == seq!['-'] + number::decimal(n),
    decreases n,
{
    number::decimal_is_digits(n);
    if n >= 10 {
        decimal_is_worth_number(n / 10);
        let front = number::decimal(n / 10);
        assert(number::decimal(n).drop_last() =~= front);
        if n / 10 < 10 {
            assert(front == seq![number::digit_char(n / 10)]);
        } else {
            reveal_with_fuel(number::decimal, 2);
            number::decimal_is_digits(n / 100);
        }
    } else {
        assert(number::decimal(n).drop_last() =~= Seq::<char>::empty());
        reveal_with_fuel(place_value, 2);
    }
}

/// A number that is filled with zeros is still worth the same, and has at least the width.
pub proof fn padding_keeps_number(n: nat, width: nat)
    ensures
        is_digits(number::zero_padded(n, width)),
        place_value(number::zero_padded(n, width)) == n,
        number::zero_padded(n, width).len() >= width,
        number::zero_padded(n, width).len() > width ==> number::zero_padded(n, width)
            == number::decimal(n),
{
    decimal_is_worth_number(n);
    let s = number::zero_padded(n, width);
    let d = number::decimal(n);
    let zeros = s.take(s.len() - d.len());
    assert(s =~= zeros + d);
    lemma_zeros_are_worth_nothing(zeros, d);
    assert forall|i: int| 0 <= i < s.len() implies '0' <= #[trigger] s[i] <= '9' by {
        if i >= zeros.len() {
            assert(s[i] == d[i - zeros.len()]);
        }
    }
    if s.len() > width {
        assert(s =~= d);
    }
}

proof fn lemma_zeros_are_worth_nothing(zeros: Seq<char>, s: Seq<char>)
    requires
        forall|i: int| 0 <= i < zeros.len() ==> #[trigger] zeros[i] == '0',
    ensures
        place_value(zeros + s) == place_value(s),
    decreases zeros.len() + s.len(),
{
    if s.len() > 0 {
        assert((zeros + s).drop_last() =~= zeros + s.drop_last());
        lemma_zeros_are_worth_nothing(zeros, s.drop_last());
    } else if zeros.len() > 0 {
        assert((zeros + s).drop_last() =~= zeros.drop_last() + s);
        assert((zeros + s).last() == zeros[zeros.len() - 1]);
        lemma_zeros_are_worth_nothing(zeros.drop_last(), s);
    }
}

/// An integer cell holds the integer that its digits are worth, in the range of its type.
pub proof fn integer_cells_hold_their_digits(s: Seq<char>)
    requires
        s.len() > 0,
        is_digits(s),
    ensures
        Int32Cell::reading(s) == if place_value(s) <= 2_147_483_647 {
            Ok::<i32, CellFault>(place_value(s) as i32)
        } else {
            Err(CellFault::Int(IntError::PosOverflow))
        },
        Int32Cell::reading(seq!['-'] + s) == if place_value(s) <= 2_147_483_648 {
            Ok::<i32, CellFault>((-place_value(s)) as i32)
        } else {
            Err(CellFault::Int(IntError::NegOverflow))
        },
        Int64Cell::reading(s) == if place_value(s) <= 9_223_372_036_854_775_807 {
            Ok::<i64, CellFault>(place_value(s) as i64)
        } else {
            Err(CellFault::Int(IntError::PosOverflow))
        },
        Int64Cell::reading(seq!['-'] + s) == if place_value(s) <= 9_223_372_036_854_775_808 {
            Ok::<i64, CellFault>((-place_value(s)) as i64)
        } else {
            Err(CellFault::Int(IntError::NegOverflow))
        },
        Int32Cell::reading(seq!['+'] + s) == Int32Cell::reading(s),
        Int64Cell::reading(seq!['+'] + s) == Int64Cell::reading(s),
{
    digits_are_read_by_place(s, 2_147_483_647);
    digits_are_read_by_place(s, 9_223_372_036_854_775_807);
}

/// Nothing but digits, with at most one sign before them, is an integer cell.
pub proof fn integer_cells_are_digits(s: Seq<char>)
    ensures
        (Int32Cell::reading(s) is Ok || Int64Cell::reading(s) is Ok) ==> exists|d: Seq<char>|
            d.len() > 0 && #[trigger] is_digits(d) && (s == d || s == seq!['+'] + d || s == seq!['-']
                + d),
{
    only_digits_are_read(s, 2_147_483_647);
    only_digits_are_read(s, 9_223_372_036_854_775_807);
}

/// A cell of truth values holds one of four words, and two of them mean true.
pub proof fn truth_cells_hold_four_words(s: Seq<char>)
    ensures
        BoolCell::reading(s) == Ok::<bool, CellFault>(true) <==> (s == "t"@ || s == "true"@),
        BoolCell::reading(s) == Ok::<bool, CellFault>(false) <==> (s == "f"@ || s == "false"@),
        BoolCell::reading(s) is Err ==> BoolCell::reading(s) == Err::<bool, CellFault>(
            CellFault::Bool,
        ),
{
    reveal_strlit("t");
    reveal_strlit("true");
    reveal_strlit("f");
    reveal_strlit("false");
    assert(s == "t"@ ==> s[0] == 't');
    assert(s == "true"@ ==> s[0] == 't');
    assert(s == "f"@ ==> s[0] == 'f');
    assert(s == "false"@ ==> s[0] == 'f');
}

/// A floating-point cell holds the very text that the database sent.
pub proof fn float_cells_keep_their_text(s: Seq<char>)
    ensures
        FloatCell::reading(s) is Ok <==> s.len() > 0 && float_text::is_float(s),
        FloatCell::reading(s) matches Ok(t) ==> t == s,
{
}

proof fn lemma_digits_are_skipped(d: Seq<char>, rest: Seq<char>)
    requires
        is_digits(d),
        rest.len() > 0 ==> !('0' <= rest[0] <= '9'),
    ensures
        float_text::after_digits(d + rest) == rest,
    decreases d.len(),
{
    if d.len() == 0 {
        assert(d + rest =~= rest);
    } else {
        assert('0' <= d[0] <= '9');
        assert((d + rest).drop_first() =~= d.drop_first() + rest);
        assert forall|i: int| 0 <= i < d.drop_first().len() implies '0' <= #[trigger] d.drop_first()[i]
            <= '9' by {
            assert(d.drop_first()[i] == d[i + 1]);
        }
        lemma_digits_are_skipped(d.drop_first(), rest);
    }
}

proof fn lemma_skipped_are_digits(s: Seq<char>) -> (d: Seq<char>)
    ensures
        is_digits(d),
        s == d + float_text::after_digits(s),
        float_text::after_digits(s).len() > 0 ==> !('0' <= float_text::after_digits(s)[0] <= '9'),
    decreases s.len(),
{
    if s.len() > 0 && '0' <= s[0] <= '9' {
        let front = lemma_skipped_are_digits(s.drop_first());
        let d = seq![s[0]] + front;
        assert forall|i: int| 0 <= i < d.len() implies '0' <= #[trigger] d[i] <= '9' by {
            if i > 0 {
                assert(d[i] == front[i - 1]);
            }
        }
        let rest = float_text::after_digits(s.drop_first());
        assert(s =~= seq![s[0]] + s.drop_first());
        assert(d + rest =~= seq![s[0]] + (front + rest));
        d
    } else {
        assert(s =~= Seq::<char>::empty() + s);
        Seq::empty()
    }
}

/// An optional sign.
pub open spec fn is_sign(s: Seq<char>) -> bool {
    s.len() == 0 || s == seq!['+'] || s == seq!['-']
}

/// A point with digits behind it, or nothing.
pub open spec fn is_fraction(s: Seq<char>) -> bool {
    s.len() == 0 || (s[0] == '.' && is_digits(s.drop_first()))
}

/// An `e` with a whole number behind it, or nothing.
pub open spec fn is_scale(s: Seq<char>) -> bool {
    s.len() == 0 || ((s[0] == 'e' || s[0] == 'E') && exists|sign: Seq<char>, d: Seq<char>|
        #[trigger] is_sign(sign) && d.len() > 0 && #[trigger] is_digits(d) && s.drop_first() == sign
            + d)
}

/// Whether `s` is a sign, digits, a fraction and a scale, one behind the other and each of them
/// optional, with a digit before the scale.
pub open spec fn is_parts(
    s: Seq<char>,
    sign: Seq<char>,
    whole: Seq<char>,
    fraction: Seq<char>,
    scale: Seq<char>,
) -> bool {
    &&& s == sign + whole + fraction + scale
    &&& is_sign(sign)
    &&& is_digits(whole)
    &&& is_fraction(fraction)
    &&& is_scale(scale)
    &&& whole.len() > 0 || fraction.len() > 1
}

proof fn lemma_sign_is_skipped(sign: Seq<char>, rest: Seq<char>)
    requires
        is_sign(sign),
        rest.len() > 0 ==> rest[0] != '+' && rest[0] != '-',
    ensures
        float_text::after_sign(sign + rest) == rest,
{
    assert(sign.len() == 0 ==> sign + rest =~= rest);
    assert(sign.len() == 1 ==> (sign + rest).drop_first() =~= rest);
}

proof fn lemma_scale_is_exponent(scale: Seq<char>)
    requires
        is_scale(scale),
        scale.len() > 0,
    ensures
        float_text::is_exponent(scale.drop_first()),
{
    let (sign, d) = choose|sign: Seq<char>, d: Seq<char>| #[trigger]
        is_sign(sign) && d.len() > 0 && #[trigger] is_digits(d) && scale.drop_first() == sign + d;
    assert('0' <= d[0] <= '9');
    lemma_sign_is_skipped(sign, d);
    lemma_digits_are_skipped(d, Seq::empty());
    assert(d + Seq::<char>::empty() =~= d);
}

/// A sign, digits, a fraction and a scale make a floating-point number.
pub proof fn parts_make_float(
    s: Seq<char>,
    sign: Seq<char>,
    whole: Seq<char>,
    fraction: Seq<char>,
    scale: Seq<char>,
)
    requires
        is_parts(s, sign, whole, fraction, scale),
    ensures
        FloatCell::reading(s) == Ok::<Seq<char>, CellFault>(s),
{
    let behind = fraction + scale;
    let t = whole + behind;
    assert(s =~= sign + t);
    assert(whole.len() > 0 ==> '0' <= whole[0] <= '9');
    assert(t[0] == if whole.len() > 0 {
        whole[0]
    } else {
        fraction[0]
    });
    lemma_sign_is_skipped(sign, t);
    lemma_digits_are_skipped(whole, behind);
    if fraction.len() > 0 {
        assert(behind.drop_first() =~= fraction.drop_first() + scale);
        lemma_digits_are_skipped(fraction.drop_first(), scale);
    } else {
        assert(behind =~= scale);
    }
    assert(float_text::after_fraction(behind) == scale);
    if scale.len() > 0 {
        lemma_scale_is_exponent(scale);
    }
    assert(float_text::is_decimal_number(t));
}

/// Nothing else makes a floating-point number, but for the words `nan`, `inf` and `infinity`,
/// with a sign before them or without.
pub proof fn float_is_parts_or_word(s: Seq<char>)
    requires
        FloatCell::reading(s) is Ok,
    ensures
        (exists|sign: Seq<char>, whole: Seq<char>, fraction: Seq<char>, scale: Seq<char>|
            is_parts(s, sign, whole, fraction, scale)) || (exists|sign: Seq<char>, word: Seq<char>|
            s == #[trigger] (sign + word) && is_sign(sign) && (float_text::is_word(word, "nan"@)
                || float_text::is_word(word, "inf"@) || float_text::is_word(word, "infinity"@))),
{
    let t = float_text::after_sign(s);
    let sign = s.take(s.len() - t.len());
    assert(s =~= sign + t);
    assert(sign =~= Seq::<char>::empty() || sign =~= seq!['+'] || sign =~= seq!['-']);
    if float_text::is_decimal_number(t) {
        let whole = lemma_skipped_are_digits(t);
        let behind = float_text::after_digits(t);
        let scale = float_text::after_fraction(behind);
        let fraction = if behind.len() > 0 && behind[0] == '.' {
            let d = lemma_skipped_are_digits(behind.drop_first());
            assert((seq!['.'] + d).drop_first() =~= d);
            assert(behind =~= seq!['.'] + behind.drop_first());
            seq!['.'] + d
        } else {
            Seq::empty()
        };
        assert(behind =~= fraction + scale);
        assert(s =~= sign + whole + fraction + scale);
        if scale.len() > 0 {
            let e = scale.drop_first();
            let d = lemma_skipped_are_digits(float_text::after_sign(e));
            let power = e.take(e.len() - float_text::after_sign(e).len());
            assert(e =~= power + d);
            assert(power =~= Seq::<char>::empty() || power =~= seq!['+'] || power =~= seq!['-']);
            assert(is_sign(power) && is_digits(d));
        }
        assert(is_parts(s, sign, whole, fraction, scale));
    }
}

/// A word in any mix of cases has each of its letters, in small or in capital, in its place.
pub proof fn word_has_its_letters(s: Seq<char>, word: Seq<char>)
    requires
        forall|i: int| 0 <= i < word.len() ==> 'a' <= #[trigger] word[i] <= 'z',
    ensures
        float_text::is_word(s, word) <==> s.len() == word.len() && forall|i: int|
            0 <= i < word.len() ==> #[trigger] s[i] == word[i] || s[i] as u32 + 32 == word[i] as u32,
{
    if float_text::is_word(s, word) {
        assert forall|i: int| 0 <= i < word.len() implies #[trigger] s[i] == word[i] || s[i] as u32
            + 32 == word[i] as u32 by {
            assert(float_text::ascii_lower(s[i]) == word[i]);
        }
    }
    if s.len() == word.len() && forall|i: int|
        0 <= i < word.len() ==> #[trigger] s[i] == word[i] || s[i] as u32 + 32 == word[i] as u32 {
        assert forall|i: int| 0 <= i < s.len() implies float_text::ascii_lower(#[trigger] s[i])
            == word[i] by {
            assert(s[i] == word[i] || s[i] as u32 + 32 == word[i] as u32);
            assert('a' <= word[i] <= 'z');
        }
    }
}

/// The words `nan`, `inf` and `infinity` are floating-point numbers, with a sign or without.
pub proof fn words_make_float(sign: Seq<char>, word: Seq<char>)
    requires
        is_sign(sign),
        float_text::is_word(word, "nan"@) || float_text::is_word(word, "inf"@)
            || float_text::is_word(word, "infinity"@),
    ensures
        FloatCell::reading(sign + word) == Ok::<Seq<char>, CellFault>(sign + word),
{
    reveal_strlit("nan");
    reveal_strlit("inf");
    reveal_strlit("infinity");
    assert(word.len() >= 3);
    assert(float_text::ascii_lower(word[0]) == 'n' || float_text::ascii_lower(word[0]) == 'i');
    lemma_sign_is_skipped(sign, word);
}

/// What a digit in base sixteen is worth.
pub open spec fn hex_worth(c: char) -> int {
    if c <= '9' {
        c as u32 - 48
    } else if c <= 'F' {
        c as u32 - 65 + 10
    } else {
        c as u32 - 97 + 10
    }
}

/// Whether every character is a digit in base sixteen, in either case.
pub open spec fn is_hex(s: Seq<char>) -> bool {
    forall|i: int|
        0 <= i < s.len() ==> ('0' <= #[trigger] s[i] <= '9' || 'a' <= s[i] <= 'f' || 'A' <= s[i]
            <= 'F')
}

/// A bytea text holds a byte for each pair of its digits, in order, with the prefix or without.
pub proof fn bytea_holds_byte_per_pair(s: Seq<char>)
    requires
        is_hex(s),
        s.len() % 2 == 0,
    ensures
        bytea::bytea_bytes(seq!['\\', 'x'] + s) == bytea::bytea_bytes(s),
        match bytea::bytea_bytes(s) {
            Ok(bytes) => {
                &&& 2 * bytes.len() == s.len()
                &&& forall|i: int|
                    0 <= i < bytes.len() ==> #[trigger] bytes[i] == 16 * hex_worth(s[2 * i])
                        + hex_worth(s[2 * i + 1])
            },
            Err(_) => false,
        },
{
    if s.len() > 0 {
        assert('0' <= s[0] <= '9' || 'a' <= s[0] <= 'f' || 'A' <= s[0] <= 'F');
    }
    assert((seq!['\\', 'x'] + s).skip(2) =~= s);
    lemma_hex_bytes(s);
}

proof fn lemma_hex_bytes(s: Seq<char>)
    requires
        is_hex(s),
        s.len() % 2 == 0,
    ensures
        match bytea::hex_bytes(s) {
            Ok(bytes) => {
                &&& 2 * bytes.len() == s.len()
                &&& forall|i: int|
                    0 <= i < bytes.len() ==> #[trigger] bytes[i] == 16 * hex_worth(s[2 * i])
                        + hex_worth(s[2 * i + 1])
            },
            Err(_) => false,
        },
    decreases s.len(),
{
    if s.len() > 0 {
        let rest = s.skip(2);
        assert('0' <= s[0] <= '9' || 'a' <= s[0] <= 'f' || 'A' <= s[0] <= 'F');
        assert('0' <= s[1] <= '9' || 'a' <= s[1] <= 'f' || 'A' <= s[1] <= 'F');
        assert forall|i: int| 0 <= i < rest.len() implies ('0' <= #[trigger] rest[i] <= '9' || 'a'
            <= rest[i] <= 'f' || 'A' <= rest[i] <= 'F') by {
            assert(rest[i] == s[i + 2]);
        }
        lemma_hex_bytes(rest);
        let tail = bytea::hex_bytes(rest)->Ok_0;
        let bytes = bytea::hex_bytes(s)->Ok_0;
        assert forall|i: int| 0 <= i < bytes.len() implies #[trigger] bytes[i] == 16 * hex_worth(
            s[2 * i],
        ) + hex_worth(s[2 * i + 1]) by {
            if i > 0 {
                assert(bytes[i] == tail[i - 1]);
                assert(rest[2 * (i - 1)] == s[2 * i]);
                assert(rest[2 * (i - 1) + 1] == s[2 * i + 1]);
            }
        }
    }
}

/// A bytea text of characters of one byte each is refused where its length is odd, and where a
/// character that is no digit stands second in a pair.
pub proof fn bytea_refuses_other_texts(s: Seq<char>)
    requires
        forall|i: int| 0 <= i < s.len() ==> (#[trigger] s[i] as u32) < 0x80,
        !(s.len() >= 2 && s[0] == '\\' && s[1] == 'x'),
    ensures
        s.len() % 2 == 1 ==> bytea::bytea_bytes(s) is Err,
        bytea::bytea_bytes(s) is Ok ==> forall|i: int|
            0 <= i < s.len() ==> ('0' <= #[trigger] s[i] <= '9' || 'a' <= s[i] <= 'f' || 'A' <= s[i]
                <= 'F' || (s[i] == '+' && i % 2 == 0)),
        bytea::bytea_bytes(s) == Err::<Seq<u8>, ByteaError>(ByteaError::Misaligned) ==> s.len() % 2
            == 1,
{
    lemma_hex_refusals(s);
}

proof fn lemma_hex_refusals(s: Seq<char>)
    requires
        forall|i: int| 0 <= i < s.len() ==> (#[trigger] s[i] as u32) < 0x80,
    ensures
        s.len() % 2 == 1 ==> bytea::hex_bytes(s) is Err,
        bytea::hex_bytes(s) is Ok ==> forall|i: int|
            0 <= i < s.len() ==> ('0' <= #[trigger] s[i] <= '9' || 'a' <= s[i] <= 'f' || 'A' <= s[i]
                <= 'F' || (s[i] == '+' && i % 2 == 0)),
        bytea::hex_bytes(s) == Err::<Seq<u8>, ByteaError>(ByteaError::Misaligned) ==> s.len() % 2
            == 1,
    decreases s.len(),
{
    if s.len() > 1 {
        let rest = s.skip(2);
        assert((s[0] as u32) < 0x80 && (s[1] as u32) < 0x80);
        assert forall|i: int| 0 <= i < rest.len() implies (#[trigger] rest[i] as u32) < 0x80 by {
            assert(rest[i] == s[i + 2]);
        }
        lemma_hex_refusals(rest);
        if bytea::hex_bytes(s) is Ok {
            assert forall|i: int| 0 <= i < s.len() implies ('0' <= #[trigger] s[i] <= '9' || 'a'
                <= s[i] <= 'f' || 'A' <= s[i] <= 'F' || (s[i] == '+' && i % 2 == 0)) by {
                if i >= 2 {
                    assert(s[i] == rest[i - 2]);
                }
            }
        }
    } else if s.len() == 1 {
        assert((s[0] as u32) < 0x80);
    }
}

/// What stands behind whole pairs decides how a bytea text is refused: a character of two bytes, or
/// a pair that is no pair of digits, is an invalid digit; a character that ends within a pair, or a
/// text that does, cannot be cut into pairs.
pub proof fn bytea_stops_at_first_bad_pair(s: Seq<char>, c: char, d: char, rest: Seq<char>)
    requires
        is_hex(s),
        s.len() % 2 == 0,
    ensures
        0x80 <= c as u32 <= 0x7ff ==> bytea::hex_bytes(s + seq![c] + rest) == Err::<
            Seq<u8>,
            ByteaError,
        >(ByteaError::InvalidDigit),
        c as u32 > 0x7ff ==> bytea::hex_bytes(s + seq![c] + rest) == Err::<Seq<u8>, ByteaError>(
            ByteaError::Misaligned,
        ),
        (c as u32) < 0x80 ==> bytea::hex_bytes(s + seq![c]) == Err::<Seq<u8>, ByteaError>(
            ByteaError::Misaligned,
        ),
        (c as u32) < 0x80 && d as u32 >= 0x80 ==> bytea::hex_bytes(s + seq![c, d] + rest) == Err::<
            Seq<u8>,
            ByteaError,
        >(ByteaError::Misaligned),
        (c as u32) < 0x80 && (d as u32) < 0x80 && !(is_hex(seq![c, d]) || (c == '+' && is_hex(
            seq![d],
        ))) ==> bytea::hex_bytes(s + seq![c, d] + rest) == Err::<Seq<u8>, ByteaError>(
            ByteaError::InvalidDigit,
        ),
    decreases s.len(),
{
    if s.len() == 0 {
        assert(s + seq![c] + rest =~= seq![c] + rest);
        assert(s + seq![c] =~= seq![c]);
        assert(s + seq![c, d] + rest =~= seq![c, d] + rest);
        if bytea::hex_value(c) is Some && bytea::hex_value(d) is Some {
            assert(is_hex(seq![c, d]));
        }
        if bytea::hex_value(d) is Some {
            assert(is_hex(seq![d]));
        }
    } else {
        let tail = s.skip(2);
        assert('0' <= s[0] <= '9' || 'a' <= s[0] <= 'f' || 'A' <= s[0] <= 'F');
        assert('0' <= s[1] <= '9' || 'a' <= s[1] <= 'f' || 'A' <= s[1] <= 'F');
        assert forall|i: int| 0 <= i < tail.len() implies ('0' <= #[trigger] tail[i] <= '9' || 'a'
            <= tail[i] <= 'f' || 'A' <= tail[i] <= 'F') by {
            assert(tail[i] == s[i + 2]);
        }
        bytea_stops_at_first_bad_pair(tail, c, d, rest);
        assert((s + seq![c] + rest).skip(2) =~= tail + seq![c] + rest);
        assert((s + seq![c]).skip(2) =~= tail + seq![c]);
        assert((s + seq![c, d] + rest).skip(2) =~= tail + seq![c, d] + rest);
        assert((s + seq![c] + rest)[0] == s[0] && (s + seq![c] + rest)[1] == s[1]);
        assert((s + seq![c])[0] == s[0] && (s + seq![c])[1] == s[1]);
        assert((s + seq![c, d] + rest)[0] == s[0] && (s + seq![c, d] + rest)[1] == s[1]);
    }
}

/// A pair of a `+` and a digit is worth the digit.
pub proof fn signed_pair_is_worth_digit(d: char)
    requires
        is_hex(seq![d]),
    ensures
        bytea::hex_bytes(seq!['+', d]) == Ok::<Seq<u8>, ByteaError>(seq![hex_worth(d) as u8]),
{
    assert(seq![d][0] == d);
    assert(seq!['+', d].skip(2) =~= Seq::<char>::empty());
    reveal_with_fuel(bytea::hex_bytes, 2);
    assert(bytea::hex_bytes(seq!['+', d])->Ok_0 =~= seq![hex_worth(d) as u8]);
}

} // verus!
