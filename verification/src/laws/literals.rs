//! How quoted and escaped texts are written and read: arrays, hstores, identifiers and `COPY`
//! cells.

use crate::float_text;
use crate::postgres::array;
use crate::postgres::bytea;
use crate::postgres::copy;
use crate::postgres::hstore;
use crate::postgres::hstore::HstoreFault;
use crate::postgres::sql;
use crate::text;
use vstd::prelude::*;

verus! {

/// `s` with a backslash before each character that is marked.
pub open spec fn escaped_with(s: Seq<char>, marked: Seq<bool>) -> Seq<char>
    decreases s.len(),
{
    if s.len() == 0 {
        Seq::empty()
    } else {
        (if marked[0] {
            seq!['\\', s[0]]
        } else {
            seq![s[0]]
        }) + escaped_with(s.drop_first(), marked.drop_first())
    }
}

/// Whether each quote and each backslash of `s` is marked; other characters may be.
pub open spec fn covers_quotes(marked: Seq<bool>, s: Seq<char>) -> bool {
    &&& marked.len() == s.len()
    &&& forall|i: int|
        0 <= i < s.len() && (s[i] == '"' || s[i] == '\\') ==> #[trigger] marked[i]
}

proof fn lemma_covers_tail(marked: Seq<bool>, s: Seq<char>)
    requires
        covers_quotes(marked, s),
        s.len() > 0,
    ensures
        covers_quotes(marked.drop_first(), s.drop_first()),
{
    let m = marked.drop_first();
    let t = s.drop_first();
    assert forall|i: int| 0 <= i < t.len() && (t[i] == '"' || t[i] == '\\') implies #[trigger] m[i] by {
        assert(t[i] == s[i + 1] && m[i] == marked[i + 1]);
    }
}

/// What stands between quotes is read as it was before escaping, whichever characters were
/// escaped, up to the closing quote.
pub proof fn quotes_hold_text(s: Seq<char>, marked: Seq<bool>, rest: Seq<char>)
    requires
        covers_quotes(marked, s),
    ensures
        array::quoted_element(escaped_with(s, marked) + seq!['"'] + rest) == (s, rest),
        hstore::quoted_string(escaped_with(s, marked) + seq!['"'] + rest) == Ok::<
            (Seq<char>, Seq<char>),
            HstoreFault,
        >((s, rest)),
    decreases s.len(),
{
    let t = escaped_with(s, marked) + seq!['"'] + rest;
    if s.len() == 0 {
        assert(t.drop_first() =~= rest);
        assert(s =~= Seq::<char>::empty());
    } else {
        lemma_covers_tail(marked, s);
        quotes_hold_text(s.drop_first(), marked.drop_first(), rest);
        let tail = escaped_with(s.drop_first(), marked.drop_first()) + seq!['"'] + rest;
        if marked[0] {
            assert(t.skip(2) =~= tail);
        } else {
            assert(t.drop_first() =~= tail);
        }
        assert(seq![s[0]] + s.drop_first() =~= s);
    }
}

/// Without a closing quote an array takes all that is there, and an hstore says what is missing.
/// A backslash at the very end escapes nothing.
pub proof fn quotes_must_be_closed(s: Seq<char>, marked: Seq<bool>)
    requires
        covers_quotes(marked, s),
    ensures
        array::quoted_element(escaped_with(s, marked)) == (s, Seq::<char>::empty()),
        array::quoted_element(escaped_with(s, marked).push('\\')) == (s, Seq::<char>::empty()),
        hstore::quoted_string(escaped_with(s, marked)) == Err::<
            (Seq<char>, Seq<char>),
            HstoreFault,
        >(HstoreFault::Unterminated),
        hstore::quoted_string(escaped_with(s, marked).push('\\')) == Err::<
            (Seq<char>, Seq<char>),
            HstoreFault,
        >(HstoreFault::EndAfterBackslash),
    decreases s.len(),
{
    let t = escaped_with(s, marked);
    if s.len() == 0 {
        assert(s =~= Seq::<char>::empty());
    } else {
        lemma_covers_tail(marked, s);
        quotes_must_be_closed(s.drop_first(), marked.drop_first());
        let tail = escaped_with(s.drop_first(), marked.drop_first());
        if marked[0] {
            assert(t.skip(2) =~= tail);
            assert(t.push('\\').skip(2) =~= tail.push('\\'));
        } else {
            assert(t.drop_first() =~= tail);
            assert(t.push('\\').drop_first() =~= tail.push('\\'));
        }
        assert(seq![s[0]] + s.drop_first() =~= s);
    }
}

/// Whether there is nothing but spaces.
pub open spec fn all_spaces(s: Seq<char>) -> bool {
    forall|i: int| 0 <= i < s.len() ==> #[trigger] s[i] == ' '
}

proof fn lemma_spaces_are_skipped(lead: Seq<char>, rest: Seq<char>)
    requires
        all_spaces(lead),
        rest.len() > 0 ==> rest[0] != ' ',
    ensures
        array::after_spaces(lead + rest) == rest,
    decreases lead.len(),
{
    if lead.len() == 0 {
        assert(lead + rest =~= rest);
    } else {
        assert((lead + rest)[0] == lead[0]);
        assert((lead + rest).drop_first() =~= lead.drop_first() + rest);
        assert forall|i: int| 0 <= i < lead.drop_first().len() implies #[trigger] lead.drop_first()[i]
            == ' ' by {
            assert(lead.drop_first()[i] == lead[i + 1]);
        }
        lemma_spaces_are_skipped(lead.drop_first(), rest);
    }
}

proof fn lemma_white_is_skipped(lead: Seq<char>, rest: Seq<char>)
    requires
        text::all_white(lead),
        rest.len() > 0 ==> !text::is_white(rest[0]),
    ensures
        text::trimmed_start(lead + rest) == rest,
    decreases lead.len(),
{
    if lead.len() == 0 {
        assert(lead + rest =~= rest);
    } else {
        assert((lead + rest)[0] == lead[0]);
        assert((lead + rest).drop_first() =~= lead.drop_first() + rest);
        assert forall|i: int| 0 <= i < lead.drop_first().len() implies text::is_white(
            #[trigger] lead.drop_first()[i],
        ) by {
            assert(lead.drop_first()[i] == lead[i + 1]);
        }
        lemma_white_is_skipped(lead.drop_first(), rest);
    }
}

/// What stands for nothing in an array or an hstore is the word `null`, in any mix of cases.
pub proof fn null_is_word(s: Seq<char>)
    ensures
        text::is_null_word(s) <==> float_text::is_word(s, "null"@),
{
    reveal_strlit("null");
    if float_text::is_word(s, "null"@) {
        assert(float_text::ascii_lower(s[0]) == 'n');
        assert(float_text::ascii_lower(s[1]) == 'u');
        assert(float_text::ascii_lower(s[2]) == 'l');
        assert(float_text::ascii_lower(s[3]) == 'l');
    }
}

/// A quoted element of an array is its text, never nothing, and spaces round it do not count. The
/// elements behind the next comma follow; anything else behind it ends the array.
pub proof fn array_has_quoted_element(
    lead: Seq<char>,
    s: Seq<char>,
    marked: Seq<bool>,
    gap: Seq<char>,
    tail: Seq<char>,
)
    requires
        all_spaces(lead),
        covers_quotes(marked, s),
        all_spaces(gap),
        tail.len() > 0 ==> tail[0] != ' ',
    ensures
        array::array_elements(
            lead + seq!['"'] + escaped_with(s, marked) + seq!['"'] + gap + tail,
        ) == if tail.len() > 0 && tail[0] == ',' {
            seq![Some(s)] + array::array_elements(tail.drop_first())
        } else {
            seq![Some(s)]
        },
{
    let behind = gap + tail;
    let start = seq!['"'] + escaped_with(s, marked) + seq!['"'] + behind;
    let whole = lead + seq!['"'] + escaped_with(s, marked) + seq!['"'] + gap + tail;
    assert(whole =~= lead + start);
    lemma_spaces_are_skipped(lead, start);
    assert(start.drop_first() =~= escaped_with(s, marked) + seq!['"'] + behind);
    quotes_hold_text(s, marked, behind);
    lemma_spaces_are_skipped(gap, tail);
}

/// An element without quotes is its text without whitespace round it, or nothing where that is the
/// word `null`. It goes up to the next comma, and the elements behind the comma follow.
pub proof fn array_has_bare_element(
    lead: Seq<char>,
    word: Seq<char>,
    gap: Seq<char>,
    tail: Seq<char>,
)
    requires
        all_spaces(lead),
        word.len() > 0,
        word[0] != '"',
        !text::is_white(word[0]),
        !text::is_white(word.last()),
        forall|i: int| 0 <= i < word.len() ==> #[trigger] word[i] != ',',
        text::all_white(gap),
        tail.len() > 0 ==> tail[0] == ',',
    ensures
        ({
            let element = if float_text::is_word(word, "null"@) {
                None
            } else {
                Some(word)
            };
            array::array_elements(lead + word + gap + tail) == if tail.len() > 0 {
                seq![element] + array::array_elements(tail.drop_first())
            } else {
                seq![element]
            }
        }),
{
    let body = word + gap;
    let start = body + tail;
    assert(lead + word + gap + tail =~= lead + start);
    assert(start[0] == word[0]);
    assert(text::is_white(' '));
    lemma_spaces_are_skipped(lead, start);
    assert forall|i: int| 0 <= i < body.len() implies body[i] != ',' by {
        if i < word.len() {
            assert(body[i] == word[i]);
        } else {
            assert(body[i] == gap[i - word.len()]);
            assert(text::is_white(gap[i - word.len()]));
        }
    }
    text::lemma_word_up_to(body, tail, ',');
    assert(start.skip(body.len() as int) =~= tail);
    assert(body =~= Seq::<char>::empty() + word + gap);
    text::trim_takes_padding(Seq::empty(), word, gap);
    null_is_word(word);
    assert(array::after_spaces(tail) == tail);
}

/// Between two commas, or before the first, there is an empty text; behind the last there is
/// nothing.
pub proof fn array_has_empty_element(lead: Seq<char>, rest: Seq<char>)
    requires
        all_spaces(lead),
    ensures
        array::array_elements(lead + seq![','] + rest) == seq![Some(Seq::<char>::empty())]
            + array::array_elements(rest),
        array::array_elements(lead) == Seq::<Option<Seq<char>>>::empty(),
{
    let start = seq![','] + rest;
    assert(lead + seq![','] + rest =~= lead + start);
    lemma_spaces_are_skipped(lead, start);
    text::lemma_word_up_to(Seq::empty(), start, ',');
    assert(Seq::<char>::empty() + start =~= start);
    assert(start.skip(0) =~= start);
    assert(start.drop_first() =~= rest);
    reveal_strlit("null");
    null_is_word(Seq::empty());
    assert(array::after_spaces(start) == start);
    lemma_spaces_are_skipped(lead, Seq::empty());
    assert(lead + Seq::<char>::empty() =~= lead);
}

/// The elements of an array stand between braces, with whitespace outside or without; a text
/// without braces is one element.
pub proof fn array_stands_in_braces(lead: Seq<char>, inner: Seq<char>, tail: Seq<char>)
    requires
        text::all_white(lead),
        text::all_white(tail),
    ensures
        array::array_text(lead + (seq!['{'] + inner + seq!['}']) + tail) == array::array_elements(
            inner,
        ),
        inner.len() > 0 && !text::is_white(inner[0]) && !text::is_white(inner.last()) && (inner[0]
            != '{' || inner.last() != '}' || inner.len() < 2) ==> array::array_text(
            lead + inner + tail,
        ) == seq![Some(inner)],
{
    let t = seq!['{'] + inner + seq!['}'];
    text::trim_takes_padding(lead, t, tail);
    assert(t.subrange(1, t.len() - 1) =~= inner);
    if inner.len() > 0 && !text::is_white(inner[0]) && !text::is_white(inner.last()) {
        text::trim_takes_padding(lead, inner, tail);
    }
}

/// What the pairs behind a pair come to.
pub open spec fn with_pair(
    pair: (Seq<char>, Option<Seq<char>>),
    pairs: Result<Seq<(Seq<char>, Option<Seq<char>>)>, HstoreFault>,
) -> Result<Seq<(Seq<char>, Option<Seq<char>>)>, HstoreFault> {
    match pairs {
        Ok(pairs) => Ok(seq![pair] + pairs),
        Err(f) => Err(f),
    }
}

/// The start of a pair: a quoted key and an arrow, with whitespace round each.
pub open spec fn key_text(
    lead: Seq<char>,
    key: Seq<char>,
    marked: Seq<bool>,
    before: Seq<char>,
    after: Seq<char>,
) -> Seq<char> {
    lead + seq!['"'] + escaped_with(key, marked) + seq!['"'] + before + seq!['=', '>'] + after
}

proof fn lemma_key_is_read(
    lead: Seq<char>,
    key: Seq<char>,
    marked: Seq<bool>,
    before: Seq<char>,
    after: Seq<char>,
    value: Seq<char>,
)
    requires
        text::all_white(lead),
        covers_quotes(marked, key),
        text::all_white(before),
        text::all_white(after),
        value.len() > 0 ==> !text::is_white(value[0]),
    ensures
        ({
            let start = text::trimmed_start(key_text(lead, key, marked, before, after) + value);
            &&& start.len() > 0
            &&& start[0] == '"'
            &&& hstore::first_pair(start) == match hstore::first_value(value) {
                Ok((v, rest)) => Ok(((key, v), rest)),
                Err(f) => Err(f),
            }
        }),
{
    let arrow = seq!['=', '>'] + after + value;
    let behind = before + arrow;
    let start = seq!['"'] + escaped_with(key, marked) + seq!['"'] + behind;
    let whole = key_text(lead, key, marked, before, after) + value;
    assert(whole =~= lead + start);
    lemma_white_is_skipped(lead, start);
    assert(start.drop_first() =~= escaped_with(key, marked) + seq!['"'] + behind);
    quotes_hold_text(key, marked, behind);
    lemma_white_is_skipped(before, arrow);
    assert(arrow.skip(2) =~= after + value);
    lemma_white_is_skipped(after, value);
}

/// A quoted value of an hstore is its text, never nothing. The pairs behind the next comma follow;
/// anything else behind it ends the hstore.
pub proof fn hstore_has_quoted_value(
    head: (Seq<char>, Seq<char>, Seq<bool>, Seq<char>, Seq<char>),
    s: Seq<char>,
    marked: Seq<bool>,
    gap: Seq<char>,
    tail: Seq<char>,
)
    requires
        text::all_white(head.0),
        covers_quotes(head.2, head.1),
        text::all_white(head.3),
        text::all_white(head.4),
        covers_quotes(marked, s),
        text::all_white(gap),
        tail.len() > 0 ==> !text::is_white(tail[0]),
    ensures
        hstore::hstore_pairs(
            key_text(head.0, head.1, head.2, head.3, head.4) + (seq!['"'] + escaped_with(s, marked)
                + seq!['"'] + gap + tail),
        ) == if tail.len() > 0 && tail[0] == ',' {
            with_pair((head.1, Some(s)), hstore::hstore_pairs(tail.drop_first()))
        } else {
            Ok(seq![(head.1, Some(s))])
        },
{
    let behind = gap + tail;
    let value = seq!['"'] + escaped_with(s, marked) + seq!['"'] + behind;
    assert(value =~= seq!['"'] + escaped_with(s, marked) + seq!['"'] + gap + tail);
    lemma_key_is_read(head.0, head.1, head.2, head.3, head.4, value);
    assert(value.drop_first() =~= escaped_with(s, marked) + seq!['"'] + behind);
    quotes_hold_text(s, marked, behind);
    lemma_white_is_skipped(gap, tail);
}

/// A value of an hstore without quotes is its text without whitespace round it, or nothing where
/// that is the word `null`. It goes up to the next comma, and the pairs behind the comma follow.
pub proof fn hstore_has_bare_value(
    head: (Seq<char>, Seq<char>, Seq<bool>, Seq<char>, Seq<char>),
    word: Seq<char>,
    gap: Seq<char>,
    tail: Seq<char>,
)
    requires
        text::all_white(head.0),
        covers_quotes(head.2, head.1),
        text::all_white(head.3),
        text::all_white(head.4),
        word.len() > 0,
        word[0] != '"',
        !text::is_white(word[0]),
        !text::is_white(word.last()),
        forall|i: int| 0 <= i < word.len() ==> #[trigger] word[i] != ',',
        text::all_white(gap),
        tail.len() > 0 ==> tail[0] == ',',
    ensures
        ({
            let value = if float_text::is_word(word, "null"@) {
                None
            } else {
                Some(word)
            };
            hstore::hstore_pairs(
                key_text(head.0, head.1, head.2, head.3, head.4) + (word + gap + tail),
            ) == if tail.len() > 0 {
                with_pair((head.1, value), hstore::hstore_pairs(tail.drop_first()))
            } else {
                Ok(seq![(head.1, value)])
            }
        }),
{
    let body = word + gap;
    let value = body + tail;
    assert(value =~= word + gap + tail);
    assert(value[0] == word[0]);
    lemma_key_is_read(head.0, head.1, head.2, head.3, head.4, value);
    assert forall|i: int| 0 <= i < body.len() implies body[i] != ',' by {
        if i < word.len() {
            assert(body[i] == word[i]);
        } else {
            assert(body[i] == gap[i - word.len()]);
            assert(text::is_white(gap[i - word.len()]));
        }
    }
    text::lemma_word_up_to(body, tail, ',');
    assert(value.skip(body.len() as int) =~= tail);
    assert(body =~= Seq::<char>::empty() + word + gap);
    text::trim_takes_padding(Seq::empty(), word, gap);
    null_is_word(word);
    assert(text::trimmed_start(tail) == tail);
}

/// An hstore without pairs is empty. A pair starts with a quoted key that is closed, and an arrow
/// stands behind the key: what stands there instead is named.
pub proof fn hstore_says_what_it_lacks(
    lead: Seq<char>,
    key: Seq<char>,
    marked: Seq<bool>,
    before: Seq<char>,
    other: Seq<char>,
)
    requires
        text::all_white(lead),
        covers_quotes(marked, key),
        text::all_white(before),
        other.len() > 0 ==> !text::is_white(other[0]),
        !(other.len() >= 2 && other[0] == '=' && other[1] == '>'),
    ensures
        hstore::hstore_pairs(lead) == Ok::<Seq<(Seq<char>, Option<Seq<char>>)>, HstoreFault>(
            Seq::empty(),
        ),
        other.len() > 0 && other[0] != '"' ==> hstore::hstore_pairs(lead + other) == Err::<
            Seq<(Seq<char>, Option<Seq<char>>)>,
            HstoreFault,
        >(HstoreFault::ExpectedKey),
        hstore::hstore_pairs(lead + seq!['"'] + escaped_with(key, marked)) == Err::<
            Seq<(Seq<char>, Option<Seq<char>>)>,
            HstoreFault,
        >(HstoreFault::Unterminated),
        hstore::hstore_pairs(lead + seq!['"'] + escaped_with(key, marked) + seq!['"'] + before + other)
            == Err::<Seq<(Seq<char>, Option<Seq<char>>)>, HstoreFault>(
            HstoreFault::ExpectedArrow(
                other.take(
                    if other.len() < 2 {
                        other.len() as int
                    } else {
                        2
                    },
                ),
            ),
        ),
{
    lemma_white_is_skipped(lead, Seq::empty());
    assert(lead + Seq::<char>::empty() =~= lead);
    lemma_white_is_skipped(lead, other);
    let open = seq!['"'] + escaped_with(key, marked);
    assert(lead + seq!['"'] + escaped_with(key, marked) =~= lead + open);
    lemma_white_is_skipped(lead, open);
    assert(open.drop_first() =~= escaped_with(key, marked));
    quotes_must_be_closed(key, marked);
    let behind = before + other;
    let start = seq!['"'] + escaped_with(key, marked) + seq!['"'] + behind;
    assert(lead + seq!['"'] + escaped_with(key, marked) + seq!['"'] + before + other =~= lead + start);
    lemma_white_is_skipped(lead, start);
    assert(start.drop_first() =~= escaped_with(key, marked) + seq!['"'] + behind);
    quotes_hold_text(key, marked, behind);
    lemma_white_is_skipped(before, other);
    if other.len() < 2 {
        assert(other.take(other.len() as int) =~= other);
    }
}

/// Doubling a quote touches nothing else, whatever stands round it.
pub proof fn quotes_are_doubled(a: Seq<char>, b: Seq<char>, c: char, q: char)
    ensures
        sql::doubled(a + b, q) == sql::doubled(a, q) + sql::doubled(b, q),
        sql::doubled(seq![c], q) == if c == q {
            seq![q, q]
        } else {
            seq![c]
        },
        sql::doubled(Seq::empty(), q) == Seq::<char>::empty(),
        sql::quoted(a, q) == seq![q] + sql::doubled(a, q) + seq![q],
        sql::ident(a) == sql::quoted(a, '"'),
    decreases a.len(),
{
    if a.len() == 0 {
        assert(a + b =~= b);
        assert(sql::doubled(a, q) + sql::doubled(b, q) =~= sql::doubled(b, q));
    } else {
        quotes_are_doubled(a.drop_first(), b, c, q);
        assert((a + b).drop_first() =~= a.drop_first() + b);
        let head = if a[0] == q {
            seq![q, q]
        } else {
            seq![a[0]]
        };
        assert(head + (sql::doubled(a.drop_first(), q) + sql::doubled(b, q)) =~= (head
            + sql::doubled(a.drop_first(), q)) + sql::doubled(b, q));
    }
    assert(seq![c].drop_first() =~= Seq::<char>::empty());
    reveal_with_fuel(sql::doubled, 2);
    assert(sql::doubled(seq![c], q) =~= if c == q {
        seq![q, q]
    } else {
        seq![c]
    });
}

/// A list of identifiers has one for each name, in order, and a list of equations sets each name
/// equal to the staged column of the same name.
pub proof fn lists_have_each_name(names: Seq<Seq<char>>, prefix: Seq<char>, i: int)
    requires
        0 <= i < names.len(),
    ensures
        sql::idents(names, prefix).len() == names.len(),
        sql::idents(names, prefix)[i] == prefix + sql::quoted(names[i], '"'),
        sql::equations(names, prefix).len() == names.len(),
        sql::equations(names, prefix)[i] == prefix + sql::quoted(names[i], '"') + " = s."@
            + sql::quoted(names[i], '"'),
{
}

/// Joining two runs of parts puts one separator between them, and joining one part leaves it as it
/// is.
pub proof fn join_puts_separator_between(a: Seq<Seq<char>>, b: Seq<Seq<char>>, sep: Seq<char>)
    ensures
        a.len() > 0 && b.len() > 0 ==> text::joined(a + b, sep) == text::joined(a, sep) + sep
            + text::joined(b, sep),
        a.len() == 1 ==> text::joined(a, sep) == a[0],
        a.len() == 0 ==> text::joined(a, sep) == Seq::<char>::empty(),
    decreases a.len(),
{
    if a.len() > 0 && b.len() > 0 {
        assert((a + b).drop_first() =~= a.drop_first() + b);
        if a.len() == 1 {
            assert((a + b).drop_first() =~= b);
        } else {
            join_puts_separator_between(a.drop_first(), b, sep);
            assert(text::joined(a + b, sep) =~= text::joined(a, sep) + sep + text::joined(b, sep));
        }
    }
}

/// A cell of `COPY` text escapes the backslash, the tab, the line feed and the carriage return,
/// each as a backslash and one letter, and no other character, whatever stands round it. An absent
/// cell is `\N`.
pub proof fn copy_escapes_four_characters(a: Seq<char>, b: Seq<char>, c: char)
    ensures
        copy::escaped(a + b) == copy::escaped(a) + copy::escaped(b),
        copy::escaped(seq!['\\']) == seq!['\\', '\\'],
        copy::escaped(seq!['\t']) == seq!['\\', 't'],
        copy::escaped(seq!['\n']) == seq!['\\', 'n'],
        copy::escaped(seq!['\r']) == seq!['\\', 'r'],
        c != '\\' && c != '\t' && c != '\n' && c != '\r' ==> copy::escaped(seq![c]) == seq![c],
        copy::escaped(Seq::empty()) == Seq::<char>::empty(),
        copy::field_text(Some(a)) == copy::escaped(a),
        copy::field_text(None) == seq!['\\', 'N'],
    decreases a.len(),
{
    if a.len() == 0 {
        assert(a + b =~= b);
        assert(copy::escaped(a) + copy::escaped(b) =~= copy::escaped(b));
    } else {
        copy_escapes_four_characters(a.drop_first(), b, c);
        assert((a + b).drop_first() =~= a.drop_first() + b);
        let head = copy::escaped_char(a[0]);
        assert(head + (copy::escaped(a.drop_first()) + copy::escaped(b)) =~= (head + copy::escaped(
            a.drop_first(),
        )) + copy::escaped(b));
    }
    lemma_escaped_alone('\\');
    lemma_escaped_alone('\t');
    lemma_escaped_alone('\n');
    lemma_escaped_alone('\r');
    lemma_escaped_alone(c);
}

proof fn lemma_escaped_alone(c: char)
    ensures
        copy::escaped(seq![c]) == copy::escaped_char(c),
{
    assert(seq![c].drop_first() =~= Seq::<char>::empty());
    reveal_with_fuel(copy::escaped, 2);
    assert(copy::escaped(seq![c]) =~= copy::escaped_char(c));
}

/// A byte string is written as `\x` and two digits in lower case for each byte, in order.
pub proof fn bytes_are_written_in_pairs(bytes: Seq<u8>)
    ensures
        ({
            let t = bytea::bytea_literal(bytes);
            &&& t.len() == 2 + 2 * bytes.len()
            &&& t[0] == '\\'
            &&& t[1] == 'x'
            &&& forall|i: int|
                0 <= i < bytes.len() ==> {
                    &&& crate::laws::numbers::hex_worth(t[2 + 2 * i]) == #[trigger] bytes[i] / 16
                    &&& crate::laws::numbers::hex_worth(t[3 + 2 * i]) == bytes[i] % 16
                }
            &&& forall|k: int|
                2 <= k < t.len() ==> ('0' <= #[trigger] t[k] <= '9' || 'a' <= t[k] <= 'f')
        }),
{
    lemma_pairs_are_written(bytes);
    let t = bytea::bytea_literal(bytes);
    let d = bytea::hex_digits(bytes);
    assert(t.skip(2) =~= d);
    assert forall|i: int| 0 <= i < bytes.len() implies {
        &&& crate::laws::numbers::hex_worth(t[2 + 2 * i]) == #[trigger] bytes[i] / 16
        &&& crate::laws::numbers::hex_worth(t[3 + 2 * i]) == bytes[i] % 16
    } by {
        assert(t[2 + 2 * i] == d[2 * i]);
        assert(t[3 + 2 * i] == d[2 * i + 1]);
    }
    assert forall|k: int| 2 <= k < t.len() implies ('0' <= #[trigger] t[k] <= '9' || 'a' <= t[k]
        <= 'f') by {
        assert(t[k] == d[k - 2]);
    }
}

proof fn lemma_pairs_are_written(bytes: Seq<u8>)
    ensures
        ({
            let d = bytea::hex_digits(bytes);
            &&& d.len() == 2 * bytes.len()
            &&& forall|i: int|
                0 <= i < bytes.len() ==> {
                    &&& crate::laws::numbers::hex_worth(d[2 * i]) == #[trigger] bytes[i] / 16
                    &&& crate::laws::numbers::hex_worth(d[2 * i + 1]) == bytes[i] % 16
                }
            &&& forall|k: int|
                0 <= k < d.len() ==> ('0' <= #[trigger] d[k] <= '9' || 'a' <= d[k] <= 'f')
        }),
    decreases bytes.len(),
{
    if bytes.len() > 0 {
        let front = bytes.drop_last();
        let n = front.len() as int;
        lemma_pairs_are_written(front);
        let before = bytea::hex_digits(front);
        let d = bytea::hex_digits(bytes);
        assert(d[2 * n] == bytea::hex_digit(bytes[n] / 16));
        assert(d[2 * n + 1] == bytea::hex_digit(bytes[n] % 16));
        assert forall|i: int| 0 <= i < bytes.len() implies {
            &&& crate::laws::numbers::hex_worth(d[2 * i]) == #[trigger] bytes[i] / 16
            &&& crate::laws::numbers::hex_worth(d[2 * i + 1]) == bytes[i] % 16
        } by {
            if i < n {
                assert(front[i] == bytes[i]);
                assert(d[2 * i] == before[2 * i]);
                assert(d[2 * i + 1] == before[2 * i + 1]);
            }
        }
        assert forall|k: int| 0 <= k < d.len() implies ('0' <= #[trigger] d[k] <= '9' || 'a' <= d[k]
            <= 'f') by {
            if k < before.len() {
                assert(d[k] == before[k]);
            }
        }
    }
}

} // verus!
