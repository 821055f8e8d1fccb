//! Postgres array text: `{1,2,NULL,"a b"}`.

use crate::text;
use crate::text::{chars_of, comma_from, null_word, slice_of, text_of, trim};
use vstd::prelude::*;

verus! {

/// `s` without its leading spaces.
pub open spec fn after_spaces(s: Seq<char>) -> Seq<char>
    decreases s.len(),
{
    if s.len() > 0 && s[0] == ' ' {
        after_spaces(s.drop_first())
    } else {
        s
    }
}

/// What a quoted element holds, and what follows it. `s` starts behind the opening quote. A
/// backslash stands for the character behind it, and a missing closing quote is forgiven.
pub open spec fn quoted_element(s: Seq<char>) -> (Seq<char>, Seq<char>)
    decreases s.len(),
{
    if s.len() == 0 {
        (Seq::empty(), Seq::empty())
    } else if s[0] == '"' {
        (Seq::empty(), s.drop_first())
    } else if s[0] == '\\' {
        if s.len() == 1 {
            (Seq::empty(), Seq::empty())
        } else {
            let (value, rest) = quoted_element(s.skip(2));
            (seq![s[1]] + value, rest)
        }
    } else {
        let (value, rest) = quoted_element(s.drop_first());
        (seq![s[0]] + value, rest)
    }
}

/// What an unquoted element stands for: its trimmed text, or nothing for the word `NULL`.
pub open spec fn bare_element(s: Seq<char>) -> Option<Seq<char>> {
    if text::is_null_word(text::trimmed(s)) {
        None
    } else {
        Some(text::trimmed(s))
    }
}

/// The first element of `s`, and what follows it.
pub open spec fn first_element(s: Seq<char>) -> (Option<Seq<char>>, Seq<char>) {
    if s.len() > 0 && s[0] == '"' {
        let (value, rest) = quoted_element(s.drop_first());
        (Some(value), rest)
    } else {
        (bare_element(text::up_to(s, ',')), s.skip(text::up_to(s, ',').len() as int))
    }
}

/// The elements that stand between the braces. What follows an element without a comma between
/// them is left out.
pub open spec fn array_elements(s: Seq<char>) -> Seq<Option<Seq<char>>>
    decreases s.len(),
{
    let start = after_spaces(s);
    if start.len() == 0 {
        Seq::empty()
    } else {
        let (element, rest) = first_element(start);
        let behind = after_spaces(rest);
        if behind.len() > 0 && behind[0] == ',' {
            proof {
                lemma_after_spaces(s);
                lemma_first_element(start);
                lemma_after_spaces(rest);
            }
            seq![element] + array_elements(behind.drop_first())
        } else {
            seq![element]
        }
    }
}

/// The elements of an array text. A text without braces is one element.
pub open spec fn array_text(text: Seq<char>) -> Seq<Option<Seq<char>>> {
    let t = text::trimmed(text);
    if t.len() >= 2 && t[0] == '{' && t.last() == '}' {
        array_elements(t.subrange(1, t.len() - 1))
    } else {
        seq![Some(t)]
    }
}

pub proof fn lemma_after_spaces(s: Seq<char>)
    ensures
        after_spaces(s).len() <= s.len(),
    decreases s.len(),
{
    if s.len() > 0 && s[0] == ' ' {
        lemma_after_spaces(s.drop_first());
    }
}

proof fn lemma_quoted_element(s: Seq<char>)
    ensures
        quoted_element(s).1.len() <= s.len(),
    decreases s.len(),
{
    if s.len() > 0 && s[0] != '"' {
        if s[0] == '\\' {
            if s.len() > 1 {
                lemma_quoted_element(s.skip(2));
            }
        } else {
            lemma_quoted_element(s.drop_first());
        }
    }
}

pub proof fn lemma_first_element(s: Seq<char>)
    ensures
        first_element(s).1.len() <= s.len(),
{
    if s.len() > 0 && s[0] == '"' {
        lemma_quoted_element(s.drop_first());
    } else {
        text::lemma_up_to(s, ',');
    }
}

fn skip_spaces(v: &Vec<char>, from: usize) -> (to: usize)
    requires
        from <= v@.len(),
    ensures
        from <= to <= v@.len(),
        v@.skip(to as int) == after_spaces(v@.skip(from as int)),
{
    let mut i: usize = from;
    while i < v.len() && v[i] == ' '
        invariant
            from <= i <= v@.len(),
            after_spaces(v@.skip(from as int)) == after_spaces(v@.skip(i as int)),
        decreases v@.len() - i,
    {
        assert(v@.skip(i as int).drop_first() =~= v@.skip(i + 1));
        i = i + 1;
    }
    i
}

fn read_quoted(v: &Vec<char>, from: usize) -> (r: (String, usize))
    requires
        from <= v@.len(),
    ensures
        from <= r.1 <= v@.len(),
        r.0@ == quoted_element(v@.skip(from as int)).0,
        v@.skip(r.1 as int) == quoted_element(v@.skip(from as int)).1,
{
    let ghost whole = quoted_element(v@.skip(from as int));
    let mut value = String::new();
    let mut i: usize = from;
    assert(value@ + whole.0 =~= whole.0);
    while i < v.len()
        invariant
            from <= i <= v@.len(),
            whole.0 == value@ + quoted_element(v@.skip(i as int)).0,
            whole.1 == quoted_element(v@.skip(i as int)).1,
            whole == quoted_element(v@.skip(from as int)),
        decreases v@.len() - i,
    {
        let ghost s = v@.skip(i as int);
        let c: char = v[i];
        if c == '"' {
            assert(value@ + Seq::<char>::empty() =~= value@);
            assert(s.drop_first() =~= v@.skip(i + 1));
            return (value, i + 1);
        }
        if c == '\\' {
            if i + 1 == v.len() {
                assert(value@ + Seq::<char>::empty() =~= value@);
                assert(v@.skip(i + 1) =~= Seq::<char>::empty());
                return (value, i + 1);
            }
            let ghost tail = quoted_element(s.skip(2)).0;
            assert(value@ + (seq![v@[i + 1]] + tail) =~= value@.push(v@[i + 1]) + tail);
            assert(s.skip(2) =~= v@.skip(i + 2));
            value.push(v[i + 1]);
            i = i + 2;
        } else {
            let ghost tail = quoted_element(s.drop_first()).0;
            assert(value@ + (seq![c] + tail) =~= value@.push(c) + tail);
            assert(s.drop_first() =~= v@.skip(i + 1));
            value.push(c);
            i = i + 1;
        }
    }
    assert(value@ + Seq::<char>::empty() =~= value@);
    assert(v@.skip(i as int) =~= Seq::<char>::empty());
    (value, i)
}

fn read_element(v: &Vec<char>, from: usize) -> (r: (Option<String>, usize))
    requires
        from < v.len(),
    ensures
        from <= r.1 <= v@.len(),
        text::opt_view(r.0) == first_element(v@.skip(from as int)).0,
        v@.skip(r.1 as int) == first_element(v@.skip(from as int)).1,
{
    let ghost s = v@.skip(from as int);
    if v[from] == '"' {
        assert(s.drop_first() =~= v@.skip(from + 1));
        let (value, to) = read_quoted(v, from + 1);
        (Some(value), to)
    } else {
        let end = comma_from(v, from);
        let word = trim(&slice_of(v, from, end));
        assert(s.skip(text::up_to(s, ',').len() as int) =~= v@.skip(end as int));
        if null_word(&word) {
            (None, end)
        } else {
            (Some(text_of(&word)), end)
        }
    }
}

/// Reads the Postgres text form of an array, `{val1,val2,NULL,...}`. Quoted elements have their
/// backslash escapes resolved; an unquoted `NULL` is `None`.
pub fn parse_pg_array_text(text: &str) -> (items: Vec<Option<String>>)
    ensures
        text::opt_views(items@) == array_text(text@),
{
    let t = trim(&chars_of(text));
    let mut items: Vec<Option<String>> = Vec::new();
    if t.len() < 2 || t[0] != '{' || t[t.len() - 1] != '}' {
        items.push(Some(text_of(&t)));
        assert(text::opt_views(items@) =~= seq![Some(t@)]);
        return items;
    }
    let inner = slice_of(&t, 1, t.len() - 1);
    let ghost whole = array_elements(inner@);
    let mut i: usize = 0;
    assert(inner@.skip(0) =~= inner@);
    assert(text::opt_views(items@) + whole =~= whole);
    loop
        invariant
            i <= inner@.len(),
            whole == text::opt_views(items@) + array_elements(inner@.skip(i as int)),
            whole == array_text(text@),
        decreases inner@.len() - i,
    {
        let start = skip_spaces(&inner, i);
        let ghost before = text::opt_views(items@);
        if start == inner.len() {
            assert(before + Seq::<Option<Seq<char>>>::empty() =~= before);
            return items;
        }
        let (item, end) = read_element(&inner, start);
        let ghost element = text::opt_view(item);
        items.push(item);
        assert(text::opt_views(items@) =~= before.push(element));
        assert(before.push(element) =~= before + seq![element]);
        let behind = skip_spaces(&inner, end);
        if behind < inner.len() && inner[behind] == ',' {
            assert(inner@.skip(behind as int).drop_first() =~= inner@.skip(behind + 1));
            let ghost tail = array_elements(inner@.skip(behind + 1));
            assert(before + (seq![element] + tail) =~= (before + seq![element]) + tail);
            i = behind + 1;
        } else {
            return items;
        }
    }
}

/// Whether an element can stand in an array text without quotes.
pub open spec fn is_plain_element(s: Seq<char>) -> bool {
    &&& s.len() > 0
    &&& forall|i: int|
        0 <= i < s.len() ==> #[trigger] s[i] != ',' && s[i] != '"' && !text::is_white(s[i])
    &&& !text::is_null_word(s)
}

/// Whether `literal` is a way to write `element` in an array text: in quotes with escapes, bare
/// where nothing in it needs quotes, or `NULL` for a missing element.
pub open spec fn writes_element(literal: Seq<char>, element: Option<Seq<char>>) -> bool {
    match element {
        Some(s) => {
            ||| literal == seq!['"'] + text::backslash_escaped(s) + seq!['"']
            ||| is_plain_element(s) && literal == s
        },
        None => literal == seq!['N', 'U', 'L', 'L'],
    }
}

proof fn lemma_quoted_round_trip(s: Seq<char>, rest: Seq<char>)
    ensures
        quoted_element(text::backslash_escaped(s) + (seq!['"'] + rest)) == (s, rest),
    decreases s.len(),
{
    let behind = seq!['"'] + rest;
    let t = text::backslash_escaped(s) + behind;
    if s.len() == 0 {
        assert(t =~= behind);
        assert(t.drop_first() =~= rest);
        assert(s =~= Seq::<char>::empty());
    } else {
        let tail = s.drop_first();
        lemma_quoted_round_trip(tail, rest);
        if s[0] == '"' || s[0] == '\\' {
            assert(t.skip(2) =~= text::backslash_escaped(tail) + behind);
        } else {
            assert(t.drop_first() =~= text::backslash_escaped(tail) + behind);
        }
        assert(seq![s[0]] + tail =~= s);
    }
}

proof fn lemma_first_element_round_trip(
    literal: Seq<char>,
    element: Option<Seq<char>>,
    rest: Seq<char>,
)
    requires
        writes_element(literal, element),
        rest.len() > 0 ==> rest[0] == ',',
    ensures
        literal.len() > 0,
        after_spaces(literal + rest) == literal + rest,
        first_element(literal + rest) == (element, rest),
{
    let t = literal + rest;
    if literal.len() > 0 && literal[0] == '"' {
        let s = element->0;
        assert(t.drop_first() =~= text::backslash_escaped(s) + (seq!['"'] + rest));
        lemma_quoted_round_trip(s, rest);
    } else {
        text::lemma_word_up_to(literal, rest, ',');
        assert(t.skip(literal.len() as int) =~= rest);
        assert(text::trimmed_start(literal) == literal);
        assert(text::trimmed_end(literal) == literal);
    }
}

/// Any list of elements, each written in any of the ways that `writes_element` allows and
/// separated by commas, is read back as that list.
pub proof fn array_elements_round_trip(
    literals: Seq<Seq<char>>,
    elements: Seq<Option<Seq<char>>>,
)
    requires
        literals.len() == elements.len(),
        forall|i: int| 0 <= i < literals.len() ==> #[trigger] writes_element(literals[i], elements[i]),
    ensures
        array_elements(text::joined(literals, seq![','])) == elements,
    decreases literals.len(),
{
    let s = text::joined(literals, seq![',']);
    if literals.len() == 0 {
        assert(s =~= Seq::<char>::empty());
        assert(elements =~= array_elements(s));
    } else {
        assert(writes_element(literals[0], elements[0]));
        if literals.len() == 1 {
            lemma_first_element_round_trip(literals[0], elements[0], Seq::empty());
            assert(s =~= literals[0] + Seq::<char>::empty());
            assert(elements =~= seq![elements[0]]);
        } else {
            let tail = text::joined(literals.drop_first(), seq![',']);
            let rest = seq![','] + tail;
            assert(s =~= literals[0] + rest);
            lemma_first_element_round_trip(literals[0], elements[0], rest);
            assert forall|i: int| 0 <= i < literals.len() - 1 implies #[trigger] writes_element(
                literals.drop_first()[i],
                elements.drop_first()[i],
            ) by {
                assert(writes_element(literals[i + 1], elements[i + 1]));
            }
            array_elements_round_trip(literals.drop_first(), elements.drop_first());
            assert(rest.drop_first() =~= tail);
            assert(elements =~= seq![elements[0]] + elements.drop_first());
        }
    }
}

/// The text of an array is read back as the elements that were written into it.
pub proof fn array_text_round_trip(literals: Seq<Seq<char>>, elements: Seq<Option<Seq<char>>>)
    requires
        literals.len() == elements.len(),
        forall|i: int| 0 <= i < literals.len() ==> #[trigger] writes_element(literals[i], elements[i]),
    ensures
        array_text(seq!['{'] + text::joined(literals, seq![',']) + seq!['}']) == elements,
{
    let inner = text::joined(literals, seq![',']);
    let t = seq!['{'] + inner + seq!['}'];
    array_elements_round_trip(literals, elements);
    assert(text::trimmed_start(t) == t);
    assert(text::trimmed_end(t) == t);
    assert(t.subrange(1, t.len() - 1) =~= inner);
}

} // verus!
