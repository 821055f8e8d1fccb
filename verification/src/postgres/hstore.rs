//! Postgres hstore text, `"k1"=>"v1", "k2"=>NULL`, and its rendering as a JSON object.

use crate::json::JsonValue;
use crate::text;
use crate::text::{
    chars_of, comma_from, null_word, skip_whitespace, slice_of, text_of, trim,
};
use vstd::prelude::*;

verus! {

/// What is wrong with an hstore text.
#[derive(Debug)]
pub enum HstoreError {
    /// A pair does not start with a quote.
    ExpectedKey,
    /// A quoted string has no closing quote.
    Unterminated,
    /// The text ends behind a backslash.
    EndAfterBackslash,
    /// Other characters stand in the place of `=>`.
    ExpectedArrow(String),
}

/// What is wrong with an hstore text, over sequences of characters.
pub enum HstoreFault {
    ExpectedKey,
    Unterminated,
    EndAfterBackslash,
    ExpectedArrow(Seq<char>),
}

impl View for HstoreError {
    type V = HstoreFault;

    open spec fn view(&self) -> HstoreFault {
        match self {
            HstoreError::ExpectedKey => HstoreFault::ExpectedKey,
            HstoreError::Unterminated => HstoreFault::Unterminated,
            HstoreError::EndAfterBackslash => HstoreFault::EndAfterBackslash,
            HstoreError::ExpectedArrow(got) => HstoreFault::ExpectedArrow(got@),
        }
    }
}

impl HstoreFault {
    /// The wording of the error.
    pub open spec fn wording(self) -> Seq<char> {
        match self {
            HstoreFault::ExpectedKey => "expected '\"' at start of hstore key"@,
            HstoreFault::Unterminated => "hstore: unterminated quoted string"@,
            HstoreFault::EndAfterBackslash => "hstore: unexpected end after '\\'"@,
            HstoreFault::ExpectedArrow(s) => "expected '=>' in hstore, got '"@ + s + "'"@,
        }
    }
}

impl HstoreError {
    /// The wording of the error.
    pub fn message(&self) -> (m: String)
        ensures
            m@ == self@.wording(),
    {
        let mut m = String::new();
        match self {
            HstoreError::ExpectedKey => {
                m.append("expected '\"' at start of hstore key");
            },
            HstoreError::Unterminated => {
                m.append("hstore: unterminated quoted string");
            },
            HstoreError::EndAfterBackslash => {
                m.append("hstore: unexpected end after '\\'");
            },
            HstoreError::ExpectedArrow(s) => {
                m.append("expected '=>' in hstore, got '");
                m.append(s.as_str());
                m.append("'");
            },
        }
        assert(m@ =~= self@.wording());
        m
    }
}

/// What a quoted string holds, and what follows it. `s` starts behind the opening quote. A
/// backslash stands for the character behind it.
pub open spec fn quoted_string(s: Seq<char>) -> Result<(Seq<char>, Seq<char>), HstoreFault>
    decreases s.len(),
{
    if s.len() == 0 {
        Err(HstoreFault::Unterminated)
    } else if s[0] == '"' {
        Ok((Seq::empty(), s.drop_first()))
    } else if s[0] == '\\' {
        if s.len() == 1 {
            Err(HstoreFault::EndAfterBackslash)
        } else {
            match quoted_string(s.skip(2)) {
                Ok((value, rest)) => Ok((seq![s[1]] + value, rest)),
                Err(f) => Err(f),
            }
        }
    } else {
        match quoted_string(s.drop_first()) {
            Ok((value, rest)) => Ok((seq![s[0]] + value, rest)),
            Err(f) => Err(f),
        }
    }
}

/// The value at the start of `s`, and what follows it: a quoted string, or unquoted text up to a
/// comma, where the word `NULL` is no value.
pub open spec fn first_value(s: Seq<char>) -> Result<
    (Option<Seq<char>>, Seq<char>),
    HstoreFault,
> {
    if s.len() > 0 && s[0] == '"' {
        match quoted_string(s.drop_first()) {
            Ok((value, rest)) => Ok((Some(value), rest)),
            Err(f) => Err(f),
        }
    } else {
        let word = text::trimmed(text::up_to(s, ','));
        let rest = s.skip(text::up_to(s, ',').len() as int);
        Ok((if text::is_null_word(word) { None } else { Some(word) }, rest))
    }
}

/// The first pair of `s`, which starts with a quote, and what follows it.
pub open spec fn first_pair(s: Seq<char>) -> Result<
    ((Seq<char>, Option<Seq<char>>), Seq<char>),
    HstoreFault,
> {
    match quoted_string(s.drop_first()) {
        Err(f) => Err(f),
        Ok((key, behind_key)) => {
            let arrow = text::trimmed_start(behind_key);
            if arrow.len() >= 2 && arrow[0] == '=' && arrow[1] == '>' {
                match first_value(text::trimmed_start(arrow.skip(2))) {
                    Err(f) => Err(f),
                    Ok((value, rest)) => Ok(((key, value), rest)),
                }
            } else {
                Err(
                    HstoreFault::ExpectedArrow(
                        if arrow.len() < 2 {
                            arrow
                        } else {
                            arrow.take(2)
                        },
                    ),
                )
            }
        },
    }
}

/// The pairs of an hstore text, in the order in which they stand. What follows a pair without a
/// comma between them is left out.
pub open spec fn hstore_pairs(s: Seq<char>) -> Result<
    Seq<(Seq<char>, Option<Seq<char>>)>,
    HstoreFault,
>
    decreases s.len(),
{
    let start = text::trimmed_start(s);
    if start.len() == 0 {
        Ok(Seq::empty())
    } else if start[0] != '"' {
        Err(HstoreFault::ExpectedKey)
    } else {
        match first_pair(start) {
            Err(f) => Err(f),
            Ok((pair, rest)) => {
                let behind = text::trimmed_start(rest);
                if behind.len() > 0 && behind[0] == ',' {
                    proof {
                        text::lemma_trimmed_start(s);
                        lemma_first_pair(start);
                        text::lemma_trimmed_start(rest);
                    }
                    match hstore_pairs(behind.drop_first()) {
                        Err(f) => Err(f),
                        Ok(pairs) => Ok(seq![pair] + pairs),
                    }
                } else {
                    Ok(seq![pair])
                }
            },
        }
    }
}

proof fn lemma_quoted_string(s: Seq<char>)
    ensures
        quoted_string(s) matches Ok(r) ==> r.1.len() < s.len(),
    decreases s.len(),
{
    if s.len() > 0 && s[0] != '"' {
        if s[0] == '\\' {
            if s.len() > 1 {
                lemma_quoted_string(s.skip(2));
            }
        } else {
            lemma_quoted_string(s.drop_first());
        }
    }
}

pub proof fn lemma_first_pair(s: Seq<char>)
    requires
        s.len() > 0,
    ensures
        first_pair(s) matches Ok(r) ==> r.1.len() < s.len(),
{
    lemma_quoted_string(s.drop_first());
    if let Ok((key, behind_key)) = quoted_string(s.drop_first()) {
        let arrow = text::trimmed_start(behind_key);
        text::lemma_trimmed_start(behind_key);
        if arrow.len() >= 2 {
            let value = text::trimmed_start(arrow.skip(2));
            text::lemma_trimmed_start(arrow.skip(2));
            if value.len() > 0 && value[0] == '"' {
                lemma_quoted_string(value.drop_first());
            } else {
                text::lemma_up_to(value, ',');
            }
        }
    }
}

/// Reads a quoted string whose opening quote stands at `from`. The second part of the result is
/// the position behind the closing quote.
pub fn read_quoted_hstore(v: &Vec<char>, from: usize) -> (r: Result<(String, usize), HstoreError>)
    requires
        from < v.len(),
    ensures
        match (r, quoted_string(v@.skip(from + 1))) {
            (Ok((value, to)), Ok((s, rest))) => {
                &&& from < to <= v.len()
                &&& value@ == s
                &&& v@.skip(to as int) == rest
            },
            (Err(e), Err(f)) => e@ == f,
            _ => false,
        },
{
    let ghost whole = quoted_string(v@.skip(from + 1));
    let mut value = String::new();
    let mut i: usize = from + 1;
    proof {
        if let Ok((s, rest)) = whole {
            assert(value@ + s =~= s);
        }
    }
    while i < v.len()
        invariant
            from < i <= v.len(),
            whole == quoted_string(v@.skip(from + 1)),
            match (whole, quoted_string(v@.skip(i as int))) {
                (Ok((s, rest)), Ok((tail, r))) => s == value@ + tail && rest == r,
                (Err(f), Err(g)) => f == g,
                _ => false,
            },
        decreases v.len() - i,
    {
        let ghost s = v@.skip(i as int);
        let c: char = v[i];
        if c == '"' {
            assert(value@ + Seq::<char>::empty() =~= value@);
            assert(s.drop_first() =~= v@.skip(i + 1));
            return Ok((value, i + 1));
        }
        if c == '\\' {
            if i + 1 == v.len() {
                return Err(HstoreError::EndAfterBackslash);
            }
            assert(s.skip(2) =~= v@.skip(i + 2));
            proof {
                if let Ok((tail, r)) = quoted_string(s.skip(2)) {
                    assert(value@ + (seq![v@[i + 1]] + tail) =~= value@.push(v@[i + 1]) + tail);
                }
            }
            value.push(v[i + 1]);
            i = i + 2;
        } else {
            assert(s.drop_first() =~= v@.skip(i + 1));
            proof {
                if let Ok((tail, r)) = quoted_string(s.drop_first()) {
                    assert(value@ + (seq![c] + tail) =~= value@.push(c) + tail);
                }
            }
            value.push(c);
            i = i + 1;
        }
    }
    assert(v@.skip(i as int) =~= Seq::<char>::empty());
    Err(HstoreError::Unterminated)
}

fn read_value(v: &Vec<char>, from: usize) -> (r: Result<(Option<String>, usize), HstoreError>)
    requires
        from <= v.len(),
    ensures
        match (r, first_value(v@.skip(from as int))) {
            (Ok((value, to)), Ok((s, rest))) => {
                &&& from <= to <= v.len()
                &&& text::opt_view(value) == s
                &&& v@.skip(to as int) == rest
            },
            (Err(e), Err(f)) => e@ == f,
            _ => false,
        },
{
    let ghost s = v@.skip(from as int);
    if from < v.len() && v[from] == '"' {
        assert(s.drop_first() =~= v@.skip(from + 1));
        match read_quoted_hstore(v, from) {
            Ok((value, to)) => Ok((Some(value), to)),
            Err(e) => Err(e),
        }
    } else {
        let end = comma_from(v, from);
        let word = trim(&slice_of(v, from, end));
        assert(s.skip(text::up_to(s, ',').len() as int) =~= v@.skip(end as int));
        if null_word(&word) {
            Ok((None, end))
        } else {
            Ok((Some(text_of(&word)), end))
        }
    }
}

fn read_pair(v: &Vec<char>, from: usize) -> (r: Result<
    ((String, Option<String>), usize),
    HstoreError,
>)
    requires
        from < v.len(),
    ensures
        match (r, first_pair(v@.skip(from as int))) {
            (Ok((pair, to)), Ok((p, rest))) => {
                &&& from < to <= v.len()
                &&& pair_view(pair) == p
                &&& v@.skip(to as int) == rest
            },
            (Err(e), Err(f)) => e@ == f,
            _ => false,
        },
{
    assert(v@.skip(from as int).drop_first() =~= v@.skip(from + 1));
    match read_quoted_hstore(v, from) {
        Err(e) => Err(e),
        Ok((key, behind_key)) => {
            let arrow = skip_whitespace(v, behind_key);
            let ghost s = v@.skip(arrow as int);
            if v.len() - arrow >= 2 && v[arrow] == '=' && v[arrow + 1] == '>' {
                assert(s.skip(2) =~= v@.skip(arrow + 2));
                let start = skip_whitespace(v, arrow + 2);
                match read_value(v, start) {
                    Err(e) => Err(e),
                    Ok((value, to)) => Ok(((key, value), to)),
                }
            } else {
                let end: usize = if v.len() - arrow < 2 { v.len() } else { arrow + 2 };
                assert(v@.subrange(arrow as int, end as int) =~= s.take(end - arrow));
                assert(s.take(s.len() as int) =~= s);
                Err(HstoreError::ExpectedArrow(text_of(&slice_of(v, arrow, end))))
            }
        },
    }
}

/// A pair as sequences of characters.
pub open spec fn pair_view(p: (String, Option<String>)) -> (Seq<char>, Option<Seq<char>>) {
    (p.0@, text::opt_view(p.1))
}

/// Pairs as sequences of characters.
pub open spec fn pair_views(s: Seq<(String, Option<String>)>) -> Seq<
    (Seq<char>, Option<Seq<char>>),
> {
    s.map_values(|p: (String, Option<String>)| pair_view(p))
}

/// Reads the pairs of an hstore text, in order.
pub fn parse_hstore_pairs(text: &str) -> (r: Result<Vec<(String, Option<String>)>, HstoreError>)
    ensures
        match (r, hstore_pairs(text::trimmed(text@))) {
            (Ok(v), Ok(s)) => pair_views(v@) == s,
            (Err(e), Err(f)) => e@ == f,
            _ => false,
        },
{
    let v = trim(&chars_of(text));
    let ghost whole = hstore_pairs(v@);
    let mut pairs: Vec<(String, Option<String>)> = Vec::new();
    let mut i: usize = 0;
    assert(v@.skip(0) =~= v@);
    proof {
        if let Ok(s) = whole {
            assert(pair_views(pairs@) + s =~= s);
        }
    }
    loop
        invariant
            i <= v.len(),
            match (whole, hstore_pairs(v@.skip(i as int))) {
                (Ok(s), Ok(tail)) => s == pair_views(pairs@) + tail,
                (Err(f), Err(g)) => f == g,
                _ => false,
            },
            whole == hstore_pairs(text::trimmed(text@)),
        decreases v.len() - i,
    {
        let ghost before = pair_views(pairs@);
        let start = skip_whitespace(&v, i);
        if start == v.len() {
            assert(before + Seq::<(Seq<char>, Option<Seq<char>>)>::empty() =~= before);
            return Ok(pairs);
        }
        if v[start] != '"' {
            return Err(HstoreError::ExpectedKey);
        }
        match read_pair(&v, start) {
            Err(e) => {
                return Err(e);
            },
            Ok((pair, end)) => {
                let ghost p = pair_view(pair);
                pairs.push(pair);
                assert(pair_views(pairs@) =~= before + seq![p]);
                let behind = skip_whitespace(&v, end);
                if behind < v.len() && v[behind] == ',' {
                    assert(v@.skip(behind as int).drop_first() =~= v@.skip(behind + 1));
                    proof {
                        if let Ok(tail) = hstore_pairs(v@.skip(behind + 1)) {
                            assert(before + (seq![p] + tail) =~= (before + seq![p]) + tail);
                        }
                    }
                    i = behind + 1;
                } else {
                    return Ok(pairs);
                }
            },
        }
    }
}

/// The JSON value of an hstore value.
pub open spec fn json_value(value: Option<Seq<char>>) -> JsonValue {
    match value {
        Some(s) => JsonValue::Text(s),
        None => JsonValue::Null,
    }
}

/// `serde_json::Map`, the members of a JSON object.
#[verifier::external_type_specification]
#[verifier::external_body]
#[verifier::reject_recursive_types(K)]
#[verifier::reject_recursive_types(V)]
pub struct ExJsonMap<K, V>(serde_json::Map<K, V>);

/// The members that a `serde_json::Map` holds, by their keys.
pub uninterp spec fn json_members(
    map: serde_json::Map<String, serde_json::Value>,
) -> Map<Seq<char>, JsonValue>;

/// A member of a JSON object as text: its key as a JSON string, and its value.
pub open spec fn member_text(key: Seq<char>, value: JsonValue) -> Seq<char> {
    JsonValue::Text(key).json_text() + seq![':'] + value.json_text()
}

/// The members with the given keys, in that order, as a JSON object.
pub open spec fn object_text(members: Map<Seq<char>, JsonValue>, keys: Seq<Seq<char>>) -> Seq<char> {
    seq!['{'] + text::joined(
        keys.map_values(|k: Seq<char>| member_text(k, members[k])),
        seq![','],
    ) + seq!['}']
}

/// The text of a JSON object with these members: they stand in the order of their keys, with no
/// whitespace between them.
pub open spec fn json_object_text(members: Map<Seq<char>, JsonValue>) -> Seq<char> {
    object_text(members, members.dom().to_sorted_seq(text::string_order()))
}

/// `serde_json::Map::new`: a map without members.
#[verifier::external_body]
fn json_map_new() -> (map: serde_json::Map<String, serde_json::Value>)
    ensures
        json_members(map) == (Map::<Seq<char>, JsonValue>::empty()),
{
    serde_json::Map::new()
}

/// `serde_json::Map::insert`: the key is mapped to the value, a string or `null`, and takes the
/// place of a member that the key had before.
#[verifier::external_body]
fn json_map_insert(
    map: &mut serde_json::Map<String, serde_json::Value>,
    key: String,
    value: Option<String>,
)
    ensures
        json_members(*final(map)) == json_members(*old(map)).insert(
            key@,
            json_value(text::opt_view(value)),
        ),
{
    map.insert(key, serde_json::Value::from(value));
}

/// `to_string` of a `serde_json::Value` that is an object: its members, which the map keeps in the
/// order of their keys, without whitespace between them.
#[verifier::external_body]
fn json_map_to_string(map: serde_json::Map<String, serde_json::Value>) -> (s: String)
    ensures
        s@ == json_object_text(json_members(map)),
{
    serde_json::Value::Object(map).to_string()
}

/// The members of the JSON object for a list of pairs. The last pair of a key decides.
pub open spec fn members_of(pairs: Seq<(Seq<char>, Option<Seq<char>>)>) -> Map<
    Seq<char>,
    JsonValue,
>
    decreases pairs.len(),
{
    if pairs.len() == 0 {
        Map::empty()
    } else {
        members_of(pairs.drop_last()).insert(pairs.last().0, json_value(pairs.last().1))
    }
}

/// The JSON object has a member for the key of each pair, and its value is that of the last pair
/// with the key.
pub proof fn last_pair_decides(pairs: Seq<(Seq<char>, Option<Seq<char>>)>, i: int)
    requires
        0 <= i < pairs.len(),
        forall|k: int| i < k < pairs.len() ==> (#[trigger] pairs[k]).0 != pairs[i].0,
    ensures
        members_of(pairs).dom().contains(pairs[i].0),
        members_of(pairs)[pairs[i].0] == json_value(pairs[i].1),
    decreases pairs.len(),
{
    if i < pairs.len() - 1 {
        let before = pairs.drop_last();
        assert forall|k: int| i < k < before.len() implies (#[trigger] before[k]).0
            != before[i].0 by {
            assert(pairs[k].0 != pairs[i].0);
        }
        last_pair_decides(before, i);
        assert(pairs[pairs.len() - 1].0 != pairs[i].0);
    }
}

/// The JSON object has no member but for the keys of pairs.
pub proof fn members_are_keys(pairs: Seq<(Seq<char>, Option<Seq<char>>)>, key: Seq<char>)
    requires
        members_of(pairs).dom().contains(key),
    ensures
        exists|i: int| 0 <= i < pairs.len() && (#[trigger] pairs[i]).0 == key,
    decreases pairs.len(),
{
    let last = pairs.len() - 1;
    if pairs[last].0 != key {
        let before = pairs.drop_last();
        members_are_keys(before, key);
        let i = choose|i: int| 0 <= i < before.len() && (#[trigger] before[i]).0 == key;
        assert(pairs[i].0 == key);
    }
}

proof fn lemma_members_finite(pairs: Seq<(Seq<char>, Option<Seq<char>>)>)
    ensures
        members_of(pairs).dom().finite(),
    decreases pairs.len(),
{
    if pairs.len() > 0 {
        lemma_members_finite(pairs.drop_last());
    }
}

proof fn lemma_to_seq_has_no_duplicates(keys: Set<Seq<char>>)
    requires
        keys.finite(),
    ensures
        keys.to_seq().no_duplicates(),
    decreases keys.len(),
{
    if keys.len() > 0 {
        let x = keys.choose();
        let rest = keys.remove(x);
        lemma_to_seq_has_no_duplicates(rest);
        rest.lemma_to_seq_to_set_id();
        let tail = rest.to_seq();
        assert(!rest.contains(x));
        assert forall|i: int| 0 <= i < tail.len() implies tail[i] != x by {
            assert(tail.to_set().contains(tail[i]));
        }
        assert(keys.to_seq() == Seq::<Seq<char>>::empty().push(x) + tail);
    }
}

proof fn lemma_same_multiset(a: Seq<Seq<char>>, b: Seq<Seq<char>>)
    requires
        a.no_duplicates(),
        b.no_duplicates(),
        a.to_set() == b.to_set(),
    ensures
        a.to_multiset() == b.to_multiset(),
{
    broadcast use vstd::seq_lib::group_to_multiset_ensures;
    broadcast use vstd::multiset::group_multiset_axioms;

    a.lemma_multiset_has_no_duplicates();
    b.lemma_multiset_has_no_duplicates();
    assert forall|x: Seq<char>| a.to_multiset().count(x) == b.to_multiset().count(x) by {
        assert(a.to_set().contains(x) == a.contains(x));
        assert(b.to_set().contains(x) == b.contains(x));
        assert(a.contains(x) <==> a.to_multiset().count(x) > 0);
        assert(b.contains(x) <==> b.to_multiset().count(x) > 0);
    }
    assert(a.to_multiset() =~= b.to_multiset());
}

/// The text of the JSON object for a list of pairs is written with their keys, each once, in the
/// order of strings: any list of just these keys in that order gives the text.
pub proof fn object_keys_are_in_order(
    pairs: Seq<(Seq<char>, Option<Seq<char>>)>,
    keys: Seq<Seq<char>>,
)
    requires
        keys.no_duplicates(),
        keys.to_set() == members_of(pairs).dom(),
        vstd::relations::sorted_by(keys, text::string_order()),
    ensures
        json_object_text(members_of(pairs)) == object_text(members_of(pairs), keys),
{
    let dom = members_of(pairs).dom();
    let order = text::string_order();
    lemma_members_finite(pairs);
    text::string_order_is_total();
    lemma_to_seq_has_no_duplicates(dom);
    dom.lemma_to_seq_to_set_id();
    dom.to_seq().lemma_sort_by_ensures(order);
    lemma_same_multiset(dom.to_seq(), keys);
    vstd::seq_lib::lemma_sorted_unique(dom.to_sorted_seq(order), keys, order);
}

/// The JSON object for a list of pairs.
pub fn pairs_to_json(pairs: Vec<(String, Option<String>)>) -> (json: String)
    ensures
        json@ == json_object_text(members_of(pair_views(pairs@))),
{
    let mut map = json_map_new();
    let ghost all = pair_views(pairs@);
    for i in 0..pairs.len()
        invariant
            all == pair_views(pairs@),
            json_members(map) == members_of(all.take(i as int)),
    {
        assert(all.take(i + 1).drop_last() =~= all.take(i as int));
        assert(all.take(i + 1).last() == pair_view(pairs@[i as int]));
        let key = pairs[i].0.clone();
        let value = pairs[i].1.clone();
        json_map_insert(&mut map, key, value);
    }
    assert(all.take(pairs@.len() as int) =~= all);
    json_map_to_string(map)
}

/// Renders an hstore text as a JSON object.
pub fn parse_hstore_to_json(text: &str) -> (r: Result<String, HstoreError>)
    ensures
        match (r, hstore_pairs(text::trimmed(text@))) {
            (Ok(json), Ok(pairs)) => json@ == json_object_text(members_of(pairs)),
            (Err(e), Err(f)) => e@ == f,
            _ => false,
        },
{
    match parse_hstore_pairs(text) {
        Ok(pairs) => Ok(pairs_to_json(pairs)),
        Err(e) => Err(e),
    }
}

/// A value as hstore text: in quotes with escapes, or `NULL`.
pub open spec fn value_literal(value: Option<Seq<char>>) -> Seq<char> {
    match value {
        Some(s) => seq!['"'] + text::backslash_escaped(s) + seq!['"'],
        None => seq!['N', 'U', 'L', 'L'],
    }
}

/// A pair as hstore text.
pub open spec fn pair_literal(pair: (Seq<char>, Option<Seq<char>>)) -> Seq<char> {
    seq!['"'] + text::backslash_escaped(pair.0) + seq!['"', '=', '>'] + value_literal(pair.1)
}

/// Pairs as hstore text.
pub open spec fn hstore_literal(pairs: Seq<(Seq<char>, Option<Seq<char>>)>) -> Seq<char> {
    text::joined(
        pairs.map_values(|p: (Seq<char>, Option<Seq<char>>)| pair_literal(p)),
        seq![',', ' '],
    )
}

proof fn lemma_quoted_string_round_trip(s: Seq<char>, rest: Seq<char>)
    ensures
        quoted_string(text::backslash_escaped(s) + (seq!['"'] + rest)) == Ok::<
            (Seq<char>, Seq<char>),
            HstoreFault,
        >((s, rest)),
    decreases s.len(),
{
    let behind = seq!['"'] + rest;
    let t = text::backslash_escaped(s) + behind;
    if s.len() == 0 {
        assert(t =~= behind);
        assert(t.drop_first() =~= rest);
        assert(s =~= Seq::<char>::empty());
    } else {
        let tail = s.drop_first();
        lemma_quoted_string_round_trip(tail, rest);
        if s[0] == '"' || s[0] == '\\' {
            assert(t.skip(2) =~= text::backslash_escaped(tail) + behind);
        } else {
            assert(t.drop_first() =~= text::backslash_escaped(tail) + behind);
        }
        assert(seq![s[0]] + tail =~= s);
    }
}

proof fn lemma_first_pair_round_trip(pair: (Seq<char>, Option<Seq<char>>), rest: Seq<char>)
    requires
        rest.len() > 0 ==> rest[0] == ',',
    ensures
        first_pair(pair_literal(pair) + rest) == Ok::<
            ((Seq<char>, Option<Seq<char>>), Seq<char>),
            HstoreFault,
        >((pair, rest)),
{
    let t = pair_literal(pair) + rest;
    let behind_value = value_literal(pair.1) + rest;
    let behind_key = seq!['=', '>'] + behind_value;
    assert(t.drop_first() =~= text::backslash_escaped(pair.0) + (seq!['"'] + behind_key));
    lemma_quoted_string_round_trip(pair.0, behind_key);
    assert(text::trimmed_start(behind_key) == behind_key);
    assert(behind_key.skip(2) =~= behind_value);
    assert(text::trimmed_start(behind_value) == behind_value);
    match pair.1 {
        Some(s) => {
            assert(behind_value.drop_first() =~= text::backslash_escaped(s) + (seq!['"'] + rest));
            lemma_quoted_string_round_trip(s, rest);
        },
        None => {
            let word = seq!['N', 'U', 'L', 'L'];
            text::lemma_up_to(behind_value, ',');
            let n = text::up_to(behind_value, ',').len();
            assert(n == 4) by {
                if n < 4 {
                    assert(behind_value[n as int] == word[n as int]);
                } else if n > 4 {
                    assert(behind_value[4] == rest[0]);
                }
            }
            assert(text::up_to(behind_value, ',') =~= word);
            assert(text::trimmed_start(word) == word);
            assert(text::trimmed_end(word) == word);
            assert(behind_value.skip(4) =~= rest);
        },
    }
}

proof fn lemma_pairs_round_trip(pairs: Seq<(Seq<char>, Option<Seq<char>>)>)
    ensures
        hstore_pairs(hstore_literal(pairs)) == Ok::<
            Seq<(Seq<char>, Option<Seq<char>>)>,
            HstoreFault,
        >(pairs),
    decreases pairs.len(),
{
    let literals = pairs.map_values(|p: (Seq<char>, Option<Seq<char>>)| pair_literal(p));
    let s = hstore_literal(pairs);
    if pairs.len() == 0 {
        assert(s =~= Seq::<char>::empty());
        assert(pairs =~= Seq::<(Seq<char>, Option<Seq<char>>)>::empty());
    } else if pairs.len() == 1 {
        lemma_first_pair_round_trip(pairs[0], Seq::empty());
        assert(s =~= pair_literal(pairs[0]) + Seq::<char>::empty());
        assert(text::trimmed_start(s) == s);
        assert(pairs =~= seq![pairs[0]]);
    } else {
        let others = pairs.drop_first();
        let tail = hstore_literal(others);
        let rest = seq![',', ' '] + tail;
        assert(literals.drop_first() =~= others.map_values(
            |p: (Seq<char>, Option<Seq<char>>)| pair_literal(p),
        ));
        assert(s =~= pair_literal(pairs[0]) + rest);
        lemma_first_pair_round_trip(pairs[0], rest);
        lemma_pairs_round_trip(others);
        assert(text::trimmed_start(s) == s);
        assert(text::trimmed_start(rest) == rest);
        let spaced = seq![' '] + tail;
        assert(rest.drop_first() =~= spaced);
        assert(spaced.drop_first() =~= tail);
        assert(text::trimmed_start(spaced) == text::trimmed_start(tail));
        assert(hstore_pairs(spaced) == hstore_pairs(tail));
        assert(pairs =~= seq![pairs[0]] + others);
    }
}

/// The hstore text of any list of pairs is read back as that list.
pub proof fn hstore_round_trip(pairs: Seq<(Seq<char>, Option<Seq<char>>)>)
    ensures
        hstore_pairs(text::trimmed(hstore_literal(pairs))) == Ok::<
            Seq<(Seq<char>, Option<Seq<char>>)>,
            HstoreFault,
        >(pairs),
{
    let literals = pairs.map_values(|p: (Seq<char>, Option<Seq<char>>)| pair_literal(p));
    let s = hstore_literal(pairs);
    lemma_pairs_round_trip(pairs);
    if pairs.len() > 0 {
        assert forall|i: int| 0 <= i < literals.len() implies #[trigger] literals[i].len() > 0 by {
            assert(literals[i] == pair_literal(pairs[i]));
        }
        text::joined_ends(literals, seq![',', ' ']);
        assert(literals.last() == pair_literal(pairs.last()));
    }
    assert(text::trimmed_start(s) == s);
    assert(text::trimmed_end(s) == s);
}

} // verus!
