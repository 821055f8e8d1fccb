//! Pieces of SQL text: quoted identifiers and literals, and lists of them.

use crate::text;
use crate::text::{chars_of, same_text};
use vstd::prelude::*;

verus! {

/// `s` with each `q` written twice.
pub open spec fn doubled(s: Seq<char>, q: char) -> Seq<char>
    decreases s.len(),
{
    if s.len() == 0 {
        Seq::empty()
    } else if s[0] == q {
        seq![q, q] + doubled(s.drop_first(), q)
    } else {
        seq![s[0]] + doubled(s.drop_first(), q)
    }
}

/// `s` between two `q`s, with each `q` in it written twice.
pub open spec fn quoted(s: Seq<char>, q: char) -> Seq<char> {
    seq![q] + doubled(s, q) + seq![q]
}

/// A quoted identifier.
pub open spec fn ident(name: Seq<char>) -> Seq<char> {
    quoted(name, '"')
}

/// Writes `s` between two `q`s, with each `q` in it written twice.
pub fn quote(s: &str, q: char) -> (r: String)
    ensures
        r@ == quoted(s@, q),
{
    let v = chars_of(s);
    let mut r = String::new();
    r.push(q);
    assert(v@.skip(0) =~= v@);
    for i in 0..v.len()
        invariant
            v@ == s@,
            seq![q] + doubled(s@, q) == r@ + doubled(v@.skip(i as int), q),
    {
        let ghost before = r@;
        let ghost rest = v@.skip(i as int);
        let c: char = v[i];
        assert(rest.drop_first() =~= v@.skip(i + 1));
        if c == q {
            r.push(q);
            r.push(q);
            assert(r@ =~= before + seq![q, q]);
        } else {
            r.push(c);
            assert(r@ =~= before + seq![c]);
        }
        assert(r@ + doubled(rest.drop_first(), q) =~= before + doubled(rest, q));
    }
    assert(r@ + doubled(v@.skip(v@.len() as int), q) =~= r@);
    r.push(q);
    assert(r@ =~= quoted(s@, q));
    r
}

/// Quotes a Postgres identifier, escaping embedded double quotes.
pub fn quote_ident(name: &str) -> (r: String)
    ensures
        r@ == ident(name@),
{
    quote(name, '"')
}

/// What the database takes a text for that starts with a quoted piece: the piece without its
/// quotes, and what stands behind it. The piece ends at the first `q` that is not written twice.
pub open spec fn quoted_reading(s: Seq<char>, q: char) -> Option<(Seq<char>, Seq<char>)> {
    if s.len() > 0 && s[0] == q {
        piece_reading(s.drop_first(), q)
    } else {
        None
    }
}

/// What the database takes the text behind an opening `q` for.
pub open spec fn piece_reading(s: Seq<char>, q: char) -> Option<(Seq<char>, Seq<char>)>
    decreases s.len(),
{
    if s.len() == 0 {
        None
    } else if s[0] != q {
        match piece_reading(s.drop_first(), q) {
            Some((piece, rest)) => Some((seq![s[0]] + piece, rest)),
            None => None,
        }
    } else if s.len() > 1 && s[1] == q {
        match piece_reading(s.skip(2), q) {
            Some((piece, rest)) => Some((seq![q] + piece, rest)),
            None => None,
        }
    } else {
        Some((Seq::empty(), s.drop_first()))
    }
}

proof fn lemma_piece_round_trip(s: Seq<char>, q: char, rest: Seq<char>)
    requires
        rest.len() > 0 ==> rest[0] != q,
    ensures
        piece_reading(doubled(s, q) + (seq![q] + rest), q) == Some((s, rest)),
    decreases s.len(),
{
    let behind = seq![q] + rest;
    let t = doubled(s, q) + behind;
    if s.len() == 0 {
        assert(t =~= behind);
        assert(t.drop_first() =~= rest);
        assert(s =~= Seq::<char>::empty());
    } else {
        lemma_piece_round_trip(s.drop_first(), q, rest);
        let tail = doubled(s.drop_first(), q) + behind;
        if s[0] == q {
            assert(t.skip(2) =~= tail);
        } else {
            assert(t.drop_first() =~= tail);
        }
        assert(seq![s[0]] + s.drop_first() =~= s);
    }
}

/// A quoted text is taken for exactly the text that was quoted, whatever is in it, and what stands
/// behind it stays what it was.
pub proof fn quote_round_trip(s: Seq<char>, q: char, rest: Seq<char>)
    requires
        rest.len() > 0 ==> rest[0] != q,
    ensures
        quoted_reading(quoted(s, q) + rest, q) == Some((s, rest)),
{
    let t = quoted(s, q) + rest;
    lemma_piece_round_trip(s, q, rest);
    assert(t.drop_first() =~= doubled(s, q) + (seq![q] + rest));
}

/// Quoted identifiers, each behind `prefix`.
pub open spec fn idents(names: Seq<Seq<char>>, prefix: Seq<char>) -> Seq<Seq<char>> {
    names.map_values(|c: Seq<char>| prefix + ident(c))
}

/// An equation for each name: the identifier behind `prefix`, and the staged column of that name.
pub open spec fn equations(names: Seq<Seq<char>>, prefix: Seq<char>) -> Seq<Seq<char>> {
    names.map_values(|c: Seq<char>| prefix + ident(c) + " = s."@ + ident(c))
}

/// Quotes each name as an identifier and puts `prefix` before it.
pub fn ident_list(names: &Vec<String>, prefix: &str) -> (parts: Vec<String>)
    ensures
        text::views(parts@) == idents(text::views(names@), prefix@),
{
    let ghost all = idents(text::views(names@), prefix@);
    let mut parts: Vec<String> = Vec::new();
    for i in 0..names.len()
        invariant
            all == idents(text::views(names@), prefix@),
            text::views(parts@) == all.take(i as int),
    {
        let ghost before = text::views(parts@);
        let mut part = String::new();
        part.append(prefix);
        let name = quote_ident(names[i].as_str());
        part.append(name.as_str());
        assert(part@ =~= all[i as int]);
        parts.push(part);
        assert(text::views(parts@) =~= before.push(all[i as int]));
        assert(text::views(parts@) =~= all.take(i + 1));
    }
    assert(text::views(parts@) =~= all);
    parts
}

/// Writes an equation for each name.
pub fn equation_list(names: &Vec<String>, prefix: &str) -> (parts: Vec<String>)
    ensures
        text::views(parts@) == equations(text::views(names@), prefix@),
{
    let ghost all = equations(text::views(names@), prefix@);
    let mut parts: Vec<String> = Vec::new();
    for i in 0..names.len()
        invariant
            all == equations(text::views(names@), prefix@),
            text::views(parts@) == all.take(i as int),
    {
        let ghost before = text::views(parts@);
        let mut part = String::new();
        part.append(prefix);
        let name = quote_ident(names[i].as_str());
        part.append(name.as_str());
        part.append(" = s.");
        part.append(name.as_str());
        assert(part@ =~= all[i as int]);
        parts.push(part);
        assert(text::views(parts@) =~= before.push(all[i as int]));
        assert(text::views(parts@) =~= all.take(i + 1));
    }
    assert(text::views(parts@) =~= all);
    parts
}

/// Whether `name` is one of the names.
pub fn is_listed(names: &Vec<String>, name: &str) -> (b: bool)
    ensures
        b == text::views(names@).contains(name@),
{
    for i in 0..names.len()
        invariant
            forall|k: int| 0 <= k < i ==> #[trigger] text::views(names@)[k] != name@,
    {
        if same_text(names[i].as_str(), name) {
            assert(text::views(names@)[i as int] == name@);
            return true;
        }
    }
    false
}

} // verus!
