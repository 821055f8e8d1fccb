//! Plain-text building blocks: whitespace, trimming, and strings as sequences of characters.

use vstd::prelude::*;

verus! {

/// `String::push` of the standard library: the character goes to the end, and nothing else
/// changes.
pub assume_specification[ String::push ](s: &mut String, c: char)
    ensures
        final(s)@ == old(s)@.push(c),
;

/// The characters of a string, in order.
pub fn chars_of(s: &str) -> (v: Vec<char>)
    ensures
        v@ == s@,
{
    let mut v: Vec<char> = Vec::new();
    for c in it: s.chars()
        invariant
            v@ == it.seq().take(it.index()),
            it.seq() == s@,
    {
        v.push(c);
    }
    v
}

/// The string made of the characters of `v`.
pub fn text_of(v: &Vec<char>) -> (s: String)
    ensures
        s@ == v@,
{
    let mut s = String::new();
    for i in 0..v.len()
        invariant
            s@ == v@.take(i as int),
    {
        s.push(v[i]);
        assert(v@.take(i + 1) =~= v@.take(i as int).push(v@[i as int]));
    }
    s
}

/// The characters with the Unicode property `White_Space`.
pub open spec fn is_white(c: char) -> bool {
    let u = c as u32;
    ||| 0x09 <= u <= 0x0D
    ||| u == 0x20
    ||| u == 0x85
    ||| u == 0xA0
    ||| u == 0x1680
    ||| 0x2000 <= u <= 0x200A
    ||| u == 0x2028
    ||| u == 0x2029
    ||| u == 0x202F
    ||| u == 0x205F
    ||| u == 0x3000
}

/// Whether `c` is Unicode whitespace.
pub fn is_whitespace(c: char) -> (b: bool)
    ensures
        b == is_white(c),
{
    let u: u32 = c as u32;
    (0x09 <= u && u <= 0x0D) || u == 0x20 || u == 0x85 || u == 0xA0 || u == 0x1680 || (0x2000 <= u
        && u <= 0x200A) || u == 0x2028 || u == 0x2029 || u == 0x202F || u == 0x205F || u == 0x3000
}

/// `s` without its leading whitespace.
pub open spec fn trimmed_start(s: Seq<char>) -> Seq<char>
    decreases s.len(),
{
    if s.len() > 0 && is_white(s[0]) {
        trimmed_start(s.drop_first())
    } else {
        s
    }
}

/// `s` without its trailing whitespace.
pub open spec fn trimmed_end(s: Seq<char>) -> Seq<char>
    decreases s.len(),
{
    if s.len() > 0 && is_white(s.last()) {
        trimmed_end(s.drop_last())
    } else {
        s
    }
}

/// `s` without leading and trailing whitespace.
pub open spec fn trimmed(s: Seq<char>) -> Seq<char> {
    trimmed_end(trimmed_start(s))
}

pub proof fn lemma_trimmed_start(s: Seq<char>)
    ensures
        trimmed_start(s).len() <= s.len(),
    decreases s.len(),
{
    if s.len() > 0 && is_white(s[0]) {
        lemma_trimmed_start(s.drop_first());
    }
}

/// Whether `s` is whitespace throughout.
pub open spec fn all_white(s: Seq<char>) -> bool {
    forall|i: int| 0 <= i < s.len() ==> is_white(#[trigger] s[i])
}

/// Trimming takes whitespace round a text away, and leaves a text alone that neither starts nor
/// ends with whitespace.
pub proof fn trim_takes_padding(lead: Seq<char>, s: Seq<char>, tail: Seq<char>)
    requires
        all_white(lead),
        all_white(tail),
        s.len() > 0 ==> !is_white(s[0]) && !is_white(s.last()),
    ensures
        trimmed(lead + s + tail) == s,
    decreases lead.len() + tail.len(),
{
    let t = lead + s + tail;
    if lead.len() > 0 {
        assert(t[0] == lead[0]);
        assert(t.drop_first() =~= lead.drop_first() + s + tail);
        trim_takes_padding(lead.drop_first(), s, tail);
    } else if s.len() == 0 {
        if tail.len() > 0 {
            assert(t.drop_first() =~= lead + s + tail.drop_first());
            trim_takes_padding(lead, s, tail.drop_first());
        } else {
            assert(t =~= s);
        }
    } else {
        assert(t[0] == s[0]);
        if tail.len() > 0 {
            assert(t.last() == tail.last());
            assert(t.drop_last() =~= lead + s + tail.drop_last());
            assert(t.drop_last()[0] == s[0]);
            trim_takes_padding(lead, s, tail.drop_last());
        } else {
            assert(t =~= s);
        }
    }
}

/// The position of the first character of `v` at or after `from` that is no whitespace.
pub fn skip_whitespace(v: &Vec<char>, from: usize) -> (to: usize)
    requires
        from <= v@.len(),
    ensures
        from <= to <= v@.len(),
        v@.skip(to as int) == trimmed_start(v@.skip(from as int)),
{
    let mut i: usize = from;
    while i < v.len() && is_whitespace(v[i])
        invariant
            from <= i <= v@.len(),
            trimmed_start(v@.skip(from as int)) == trimmed_start(v@.skip(i as int)),
        decreases v@.len() - i,
    {
        assert(v@.skip(i as int).drop_first() =~= v@.skip(i + 1));
        i = i + 1;
    }
    i
}

/// A copy of `v` without leading and trailing whitespace.
pub fn trim(v: &Vec<char>) -> (t: Vec<char>)
    ensures
        t@ == trimmed(v@),
{
    assert(v@.skip(0) =~= v@);
    let lo: usize = skip_whitespace(v, 0);
    let mut hi: usize = v.len();
    let ghost rest = v@.skip(lo as int);
    assert(rest.take(hi - lo) =~= rest);
    while lo < hi && is_whitespace(v[hi - 1])
        invariant
            lo <= hi <= v@.len(),
            rest == v@.skip(lo as int),
            trimmed_end(rest) == trimmed_end(rest.take(hi - lo)),
        decreases hi,
    {
        assert(rest.take(hi - lo).drop_last() =~= rest.take(hi - lo - 1));
        hi = hi - 1;
    }
    assert(rest.take(hi - lo) =~= v@.subrange(lo as int, hi as int));
    slice_of(v, lo, hi)
}

/// A copy of the characters of `v` from `lo` up to `hi`.
pub fn slice_of(v: &Vec<char>, lo: usize, hi: usize) -> (t: Vec<char>)
    requires
        lo <= hi <= v@.len(),
    ensures
        t@ == v@.subrange(lo as int, hi as int),
{
    let mut t: Vec<char> = Vec::new();
    let mut i: usize = lo;
    while i < hi
        invariant
            lo <= i <= hi <= v@.len(),
            t@ == v@.subrange(lo as int, i as int),
        decreases hi - i,
    {
        t.push(v[i]);
        i = i + 1;
        assert(v@.subrange(lo as int, i as int) =~= v@.subrange(lo as int, i - 1).push(v@[i - 1]));
    }
    t
}

/// Whether `s` starts with `head`.
pub open spec fn starts_with(s: Seq<char>, head: Seq<char>) -> bool {
    head.len() <= s.len() && s.take(head.len() as int) == head
}

/// Whether `s` ends with `tail`.
pub open spec fn ends_with(s: Seq<char>, tail: Seq<char>) -> bool {
    tail.len() <= s.len() && s.skip(s.len() - tail.len()) == tail
}

/// The characters of `s` before the first `d`, or all of them.
pub open spec fn up_to(s: Seq<char>, d: char) -> Seq<char>
    decreases s.len(),
{
    if s.len() == 0 || s[0] == d {
        Seq::empty()
    } else {
        seq![s[0]] + up_to(s.drop_first(), d)
    }
}

pub proof fn lemma_up_to(s: Seq<char>, d: char)
    ensures
        up_to(s, d).len() <= s.len(),
        up_to(s, d) == s.take(up_to(s, d).len() as int),
        forall|i: int| 0 <= i < up_to(s, d).len() ==> s[i] != d,
        up_to(s, d).len() < s.len() ==> s[up_to(s, d).len() as int] == d,
    decreases s.len(),
{
    if s.len() > 0 && s[0] != d {
        let t = s.drop_first();
        lemma_up_to(t, d);
        assert(up_to(s, d) =~= s.take(up_to(s, d).len() as int));
        assert forall|i: int| 0 <= i < up_to(s, d).len() implies s[i] != d by {
            if i > 0 {
                assert(s[i] == t[i - 1]);
            }
        }
        if up_to(s, d).len() < s.len() {
            assert(s[up_to(s, d).len() as int] == t[up_to(t, d).len() as int]);
        }
    }
}

pub proof fn lemma_word_up_to(s: Seq<char>, rest: Seq<char>, d: char)
    requires
        forall|i: int| 0 <= i < s.len() ==> s[i] != d,
        rest.len() > 0 ==> rest[0] == d,
    ensures
        up_to(s + rest, d) == s,
    decreases s.len(),
{
    if s.len() == 0 {
        assert(s + rest =~= rest);
        assert(s =~= up_to(rest, d));
    } else {
        assert((s + rest).drop_first() =~= s.drop_first() + rest);
        lemma_word_up_to(s.drop_first(), rest, d);
        assert(seq![s[0]] + s.drop_first() =~= s);
    }
}

/// The parts of `s` between its `d`s.
pub open spec fn split_at(s: Seq<char>, d: char) -> Seq<Seq<char>>
    decreases s.len(),
{
    let word = up_to(s, d);
    if word.len() == s.len() {
        seq![word]
    } else {
        proof {
            lemma_up_to(s, d);
        }
        seq![word] + split_at(s.skip(word.len() as int + 1), d)
    }
}

pub proof fn lemma_split_word(s: Seq<char>, d: char)
    requires
        forall|i: int| 0 <= i < s.len() ==> s[i] != d,
    ensures
        split_at(s, d) == seq![s],
{
    lemma_word_up_to(s, Seq::empty(), d);
    assert(s + Seq::<char>::empty() =~= s);
}

pub proof fn lemma_split_add(a: Seq<char>, b: Seq<char>, d: char)
    ensures
        split_at(a + seq![d] + b, d) == split_at(a, d) + split_at(b, d),
    decreases a.len(),
{
    let s = a + seq![d] + b;
    let word = up_to(a, d);
    lemma_up_to(a, d);
    let n = word.len() as int;
    assert(s =~= word + s.skip(n));
    assert(s.skip(n)[0] == d);
    lemma_word_up_to(word, s.skip(n), d);
    lemma_up_to(s, d);
    if n == a.len() {
        assert(s.skip(n + 1) =~= b);
    } else {
        lemma_split_add(a.skip(n + 1), b, d);
        assert(s.skip(n + 1) =~= a.skip(n + 1) + seq![d] + b);
        assert(seq![word] + (split_at(a.skip(n + 1), d) + split_at(b, d)) =~= (seq![word]
            + split_at(a.skip(n + 1), d)) + split_at(b, d));
    }
}

pub proof fn lemma_split_parts(s: Seq<char>, d: char, k: int)
    requires
        0 <= k < split_at(s, d).len(),
    ensures
        forall|i: int| 0 <= i < split_at(s, d)[k].len() ==> split_at(s, d)[k][i] != d,
    decreases s.len(),
{
    let word = up_to(s, d);
    lemma_up_to(s, d);
    if k > 0 {
        let tail = s.skip(word.len() as int + 1);
        assert(split_at(s, d)[k] == split_at(tail, d)[k - 1]);
        lemma_split_parts(tail, d, k - 1);
    }
}

/// The lines of a text whose lines are each ended by a line feed.
pub open spec fn lines_of(s: Seq<char>) -> Seq<Seq<char>> {
    split_at(s, '\n').drop_last()
}

/// The texts, each ended by a line feed, one behind the other.
pub open spec fn ended_lines(texts: Seq<Seq<char>>) -> Seq<char>
    decreases texts.len(),
{
    if texts.len() == 0 {
        Seq::empty()
    } else {
        texts[0].push('\n') + ended_lines(texts.drop_first())
    }
}

/// Texts without line feeds, each ended by one, are the lines of what they make together.
pub proof fn lines_round_trip(texts: Seq<Seq<char>>)
    requires
        forall|k: int, i: int|
            0 <= k < texts.len() && 0 <= i < texts[k].len() ==> #[trigger] texts[k][i] != '\n',
    ensures
        lines_of(ended_lines(texts)) == texts,
    decreases texts.len(),
{
    let none = Seq::<char>::empty();
    lemma_split_word(none, '\n');
    if texts.len() == 0 {
        assert(lines_of(ended_lines(texts)) =~= texts);
    } else {
        let tail = texts.drop_first();
        let rest = ended_lines(tail);
        assert forall|k: int, i: int|
            0 <= k < tail.len() && 0 <= i < tail[k].len() implies #[trigger] tail[k][i] != '\n' by {
            assert(texts[k + 1][i] != '\n');
        }
        lines_round_trip(tail);
        assert forall|i: int| 0 <= i < texts[0].len() implies texts[0][i] != '\n' by {}
        lemma_split_word(texts[0], '\n');
        lemma_split_add(texts[0], rest, '\n');
        assert(ended_lines(texts) =~= texts[0] + seq!['\n'] + rest);
        assert(split_at(rest, '\n').len() > 0);
        assert((seq![texts[0]] + split_at(rest, '\n')).drop_last() =~= seq![texts[0]]
            + split_at(rest, '\n').drop_last());
        assert(seq![texts[0]] + tail =~= texts);
    }
}

/// The position of the first comma of `v` at or after `from`, or the end.
pub fn comma_from(v: &Vec<char>, from: usize) -> (end: usize)
    requires
        from <= v@.len(),
    ensures
        from <= end <= v@.len(),
        v@.subrange(from as int, end as int) == up_to(v@.skip(from as int), ','),
        end == from + up_to(v@.skip(from as int), ',').len(),
{
    let ghost s = v@.skip(from as int);
    let ghost word = up_to(s, ',');
    proof {
        lemma_up_to(s, ',');
    }
    let mut i: usize = from;
    while i < v.len() && v[i] != ','
        invariant
            from <= i <= v@.len(),
            s == v@.skip(from as int),
            forall|k: int| 0 <= k < word.len() ==> s[k] != ',',
            word.len() < s.len() ==> s[word.len() as int] == ',',
            i - from <= word.len() <= s.len(),
        decreases v@.len() - i,
    {
        assert(s[i - from] == v@[i as int]);
        i = i + 1;
    }
    if i < v.len() {
        assert(s[i - from] == v@[i as int]);
    }
    assert(v@.subrange(from as int, i as int) =~= s.take(i - from));
    i
}

/// Whether two texts are the same.
pub fn same_text(a: &str, b: &str) -> (r: bool)
    ensures
        r == (a@ == b@),
{
    let x = chars_of(a);
    let y = chars_of(b);
    if x.len() != y.len() {
        return false;
    }
    for i in 0..x.len()
        invariant
            x@.len() == y@.len(),
            forall|k: int| 0 <= k < i ==> x@[k] == y@[k],
            x@ == a@,
            y@ == b@,
    {
        if x[i] != y[i] {
            return false;
        }
    }
    assert(x@ =~= y@);
    true
}

/// Whether `s` is the word `null`, in any mix of cases.
pub open spec fn is_null_word(s: Seq<char>) -> bool {
    &&& s.len() == 4
    &&& (s[0] == 'n' || s[0] == 'N')
    &&& (s[1] == 'u' || s[1] == 'U')
    &&& (s[2] == 'l' || s[2] == 'L')
    &&& (s[3] == 'l' || s[3] == 'L')
}

/// Whether the characters are the word `null`, in any mix of cases.
pub fn null_word(v: &Vec<char>) -> (b: bool)
    ensures
        b == is_null_word(v@),
{
    v.len() == 4 && (v[0] == 'n' || v[0] == 'N') && (v[1] == 'u' || v[1] == 'U') && (v[2] == 'l'
        || v[2] == 'L') && (v[3] == 'l' || v[3] == 'L')
}

/// An optional value by its view.
pub open spec fn opt_view<T: View>(o: Option<T>) -> Option<T::V> {
    match o {
        Some(x) => Some(x@),
        None => None,
    }
}

/// Optional values by their views.
pub open spec fn opt_views<T: View>(s: Seq<Option<T>>) -> Seq<Option<T::V>> {
    s.map_values(|o: Option<T>| opt_view(o))
}

/// Strings as sequences of characters.
pub open spec fn views(s: Seq<String>) -> Seq<Seq<char>> {
    s.map_values(|t: String| t@)
}

/// Whether `a` does not stand behind `b` in the order of strings, character by character.
pub open spec fn is_at_most(a: Seq<char>, b: Seq<char>) -> bool
    decreases a.len(),
{
    if a.len() == 0 {
        true
    } else if b.len() == 0 {
        false
    } else if a[0] != b[0] {
        a[0] < b[0]
    } else {
        is_at_most(a.drop_first(), b.drop_first())
    }
}

/// The order of strings, as a function.
pub open spec fn string_order() -> spec_fn(Seq<char>, Seq<char>) -> bool {
    |a: Seq<char>, b: Seq<char>| is_at_most(a, b)
}

proof fn lemma_order_connects(a: Seq<char>, b: Seq<char>)
    ensures
        is_at_most(a, a),
        is_at_most(a, b) || is_at_most(b, a),
        is_at_most(a, b) && is_at_most(b, a) ==> a == b,
    decreases a.len(),
{
    if a.len() == 0 {
        if b.len() == 0 {
            assert(a =~= b);
        }
    } else {
        lemma_order_connects(a.drop_first(), a.drop_first());
        if b.len() > 0 && a[0] == b[0] {
            lemma_order_connects(a.drop_first(), b.drop_first());
            if a.drop_first() == b.drop_first() {
                assert(a =~= seq![a[0]] + a.drop_first());
                assert(b =~= seq![b[0]] + b.drop_first());
            }
        }
    }
}

proof fn lemma_order_transitive(a: Seq<char>, b: Seq<char>, c: Seq<char>)
    requires
        is_at_most(a, b),
        is_at_most(b, c),
    ensures
        is_at_most(a, c),
    decreases a.len(),
{
    if a.len() > 0 && b.len() > 0 && c.len() > 0 && a[0] == b[0] && b[0] == c[0] {
        lemma_order_transitive(a.drop_first(), b.drop_first(), c.drop_first());
    }
}

/// The order of strings is total: any two strings are in order one way or the other, and both ways
/// only where they are the same.
pub proof fn string_order_is_total()
    ensures
        vstd::relations::total_ordering(string_order()),
{
    let order = string_order();
    assert forall|a: Seq<char>| #[trigger] order(a, a) by {
        lemma_order_connects(a, a);
    }
    assert forall|a: Seq<char>, b: Seq<char>| #[trigger] order(a, b) && #[trigger] order(
        b,
        a,
    ) implies a == b by {
        lemma_order_connects(a, b);
    }
    assert forall|a: Seq<char>, b: Seq<char>, c: Seq<char>| #[trigger]
        order(a, b) && #[trigger] order(b, c) implies order(a, c) by {
        lemma_order_transitive(a, b, c);
    }
    assert forall|a: Seq<char>, b: Seq<char>| #[trigger] order(a, b) || #[trigger] order(b, a) by {
        lemma_order_connects(a, b);
    }
}

/// `s` with a backslash before each quote and each backslash.
pub open spec fn backslash_escaped(s: Seq<char>) -> Seq<char>
    decreases s.len(),
{
    if s.len() == 0 {
        Seq::empty()
    } else if s[0] == '"' || s[0] == '\\' {
        seq!['\\', s[0]] + backslash_escaped(s.drop_first())
    } else {
        seq![s[0]] + backslash_escaped(s.drop_first())
    }
}

/// The parts one behind the other, with `sep` between two of them.
pub open spec fn joined(parts: Seq<Seq<char>>, sep: Seq<char>) -> Seq<char>
    decreases parts.len(),
{
    if parts.len() == 0 {
        Seq::empty()
    } else if parts.len() == 1 {
        parts[0]
    } else {
        parts[0] + sep + joined(parts.drop_first(), sep)
    }
}

/// Joins the parts with `sep` between two of them.
pub fn join(parts: &Vec<String>, sep: &str) -> (out: String)
    ensures
        out@ == joined(views(parts@), sep@),
{
    let ghost all = views(parts@);
    let mut out = String::new();
    if parts.len() == 0 {
        return out;
    }
    out.append(parts[0].as_str());
    assert(out@ =~= all[0]);
    assert(all.len() > 1 ==> all.skip(1) =~= all.drop_first());
    assert(joined(all, sep@) =~= out@ + joined_behind(all.skip(1), sep@));
    for i in 1..parts.len()
        invariant
            all == views(parts@),
            joined(all, sep@) == out@ + joined_behind(all.skip(i as int), sep@),
    {
        let ghost before = out@;
        let ghost rest = all.skip(i as int);
        out.append(sep);
        out.append(parts[i].as_str());
        assert(rest.drop_first() =~= all.skip(i + 1));
        assert(out@ =~= before + sep@ + rest[0]);
        assert(out@ + joined_behind(all.skip(i + 1), sep@) =~= before + joined_behind(rest, sep@));
    }
    assert(out@ + joined_behind(all.skip(parts@.len() as int), sep@) =~= out@);
    out
}

/// What stands behind a part when `parts` follow it.
pub open spec fn joined_behind(parts: Seq<Seq<char>>, sep: Seq<char>) -> Seq<char> {
    if parts.len() == 0 {
        Seq::empty()
    } else {
        sep + joined(parts, sep)
    }
}

/// Joined parts, none of them empty, start with the start of the first part and end with the end
/// of the last.
pub proof fn joined_ends(parts: Seq<Seq<char>>, sep: Seq<char>)
    requires
        parts.len() > 0,
        forall|i: int| 0 <= i < parts.len() ==> #[trigger] parts[i].len() > 0,
    ensures
        joined(parts, sep).len() > 0,
        joined(parts, sep)[0] == parts[0][0],
        joined(parts, sep).last() == parts.last().last(),
    decreases parts.len(),
{
    if parts.len() > 1 {
        joined_ends(parts.drop_first(), sep);
    }
}

} // verus!
