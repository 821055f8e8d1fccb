//! File paths as text, with `/` between their components.

use crate::text;
use crate::text::{chars_of, slice_of, text_of};
use vstd::prelude::*;

verus! {

/// The path of `name` in the directory `dir`. An absolute `name` stands for itself.
pub open spec fn joined_path(dir: Seq<char>, name: Seq<char>) -> Seq<char> {
    if name.len() > 0 && name[0] == '/' {
        name
    } else if dir.len() == 0 || dir.last() == '/' {
        dir + name
    } else {
        dir.push('/') + name
    }
}

/// The path of `name` in the directory `dir`.
pub fn path_join(dir: &str, name: &str) -> (path: String)
    ensures
        path@ == joined_path(dir@, name@),
{
    let d = chars_of(dir);
    let n = chars_of(name);
    if n.len() > 0 && n[0] == '/' {
        return name.to_owned();
    }
    let mut path = dir.to_owned();
    if d.len() > 0 && d[d.len() - 1] != '/' {
        path.push('/');
    }
    path.append(name);
    path
}

/// Whether a part of a path names something, which an empty part and `.` do not.
pub open spec fn is_named(part: Seq<char>) -> bool {
    part.len() > 0 && !(part.len() == 1 && part[0] == '.')
}

/// The parts of a path that name something, in order.
pub open spec fn components(path: Seq<char>) -> Seq<Seq<char>> {
    text::split_at(path, '/').filter(|part: Seq<char>| is_named(part))
}

/// The last component of a path, unless there is none or it is `..`.
pub open spec fn file_name_of(path: Seq<char>) -> Option<Seq<char>> {
    let parts = components(path);
    if parts.len() == 0 || parts.last() == seq!['.', '.'] {
        None
    } else {
        Some(parts.last())
    }
}

/// The position behind the last `/` before `end`, or the start.
fn part_start(v: &Vec<char>, end: usize) -> (start: usize)
    requires
        end <= v@.len(),
    ensures
        start <= end,
        start > 0 ==> v@[start - 1] == '/',
        forall|i: int| start <= i < end ==> v@[i] != '/',
{
    let mut start: usize = end;
    while start > 0 && v[start - 1] != '/'
        invariant
            start <= end <= v@.len(),
            forall|i: int| start <= i < end ==> v@[i] != '/',
        decreases start,
    {
        start = start - 1;
    }
    start
}

pub proof fn lemma_last_part(path: Seq<char>, start: int)
    requires
        0 <= start <= path.len(),
        start > 0 ==> path[start - 1] == '/',
        forall|i: int| start <= i < path.len() ==> path[i] != '/',
    ensures
        ({
            let part = path.skip(start);
            let before = if start == 0 {
                Seq::empty()
            } else {
                components(path.take(start - 1))
            };
            components(path) == if is_named(part) {
                before.push(part)
            } else {
                before
            }
        }),
{
    let part = path.skip(start);
    let named = |p: Seq<char>| is_named(p);
    reveal(Seq::filter);
    text::lemma_split_word(part, '/');
    if start == 0 {
        assert(part =~= path);
        assert(seq![part].drop_last() =~= Seq::empty());
        assert(Seq::<Seq<char>>::empty().filter(named) =~= Seq::empty());
    } else {
        let before = path.take(start - 1);
        assert(path =~= before + seq!['/'] + part);
        text::lemma_split_add(before, part, '/');
        let parts = text::split_at(before, '/');
        assert(text::split_at(path, '/') =~= parts.push(part));
        assert(parts.push(part).drop_last() =~= parts);
    }
}

/// The last component of a path, unless there is none or it is `..`.
pub fn file_name(path: &str) -> (r: Option<String>)
    ensures
        text::opt_view(r) == file_name_of(path@),
{
    let v = chars_of(path);
    let mut end: usize = v.len();
    assert(v@.take(v@.len() as int) =~= v@);
    loop
        invariant
            end <= v@.len(),
            components(path@) == components(v@.take(end as int)),
        decreases end,
    {
        let start = part_start(&v, end);
        let ghost rest = v@.take(end as int);
        let ghost part = rest.skip(start as int);
        proof {
            lemma_last_part(rest, start as int);
            assert(start > 0 ==> rest.take(start - 1) =~= v@.take(start - 1));
            assert(part =~= v@.subrange(start as int, end as int));
        }
        let len: usize = end - start;
        if len > 0 && !(len == 1 && v[start] == '.') {
            assert(part[0] == v@[start as int]);
            if len == 2 && v[start] == '.' && v[start + 1] == '.' {
                assert(part =~= seq!['.', '.']);
                return None;
            }
            assert(part != seq!['.', '.']) by {
                if part.len() == 2 {
                    assert(part[1] == v@[start + 1]);
                }
            }
            return Some(text_of(&slice_of(&v, start, end)));
        }
        assert(!is_named(part));
        if start == 0 {
            return None;
        }
        end = start - 1;
    }
}

/// Two names that are not absolute have the same path in a directory only where they are the same.
pub proof fn names_have_own_paths(dir: Seq<char>, a: Seq<char>, b: Seq<char>)
    requires
        !(a.len() > 0 && a[0] == '/'),
        !(b.len() > 0 && b[0] == '/'),
        joined_path(dir, a) == joined_path(dir, b),
    ensures
        a == b,
{
    let base = if dir.len() == 0 || dir.last() == '/' {
        dir
    } else {
        dir.push('/')
    };
    assert(joined_path(dir, a).skip(base.len() as int) =~= a);
    assert(joined_path(dir, b).skip(base.len() as int) =~= b);
}

/// A file name is never absolute: no `/` stands in it.
pub proof fn file_name_is_relative(path: Seq<char>)
    ensures
        file_name_of(path) matches Some(name) ==> name.len() > 0 && forall|i: int|
            0 <= i < name.len() ==> name[i] != '/',
{
    if file_name_of(path) is Some {
        lemma_component(path, components(path).len() - 1);
    }
}

/// A file keeps its name wherever it is put: the path that a file name has in a directory ends in
/// that file name.
pub proof fn file_keeps_its_name(dir: Seq<char>, path: Seq<char>)
    requires
        file_name_of(path) is Some,
    ensures
        file_name_of(joined_path(dir, file_name_of(path)->0)) == file_name_of(path),
{
    let name = file_name_of(path)->0;
    let parts = components(path);
    lemma_component(path, parts.len() - 1);
    let p = joined_path(dir, name);
    let start = p.len() - name.len();
    assert(p.skip(start) =~= name);
    assert forall|i: int| start <= i < p.len() implies p[i] != '/' by {
        assert(p[i] == name[i - start]);
    }
    lemma_last_part(p, start);
}

proof fn lemma_component(path: Seq<char>, k: int)
    requires
        0 <= k < components(path).len(),
    ensures
        is_named(components(path)[k]),
        forall|i: int| 0 <= i < components(path)[k].len() ==> components(path)[k][i] != '/',
{
    broadcast use vstd::seq_lib::group_filter_ensures;

    let named = |p: Seq<char>| is_named(p);
    let parts = text::split_at(path, '/');
    let c = components(path)[k];
    assert(parts.filter(named) == components(path));
    assert(components(path).contains(c));
    parts.lemma_filter_contains_rev(named, c);
    let j = choose|j: int| 0 <= j < parts.len() && parts[j] == c;
    text::lemma_split_parts(path, '/', j);
}

} // verus!
