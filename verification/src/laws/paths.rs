//! Where files stand, and what they are called.

use crate::file_provider;
use crate::local_copy;
use crate::path;
use crate::text;
use vstd::prelude::*;

verus! {

/// A file URI is `file://` and the path it names, and nothing else names a path.
pub proof fn file_uri_is_scheme_and_path(uri: Seq<char>, p: Seq<char>)
    ensures
        file_provider::uri_path(uri) == Some(p) <==> uri == "file://"@ + p,
        file_provider::uri_path(uri) is None <==> !text::starts_with(uri, "file://"@),
{
    reveal_strlit("file://");
    assert("file://"@ =~= file_provider::scheme());
    assert(("file://"@ + p).take(7) =~= "file://"@);
    assert(("file://"@ + p).skip(7) =~= p);
    if file_provider::uri_path(uri) is Some {
        assert(uri =~= uri.take(7) + uri.skip(7));
    }
}

/// A name that is not absolute stands behind its directory, with one `/` between them, unless the
/// directory is empty or ends in one. An absolute name stands for itself.
pub proof fn name_stands_behind_directory(dir: Seq<char>, name: Seq<char>)
    ensures
        text::starts_with(name, seq!['/']) ==> path::joined_path(dir, name) == name,
        !text::starts_with(name, seq!['/']) ==> {
            let p = path::joined_path(dir, name);
            &&& text::starts_with(p, dir)
            &&& text::ends_with(p, name)
            &&& dir.len() == 0 || text::ends_with(dir, seq!['/']) ==> p.len() == dir.len()
                + name.len()
            &&& dir.len() > 0 && !text::ends_with(dir, seq!['/']) ==> p.len() == dir.len() + 1
                + name.len() && p[dir.len() as int] == '/'
        },
{
    let p = path::joined_path(dir, name);
    assert(name.len() > 0 ==> name.take(1) =~= seq![name[0]]);
    assert(dir.len() > 0 ==> dir.skip(dir.len() - 1) =~= seq![dir.last()]);
    if name.len() > 0 {
        assert(seq![name[0]][0] == name[0]);
        assert(seq!['/'][0] == '/');
    }
    if dir.len() > 0 {
        assert(seq![dir.last()][0] == dir.last());
    }
    if !text::starts_with(name, seq!['/']) {
        assert(p.take(dir.len() as int) =~= dir);
        assert(p.skip(p.len() - name.len()) =~= name);
    }
}

/// The file name is what stands behind the last `/`. A `/` or a `/.` at the end does not count;
/// `..` is no file name, and neither is nothing.
pub proof fn file_name_stands_last(lead: Seq<char>, name: Seq<char>)
    requires
        lead.len() > 0 ==> lead.last() == '/',
        forall|i: int| 0 <= i < name.len() ==> #[trigger] name[i] != '/',
    ensures
        name.len() > 0 && name != seq!['.'] && name != seq!['.', '.'] ==> path::file_name_of(
            lead + name,
        ) == Some(name),
        name == seq!['.', '.'] ==> path::file_name_of(lead + name) is None,
        path::file_name_of(lead + name + seq!['/']) == path::file_name_of(lead + name),
        path::file_name_of(lead + name + seq!['/', '.']) == path::file_name_of(lead + name),
        path::file_name_of(Seq::empty()) is None,
        path::file_name_of(seq!['.']) is None,
        path::file_name_of(seq!['/']) is None,
{
    let p = lead + name;
    assert(p.skip(lead.len() as int) =~= name);
    assert forall|i: int| lead.len() <= i < p.len() implies p[i] != '/' by {
        assert(p[i] == name[i - lead.len()]);
    }
    path::lemma_last_part(p, lead.len() as int);
    if name.len() == 1 && name[0] == '.' {
        assert(name =~= seq!['.']);
    }
    lemma_slash_at_end(p);
    lemma_dot_at_end(p);
    lemma_no_components();
}

proof fn lemma_slash_at_end(p: Seq<char>)
    ensures
        path::components(p + seq!['/']) == path::components(p),
{
    let a = p + seq!['/'];
    assert(a.skip(a.len() as int) =~= Seq::<char>::empty());
    assert(a.take(a.len() - 1) =~= p);
    path::lemma_last_part(a, a.len() as int);
}

proof fn lemma_dot_at_end(p: Seq<char>)
    ensures
        path::components(p + seq!['/', '.']) == path::components(p),
{
    let b = p + seq!['/', '.'];
    assert(b.skip(b.len() - 1) =~= seq!['.']);
    assert(b.take(b.len() - 2) =~= p);
    path::lemma_last_part(b, b.len() - 1);
}

proof fn lemma_no_components()
    ensures
        path::components(Seq::empty()).len() == 0,
        path::components(seq!['.']).len() == 0,
        path::components(seq!['/']).len() == 0,
{
    let none = Seq::<char>::empty();
    assert(none.skip(0) =~= none);
    path::lemma_last_part(none, 0);
    let dot = seq!['.'];
    assert(dot.skip(0) =~= dot);
    path::lemma_last_part(dot, 0);
    let root = seq!['/'];
    assert(root.skip(1) =~= none);
    assert(root.take(0) =~= none);
    path::lemma_last_part(root, 1);
}

/// A delivered file stands right in the destination, under the name that it had where it was
/// staged, and a staged path without a file name is delivered nowhere.
pub proof fn delivered_file_stands_in_destination(dest: Seq<char>, lead: Seq<char>, name: Seq<char>)
    requires
        lead.len() > 0 ==> lead.last() == '/',
        forall|i: int| 0 <= i < name.len() ==> #[trigger] name[i] != '/',
        name.len() > 0,
        name != seq!['.'],
    ensures
        name == seq!['.', '.'] ==> local_copy::target_of(dest, lead + name) is None,
        name != seq!['.', '.'] ==> local_copy::target_of(dest, lead + name) == Some(
            if dest.len() == 0 || dest.last() == '/' {
                dest + name
            } else {
                dest + seq!['/'] + name
            },
        ),
{
    file_name_stands_last(lead, name);
    if name != seq!['.', '.'] {
        assert(name[0] != '/');
        assert(path::joined_path(dest, name) =~= if dest.len() == 0 || dest.last() == '/' {
            dest + name
        } else {
            dest + seq!['/'] + name
        });
    }
}

/// Whether a staged path is delivered goes by its file name alone.
pub proof fn path_without_name_is_not_delivered(dest: Seq<char>, p: Seq<char>)
    ensures
        local_copy::target_of(dest, p) is None <==> path::file_name_of(p) is None,
{
}

} // verus!
