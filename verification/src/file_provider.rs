//! The file config provider: a pipeline configuration is read from the file that a URI names.

use crate::text;
use crate::text::{chars_of, slice_of, text_of};
use vstd::prelude::*;

verus! {

/// The configured URI does not start with `file://`.
#[derive(Debug)]
pub struct UriError {
    pub uri: String,
}

impl UriError {
    /// The wording of the error.
    pub fn message(&self) -> (m: String)
        ensures
            m@ == "file provider requires file:// URI, got: "@ + self.uri@,
    {
        let mut m = String::new();
        m.append("file provider requires file:// URI, got: ");
        m.append(self.uri.as_str());
        assert(m@ =~= "file provider requires file:// URI, got: "@ + self.uri@);
        m
    }
}

/// What a file URI starts with.
pub open spec fn scheme() -> Seq<char> {
    seq!['f', 'i', 'l', 'e', ':', '/', '/']
}

/// The path that a URI names, where it is a file URI.
pub open spec fn uri_path(uri: Seq<char>) -> Option<Seq<char>> {
    if uri.len() >= scheme().len() && uri.take(scheme().len() as int) == scheme() {
        Some(uri.skip(scheme().len() as int))
    } else {
        None
    }
}

/// The state of the provider.
#[derive(Debug)]
pub struct FileProvider {
    pub path: Option<String>,
}

impl FileProvider {
    pub fn new() -> (p: FileProvider)
        ensures
            p.path is None,
    {
        FileProvider { path: None }
    }

    /// The name of the plugin.
    pub fn plugin_name(&self) -> (name: &'static str)
        ensures
            name@ == "loadsmith-config-provider-file"@,
    {
        "loadsmith-config-provider-file"
    }

    /// Takes the URI of the file to read. One that is no file URI is refused, and what was
    /// configured before stays.
    pub fn configure(&mut self, uri: String) -> (r: Result<(), UriError>)
        ensures
            match uri_path(uri@) {
                Some(p) => r is Ok && text::opt_view(final(self).path) == Some(p),
                None => r matches Err(e) && e.uri == uri && *final(self) == *old(self),
            },
    {
        let v = chars_of(uri.as_str());
        if v.len() >= 7 && v[0] == 'f' && v[1] == 'i' && v[2] == 'l' && v[3] == 'e' && v[4] == ':'
            && v[5] == '/' && v[6] == '/' {
            assert(v@.take(7) =~= scheme());
            assert(v@.subrange(7, v@.len() as int) =~= v@.skip(7));
            self.path = Some(text_of(&slice_of(&v, 7, v.len())));
            return Ok(());
        }
        proof {
            if v@.len() >= 7 && v@.take(7) == scheme() {
                let t = v@.take(7);
                assert(v@[0] == t[0] && v@[1] == t[1] && v@[2] == t[2] && v@[3] == t[3]);
                assert(v@[4] == t[4] && v@[5] == t[5] && v@[6] == t[6]);
            }
        }
        Err(UriError { uri })
    }
}

/// The URI made of the scheme and a path names that path.
pub proof fn file_uri_round_trip(path: Seq<char>)
    ensures
        uri_path(scheme() + path) == Some(path),
{
    let uri = scheme() + path;
    assert(uri.take(7) =~= scheme());
    assert(uri.skip(7) =~= path);
}

} // verus!
