//! The local copy sink: staged files are copied into a directory under their own names.

use crate::number;
use crate::number::parse_u64;
use crate::path;
use crate::path::{file_name, path_join};
use crate::text::chars_of;
use vstd::prelude::*;

verus! {

/// The environment variable under which tests simulate a crash of the sink: after delivering this
/// many objects the process aborts once. Unset in normal operation.
pub fn crash_after_env() -> (name: &'static str)
    ensures
        name@ == "LOADSMITH_SINK_CRASH_AFTER"@,
{
    "LOADSMITH_SINK_CRASH_AFTER"
}

/// The marker file, in the directory for temporary files, which records that the crash already
/// happened, so that only the first instance aborts.
pub fn crash_marker(temp_dir: &str) -> (path: String)
    ensures
        path@ == path::joined_path(temp_dir@, "loadsmith-sink-crash.marker"@),
{
    path_join(temp_dir, "loadsmith-sink-crash.marker")
}

/// The configuration of the sink.
#[derive(Debug)]
pub struct LocalCopyConfig {
    /// The directory into which each delivered file is copied under its own name.
    pub dest: String,
}

/// A staged path that has no file name.
#[derive(Debug)]
pub struct NoFileName {
    pub path: String,
}

impl NoFileName {
    /// The wording of the error.
    pub fn message(&self) -> (m: String)
        ensures
            m@ == "staged path has no file name: "@ + self.path@,
    {
        let mut m = String::new();
        m.append("staged path has no file name: ");
        m.append(self.path.as_str());
        assert(m@ =~= "staged path has no file name: "@ + self.path@);
        m
    }
}

/// Where a staged file is copied to, if its path has a file name.
pub open spec fn target_of(dest: Seq<char>, path: Seq<char>) -> Option<Seq<char>> {
    match path::file_name_of(path) {
        Some(name) => Some(path::joined_path(dest, name)),
        None => None,
    }
}

/// The state of the sink over a run.
#[derive(Debug)]
pub struct LocalCopyPlugin {
    pub config: Option<LocalCopyConfig>,
    /// Abort after this many deliveries, where set.
    pub crash_after: Option<u64>,
    pub delivered: u64,
}

impl LocalCopyPlugin {
    /// A sink that has delivered nothing. `crash_after` is the value of the environment variable
    /// for simulated crashes; one that is no number counts as unset.
    pub fn new(crash_after: Option<&str>) -> (p: LocalCopyPlugin)
        ensures
            p.config is None,
            p.delivered == 0,
            match crash_after {
                None => p.crash_after is None,
                Some(v) => match number::parsed_unsigned(v@, u64::MAX as nat) {
                    Ok(n) => p.crash_after matches Some(m) && m == n,
                    Err(_) => p.crash_after is None,
                },
            },
    {
        let crash_after: Option<u64> = match crash_after {
            None => None,
            Some(v) => match parse_u64(&chars_of(v)) {
                Ok(n) => Some(n),
                Err(_) => None,
            },
        };
        LocalCopyPlugin { config: None, crash_after, delivered: 0 }
    }

    /// The name of the plugin.
    pub fn plugin_name(&self) -> (name: &'static str)
        ensures
            name@ == "loadsmith-sink-local-copy"@,
    {
        "loadsmith-sink-local-copy"
    }

    /// Takes a configuration whose directory exists.
    pub fn configure(&mut self, cfg: LocalCopyConfig)
        ensures
            *final(self) == (LocalCopyPlugin { config: Some(cfg), ..*old(self) }),
    {
        self.config = Some(cfg);
    }

    /// Where the staged file at `path` is to be copied, taking the place of a file that is there.
    pub fn deliver(&self, path: &str) -> (r: Result<String, NoFileName>)
        requires
            self.config is Some,
        ensures
            match (r, target_of(self.config->0.dest@, path@)) {
                (Ok(target), Some(t)) => target@ == t,
                (Err(e), None) => e.path@ == path@,
                _ => false,
            },
    {
        match file_name(path) {
            Some(name) => Ok(
                path_join(self.config.as_ref().unwrap().dest.as_str(), name.as_str()),
            ),
            None => Err(NoFileName { path: path.to_owned() }),
        }
    }

    /// Whether another delivery can be counted.
    pub fn can_count(&self) -> (b: bool)
        ensures
            b == (self.delivered < u64::MAX),
    {
        self.delivered < u64::MAX
    }

    /// Counts a delivery whose copy succeeded.
    pub fn object_delivered(&mut self)
        requires
            old(self).delivered < u64::MAX,
        ensures
            *final(self) == (LocalCopyPlugin {
                delivered: (old(self).delivered + 1) as u64,
                ..*old(self)
            }),
    {
        self.delivered = self.delivered + 1;
    }

    /// Whether a crash is to be simulated now: enough objects are delivered, and the marker of an
    /// earlier crash is not there.
    pub fn crash_is_due(&self, marker_exists: bool) -> (b: bool)
        ensures
            b == (self.crash_after matches Some(n) && self.delivered >= n && !marker_exists),
    {
        match self.crash_after {
            Some(n) => self.delivered >= n && !marker_exists,
            None => false,
        }
    }

    /// How many objects were delivered.
    pub fn finalize(&self) -> (n: u64)
        ensures
            n == self.delivered,
    {
        self.delivered
    }
}

/// Delivery goes by file name: two staged files have the same target exactly where they have the
/// same file name. So delivering a file again only takes the place of its own copy, and no two
/// files of different names take each other's place.
pub proof fn targets_go_by_file_name(dest: Seq<char>, a: Seq<char>, b: Seq<char>)
    requires
        path::file_name_of(a) is Some,
        path::file_name_of(b) is Some,
    ensures
        target_of(dest, a) == target_of(dest, b) <==> path::file_name_of(a) == path::file_name_of(b),
{
    let x = path::file_name_of(a)->0;
    let y = path::file_name_of(b)->0;
    path::file_name_is_relative(a);
    path::file_name_is_relative(b);
    if target_of(dest, a) == target_of(dest, b) {
        path::names_have_own_paths(dest, x, y);
    }
}

/// A delivered file keeps its name.
pub proof fn delivery_keeps_file_name(dest: Seq<char>, path: Seq<char>)
    ensures
        target_of(dest, path) matches Some(t) ==> path::file_name_of(t) == path::file_name_of(path),
{
    if path::file_name_of(path) is Some {
        path::file_keeps_its_name(dest, path);
    }
}

/// What the delivery of the staged file at `path` comes to, where copying succeeds: the files after
/// it, of which the target holds what the staged file holds, and the count of deliveries. Where the
/// path has no file name, nothing is copied and nothing is counted.
pub open spec fn delivery(
    files: Map<Seq<char>, Seq<u8>>,
    delivered: nat,
    dest: Seq<char>,
    path: Seq<char>,
) -> (Map<Seq<char>, Seq<u8>>, nat) {
    match target_of(dest, path) {
        Some(target) => (files.insert(target, files[path]), delivered + 1),
        None => (files, delivered),
    }
}

/// Delivering one path twice: both times the target is the same, and after the second delivery the
/// files are as after the first. The target holds what the staged file holds, and no other file,
/// the staged file among them, is changed. Each delivery counts, and one of a path without a file
/// name does not.
pub proof fn redelivery_is_idempotent(
    files: Map<Seq<char>, Seq<u8>>,
    delivered: nat,
    dest: Seq<char>,
    path: Seq<char>,
)
    requires
        files.dom().contains(path),
        target_of(dest, path) != Some(path),
    ensures
        ({
            let (once, first) = delivery(files, delivered, dest, path);
            let (twice, second) = delivery(once, first, dest, path);
            &&& twice == once
            &&& match target_of(dest, path) {
                Some(target) => {
                    &&& once.dom() == files.dom().insert(target)
                    &&& once[target] == files[path]
                    &&& forall|other: Seq<char>|
                        other != target && files.dom().contains(other) ==> #[trigger] once[other]
                            == files[other]
                    &&& once[path] == files[path]
                    &&& first == delivered + 1
                    &&& second == delivered + 2
                },
                None => once == files && first == delivered && second == delivered,
            }
        }),
{
    let (once, first) = delivery(files, delivered, dest, path);
    let (twice, second) = delivery(once, first, dest, path);
    assert(twice =~= once);
    assert(target_of(dest, path) matches Some(target) ==> once.dom() =~= files.dom().insert(target));
}

} // verus!
