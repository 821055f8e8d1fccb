//! The Parquet destination: which files a run creates, under which names, when a file is full, and
//! which finished files are handed on.

use crate::number;
use crate::number::{decimal_text, parse_u64, zero_padded_text};
use crate::path;
use crate::path::path_join;
use crate::text;
use crate::text::{chars_of, text_of, trim};
use vstd::prelude::*;

verus! {

/// The smallest `max_file_size` that is accepted. A Parquet file pays a fixed cost before a single
/// data byte lands, so anything tiny would be almost entirely overhead. This is a sanity floor, not
/// a limit of the format.
pub const MIN_FILE_SIZE: u64 = 64 * 1024;

/// Compression codec of the files.
#[derive(Debug, Clone, Copy, PartialEq, Eq, Structural)]
pub enum CompressionKind {
    Snappy,
    Gzip,
    Zstd,
    Lz4,
    Uncompressed,
}

impl Default for CompressionKind {
    fn default() -> (r: CompressionKind)
        ensures
            r == CompressionKind::Snappy,
    {
        CompressionKind::Snappy
    }
}

impl CompressionKind {
    /// The token in the name of a file.
    pub open spec fn token(self) -> Seq<char> {
        match self {
            CompressionKind::Snappy => "snappy"@,
            CompressionKind::Gzip => "gzip"@,
            CompressionKind::Zstd => "zstd"@,
            CompressionKind::Lz4 => "lz4"@,
            CompressionKind::Uncompressed => "uncompressed"@,
        }
    }

    /// The token in the name of a file, as in `events.snappy.parquet`.
    pub fn label(self) -> (s: &'static str)
        ensures
            s@ == self.token(),
    {
        match self {
            CompressionKind::Snappy => "snappy",
            CompressionKind::Gzip => "gzip",
            CompressionKind::Zstd => "zstd",
            CompressionKind::Lz4 => "lz4",
            CompressionKind::Uncompressed => "uncompressed",
        }
    }
}

/// The configuration of the destination.
#[derive(Debug)]
pub struct ParquetConfig {
    /// Output directory. Files are created inside it.
    pub path: String,
    /// Prefix of the file names, as `events` in `events.snappy.parquet`.
    pub prefix: String,
    pub compression: CompressionKind,
    /// Size text ("500KiB", "10MB", "2GiB"); a bare number counts KiB. Without it there is a single
    /// file.
    pub max_file_size: Option<String>,
}

/// Why a text is no size. The texts are held without the whitespace round them.
#[derive(Debug)]
pub enum SizeError {
    Empty,
    /// The text is neither a bare number nor a number with a unit, for the given reason.
    Invalid { text: String, reason: String },
    /// A bare number of KiB is more bytes than 64 bits hold.
    Overflow,
}

/// Why a text is no size, over sequences of characters.
pub enum SizeFault {
    Empty,
    Invalid { text: Seq<char>, reason: Seq<char> },
    Overflow,
}

impl View for SizeError {
    type V = SizeFault;

    open spec fn view(&self) -> SizeFault {
        match self {
            SizeError::Empty => SizeFault::Empty,
            SizeError::Invalid { text, reason } => SizeFault::Invalid {
                text: text@,
                reason: reason@,
            },
            SizeError::Overflow => SizeFault::Overflow,
        }
    }
}

/// The result of `bytesize::ByteSize::from_str`: the bytes that a size text stands for, or the
/// wording of the error.
pub uninterp spec fn byte_size(text: Seq<char>) -> Result<u64, Seq<char>>;

/// `bytesize::ByteSize::from_str`, with the size taken as its bytes.
#[verifier::external_body]
fn parse_byte_size(text: &str) -> (r: Result<u64, String>)
    ensures
        match (r, byte_size(text@)) {
            (Ok(n), Ok(m)) => n == m,
            (Err(e), Err(f)) => e@ == f,
            _ => false,
        },
{
    match text.parse::<bytesize::ByteSize>() {
        Ok(size) => Ok(size.as_u64()),
        Err(e) => Err(e),
    }
}

/// The text that the standard library gives for a string under `{:?}`: in quotes, with escapes.
pub uninterp spec fn debug_text(s: Seq<char>) -> Seq<char>;

/// `format!` of a string under `{:?}`.
#[verifier::external_body]
fn debugged(s: &str) -> (r: String)
    ensures
        r@ == debug_text(s@),
{
    format!("{:?}", s)
}

/// The number of a text that is a bare number.
pub open spec fn bare_number(text: Seq<char>) -> Option<nat> {
    match number::parsed_unsigned(text::trimmed(text), u64::MAX as nat) {
        Ok(n) => Some(n),
        Err(_) => None,
    }
}

/// Whether a text is a bare number of KiB that is more bytes than 64 bits hold.
pub open spec fn overflows(text: Seq<char>) -> bool {
    bare_number(text) matches Some(n) && n * 1024 > u64::MAX
}

/// What a size text with a unit stands for, from what `bytesize` makes of it.
pub open spec fn suffixed_reading(text: Seq<char>, parsed: Result<u64, Seq<char>>) -> Result<
    u64,
    SizeFault,
> {
    match parsed {
        Ok(bytes) => Ok(bytes),
        Err(reason) => Err(SizeFault::Invalid { text, reason }),
    }
}

/// The bytes that a size text stands for: a bare number counts KiB, and a text with a unit is read
/// by `bytesize`.
pub open spec fn size_reading(text: Seq<char>) -> Result<u64, SizeFault> {
    let s = text::trimmed(text);
    if s.len() == 0 {
        Err(SizeFault::Empty)
    } else {
        match bare_number(text) {
            Some(n) => if n * 1024 > u64::MAX {
                Err(SizeFault::Overflow)
            } else {
                Ok((n * 1024) as u64)
            },
            None => suffixed_reading(s, byte_size(s)),
        }
    }
}

/// The bytes of a size text with a unit, from what `bytesize` makes of it.
pub fn suffixed_size(text: String, parsed: Result<u64, String>) -> (r: Result<u64, SizeError>)
    ensures
        match (r, parsed) {
            (Ok(bytes), Ok(n)) => bytes == n,
            (Err(e), Err(reason)) => e@ == (SizeFault::Invalid { text: text@, reason: reason@ }),
            _ => false,
        },
{
    match parsed {
        Ok(bytes) => Ok(bytes),
        Err(reason) => Err(SizeError::Invalid { text, reason }),
    }
}

/// Reads a size text of any kind. `parse_size` is the same for texts whose bytes fit.
pub fn read_size(s: &str) -> (r: Result<u64, SizeError>)
    ensures
        match (r, size_reading(s@)) {
            (Ok(n), Ok(m)) => n == m,
            (Err(e), Err(f)) => e@ == f,
            _ => false,
        },
{
    let trimmed = trim(&chars_of(s));
    if trimmed.len() == 0 {
        return Err(SizeError::Empty);
    }
    match parse_u64(&trimmed) {
        Ok(n) => if n > u64::MAX / 1024 {
            Err(SizeError::Overflow)
        } else {
            Ok(n * 1024)
        },
        Err(_) => {
            let text = text_of(&trimmed);
            let parsed = parse_byte_size(text.as_str());
            suffixed_size(text, parsed)
        },
    }
}

/// Whether a text is a bare number of KiB that is more bytes than 64 bits hold.
pub fn size_overflows(s: &str) -> (b: bool)
    ensures
        b == overflows(s@),
{
    match parse_u64(&trim(&chars_of(s))) {
        Ok(n) => n > u64::MAX / 1024,
        Err(_) => false,
    }
}

/// Parses a size text into bytes. A bare integer counts KiB, since a Parquet file of a few bytes
/// makes no sense. Explicit units ("500b", "10MB", "2GiB") are honored as they stand.
pub fn parse_size(s: &str) -> (r: Result<u64, SizeError>)
    requires
        !overflows(s@),
    ensures
        match (r, size_reading(s@)) {
            (Ok(n), Ok(m)) => n == m,
            (Err(e), Err(f)) => e@ == f,
            _ => false,
        },
{
    read_size(s)
}

/// The name of a file, with its sequence number where it has one.
pub open spec fn file_name_text(
    prefix: Seq<char>,
    compression: CompressionKind,
    seq: Option<u64>,
) -> Seq<char> {
    match seq {
        Some(n) => prefix + "."@ + number::zero_padded(n as nat, 8) + "."@ + compression.token()
            + ".parquet"@,
        None => prefix + "."@ + compression.token() + ".parquet"@,
    }
}

/// Builds the name of a file. A single file has no sequence number. The number is padded to eight
/// digits, and wider where it needs more.
pub fn file_name(prefix: &str, compression: CompressionKind, seq: Option<u64>) -> (name: String)
    ensures
        name@ == file_name_text(prefix@, compression, seq),
{
    let mut name = prefix.to_owned();
    name.append(".");
    match seq {
        Some(n) => {
            let digits = zero_padded_text(n, 8);
            name.append(digits.as_str());
            name.append(".");
        },
        None => {},
    }
    name.append(compression.label());
    name.append(".parquet");
    assert(name@ =~= file_name_text(prefix@, compression, seq));
    name
}

/// Why a configuration is refused.
#[derive(Debug)]
pub enum ParquetError {
    EmptyPrefix,
    NoDirectory(String),
    Size(SizeError),
    /// The configured text and the bytes it stands for.
    TooSmall { raw: String, bytes: u64 },
}

/// Why a configuration is refused, over sequences of characters.
pub enum ParquetFault {
    EmptyPrefix,
    NoDirectory(Seq<char>),
    Size(SizeFault),
    TooSmall { raw: Seq<char>, bytes: u64 },
}

impl View for ParquetError {
    type V = ParquetFault;

    open spec fn view(&self) -> ParquetFault {
        match self {
            ParquetError::EmptyPrefix => ParquetFault::EmptyPrefix,
            ParquetError::NoDirectory(p) => ParquetFault::NoDirectory(p@),
            ParquetError::Size(e) => ParquetFault::Size(e@),
            ParquetError::TooSmall { raw, bytes } => ParquetFault::TooSmall {
                raw: raw@,
                bytes: *bytes,
            },
        }
    }
}

impl SizeFault {
    /// The wording of the error.
    pub open spec fn wording(self) -> Seq<char> {
        match self {
            SizeFault::Empty => "max_file_size is empty"@,
            SizeFault::Invalid { text, reason } => "invalid max_file_size "@ + debug_text(text)
                + ": "@ + reason,
            SizeFault::Overflow => "attempt to multiply with overflow"@,
        }
    }
}

impl SizeError {
    /// The wording of the error.
    pub fn message(&self) -> (m: String)
        ensures
            m@ == self@.wording(),
    {
        let mut m = String::new();
        match self {
            SizeError::Empty => {
                m.append("max_file_size is empty");
            },
            SizeError::Invalid { text, reason } => {
                let shown = debugged(text.as_str());
                m.append("invalid max_file_size ");
                m.append(shown.as_str());
                m.append(": ");
                m.append(reason.as_str());
            },
            SizeError::Overflow => {
                m.append("attempt to multiply with overflow");
            },
        }
        assert(m@ =~= self@.wording());
        m
    }
}

impl ParquetFault {
    /// The wording of the error.
    pub open spec fn wording(self) -> Seq<char> {
        match self {
            ParquetFault::EmptyPrefix => "prefix must not be empty"@,
            ParquetFault::NoDirectory(p) => "output directory does not exist: "@ + p,
            ParquetFault::Size(f) => f.wording(),
            ParquetFault::TooSmall { raw, bytes } => "max_file_size must be at least 64KiB (got "@
                + debug_text(raw) + " = "@ + number::decimal(bytes as nat)
                + " bytes); this is a sanity floor, not a hard Parquet limit — a smaller cap would yield files that are mostly footer overhead"@,
        }
    }
}

impl ParquetError {
    /// The wording of the error.
    pub fn message(&self) -> (m: String)
        ensures
            m@ == self@.wording(),
    {
        let mut m = String::new();
        match self {
            ParquetError::EmptyPrefix => {
                m.append("prefix must not be empty");
            },
            ParquetError::NoDirectory(p) => {
                m.append("output directory does not exist: ");
                m.append(p.as_str());
            },
            ParquetError::Size(e) => {
                let text = e.message();
                m.append(text.as_str());
            },
            ParquetError::TooSmall { raw, bytes } => {
                let shown = debugged(raw.as_str());
                let count = decimal_text(*bytes as u128);
                m.append("max_file_size must be at least 64KiB (got ");
                m.append(shown.as_str());
                m.append(" = ");
                m.append(count.as_str());
                m.append(
                    " bytes); this is a sanity floor, not a hard Parquet limit — a smaller cap would yield files that are mostly footer overhead",
                );
            },
        }
        assert(m@ =~= self@.wording());
        m
    }
}

/// The threshold that a configuration asks for, or why the configuration is refused.
/// `dir_exists` says whether the output directory is one.
pub open spec fn threshold_reading(cfg: ParquetConfig, dir_exists: bool) -> Result<
    Option<u64>,
    ParquetFault,
> {
    if text::trimmed(cfg.prefix@).len() == 0 {
        Err(ParquetFault::EmptyPrefix)
    } else if !dir_exists {
        Err(ParquetFault::NoDirectory(cfg.path@))
    } else {
        match cfg.max_file_size {
            None => Ok(None),
            Some(raw) => match size_reading(raw@) {
                Err(f) => Err(ParquetFault::Size(f)),
                Ok(bytes) => if bytes < MIN_FILE_SIZE {
                    Err(ParquetFault::TooSmall { raw: raw@, bytes })
                } else {
                    Ok(Some(bytes))
                },
            },
        }
    }
}

/// Whether reading a configuration comes to a bare number of KiB that is more bytes than 64 bits
/// hold.
pub open spec fn config_overflows(cfg: ParquetConfig, dir_exists: bool) -> bool {
    &&& text::trimmed(cfg.prefix@).len() > 0
    &&& dir_exists
    &&& cfg.max_file_size matches Some(raw) && overflows(raw@)
}

/// Whether a file with so many bytes is full.
pub open spec fn is_full(threshold: Option<u64>, size: int) -> bool {
    threshold matches Some(bytes) && size >= bytes
}

/// The state of the destination over a run. The schema, the writer and the files themselves are
/// the caller's.
#[derive(Debug)]
pub struct ParquetPlugin {
    pub config: Option<ParquetConfig>,
    /// Bytes from which a file is full; `None` for a single file.
    pub threshold: Option<u64>,
    /// Whether a writer is open.
    pub writer_open: bool,
    /// Whether the schema is known, which it is from the first batch on.
    pub schema_known: bool,
    /// Sequence number of the file opened last; 0 where none was opened yet.
    pub seq: u64,
    /// Path of the open file, moved to `ready` once it is finished.
    pub current_path: Option<String>,
    /// Every file created in the run, so that cancelling can remove all of them.
    pub created: Vec<String>,
    /// Files finished since they were last asked for.
    pub ready: Vec<String>,
    pub rows_written: u64,
}

impl ParquetPlugin {
    /// Whether the destination is as a new one.
    pub open spec fn is_new(self) -> bool {
        &&& self.config is None
        &&& self.threshold is None
        &&& !self.writer_open
        &&& !self.schema_known
        &&& self.seq == 0
        &&& self.current_path is None
        &&& self.created@.len() == 0
        &&& self.ready@.len() == 0
        &&& self.rows_written == 0
    }

    /// An open writer has a path, and before the first batch there is no file at all.
    pub open spec fn well_formed(self) -> bool {
        &&& self.writer_open ==> self.current_path is Some
        &&& !self.schema_known ==> {
            &&& !self.writer_open
            &&& self.current_path is None
            &&& self.created@.len() == 0
            &&& self.ready@.len() == 0
        }
    }

    /// The file that is being written and the finished files are all files that were created.
    pub open spec fn accounts_for_files(self) -> bool {
        &&& self.current_path matches Some(p) ==> text::views(self.created@).contains(p@)
        &&& forall|i: int|
            0 <= i < self.ready@.len() ==> text::views(self.created@).contains(
                #[trigger] self.ready@[i]@,
            )
    }

    pub fn new() -> (p: ParquetPlugin)
        ensures
            p.is_new(),
            p.well_formed(),
            p.accounts_for_files(),
    {
        ParquetPlugin {
            config: None,
            threshold: None,
            writer_open: false,
            schema_known: false,
            seq: 0,
            current_path: None,
            created: Vec::new(),
            ready: Vec::new(),
            rows_written: 0,
        }
    }

    /// The name of the plugin.
    pub fn plugin_name(&self) -> (name: &'static str)
        ensures
            name@ == "loadsmith-destination-parquet"@,
    {
        "loadsmith-destination-parquet"
    }

    /// What the destination can do. It stages files that a sink can deliver.
    pub fn capabilities(&self) -> (c: Vec<String>)
        ensures
            text::views(c@) == seq!["batch_write"@, "object_output"@],
    {
        let mut c: Vec<String> = Vec::new();
        c.push("batch_write".to_owned());
        c.push("object_output".to_owned());
        assert(text::views(c@) =~= seq!["batch_write"@, "object_output"@]);
        c
    }

    /// Whether reading a configuration comes to a bare number of KiB that is more bytes than 64
    /// bits hold.
    pub fn overflowing_config(cfg: &ParquetConfig, dir_exists: bool) -> (b: bool)
        ensures
            b == config_overflows(*cfg, dir_exists),
    {
        let prefix = trim(&chars_of(cfg.prefix.as_str()));
        match &cfg.max_file_size {
            Some(raw) => prefix.len() > 0 && dir_exists && size_overflows(raw.as_str()),
            None => false,
        }
    }

    /// Takes a configuration, unless it is refused. `dir_exists` says whether the output directory
    /// is one. Nothing is created. Without a `max_file_size` there is a single file.
    pub fn configure(&mut self, cfg: ParquetConfig, dir_exists: bool) -> (r: Result<
        (),
        ParquetError,
    >)
        requires
            !config_overflows(cfg, dir_exists),
        ensures
            match threshold_reading(cfg, dir_exists) {
                Err(f) => r matches Err(e) && e@ == f && *final(self) == *old(self),
                Ok(threshold) => r is Ok && *final(self) == (ParquetPlugin {
                    config: Some(cfg),
                    threshold: threshold,
                    ..*old(self)
                }),
            },
            old(self).is_new() && r is Ok ==> final(self)@.is_fresh(),
    {
        if trim(&chars_of(cfg.prefix.as_str())).len() == 0 {
            return Err(ParquetError::EmptyPrefix);
        }
        if !dir_exists {
            return Err(ParquetError::NoDirectory(cfg.path.clone()));
        }
        let threshold: Option<u64> = match &cfg.max_file_size {
            Some(raw) => match parse_size(raw.as_str()) {
                Err(e) => {
                    return Err(ParquetError::Size(e));
                },
                Ok(bytes) => {
                    if bytes < MIN_FILE_SIZE {
                        return Err(ParquetError::TooSmall { raw: raw.clone(), bytes });
                    }
                    Some(bytes)
                },
            },
            None => None,
        };
        self.threshold = threshold;
        self.config = Some(cfg);
        Ok(())
    }

    /// Whether there is a sequence number for another file.
    pub fn can_open(&self) -> (b: bool)
        ensures
            b == (self.threshold is Some ==> self.seq < u64::MAX),
    {
        self.threshold.is_none() || self.seq < u64::MAX
    }

    /// Starts on a batch: the schema is known from now on. Where no writer is open, the path of the
    /// file to create is returned; with a threshold the file gets the next sequence number.
    pub fn start_batch(&mut self) -> (r: Option<String>)
        requires
            old(self).config is Some,
            old(self).threshold is Some ==> old(self).seq < u64::MAX,
        ensures
            *final(self) == (ParquetPlugin {
                schema_known: true,
                seq: final(self).seq,
                ..*old(self)
            }),
            if old(self).writer_open {
                r is None && final(self).seq == old(self).seq
            } else {
                match old(self).threshold {
                    Some(_) => {
                        &&& final(self).seq == old(self).seq + 1
                        &&& r matches Some(p) && p@ == old(self)@.path_of(Some(final(self).seq))
                    },
                    None => {
                        &&& final(self).seq == old(self).seq
                        &&& r matches Some(p) && p@ == old(self)@.path_of(None)
                    },
                }
            },
            final(self)@ == old(self)@.started(),
            text::opt_view(r) == old(self)@.path_to_create(),
            old(self).well_formed() ==> final(self).well_formed(),
            old(self).accounts_for_files() ==> final(self).accounts_for_files(),
    {
        self.schema_known = true;
        if self.writer_open {
            return None;
        }
        let seq: Option<u64> = if self.threshold.is_some() {
            self.seq = self.seq + 1;
            Some(self.seq)
        } else {
            None
        };
        let cfg = self.config.as_ref().unwrap();
        let name = file_name(cfg.prefix.as_str(), cfg.compression, seq);
        Some(path_join(cfg.path.as_str(), name.as_str()))
    }

    /// Notes that the file at `path` is created.
    pub fn file_created(&mut self, path: String)
        ensures
            text::views(final(self).created@) == text::views(old(self).created@).push(path@),
            *final(self) == (ParquetPlugin { created: final(self).created, ..*old(self) }),
            final(self)@ == old(self)@.with_file(path@),
            old(self).well_formed() && old(self).schema_known ==> final(self).well_formed(),
            old(self).accounts_for_files() ==> final(self).accounts_for_files(),
    {
        let ghost before = text::views(self.created@);
        let ghost p = path@;
        self.created.push(path);
        assert(text::views(self.created@) =~= before.push(p));
        proof {
            assert forall|q: Seq<char>| before.contains(q) implies before.push(p).contains(q) by {
                let k = choose|k: int| 0 <= k < before.len() && before[k] == q;
                assert(before.push(p)[k] == q);
            }
        }
    }

    /// Notes that a writer is open on the file at `path`, which is created.
    pub fn writer_opened(&mut self, path: String)
        requires
            text::views(old(self).created@).contains(path@),
        ensures
            *final(self) == (ParquetPlugin {
                writer_open: true,
                current_path: final(self).current_path,
                ..*old(self)
            }),
            text::opt_view(final(self).current_path) == Some(path@),
            final(self)@ == old(self)@.with_writer(path@),
            old(self).well_formed() ==> final(self).well_formed(),
            old(self).accounts_for_files() ==> final(self).accounts_for_files(),
    {
        self.current_path = Some(path);
        self.writer_open = true;
    }

    /// The estimated size of the open file: the bytes that are flushed and those that are buffered.
    pub fn current_size(&self, bytes_written: u64, in_progress: u64) -> (n: u64)
        requires
            bytes_written + in_progress <= u64::MAX,
        ensures
            n == (if self.writer_open {
                bytes_written + in_progress
            } else {
                0
            }),
    {
        if self.writer_open {
            bytes_written + in_progress
        } else {
            0
        }
    }

    /// Whether the count of rows stays in range with `rows` more.
    pub fn can_count(&self, rows: usize) -> (b: bool)
        ensures
            b == (self.rows_written + rows <= u64::MAX),
    {
        self.rows_written <= u64::MAX - rows as u64
    }

    /// Counts the rows of a written batch, and says whether the file is full: once its size reaches
    /// the threshold.
    pub fn batch_written(&mut self, rows: usize, bytes_written: u64, in_progress: u64) -> (full:
        bool)
        requires
            old(self).rows_written + rows <= u64::MAX,
            bytes_written + in_progress <= u64::MAX,
        ensures
            *final(self) == (ParquetPlugin {
                rows_written: (old(self).rows_written + rows) as u64,
                ..*old(self)
            }),
            full == is_full(
                old(self).threshold,
                if old(self).writer_open {
                    bytes_written + in_progress
                } else {
                    0
                },
            ),
            final(self)@ == old(self)@.with_rows(rows as nat),
            old(self).well_formed() ==> final(self).well_formed(),
            old(self).accounts_for_files() ==> final(self).accounts_for_files(),
    {
        self.rows_written = self.rows_written + rows as u64;
        match self.threshold {
            Some(threshold) => self.current_size(bytes_written, in_progress) >= threshold,
            None => false,
        }
    }

    /// Gives up the open writer, and says whether there was one, which is then to be closed.
    pub fn take_writer(&mut self) -> (was_open: bool)
        ensures
            *final(self) == (ParquetPlugin { writer_open: false, ..*old(self) }),
            was_open == old(self).writer_open,
            final(self)@ == old(self)@.without_writer(),
            old(self).well_formed() ==> final(self).well_formed(),
            old(self).accounts_for_files() ==> final(self).accounts_for_files(),
    {
        let was_open = self.writer_open;
        self.writer_open = false;
        was_open
    }

    /// Notes that the writer that was given up is closed: its file is ready.
    pub fn writer_closed(&mut self)
        ensures
            *final(self) == (ParquetPlugin {
                current_path: None,
                ready: final(self).ready,
                ..*old(self)
            }),
            text::views(final(self).ready@) == match old(self).current_path {
                Some(p) => text::views(old(self).ready@).push(p@),
                None => text::views(old(self).ready@),
            },
            final(self)@ == old(self)@.with_closed_file(),
            old(self).well_formed() && !old(self).writer_open ==> final(self).well_formed(),
            old(self).accounts_for_files() ==> final(self).accounts_for_files(),
    {
        let ghost before = text::views(self.ready@);
        match self.current_path.take() {
            Some(path) => {
                let ghost p = path@;
                self.ready.push(path);
                assert(text::views(self.ready@) =~= before.push(p));
            },
            None => {},
        }
    }

    /// Hands on the files that were finished since the last call.
    pub fn take_ready_objects(&mut self) -> (paths: Vec<String>)
        ensures
            paths == old(self).ready,
            final(self).ready@.len() == 0,
            *final(self) == (ParquetPlugin { ready: final(self).ready, ..*old(self) }),
            final(self)@ == old(self)@.without_ready(),
            old(self).well_formed() ==> final(self).well_formed(),
            old(self).accounts_for_files() ==> final(self).accounts_for_files(),
    {
        let mut paths: Vec<String> = Vec::new();
        std::mem::swap(&mut paths, &mut self.ready);
        assert(text::views(self.ready@) =~= Seq::empty());
        paths
    }

    /// Gives up the run: the open writer is dropped, and every file of the run is to be removed. A
    /// partial dataset is more likely to mislead than to help.
    pub fn cancel(&mut self) -> (paths: Vec<String>)
        ensures
            paths == old(self).created,
            final(self).created@.len() == 0,
            *final(self) == (ParquetPlugin {
                writer_open: false,
                created: final(self).created,
                ..*old(self)
            }),
            old(self).well_formed() ==> final(self).well_formed(),
    {
        self.writer_open = false;
        let mut paths: Vec<String> = Vec::new();
        std::mem::swap(&mut paths, &mut self.created);
        paths
    }
}

/// A bare number counts KiB, with any whitespace round it.
pub proof fn bare_number_counts_kib(n: nat, lead: Seq<char>, tail: Seq<char>)
    requires
        n * 1024 <= u64::MAX,
        text::all_white(lead),
        text::all_white(tail),
    ensures
        size_reading(lead + number::decimal(n) + tail) == Ok::<u64, SizeFault>((n * 1024) as u64),
{
    number::decimal_is_digits(n);
    number::unsigned_round_trip(n, u64::MAX as nat);
    assert('0' <= number::decimal(n)[0] <= '9');
    assert('0' <= number::decimal(n)[number::decimal(n).len() - 1] <= '9');
    text::trim_takes_padding(lead, number::decimal(n), tail);
}

/// Each codec has a token of its own.
pub proof fn tokens_tell_codecs_apart(a: CompressionKind, b: CompressionKind)
    requires
        a.token() == b.token(),
    ensures
        a == b,
{
    reveal_strlit("snappy");
    reveal_strlit("gzip");
    reveal_strlit("zstd");
    reveal_strlit("lz4");
    reveal_strlit("uncompressed");
    assert("gzip"@[0] == 'g');
    assert("zstd"@[0] == 'z');
    assert("lz4"@[0] == 'l');
    assert("snappy"@[0] == 's');
}

/// Files with different sequence numbers have different names.
pub proof fn chunk_names_differ(prefix: Seq<char>, compression: CompressionKind, a: u64, b: u64)
    requires
        file_name_text(prefix, compression, Some(a)) == file_name_text(
            prefix,
            compression,
            Some(b),
        ),
    ensures
        a == b,
{
    reveal_strlit(".");
    let x = number::zero_padded(a as nat, 8);
    let y = number::zero_padded(b as nat, 8);
    let head = prefix + "."@;
    let tail = "."@ + compression.token() + ".parquet"@;
    let s = file_name_text(prefix, compression, Some(a));
    let t = file_name_text(prefix, compression, Some(b));
    assert(s =~= head + x + tail);
    assert(t =~= head + y + tail);
    assert(x =~= s.subrange(head.len() as int, s.len() - tail.len()));
    assert(y =~= t.subrange(head.len() as int, t.len() - tail.len()));
    number::zero_padded_injective(a as nat, b as nat, 8);
}

/// No file of a chunked run takes the place of another: files with different sequence numbers have
/// different paths.
pub proof fn chunk_paths_differ(cfg: ParquetConfig, a: u64, b: u64)
    requires
        path::joined_path(cfg.path@, file_name_text(cfg.prefix@, cfg.compression, Some(a)))
            == path::joined_path(cfg.path@, file_name_text(cfg.prefix@, cfg.compression, Some(b))),
    ensures
        a == b,
{
    let x = file_name_text(cfg.prefix@, cfg.compression, Some(a));
    let y = file_name_text(cfg.prefix@, cfg.compression, Some(b));
    reveal_strlit(".");
    assert(x[0] == if cfg.prefix@.len() > 0 {
        cfg.prefix@[0]
    } else {
        '.'
    });
    assert(y[0] == if cfg.prefix@.len() > 0 {
        cfg.prefix@[0]
    } else {
        '.'
    });
    if !(x[0] == '/') {
        path::names_have_own_paths(cfg.path@, x, y);
    }
    chunk_names_differ(cfg.prefix@, cfg.compression, a, b);
}

/// A run without a batch has no file: as long as the schema is not known, nothing was created and
/// nothing is ready.
pub proof fn no_batch_no_file(p: ParquetPlugin)
    requires
        p.well_formed(),
        !p.schema_known,
    ensures
        !p.writer_open,
        p.created@.len() == 0,
        p.ready@.len() == 0,
{
}

/// An accepted threshold is not below the floor.
pub proof fn threshold_is_above_floor(cfg: ParquetConfig, dir_exists: bool)
    ensures
        threshold_reading(cfg, dir_exists) matches Ok(Some(bytes)) ==> bytes >= MIN_FILE_SIZE,
{
}

} // verus!
