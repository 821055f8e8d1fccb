//! What errors say: each names what it is about.

use crate::float_text::FloatError;
use crate::number;
use crate::number::IntError;
use crate::parquet;
use crate::parquet::{ParquetFault, SizeFault};
use crate::postgres::bytea::ByteaError;
use crate::postgres::cells::CellFault;
use crate::postgres::conn::{DurationFault, TimeSetting, TimeUnit};
use crate::postgres::copy::CopyFault;
use crate::postgres::destination::DestError;
use crate::postgres::hstore::HstoreFault;
use crate::postgres::types::{ColumnFault, DataType};
use crate::text;
use vstd::prelude::*;

verus! {

/// Whether `words` begin with `head` and end with `tail`, with `inner` and nothing else between
/// them.
pub open spec fn frames(words: Seq<char>, head: Seq<char>, inner: Seq<char>, tail: Seq<char>) -> bool {
    &&& text::starts_with(words, head)
    &&& text::ends_with(words, tail)
    &&& words.len() == head.len() + inner.len() + tail.len()
    &&& words.subrange(head.len() as int, (head.len() + inner.len()) as int) == inner
}

proof fn lemma_frames(head: Seq<char>, inner: Seq<char>, tail: Seq<char>)
    ensures
        frames(head + inner + tail, head, inner, tail),
{
    let words = head + inner + tail;
    assert(words.take(head.len() as int) =~= head);
    assert(words.skip(words.len() - tail.len()) =~= tail);
    assert(words.subrange(head.len() as int, (head.len() + inner.len()) as int) =~= inner);
}

/// A missing key is named, whatever it is.
pub proof fn missing_key_is_in_words(key: String)
    ensures
        frames(
            DestError::KeyNotInData(key).wording(),
            "merge_key column '"@,
            key@,
            "' is not present in the data"@,
        ),
        DestError::NoMergeKey.wording() == "mode 'staged_merge' requires a non-empty merge_key"@,
{
    lemma_frames("merge_key column '"@, key@, "' is not present in the data"@);
}

/// A text that is no duration is quoted, and so is the unit that it has.
pub proof fn duration_is_in_words(t: Seq<char>, unit: TimeUnit)
    ensures
        frames(
            (DurationFault::UnknownUnit { text: t }).wording(),
            "invalid duration '"@,
            t,
            "': expected a number followed by ms/s/m/h/d (e.g. '10s', '30m', '500ms', '2h')"@,
        ),
        frames(
            (DurationFault::ExpectedInteger { text: t, unit }).wording(),
            "invalid duration '"@,
            t,
            "': expected integer before '"@ + (match unit {
                TimeUnit::Milliseconds => "ms"@,
                TimeUnit::Seconds => "s"@,
                TimeUnit::Minutes => "m"@,
                TimeUnit::Hours => "h"@,
                TimeUnit::Days => "d"@,
            }) + "'"@,
        ),
{
    reveal_strlit("ms");
    reveal_strlit("s");
    reveal_strlit("m");
    reveal_strlit("h");
    reveal_strlit("d");
    let name = match unit {
        TimeUnit::Milliseconds => "ms"@,
        TimeUnit::Seconds => "s"@,
        TimeUnit::Minutes => "m"@,
        TimeUnit::Hours => "h"@,
        TimeUnit::Days => "d"@,
    };
    assert(name =~= unit.suffix());
    let tail = "': expected integer before '"@ + name + "'"@;
    lemma_frames("invalid duration '"@, t, tail);
    assert("invalid duration '"@ + t + tail =~= (DurationFault::ExpectedInteger {
        text: t,
        unit,
    }).wording());
    lemma_frames(
        "invalid duration '"@,
        t,
        "': expected a number followed by ms/s/m/h/d (e.g. '10s', '30m', '500ms', '2h')"@,
    );
}

/// What stands in the place of an arrow is quoted.
pub proof fn arrow_is_in_words(got: Seq<char>)
    ensures
        frames(
            HstoreFault::ExpectedArrow(got).wording(),
            "expected '=>' in hstore, got '"@,
            got,
            "'"@,
        ),
{
    lemma_frames("expected '=>' in hstore, got '"@, got, "'"@);
}

/// A value that cannot be written is told, and so is a type that cannot.
pub proof fn unwritable_value_is_in_words(days: i32, millis: i64, name: Seq<char>)
    ensures
        CopyFault::DateOutOfRange(days).wording() == "date32 out of range: "@
            + number::signed_decimal(days as int),
        CopyFault::TimestampOutOfRange(millis).wording() == "timestamp out of range: "@
            + number::signed_decimal(millis as int),
        frames(
            CopyFault::Unsupported(name).wording(),
            "postgres destination does not support Arrow type "@,
            name,
            " yet"@,
        ),
{
    lemma_frames("postgres destination does not support Arrow type "@, name, " yet"@);
}

/// A directory that is not there is named; a size that cannot be read is shown with the reason; a
/// size that is too small is shown with the bytes it stands for.
pub proof fn refused_setting_is_in_words(dir: Seq<char>, raw: Seq<char>, reason: Seq<char>, bytes: u64)
    ensures
        ParquetFault::NoDirectory(dir).wording() == "output directory does not exist: "@ + dir,
        ParquetFault::Size(SizeFault::Invalid { text: raw, reason }).wording()
            == "invalid max_file_size "@ + parquet::debug_text(raw) + ": "@ + reason,
        text::starts_with(
            (ParquetFault::TooSmall { raw, bytes }).wording(),
            "max_file_size must be at least 64KiB (got "@ + parquet::debug_text(raw) + " = "@
                + number::decimal(bytes as nat) + " bytes)"@,
        ),
{
    let head = "max_file_size must be at least 64KiB (got "@ + parquet::debug_text(raw) + " = "@
        + number::decimal(bytes as nat) + " bytes)"@;
    let words = (ParquetFault::TooSmall { raw, bytes }).wording();
    reveal_strlit(" bytes)");
    reveal_strlit(
        " bytes); this is a sanity floor, not a hard Parquet limit — a smaller cap would yield files that are mostly footer overhead",
    );
    assert(words.take(head.len() as int) =~= head);
}

/// What is wrong with a number, a byte string or an hstore has words of its own.
pub proof fn faults_have_own_words(unknown: String, t: Seq<char>)
    ensures
        IntError::Empty.wording() == "cannot parse integer from empty string"@,
        IntError::InvalidDigit.wording() == "invalid digit found in string"@,
        IntError::PosOverflow.wording() == "number too large to fit in target type"@,
        IntError::NegOverflow.wording() == "number too small to fit in target type"@,
        FloatError::Empty.wording() == "cannot parse float from empty string"@,
        FloatError::Invalid.wording() == "invalid float literal"@,
        ByteaError::InvalidDigit.wording() == "invalid digit found in string"@,
        HstoreFault::ExpectedKey.wording() == "expected '\"' at start of hstore key"@,
        HstoreFault::Unterminated.wording() == "hstore: unterminated quoted string"@,
        HstoreFault::EndAfterBackslash.wording() == "hstore: unexpected end after '\\'"@,
        ParquetFault::EmptyPrefix.wording() == "prefix must not be empty"@,
        ParquetFault::Size(SizeFault::Empty).wording() == "max_file_size is empty"@,
        TimeSetting::ConnectTimeout.wording() == "invalid connect_timeout"@,
        TimeSetting::KeepalivesIdle.wording() == "invalid tcp_keepalives.idle"@,
        TimeSetting::KeepalivesInterval.wording() == "invalid tcp_keepalives.interval"@,
        TimeSetting::StatementTimeout.wording() == "invalid statement_timeout"@,
        ColumnFault::Unsupported(DataType::Other(unknown)).wording() == "unsupported arrow type: "@
            + unknown@,
        CellFault::Date(t).wording() == t,
        CellFault::Timestamp(t).wording() == t,
{
}

/// A cell is refused in the words of what is wrong with its number, byte string or hstore.
pub proof fn cell_fault_has_words_of_its_cause(
    i: IntError,
    f: FloatError,
    b: ByteaError,
    h: HstoreFault,
)
    ensures
        CellFault::Int(i).wording() == i.wording(),
        CellFault::Float(f).wording() == f.wording(),
        CellFault::Bytea(b).wording() == b.wording(),
        CellFault::Hstore(h).wording() == h.wording(),
{
}

} // verus!
