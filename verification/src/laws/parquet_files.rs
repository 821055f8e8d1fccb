//! When a Parquet file is full, and what the files are called.

use crate::laws::numbers;
use crate::number;
use crate::parquet;
use crate::parquet::{CompressionKind, ParquetConfig, ParquetFault, ParquetPlugin, SizeFault};
use crate::parquet_run::ParquetState;
use crate::path;
use crate::text;
use vstd::prelude::*;

verus! {

/// An accepted size is the size that was written: the threshold is exactly the bytes that the
/// configured text is read as, and a file is full once it has so many bytes and not before.
/// Without a text there is no threshold, and no file is ever full.
pub proof fn file_is_full_at_configured_size(cfg: ParquetConfig, threshold: Option<u64>, size: int)
    requires
        parquet::threshold_reading(cfg, true) == Ok::<Option<u64>, ParquetFault>(threshold),
    ensures
        match cfg.max_file_size {
            Some(raw) => exists|bytes: u64|
                {
                    &&& parquet::size_reading(raw@) == Ok::<u64, SizeFault>(bytes)
                    &&& bytes >= 65_536
                    &&& threshold == Some(bytes)
                    &&& #[trigger] parquet::is_full(Some(bytes), size) <==> size >= bytes
                    &&& parquet::is_full(threshold, size) <==> size >= bytes
                },
            None => threshold is None && !parquet::is_full(threshold, size),
        },
{
    if let Some(raw) = cfg.max_file_size {
        let bytes = parquet::size_reading(raw@)->Ok_0;
        assert(parquet::is_full(Some(bytes), size) <==> size >= bytes);
    }
}

/// A configuration is refused for a blank prefix first, then for a directory that is not there,
/// then for a size that cannot be read, and last for a size below 64 KiB, and for nothing else.
pub proof fn refusals_come_in_order(cfg: ParquetConfig, dir_exists: bool)
    ensures
        ({
            let r = parquet::threshold_reading(cfg, dir_exists);
            let blank = text::all_white(cfg.prefix@);
            &&& blank ==> r == Err::<Option<u64>, ParquetFault>(ParquetFault::EmptyPrefix)
            &&& !blank && !dir_exists ==> r == Err::<Option<u64>, ParquetFault>(
                ParquetFault::NoDirectory(cfg.path@),
            )
            &&& !blank && dir_exists && cfg.max_file_size is None ==> r == Ok::<
                Option<u64>,
                ParquetFault,
            >(None)
            &&& !blank && dir_exists ==> (cfg.max_file_size matches Some(raw)
                ==> match parquet::size_reading(raw@) {
                Err(f) => r == Err::<Option<u64>, ParquetFault>(ParquetFault::Size(f)),
                Ok(bytes) => if bytes < 65_536 {
                    r == Err::<Option<u64>, ParquetFault>(
                        ParquetFault::TooSmall { raw: raw@, bytes },
                    )
                } else {
                    r == Ok::<Option<u64>, ParquetFault>(Some(bytes))
                },
            })
        }),
{
    let prefix = cfg.prefix@;
    if text::all_white(prefix) {
        text::trim_takes_padding(prefix, Seq::empty(), Seq::empty());
        assert(prefix + Seq::<char>::empty() + Seq::<char>::empty() =~= prefix);
    } else {
        lemma_not_blank(prefix);
    }
}

proof fn lemma_not_blank(s: Seq<char>)
    requires
        !text::all_white(s),
    ensures
        text::trimmed(s).len() > 0,
    decreases s.len(),
{
    if text::is_white(s[0]) {
        let tail = s.drop_first();
        if text::all_white(tail) {
            assert forall|i: int| 0 <= i < s.len() implies text::is_white(#[trigger] s[i]) by {
                if i > 0 {
                    assert(text::is_white(tail[i - 1]));
                }
            }
        }
        lemma_not_blank(tail);
    } else {
        lemma_start_stays(s);
    }
}

proof fn lemma_start_stays(s: Seq<char>)
    requires
        s.len() > 0,
        !text::is_white(s[0]),
    ensures
        text::trimmed_end(s).len() > 0,
    decreases s.len(),
{
    if text::is_white(s.last()) {
        assert(s.drop_last()[0] == s[0]);
        lemma_start_stays(s.drop_last());
    }
}

/// What `bytesize` makes of a text is taken as it is, in bytes.
pub open spec fn size_with_unit(t: Seq<char>) -> Result<u64, SizeFault> {
    match parquet::byte_size(t) {
        Ok(bytes) => Ok(bytes),
        Err(reason) => Err(SizeFault::Invalid { text: t, reason }),
    }
}

/// A size without a unit is so many times 1024 bytes as its digits are worth, as long as 64 bits
/// hold the digits and the bytes.
pub proof fn bare_size_counts_kib(lead: Seq<char>, digits: Seq<char>, tail: Seq<char>)
    requires
        digits.len() > 0,
        numbers::is_digits(digits),
        text::all_white(lead),
        text::all_white(tail),
    ensures
        parquet::size_reading(lead + digits + tail) == if numbers::place_value(digits)
            > 18_446_744_073_709_551_615 {
            size_with_unit(digits)
        } else if numbers::place_value(digits) * 1024 > 18_446_744_073_709_551_615 {
            Err(SizeFault::Overflow)
        } else {
            Ok((numbers::place_value(digits) * 1024) as u64)
        },
{
    assert('0' <= digits[0] <= '9');
    assert('0' <= digits[digits.len() - 1] <= '9');
    text::trim_takes_padding(lead, digits, tail);
    numbers::digits_are_read_by_place(digits, u64::MAX as nat);
}

/// A size that is not all digits, but for a `+` before them, is what `bytesize` makes of it. A
/// blank text is no size.
pub proof fn other_size_is_read_with_unit(t: Seq<char>, i: int)
    ensures
        text::all_white(t) ==> parquet::size_reading(t) == Err::<u64, SizeFault>(SizeFault::Empty),
        0 <= i < text::trimmed(t).len() && !('0' <= text::trimmed(t)[i] <= '9') && !(i == 0
            && text::trimmed(t)[0] == '+') ==> parquet::size_reading(t) == size_with_unit(
            text::trimmed(t),
        ),
{
    let s = text::trimmed(t);
    if text::all_white(t) {
        text::trim_takes_padding(t, Seq::empty(), Seq::empty());
        assert(t + Seq::<char>::empty() + Seq::<char>::empty() =~= t);
    }
    if 0 <= i < s.len() && !('0' <= s[i] <= '9') && !(i == 0 && s[0] == '+') {
        numbers::only_digits_are_read(s, u64::MAX as nat);
        if number::parsed_unsigned(s, u64::MAX as nat) is Ok {
            let d = choose|d: Seq<char>|
                d.len() > 0 && #[trigger] numbers::is_digits(d) && (s == d || s == seq!['+'] + d);
            if s == d {
                assert('0' <= d[i] <= '9');
            } else {
                assert(s[i] == d[i - 1]);
                assert('0' <= d[i - 1] <= '9');
            }
        }
    }
}

/// What stands for a codec in the name of a file.
pub open spec fn codec_word(codec: CompressionKind) -> Seq<char> {
    match codec {
        CompressionKind::Snappy => "snappy"@,
        CompressionKind::Gzip => "gzip"@,
        CompressionKind::Zstd => "zstd"@,
        CompressionKind::Lz4 => "lz4"@,
        CompressionKind::Uncompressed => "uncompressed"@,
    }
}

/// A file is called by its prefix, its number where it has one, its codec and `parquet`, with
/// points between them. The number has at least eight digits, and no zero before it where it has
/// more.
pub proof fn file_is_called_by_its_parts(prefix: Seq<char>, codec: CompressionKind, n: u64)
    ensures
        parquet::file_name_text(prefix, codec, None) == prefix + "."@ + codec_word(codec)
            + ".parquet"@,
        exists|digits: Seq<char>|
            {
                &&& #[trigger] numbers::is_digits(digits)
                &&& numbers::place_value(digits) == n
                &&& digits.len() >= 8
                &&& digits.len() > 8 ==> digits[0] != '0'
                &&& parquet::file_name_text(prefix, codec, Some(n)) == prefix + "."@ + digits + "."@
                    + codec_word(codec) + ".parquet"@
            },
{
    let digits = number::zero_padded(n as nat, 8);
    numbers::padding_keeps_number(n as nat, 8);
    numbers::decimal_is_worth_number(n as nat);
    assert(numbers::is_digits(digits));
}

/// A file of a run stands in the configured directory, under the configured prefix and codec.
pub proof fn file_stands_in_configured_directory(state: ParquetState, seq: Option<u64>)
    requires
        state.config is Some,
    ensures
        state.path_of(seq) == path::joined_path(
            state.config->0.path@,
            parquet::file_name_text(state.config->0.prefix@, state.config->0.compression, seq),
        ),
{
}

/// Each file of a run with a threshold has the number behind that of the file before it; a run
/// without one has a single file, without a number. No file is created while one is open.
pub proof fn files_are_numbered(state: ParquetState)
    requires
        state.seq < u64::MAX,
    ensures
        state.writer_open ==> state.path_to_create() is None && state.started().seq == state.seq,
        !state.writer_open && state.threshold is Some ==> state.started().seq == state.seq + 1
            && state.path_to_create() == Some(state.path_of(Some((state.seq + 1) as u64))),
        !state.writer_open && state.threshold is None ==> state.started().seq == state.seq
            && state.path_to_create() == Some(state.path_of(None)),
        state.started().schema_known,
        state.started().created == state.created,
        state.started().ready == state.ready,
        state.started().rows_written == state.rows_written,
{
}

/// Each step of a run changes what it is about and nothing else: creating a file notes it behind
/// the others, opening a writer makes its file the open one, writing rows counts them, and closing
/// the writer puts its file behind the finished ones.
pub proof fn steps_keep_the_rest(state: ParquetState, p: Seq<char>, rows: nat)
    ensures
        ({
            let s = state.with_file(p);
            &&& s.created == state.created + seq![p]
            &&& s.ready == state.ready && s.current_path == state.current_path
            &&& s.writer_open == state.writer_open && s.seq == state.seq
            &&& s.rows_written == state.rows_written && s.threshold == state.threshold
            &&& s.config == state.config && s.schema_known == state.schema_known
        }),
        ({
            let s = state.with_writer(p);
            &&& s.writer_open && s.current_path == Some(p)
            &&& s.created == state.created && s.ready == state.ready && s.seq == state.seq
            &&& s.rows_written == state.rows_written && s.threshold == state.threshold
            &&& s.config == state.config && s.schema_known == state.schema_known
        }),
        ({
            let s = state.with_rows(rows);
            &&& s.rows_written == state.rows_written + rows
            &&& s.created == state.created && s.ready == state.ready && s.seq == state.seq
            &&& s.writer_open == state.writer_open && s.current_path == state.current_path
            &&& s.threshold == state.threshold && s.config == state.config
            &&& s.schema_known == state.schema_known
        }),
        ({
            let s = state.without_writer();
            &&& !s.writer_open
            &&& s.created == state.created && s.ready == state.ready && s.seq == state.seq
            &&& s.rows_written == state.rows_written && s.current_path == state.current_path
            &&& s.threshold == state.threshold && s.config == state.config
            &&& s.schema_known == state.schema_known
        }),
        ({
            let s = state.with_closed_file();
            &&& s.current_path is None
            &&& s.ready == state.ready + (match state.current_path {
                Some(p) => seq![p],
                None => Seq::empty(),
            })
            &&& s.created == state.created && s.seq == state.seq
            &&& s.rows_written == state.rows_written && s.writer_open == state.writer_open
            &&& s.threshold == state.threshold && s.config == state.config
            &&& s.schema_known == state.schema_known
        }),
        ({
            let s = state.without_ready();
            &&& s.ready.len() == 0
            &&& s.created == state.created && s.current_path == state.current_path
            &&& s.writer_open == state.writer_open && s.seq == state.seq
            &&& s.rows_written == state.rows_written && s.threshold == state.threshold
            &&& s.config == state.config && s.schema_known == state.schema_known
        }),
{
    assert(state.with_file(p).created =~= state.created + seq![p]);
    assert(state.with_closed_file().ready =~= state.ready + (match state.current_path {
        Some(p) => seq![p],
        None => Seq::empty(),
    }));
}

/// A new destination has no file, no writer, no schema and no rows, and a run is fresh once such a
/// destination is configured.
pub proof fn new_destination_has_written_nothing(p: ParquetPlugin, state: ParquetState)
    ensures
        p.is_new() <==> p.config is None && p.threshold is None && !p.writer_open
            && !p.schema_known && p.seq == 0 && p.current_path is None && p.created@.len() == 0
            && p.ready@.len() == 0 && p.rows_written == 0,
        state.is_fresh() <==> state.config is Some && !state.writer_open && !state.schema_known
            && state.seq == 0 && state.current_path is None && state.created.len() == 0
            && state.ready.len() == 0 && state.rows_written == 0,
{
}

} // verus!
