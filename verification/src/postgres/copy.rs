//! Renders batches into Postgres `COPY ... FROM STDIN (FORMAT text)` payloads.
//!
//! The text format is symmetric with the text-protocol read path of the source: Postgres parses
//! the text of each cell into the type of the target column.

use crate::float_text;
use crate::number;
use crate::number::signed_decimal_text;
use crate::postgres::bytea;
use crate::postgres::bytea::bytea_text;
use crate::postgres::cells;
use crate::postgres::cells::{
    BoolCell, ByteaCell, CellFault, CellReader, DateCell, FloatCell, Int32Cell, Int64Cell,
    TimestampCell,
};
use crate::postgres::temporal;
use crate::postgres::temporal::{date_text, timestamp_text};
use crate::postgres::types;
use crate::postgres::types::{ScalarSeq, Scalars};
use crate::text;
use crate::text::{chars_of, text_of};
use vstd::prelude::*;

verus! {

/// A column of a batch that is to be written.
#[derive(Debug)]
pub enum CopyColumn {
    Flat(Scalars),
    LargeUtf8(Vec<Option<String>>),
    /// A column of a type that cannot be written, by its name, and which of its cells are absent.
    Unsupported { data_type: String, absent: Vec<bool> },
}

/// A batch that is to be written.
#[derive(Debug)]
pub struct Batch {
    pub names: Vec<String>,
    pub columns: Vec<CopyColumn>,
    pub num_rows: usize,
}

/// Why a batch cannot be written.
#[derive(Debug)]
pub enum CopyError {
    DateOutOfRange(i32),
    TimestampOutOfRange(i64),
    Unsupported(String),
}

/// Why a batch cannot be written, over sequences of characters.
pub enum CopyFault {
    DateOutOfRange(i32),
    TimestampOutOfRange(i64),
    Unsupported(Seq<char>),
}

impl View for CopyError {
    type V = CopyFault;

    open spec fn view(&self) -> CopyFault {
        match self {
            CopyError::DateOutOfRange(days) => CopyFault::DateOutOfRange(*days),
            CopyError::TimestampOutOfRange(ms) => CopyFault::TimestampOutOfRange(*ms),
            CopyError::Unsupported(t) => CopyFault::Unsupported(t@),
        }
    }
}

impl CopyFault {
    /// The wording of the error.
    pub open spec fn wording(self) -> Seq<char> {
        match self {
            CopyFault::DateOutOfRange(days) => "date32 out of range: "@ + number::signed_decimal(
                days as int,
            ),
            CopyFault::TimestampOutOfRange(ms) => "timestamp out of range: "@
                + number::signed_decimal(ms as int),
            CopyFault::Unsupported(t) => "postgres destination does not support Arrow type "@ + t
                + " yet"@,
        }
    }
}

impl CopyError {
    /// The wording of the error.
    pub fn message(&self) -> (m: String)
        ensures
            m@ == self@.wording(),
    {
        let mut m = String::new();
        match self {
            CopyError::DateOutOfRange(days) => {
                let n = signed_decimal_text(*days as i64);
                m.append("date32 out of range: ");
                m.append(n.as_str());
            },
            CopyError::TimestampOutOfRange(ms) => {
                let n = signed_decimal_text(*ms);
                m.append("timestamp out of range: ");
                m.append(n.as_str());
            },
            CopyError::Unsupported(t) => {
                m.append("postgres destination does not support Arrow type ");
                m.append(t.as_str());
                m.append(" yet");
            },
        }
        assert(m@ =~= self@.wording());
        m
    }
}

impl CopyColumn {
    /// How many cells the column has.
    pub open spec fn cells(self) -> nat {
        match self {
            CopyColumn::Flat(values) => types::scalar_len(values@),
            CopyColumn::LargeUtf8(v) => v@.len(),
            CopyColumn::Unsupported { absent, .. } => absent@.len(),
        }
    }
}

impl Batch {
    /// Each column has a name, and a cell for each row.
    pub open spec fn well_formed(self) -> bool {
        &&& self.names@.len() == self.columns@.len()
        &&& forall|c: int|
            0 <= c < self.columns@.len() ==> #[trigger] self.columns@[c].cells() == self.num_rows
    }
}

/// The text of one value, or why it has none; nothing for an absent value.
pub open spec fn scalar_rendering(values: ScalarSeq, row: int) -> Result<
    Option<Seq<char>>,
    CopyFault,
> {
    match values {
        ScalarSeq::Int32(s) => Ok(
            match s[row] {
                Some(n) => Some(number::signed_decimal(n as int)),
                None => None,
            },
        ),
        ScalarSeq::Int64(s) => Ok(
            match s[row] {
                Some(n) => Some(number::signed_decimal(n as int)),
                None => None,
            },
        ),
        ScalarSeq::Float32(s) => Ok(s[row]),
        ScalarSeq::Float64(s) => Ok(s[row]),
        ScalarSeq::Boolean(s) => Ok(
            match s[row] {
                Some(b) => Some(
                    if b {
                        "t"@
                    } else {
                        "f"@
                    },
                ),
                None => None,
            },
        ),
        ScalarSeq::Date32(s) => match s[row] {
            Some(days) => if temporal::FIRST_DAY <= days <= temporal::LAST_DAY {
                Ok(temporal::formatted_date(days, "%Y-%m-%d"@))
            } else {
                Err(CopyFault::DateOutOfRange(days))
            },
            None => Ok(None),
        },
        ScalarSeq::TimestampMillisecond(s) => match s[row] {
            Some(ms) => if temporal::FIRST_SECOND * 1000 <= ms <= temporal::LAST_SECOND * 1000
                + 999 {
                Ok(temporal::formatted_date_time(ms, "%Y-%m-%d %H:%M:%S%.f"@))
            } else {
                Err(CopyFault::TimestampOutOfRange(ms))
            },
            None => Ok(None),
        },
        ScalarSeq::Binary(s) => Ok(
            match s[row] {
                Some(b) => Some(bytea::bytea_literal(b)),
                None => None,
            },
        ),
        ScalarSeq::Utf8(s) => Ok(s[row]),
    }
}

/// The text of one cell, or why it has none; nothing for an absent cell.
pub open spec fn cell_rendering(column: CopyColumn, row: int) -> Result<
    Option<Seq<char>>,
    CopyFault,
> {
    match column {
        CopyColumn::Flat(values) => scalar_rendering(values@, row),
        CopyColumn::LargeUtf8(v) => Ok(text::opt_view(v@[row])),
        CopyColumn::Unsupported { data_type, absent } => if absent@[row] {
            Ok(None)
        } else {
            Err(CopyFault::Unsupported(data_type@))
        },
    }
}

/// Whether the reader for the type of `values` reads `t` as the value at `row`. Floating-point
/// numbers and text are their own texts.
pub open spec fn reads_back(values: ScalarSeq, row: int, t: Seq<char>) -> bool {
    match values {
        ScalarSeq::Int32(s) => Int32Cell::reading(t) == Ok::<i32, CellFault>(s[row]->0),
        ScalarSeq::Int64(s) => Int64Cell::reading(t) == Ok::<i64, CellFault>(s[row]->0),
        ScalarSeq::Float32(s) => t == s[row]->0,
        ScalarSeq::Float64(s) => t == s[row]->0,
        ScalarSeq::Boolean(s) => BoolCell::reading(t) == Ok::<bool, CellFault>(s[row]->0),
        ScalarSeq::Date32(s) => DateCell::reading(t) == Ok::<i32, CellFault>(s[row]->0),
        ScalarSeq::TimestampMillisecond(s) => TimestampCell::reading(t) == Ok::<i64, CellFault>(
            s[row]->0,
        ),
        ScalarSeq::Binary(s) => ByteaCell::reading(t) == Ok::<Seq<u8>, CellFault>(s[row]->0),
        ScalarSeq::Utf8(s) => t == s[row]->0,
    }
}

/// Whether the text of a cell of a type that the source reads too, where the cell has one, is read
/// as the value of the cell, and only an absent cell has none.
pub open spec fn cell_reads_back(column: CopyColumn, row: int) -> bool {
    match column {
        CopyColumn::Flat(values) => match cell_rendering(column, row) {
            Ok(Some(t)) => !types::is_absent(values@, row) && reads_back(values@, row, t),
            Ok(None) => types::is_absent(values@, row),
            Err(_) => false,
        },
        _ => true,
    }
}

/// Whether the texts of all cells are read as the values of the cells.
pub open spec fn batch_reads_back(batch: Batch) -> bool {
    forall|c: int, r: int|
        0 <= c < batch.columns@.len() && 0 <= r < batch.num_rows ==> #[trigger] cell_reads_back(
            batch.columns@[c],
            r,
        )
}

fn copy_text(cell: &Option<String>) -> (r: Option<String>)
    ensures
        text::opt_view(r) == text::opt_view(*cell),
{
    match cell {
        Some(s) => Some(s.clone()),
        None => None,
    }
}

/// The text of one value. What it writes, the reader for the type reads back.
pub fn scalar_text(values: &Scalars, row: usize) -> (r: Result<Option<String>, CopyError>)
    requires
        row < types::scalar_len(values@),
    ensures
        match (r, scalar_rendering(values@, row as int)) {
            (Ok(t), Ok(s)) => text::opt_view(t) == s,
            (Err(e), Err(f)) => e@ == f,
            _ => false,
        },
        r matches Ok(Some(t)) ==> reads_back(values@, row as int, t@),
        r matches Ok(t) ==> (t is None <==> types::is_absent(values@, row as int)),
{
    match values {
        Scalars::Int32(v) => match v[row] {
            Some(n) => {
                proof {
                    number::signed_round_trip(n as int, i32::MAX as nat);
                }
                Ok(Some(signed_decimal_text(n as i64)))
            },
            None => Ok(None),
        },
        Scalars::Int64(v) => match v[row] {
            Some(n) => {
                proof {
                    number::signed_round_trip(n as int, i64::MAX as nat);
                }
                Ok(Some(signed_decimal_text(n)))
            },
            None => Ok(None),
        },
        Scalars::Float32(v) => Ok(copy_text(&v[row])),
        Scalars::Float64(v) => Ok(copy_text(&v[row])),
        Scalars::Boolean(v) => match v[row] {
            Some(b) => {
                proof {
                    reveal_strlit("t");
                    reveal_strlit("true");
                    reveal_strlit("f");
                    reveal_strlit("false");
                    assert("f"@[0] != "t"@[0]);
                    assert("f"@.len() != "true"@.len());
                }
                Ok(
                    Some(
                        if b {
                            "t".to_owned()
                        } else {
                            "f".to_owned()
                        },
                    ),
                )
            },
            None => Ok(None),
        },
        Scalars::Date32(v) => match v[row] {
            Some(days) => match date_text(days) {
                Some(t) => Ok(Some(t)),
                None => Err(CopyError::DateOutOfRange(days)),
            },
            None => Ok(None),
        },
        Scalars::TimestampMillisecond(v) => match v[row] {
            Some(ms) => match timestamp_text(ms) {
                Some(t) => Ok(Some(t)),
                None => Err(CopyError::TimestampOutOfRange(ms)),
            },
            None => Ok(None),
        },
        Scalars::Binary(v) => match &v[row] {
            Some(b) => {
                proof {
                    bytea::bytea_round_trip(b@);
                }
                Ok(Some(bytea_text(b)))
            },
            None => Ok(None),
        },
        Scalars::Utf8(v) => Ok(copy_text(&v[row])),
    }
}

/// The text of one cell, or `None` for an absent cell.
pub fn cell_text(column: &CopyColumn, row: usize) -> (r: Result<Option<String>, CopyError>)
    requires
        row < column.cells(),
    ensures
        match (r, cell_rendering(*column, row as int)) {
            (Ok(t), Ok(s)) => text::opt_view(t) == s,
            (Err(e), Err(f)) => e@ == f,
            _ => false,
        },
        r is Ok ==> cell_reads_back(*column, row as int),
{
    match column {
        CopyColumn::Flat(values) => scalar_text(values, row),
        CopyColumn::LargeUtf8(v) => Ok(copy_text(&v[row])),
        CopyColumn::Unsupported { data_type, absent } => if absent[row] {
            Ok(None)
        } else {
            Err(CopyError::Unsupported(data_type.clone()))
        },
    }
}

/// One character of a cell in `COPY` text.
pub open spec fn escaped_char(c: char) -> Seq<char> {
    if c == '\\' {
        seq!['\\', '\\']
    } else if c == '\t' {
        seq!['\\', 't']
    } else if c == '\n' {
        seq!['\\', 'n']
    } else if c == '\r' {
        seq!['\\', 'r']
    } else {
        seq![c]
    }
}

/// A cell in `COPY` text: the backslash and the delimiters are escaped.
pub open spec fn escaped(s: Seq<char>) -> Seq<char>
    decreases s.len(),
{
    if s.len() == 0 {
        Seq::empty()
    } else {
        escaped_char(s[0]) + escaped(s.drop_first())
    }
}

/// Escapes a cell for the `COPY` text format: backslash and the field and row delimiters.
pub fn escape(s: &str) -> (r: String)
    ensures
        r@ == escaped(s@),
{
    let v = chars_of(s);
    let mut r = String::new();
    assert(v@.skip(0) =~= v@);
    assert(r@ + escaped(v@) =~= escaped(v@));
    for i in 0..v.len()
        invariant
            r@ + escaped(v@.skip(i as int)) == escaped(s@),
    {
        let ghost before = r@;
        let c: char = v[i];
        assert(v@.skip(i as int).drop_first() =~= v@.skip(i + 1));
        if c == '\\' {
            r.push('\\');
            r.push('\\');
        } else if c == '\t' {
            r.push('\\');
            r.push('t');
        } else if c == '\n' {
            r.push('\\');
            r.push('n');
        } else if c == '\r' {
            r.push('\\');
            r.push('r');
        } else {
            r.push(c);
        }
        assert(r@ =~= before + escaped_char(c));
        assert(r@ + escaped(v@.skip(i + 1)) =~= before + (escaped_char(c) + escaped(
            v@.skip(i + 1),
        )));
    }
    assert(r@ + escaped(v@.skip(v@.len() as int)) =~= r@);
    r
}

/// A cell as a field of a `COPY` line: escaped text, or `\N` for an absent cell.
pub open spec fn field_text(cell: Option<Seq<char>>) -> Seq<char> {
    match cell {
        Some(s) => escaped(s),
        None => seq!['\\', 'N'],
    }
}

/// The first `n` fields of a row, separated by tabs, or why the first field that fails cannot be
/// written.
pub open spec fn fields_text(columns: Seq<CopyColumn>, row: int, n: nat) -> Result<
    Seq<char>,
    CopyFault,
>
    decreases n,
{
    if n == 0 {
        Ok(Seq::empty())
    } else {
        match fields_text(columns, row, (n - 1) as nat) {
            Err(f) => Err(f),
            Ok(before) => match cell_rendering(columns[n - 1], row) {
                Err(f) => Err(f),
                Ok(cell) => Ok(
                    if n == 1 {
                        field_text(cell)
                    } else {
                        before.push('\t') + field_text(cell)
                    },
                ),
            },
        }
    }
}

/// The first `n` rows, each ended by a line feed, or why the first cell that fails, row by row,
/// cannot be written.
pub open spec fn lines_text(columns: Seq<CopyColumn>, n: nat) -> Result<Seq<char>, CopyFault>
    decreases n,
{
    if n == 0 {
        Ok(Seq::empty())
    } else {
        match lines_text(columns, (n - 1) as nat) {
            Err(f) => Err(f),
            Ok(before) => match fields_text(columns, n - 1, columns.len()) {
                Err(f) => Err(f),
                Ok(line) => Ok((before + line).push('\n')),
            },
        }
    }
}

/// The payload of a batch, or why it has none.
pub open spec fn payload(batch: Batch) -> Result<Seq<char>, CopyFault> {
    lines_text(batch.columns@, batch.num_rows as nat)
}

proof fn lemma_fields_failure_stays(columns: Seq<CopyColumn>, row: int, n: nat, m: nat)
    requires
        n <= m,
        fields_text(columns, row, n) is Err,
    ensures
        fields_text(columns, row, m) == fields_text(columns, row, n),
    decreases m,
{
    if n < m {
        lemma_fields_failure_stays(columns, row, n, (m - 1) as nat);
    }
}

proof fn lemma_lines_failure_stays(columns: Seq<CopyColumn>, n: nat, m: nat)
    requires
        n <= m,
        lines_text(columns, n) is Err,
    ensures
        lines_text(columns, m) == lines_text(columns, n),
    decreases m,
{
    if n < m {
        lemma_lines_failure_stays(columns, n, (m - 1) as nat);
    }
}

fn push_fields(batch: &Batch, row: usize, out: &mut String) -> (r: Result<(), CopyError>)
    requires
        batch.well_formed(),
        row < batch.num_rows,
    ensures
        match (r, fields_text(batch.columns@, row as int, batch.columns@.len())) {
            (Ok(_), Ok(line)) => final(out)@ == old(out)@ + line,
            (Err(e), Err(f)) => e@ == f,
            _ => false,
        },
        r is Ok ==> forall|c: int|
            0 <= c < batch.columns@.len() ==> #[trigger] cell_reads_back(
                batch.columns@[c],
                row as int,
            ),
{
    let ghost before = out@;
    assert(before + Seq::<char>::empty() =~= before);
    for col in 0..batch.columns.len()
        invariant
            batch.well_formed(),
            row < batch.num_rows,
            match fields_text(batch.columns@, row as int, col as nat) {
                Ok(line) => out@ == before + line,
                Err(_) => false,
            },
            forall|c: int|
                0 <= c < col ==> #[trigger] cell_reads_back(batch.columns@[c], row as int),
    {
        let ghost line = fields_text(batch.columns@, row as int, col as nat)->Ok_0;
        assert(batch.columns@[col as int].cells() == batch.num_rows);
        match cell_text(&batch.columns[col], row) {
            Ok(cell) => {
                let ghost field = field_text(text::opt_view(cell));
                if col > 0 {
                    out.push('\t');
                }
                match cell {
                    Some(s) => {
                        let e = escape(s.as_str());
                        out.append(e.as_str());
                    },
                    None => {
                        out.push('\\');
                        out.push('N');
                    },
                }
                if col > 0 {
                    assert(out@ =~= before + (line.push('\t') + field));
                } else {
                    assert(out@ =~= before + field);
                }
            },
            Err(e) => {
                proof {
                    lemma_fields_failure_stays(
                        batch.columns@,
                        row as int,
                        (col + 1) as nat,
                        batch.columns@.len(),
                    );
                }
                return Err(e);
            },
        }
    }
    Ok(())
}

/// Builds the text payload for a batch: one line per row, cells separated by tabs, each line
/// ended by a line feed. Absent cells are rendered `\N`. What it writes, the readers for the types
/// of the columns read back.
pub fn batch_to_copy_text(batch: &Batch) -> (r: Result<String, CopyError>)
    requires
        batch.well_formed(),
    ensures
        match (r, payload(*batch)) {
            (Ok(t), Ok(s)) => t@ == s,
            (Err(e), Err(f)) => e@ == f,
            _ => false,
        },
        r is Ok ==> batch_reads_back(*batch),
{
    let mut out = String::new();
    for row in 0..batch.num_rows
        invariant
            batch.well_formed(),
            lines_text(batch.columns@, row as nat) == Ok::<Seq<char>, CopyFault>(out@),
            forall|c: int, r: int|
                0 <= c < batch.columns@.len() && 0 <= r < row ==> #[trigger] cell_reads_back(
                    batch.columns@[c],
                    r,
                ),
    {
        match push_fields(batch, row, &mut out) {
            Ok(_) => {
                out.push('\n');
            },
            Err(e) => {
                proof {
                    lemma_lines_failure_stays(
                        batch.columns@,
                        (row + 1) as nat,
                        batch.num_rows as nat,
                    );
                }
                return Err(e);
            },
        }
    }
    Ok(out)
}

/// Whether the texts that stand for floating-point numbers are texts of numbers.
pub open spec fn floats_are_numbers(values: ScalarSeq) -> bool {
    match values {
        ScalarSeq::Float32(s) => forall|i: int|
            0 <= i < s.len() ==> (#[trigger] s[i] matches Some(t) ==> float_text::float_fault(
                t,
            ) is None),
        ScalarSeq::Float64(s) => forall|i: int|
            0 <= i < s.len() ==> (#[trigger] s[i] matches Some(t) ==> float_text::float_fault(
                t,
            ) is None),
        _ => true,
    }
}

/// Whether `texts` are what `scalar_text` gives for the values, row by row.
pub open spec fn are_texts_of(texts: Seq<Option<Seq<char>>>, values: ScalarSeq) -> bool {
    &&& texts.len() == types::scalar_len(values)
    &&& forall|i: int|
        0 <= i < texts.len() ==> match #[trigger] texts[i] {
            None => types::is_absent(values, i),
            Some(t) => !types::is_absent(values, i) && reads_back(values, i, t),
        }
}

/// Writing and reading are symmetric: the texts that the destination writes for a column, the
/// source reads as that column.
pub proof fn column_round_trip(values: ScalarSeq, texts: Seq<Option<Seq<char>>>)
    requires
        are_texts_of(texts, values),
        floats_are_numbers(values),
    ensures
        types::flat_reading(types::type_of(values), false, texts) == Some(
            Ok::<ScalarSeq, (int, CellFault)>(values),
        ),
{
    match values {
        ScalarSeq::Int32(s) => {
            assert forall|i: int| 0 <= i < texts.len() implies #[trigger] cells::is_read_as::<
                Int32Cell,
            >(texts[i], s[i]) by {}
            cells::cells_are_read_one_by_one::<Int32Cell>(texts, s);
        },
        ScalarSeq::Int64(s) => {
            assert forall|i: int| 0 <= i < texts.len() implies #[trigger] cells::is_read_as::<
                Int64Cell,
            >(texts[i], s[i]) by {}
            cells::cells_are_read_one_by_one::<Int64Cell>(texts, s);
        },
        ScalarSeq::Float32(s) => {
            assert forall|i: int| 0 <= i < texts.len() implies #[trigger] cells::is_read_as::<
                FloatCell,
            >(texts[i], s[i]) by {}
            cells::cells_are_read_one_by_one::<FloatCell>(texts, s);
        },
        ScalarSeq::Float64(s) => {
            assert forall|i: int| 0 <= i < texts.len() implies #[trigger] cells::is_read_as::<
                FloatCell,
            >(texts[i], s[i]) by {}
            cells::cells_are_read_one_by_one::<FloatCell>(texts, s);
        },
        ScalarSeq::Boolean(s) => {
            assert forall|i: int| 0 <= i < texts.len() implies #[trigger] cells::is_read_as::<
                BoolCell,
            >(texts[i], s[i]) by {}
            cells::cells_are_read_one_by_one::<BoolCell>(texts, s);
        },
        ScalarSeq::Date32(s) => {
            assert forall|i: int| 0 <= i < texts.len() implies #[trigger] cells::is_read_as::<
                DateCell,
            >(texts[i], s[i]) by {}
            cells::cells_are_read_one_by_one::<DateCell>(texts, s);
        },
        ScalarSeq::TimestampMillisecond(s) => {
            assert forall|i: int| 0 <= i < texts.len() implies #[trigger] cells::is_read_as::<
                TimestampCell,
            >(texts[i], s[i]) by {}
            cells::cells_are_read_one_by_one::<TimestampCell>(texts, s);
        },
        ScalarSeq::Binary(s) => {
            assert forall|i: int| 0 <= i < texts.len() implies #[trigger] cells::is_read_as::<
                ByteaCell,
            >(texts[i], s[i]) by {}
            cells::cells_are_read_one_by_one::<ByteaCell>(texts, s);
        },
        ScalarSeq::Utf8(s) => {
            assert(texts =~= s);
        },
    }
}

/// The character that a `COPY` reader takes for a backslash followed by `c`.
pub open spec fn unescaped_char(c: char) -> char {
    if c == 't' {
        '\t'
    } else if c == 'n' {
        '\n'
    } else if c == 'r' {
        '\r'
    } else {
        c
    }
}

/// The text that a `COPY` reader takes out of a field that is not absent.
pub open spec fn unescaped(s: Seq<char>) -> Seq<char>
    decreases s.len(),
{
    if s.len() == 0 {
        Seq::empty()
    } else if s[0] == '\\' && s.len() > 1 {
        seq![unescaped_char(s[1])] + unescaped(s.skip(2))
    } else {
        seq![s[0]] + unescaped(s.drop_first())
    }
}

/// What a `COPY` reader takes a field for.
pub open spec fn field_reading(field: Seq<char>) -> Option<Seq<char>> {
    if field == seq!['\\', 'N'] {
        None
    } else {
        Some(unescaped(field))
    }
}

/// What a `COPY` reader takes a line for: its fields, separated by tabs.
pub open spec fn line_reading(line: Seq<char>) -> Seq<Option<Seq<char>>> {
    text::split_at(line, '\t').map_values(|field: Seq<char>| field_reading(field))
}

/// Escaping loses nothing: a `COPY` reader takes an escaped cell for the text of the cell.
pub proof fn escape_round_trip(s: Seq<char>)
    ensures
        unescaped(escaped(s)) == s,
    decreases s.len(),
{
    if s.len() == 0 {
        assert(s =~= unescaped(escaped(s)));
    } else {
        let tail = s.drop_first();
        escape_round_trip(tail);
        let e = escaped(s);
        if escaped_char(s[0]).len() == 2 {
            assert(e.skip(2) =~= escaped(tail));
        } else {
            assert(e.drop_first() =~= escaped(tail));
        }
        assert(seq![s[0]] + tail =~= s);
    }
}

/// No delimiter of the format stands in an escaped cell.
pub proof fn escaped_has_no_delimiter(s: Seq<char>)
    ensures
        forall|i: int|
            0 <= i < escaped(s).len() ==> #[trigger] escaped(s)[i] != '\t' && escaped(s)[i] != '\n'
                && escaped(s)[i] != '\r',
    decreases s.len(),
{
    if s.len() > 0 {
        escaped_has_no_delimiter(s.drop_first());
        let head = escaped_char(s[0]);
        let tail = escaped(s.drop_first());
        assert forall|i: int| 0 <= i < escaped(s).len() implies #[trigger] escaped(s)[i] != '\t'
            && escaped(s)[i] != '\n' && escaped(s)[i] != '\r' by {
            if i >= head.len() {
                assert(escaped(s)[i] == tail[i - head.len()]);
            } else {
                assert(escaped(s)[i] == head[i]);
            }
        }
    }
}

/// A field is read back as the cell it was written for, and an empty text, an absent cell and the
/// text `\N` stay apart.
pub proof fn field_round_trip(cell: Option<Seq<char>>)
    ensures
        field_reading(field_text(cell)) == cell,
{
    if let Some(s) = cell {
        escape_round_trip(s);
        let e = escaped(s);
        if e == seq!['\\', 'N'] {
            assert(e[0] == escaped_char(s[0])[0]);
            assert(escaped_char(s[0]).len() == 2);
            assert(e[1] == escaped_char(s[0])[1]);
        }
    }
}

proof fn lemma_field_has_no_delimiter(cell: Option<Seq<char>>)
    ensures
        forall|i: int|
            0 <= i < field_text(cell).len() ==> #[trigger] field_text(cell)[i] != '\t'
                && field_text(cell)[i] != '\n',
{
    if let Some(s) = cell {
        escaped_has_no_delimiter(s);
    }
}

proof fn lemma_fields_read_back(columns: Seq<CopyColumn>, row: int, n: nat)
    requires
        fields_text(columns, row, n) is Ok,
    ensures
        ({
            let line = fields_text(columns, row, n)->Ok_0;
            &&& forall|i: int| 0 <= i < line.len() ==> line[i] != '\n'
            &&& n > 0 ==> line_reading(line).len() == n
            &&& forall|c: int|
                0 <= c < n ==> cell_rendering(columns[c], row) == Ok::<
                    Option<Seq<char>>,
                    CopyFault,
                >(#[trigger] line_reading(line)[c])
        }),
    decreases n,
{
    if n > 0 {
        let m = (n - 1) as nat;
        lemma_fields_read_back(columns, row, m);
        let before = fields_text(columns, row, m)->Ok_0;
        let line = fields_text(columns, row, n)->Ok_0;
        let cell = cell_rendering(columns[n - 1], row)->Ok_0;
        let field = field_text(cell);
        lemma_field_has_no_delimiter(cell);
        field_round_trip(cell);
        text::lemma_split_word(field, '\t');
        if n > 1 {
            assert(line =~= before + seq!['\t'] + field);
            text::lemma_split_add(before, field, '\t');
            assert(line_reading(line) =~= line_reading(before).push(cell));
        } else {
            assert(line_reading(line) =~= seq![cell]);
        }
    }
}

proof fn lemma_lines_read_back(columns: Seq<CopyColumn>, n: nat)
    requires
        lines_text(columns, n) is Ok,
    ensures
        ({
            let s = lines_text(columns, n)->Ok_0;
            &&& n > 0 ==> s.len() > 0 && s.last() == '\n'
            &&& text::lines_of(s).len() == n
            &&& text::split_at(s, '\n') == text::lines_of(s).push(Seq::empty())
            &&& forall|r: int|
                0 <= r < n ==> fields_text(columns, r, columns.len()) == Ok::<Seq<char>, CopyFault>(
                    #[trigger] text::lines_of(s)[r],
                )
        }),
    decreases n,
{
    let s = lines_text(columns, n)->Ok_0;
    let none = Seq::<char>::empty();
    text::lemma_split_word(none, '\n');
    if n == 0 {
        assert(s == none);
        assert(text::split_at(s, '\n') =~= text::lines_of(s).push(none));
    } else {
        let m = (n - 1) as nat;
        lemma_lines_read_back(columns, m);
        let before = lines_text(columns, m)->Ok_0;
        let line = fields_text(columns, n - 1, columns.len())->Ok_0;
        lemma_fields_read_back(columns, n - 1, columns.len());
        text::lemma_split_word(line, '\n');
        text::lemma_split_add(line, none, '\n');
        let ended = line + seq!['\n'] + none;
        if m == 0 {
            assert(s =~= ended);
            assert(text::lines_of(s) =~= seq![line]);
        } else {
            let p = before.drop_last();
            assert(before =~= p + seq!['\n'] + none);
            text::lemma_split_add(p, none, '\n');
            text::lemma_split_add(p, ended, '\n');
            assert(s =~= p + seq!['\n'] + ended);
            assert(text::split_at(p, '\n') =~= text::lines_of(before));
            assert(text::lines_of(s) =~= text::lines_of(before).push(line));
        }
        assert(text::split_at(s, '\n') =~= text::lines_of(s).push(none));
    }
}

/// A `COPY` reader takes a payload for the cells that were written into it: one line for each row
/// and, where there is a column at all, one field for each column, which is read back as the text
/// of the cell, or as absent.
pub proof fn payload_round_trip(batch: Batch, s: Seq<char>)
    requires
        payload(batch) == Ok::<Seq<char>, CopyFault>(s),
    ensures
        text::lines_of(s).len() == batch.num_rows,
        forall|r: int|
            0 <= r < batch.num_rows && batch.columns@.len() > 0 ==> line_reading(
                #[trigger] text::lines_of(s)[r],
            ).len() == batch.columns@.len(),
        forall|r: int, c: int|
            0 <= r < batch.num_rows && 0 <= c < batch.columns@.len() ==> cell_rendering(
                batch.columns@[c],
                r,
            ) == Ok::<Option<Seq<char>>, CopyFault>(#[trigger] line_reading(text::lines_of(s)[r])[c]),
{
    let columns = batch.columns@;
    lemma_lines_read_back(columns, batch.num_rows as nat);
    assert forall|r: int| 0 <= r < batch.num_rows && columns.len() > 0 implies line_reading(
        #[trigger] text::lines_of(s)[r],
    ).len() == columns.len() by {
        assert(fields_text(columns, r, columns.len()) == Ok::<Seq<char>, CopyFault>(
            text::lines_of(s)[r],
        ));
        lemma_fields_read_back(columns, r, columns.len());
    }
    assert forall|r: int, c: int| 0 <= r < batch.num_rows && 0 <= c < columns.len() implies
        cell_rendering(columns[c], r) == Ok::<Option<Seq<char>>, CopyFault>(
        #[trigger] line_reading(text::lines_of(s)[r])[c],
    ) by {
        assert(fields_text(columns, r, columns.len()) == Ok::<Seq<char>, CopyFault>(
            text::lines_of(s)[r],
        ));
        lemma_fields_read_back(columns, r, columns.len());
    }
}

/// The texts of one column, as a `COPY` reader takes them out of a payload.
pub open spec fn payload_column(s: Seq<char>, c: int) -> Seq<Option<Seq<char>>> {
    text::lines_of(s).map_values(|line: Seq<char>| line_reading(line)[c])
}

/// What the destination writes for a column of a type that the source reads too, the source reads
/// as that column: in a payload whose cells read back, as `batch_to_copy_text` writes them, each
/// column is the one that was written, provided that the texts of floating-point numbers are texts
/// of numbers.
pub proof fn payload_column_round_trip(batch: Batch, s: Seq<char>, c: int, values: ScalarSeq)
    requires
        batch.well_formed(),
        payload(batch) == Ok::<Seq<char>, CopyFault>(s),
        batch_reads_back(batch),
        0 <= c < batch.columns@.len(),
        batch.columns@[c] matches CopyColumn::Flat(v) && v@ == values,
        floats_are_numbers(values),
    ensures
        types::flat_reading(types::type_of(values), false, payload_column(s, c)) == Some(
            Ok::<ScalarSeq, (int, CellFault)>(values),
        ),
{
    let texts = payload_column(s, c);
    payload_round_trip(batch, s);
    assert(batch.columns@[c].cells() == batch.num_rows);
    assert forall|i: int| 0 <= i < texts.len() implies match #[trigger] texts[i] {
        None => types::is_absent(values, i),
        Some(t) => !types::is_absent(values, i) && reads_back(values, i, t),
    } by {
        assert(cell_reads_back(batch.columns@[c], i));
        assert(texts[i] == line_reading(text::lines_of(s)[i])[c]);
        assert(scalar_rendering(values, i) == Ok::<Option<Seq<char>>, CopyFault>(texts[i]));
    }
    column_round_trip(values, texts);
}

} // verus!
