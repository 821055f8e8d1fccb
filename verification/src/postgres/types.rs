//! How Postgres types map to column types, and how text rows become typed columns.

use crate::postgres::array;
use crate::postgres::array::parse_pg_array_text;
use crate::postgres::bytea::ByteaError;
use crate::postgres::cells;
use crate::postgres::cells::{
    read_cells, BoolCell, ByteaCell, CellError, CellFault, CellReader, DateCell, FloatCell,
    HstoreCell, Int32Cell, Int64Cell, TimestampCell,
};
use crate::text;
use crate::text::same_text;
use vstd::prelude::*;

verus! {

/// The type of a column.
#[derive(Debug, PartialEq, Eq)]
pub enum DataType {
    Int32,
    Int64,
    Float32,
    Float64,
    Boolean,
    /// Days since 1970-01-01.
    Date32,
    /// Milliseconds since the epoch, without a time zone.
    TimestampMillisecond,
    Binary,
    Utf8,
    /// A list of nullable items, named as `list_item_name` says.
    List(Box<DataType>),
    /// A type that cells cannot be read into, by its name.
    Other(String),
}

impl Clone for DataType {
    fn clone(&self) -> (r: DataType)
        ensures
            r == *self,
        decreases self,
    {
        match self {
            DataType::Int32 => DataType::Int32,
            DataType::Int64 => DataType::Int64,
            DataType::Float32 => DataType::Float32,
            DataType::Float64 => DataType::Float64,
            DataType::Boolean => DataType::Boolean,
            DataType::Date32 => DataType::Date32,
            DataType::TimestampMillisecond => DataType::TimestampMillisecond,
            DataType::Binary => DataType::Binary,
            DataType::Utf8 => DataType::Utf8,
            DataType::List(inner) => DataType::List(Box::new((&**inner).clone())),
            DataType::Other(name) => DataType::Other(name.clone()),
        }
    }
}

/// A Postgres type.
#[derive(Debug)]
pub struct PgType {
    pub name: String,
    pub kind: PgKind,
}

/// What kind of type a Postgres type is.
#[derive(Debug)]
pub enum PgKind {
    /// An array with elements of the given type.
    Array(Box<PgType>),
    Other,
}

/// A column of a query result.
#[derive(Debug)]
pub struct PgColumn {
    pub name: String,
    pub pg_type: PgType,
}

/// A column of a schema. Its cells may be absent.
#[derive(Debug)]
pub struct Field {
    pub name: String,
    pub data_type: DataType,
    /// The value under the metadata key that `hstore_type_key` gives.
    pub original_type: Option<String>,
}

/// The name of the items of a list type.
pub fn list_item_name() -> (name: &'static str)
    ensures
        name@ == "item"@,
{
    "item"
}

/// The field metadata key that marks hstore columns.
pub fn hstore_type_key() -> (key: &'static str)
    ensures
        key@ == "pg_original_type"@,
{
    "pg_original_type"
}

/// The column type for a Postgres type that is no array.
pub open spec fn scalar_type(name: Seq<char>) -> DataType {
    if name == "int2"@ || name == "int4"@ {
        DataType::Int32
    } else if name == "int8"@ {
        DataType::Int64
    } else if name == "float4"@ {
        DataType::Float32
    } else if name == "float8"@ {
        DataType::Float64
    } else if name == "bool"@ {
        DataType::Boolean
    } else if name == "date"@ {
        DataType::Date32
    } else if name == "timestamp"@ || name == "timestamptz"@ {
        DataType::TimestampMillisecond
    } else if name == "bytea"@ {
        DataType::Binary
    } else {
        DataType::Utf8
    }
}

/// The column type for a Postgres type: text for hstore, a list for an array, and else what its
/// name says.
pub open spec fn arrow_type(t: PgType) -> DataType
    decreases t,
{
    if t.name@ == "hstore"@ {
        DataType::Utf8
    } else {
        match t.kind {
            PgKind::Array(inner) => DataType::List(Box::new(arrow_type(*inner))),
            PgKind::Other => scalar_type(t.name@),
        }
    }
}

fn scalar_data_type(name: &str) -> (d: DataType)
    ensures
        d == scalar_type(name@),
{
    if same_text(name, "int2") || same_text(name, "int4") {
        DataType::Int32
    } else if same_text(name, "int8") {
        DataType::Int64
    } else if same_text(name, "float4") {
        DataType::Float32
    } else if same_text(name, "float8") {
        DataType::Float64
    } else if same_text(name, "bool") {
        DataType::Boolean
    } else if same_text(name, "date") {
        DataType::Date32
    } else if same_text(name, "timestamp") || same_text(name, "timestamptz") {
        DataType::TimestampMillisecond
    } else if same_text(name, "bytea") {
        DataType::Binary
    } else {
        DataType::Utf8
    }
}

/// Maps a Postgres type to a column type.
pub fn pg_type_to_arrow(pg_type: &PgType) -> (d: DataType)
    ensures
        d == arrow_type(*pg_type),
    decreases pg_type,
{
    if same_text(pg_type.name.as_str(), "hstore") {
        return DataType::Utf8;
    }
    match &pg_type.kind {
        PgKind::Array(inner) => DataType::List(Box::new(pg_type_to_arrow(&**inner))),
        PgKind::Other => scalar_data_type(pg_type.name.as_str()),
    }
}

/// Whether `field` is the schema column for a result column.
pub open spec fn is_field_of(field: Field, column: PgColumn) -> bool {
    &&& field.name@ == column.name@
    &&& field.data_type == arrow_type(column.pg_type)
    &&& text::opt_view(field.original_type) == (if column.pg_type.name@ == "hstore"@ {
        Some("hstore"@)
    } else {
        None
    })
}

/// The schema for the columns of a query result. Hstore columns are marked.
pub fn columns_to_schema(cols: &Vec<PgColumn>) -> (schema: Vec<Field>)
    ensures
        schema@.len() == cols@.len(),
        forall|i: int| 0 <= i < cols@.len() ==> is_field_of(#[trigger] schema@[i], cols@[i]),
{
    let mut schema: Vec<Field> = Vec::new();
    for i in 0..cols.len()
        invariant
            schema@.len() == i,
            forall|k: int| 0 <= k < i ==> is_field_of(#[trigger] schema@[k], cols@[k]),
    {
        let column = &cols[i];
        let original_type: Option<String> = if same_text(column.pg_type.name.as_str(), "hstore") {
            Some("hstore".to_owned())
        } else {
            None
        };
        let field = Field {
            name: column.name.clone(),
            data_type: pg_type_to_arrow(&column.pg_type),
            original_type,
        };
        schema.push(field);
    }
    schema
}

/// Values of one scalar type, some of them absent. Floating-point numbers are kept as the text
/// that writes them.
#[derive(Debug)]
pub enum Scalars {
    Int32(Vec<Option<i32>>),
    Int64(Vec<Option<i64>>),
    Float32(Vec<Option<String>>),
    Float64(Vec<Option<String>>),
    Boolean(Vec<Option<bool>>),
    Date32(Vec<Option<i32>>),
    TimestampMillisecond(Vec<Option<i64>>),
    Binary(Vec<Option<Vec<u8>>>),
    Utf8(Vec<Option<String>>),
}

/// Values of one scalar type, as a sequence.
pub enum ScalarSeq {
    Int32(Seq<Option<i32>>),
    Int64(Seq<Option<i64>>),
    Float32(Seq<Option<Seq<char>>>),
    Float64(Seq<Option<Seq<char>>>),
    Boolean(Seq<Option<bool>>),
    Date32(Seq<Option<i32>>),
    TimestampMillisecond(Seq<Option<i64>>),
    Binary(Seq<Option<Seq<u8>>>),
    Utf8(Seq<Option<Seq<char>>>),
}

impl View for Scalars {
    type V = ScalarSeq;

    open spec fn view(&self) -> ScalarSeq {
        match self {
            Scalars::Int32(v) => ScalarSeq::Int32(text::opt_views(v@)),
            Scalars::Int64(v) => ScalarSeq::Int64(text::opt_views(v@)),
            Scalars::Float32(v) => ScalarSeq::Float32(text::opt_views(v@)),
            Scalars::Float64(v) => ScalarSeq::Float64(text::opt_views(v@)),
            Scalars::Boolean(v) => ScalarSeq::Boolean(text::opt_views(v@)),
            Scalars::Date32(v) => ScalarSeq::Date32(text::opt_views(v@)),
            Scalars::TimestampMillisecond(v) => ScalarSeq::TimestampMillisecond(
                text::opt_views(v@),
            ),
            Scalars::Binary(v) => ScalarSeq::Binary(text::opt_views(v@)),
            Scalars::Utf8(v) => ScalarSeq::Utf8(text::opt_views(v@)),
        }
    }
}

/// How many values there are.
pub open spec fn scalar_len(values: ScalarSeq) -> nat {
    match values {
        ScalarSeq::Int32(s) => s.len(),
        ScalarSeq::Int64(s) => s.len(),
        ScalarSeq::Float32(s) => s.len(),
        ScalarSeq::Float64(s) => s.len(),
        ScalarSeq::Boolean(s) => s.len(),
        ScalarSeq::Date32(s) => s.len(),
        ScalarSeq::TimestampMillisecond(s) => s.len(),
        ScalarSeq::Binary(s) => s.len(),
        ScalarSeq::Utf8(s) => s.len(),
    }
}

/// The column type that the values are of.
pub open spec fn type_of(values: ScalarSeq) -> DataType {
    match values {
        ScalarSeq::Int32(_) => DataType::Int32,
        ScalarSeq::Int64(_) => DataType::Int64,
        ScalarSeq::Float32(_) => DataType::Float32,
        ScalarSeq::Float64(_) => DataType::Float64,
        ScalarSeq::Boolean(_) => DataType::Boolean,
        ScalarSeq::Date32(_) => DataType::Date32,
        ScalarSeq::TimestampMillisecond(_) => DataType::TimestampMillisecond,
        ScalarSeq::Binary(_) => DataType::Binary,
        ScalarSeq::Utf8(_) => DataType::Utf8,
    }
}

/// Whether the value at `row` is absent.
pub open spec fn is_absent(values: ScalarSeq, row: int) -> bool {
    match values {
        ScalarSeq::Int32(s) => s[row] is None,
        ScalarSeq::Int64(s) => s[row] is None,
        ScalarSeq::Float32(s) => s[row] is None,
        ScalarSeq::Float64(s) => s[row] is None,
        ScalarSeq::Boolean(s) => s[row] is None,
        ScalarSeq::Date32(s) => s[row] is None,
        ScalarSeq::TimestampMillisecond(s) => s[row] is None,
        ScalarSeq::Binary(s) => s[row] is None,
        ScalarSeq::Utf8(s) => s[row] is None,
    }
}

/// A typed column.
#[derive(Debug)]
pub enum ColumnData {
    Flat(Scalars),
    /// Row `i` is a list where `valid[i]`, of `lengths[i]` items; the items of all rows stand one
    /// behind the other.
    List { valid: Vec<bool>, lengths: Vec<usize>, items: Scalars },
}

/// A typed column, as sequences.
pub enum ColumnSeq {
    Flat(ScalarSeq),
    List { valid: Seq<bool>, lengths: Seq<int>, items: ScalarSeq },
}

impl View for ColumnData {
    type V = ColumnSeq;

    open spec fn view(&self) -> ColumnSeq {
        match self {
            ColumnData::Flat(s) => ColumnSeq::Flat(s@),
            ColumnData::List { valid, lengths, items } => ColumnSeq::List {
                valid: valid@,
                lengths: lengths@.map_values(|n: usize| n as int),
                items: items@,
            },
        }
    }
}

/// Why a column cannot be built.
#[derive(Debug)]
pub enum ColumnError {
    /// A cell, or an item of a list where `in_list`, cannot be read.
    Cell { column: String, in_list: bool, data_type: DataType, value: String, error: CellError },
    /// Cells cannot be read into a column of this type.
    Unsupported(DataType),
}

/// Why a column cannot be built, over sequences of characters.
pub enum ColumnFault {
    Cell {
        column: Seq<char>,
        in_list: bool,
        data_type: DataType,
        value: Seq<char>,
        fault: CellFault,
    },
    Unsupported(DataType),
}

impl View for ColumnError {
    type V = ColumnFault;

    open spec fn view(&self) -> ColumnFault {
        match self {
            ColumnError::Cell { column, in_list, data_type, value, error } => ColumnFault::Cell {
                column: column@,
                in_list: *in_list,
                data_type: *data_type,
                value: value@,
                fault: error@,
            },
            ColumnError::Unsupported(data_type) => ColumnFault::Unsupported(*data_type),
        }
    }
}

/// What an error calls the type of a cell.
pub open spec fn type_word(data_type: DataType) -> Seq<char> {
    match data_type {
        DataType::Int32 => "int32"@,
        DataType::Int64 => "int64"@,
        DataType::Float32 => "float32"@,
        DataType::Float64 => "float64"@,
        DataType::Date32 => "date"@,
        DataType::TimestampMillisecond => "ts"@,
        _ => Seq::empty(),
    }
}

impl ColumnFault {
    /// The wording of the error.
    pub open spec fn wording(self) -> Seq<char> {
        match self {
            ColumnFault::Cell { column, in_list, data_type, value, fault } => {
                let place = "col "@ + column + if in_list {
                    "[]: "@
                } else {
                    ": "@
                };
                match fault {
                    CellFault::Bytea(e) => e.wording(),
                    CellFault::Hstore(f) => place + "hstore parse: "@ + f.wording(),
                    CellFault::Bool => place + if in_list {
                        "unexpected bool '"@
                    } else {
                        "unexpected bool value '"@
                    } + value + "'"@,
                    _ => place + type_word(data_type) + if in_list {
                        " '"@
                    } else {
                        " parse '"@
                    } + value + "': "@ + fault.wording(),
                }
            },
            ColumnFault::Unsupported(DataType::Other(name)) => "unsupported arrow type: "@ + name@,
            ColumnFault::Unsupported(_) => "unsupported arrow type"@,
        }
    }
}

fn word_of(data_type: &DataType) -> (w: &'static str)
    ensures
        w@ == type_word(*data_type),
{
    match data_type {
        DataType::Int32 => "int32",
        DataType::Int64 => "int64",
        DataType::Float32 => "float32",
        DataType::Float64 => "float64",
        DataType::Date32 => "date",
        DataType::TimestampMillisecond => "ts",
        _ => {
            proof {
                reveal_strlit("");
                assert(""@ =~= Seq::<char>::empty());
            }
            ""
        },
    }
}

impl ColumnError {
    /// The wording of the error.
    pub fn message(&self) -> (m: String)
        ensures
            m@ == self@.wording(),
    {
        let mut m = String::new();
        match self {
            ColumnError::Cell { column, in_list, data_type, value, error } => {
                m.append("col ");
                m.append(column.as_str());
                m.append(
                    if *in_list {
                        "[]: "
                    } else {
                        ": "
                    },
                );
                match error {
                    CellError::Bytea(e) => {
                        return e.message().to_owned();
                    },
                    CellError::Hstore(e) => {
                        let reason = e.message();
                        m.append("hstore parse: ");
                        m.append(reason.as_str());
                    },
                    CellError::Bool => {
                        m.append(
                            if *in_list {
                                "unexpected bool '"
                            } else {
                                "unexpected bool value '"
                            },
                        );
                        m.append(value.as_str());
                        m.append("'");
                    },
                    _ => {
                        let reason = error.message();
                        m.append(word_of(data_type));
                        m.append(
                            if *in_list {
                                " '"
                            } else {
                                " parse '"
                            },
                        );
                        m.append(value.as_str());
                        m.append("': ");
                        m.append(reason.as_str());
                    },
                }
            },
            ColumnError::Unsupported(DataType::Other(name)) => {
                m.append("unsupported arrow type: ");
                m.append(name.as_str());
            },
            ColumnError::Unsupported(_) => {
                m.append("unsupported arrow type");
            },
        }
        assert(m@ =~= self@.wording());
        m
    }
}

/// The values of a column of scalars, or the first cell that cannot be read and why. `None` for a
/// type that is no scalar type.
pub open spec fn flat_reading(
    data_type: DataType,
    is_hstore: bool,
    cells: Seq<Option<Seq<char>>>,
) -> Option<Result<ScalarSeq, (int, CellFault)>> {
    match data_type {
        DataType::Int32 => Some(
            match cells::cells_reading::<Int32Cell>(cells) {
                Ok(s) => Ok(ScalarSeq::Int32(s)),
                Err(e) => Err(e),
            },
        ),
        DataType::Int64 => Some(
            match cells::cells_reading::<Int64Cell>(cells) {
                Ok(s) => Ok(ScalarSeq::Int64(s)),
                Err(e) => Err(e),
            },
        ),
        DataType::Float32 => Some(
            match cells::cells_reading::<FloatCell>(cells) {
                Ok(s) => Ok(ScalarSeq::Float32(s)),
                Err(e) => Err(e),
            },
        ),
        DataType::Float64 => Some(
            match cells::cells_reading::<FloatCell>(cells) {
                Ok(s) => Ok(ScalarSeq::Float64(s)),
                Err(e) => Err(e),
            },
        ),
        DataType::Boolean => Some(
            match cells::cells_reading::<BoolCell>(cells) {
                Ok(s) => Ok(ScalarSeq::Boolean(s)),
                Err(e) => Err(e),
            },
        ),
        DataType::Date32 => Some(
            match cells::cells_reading::<DateCell>(cells) {
                Ok(s) => Ok(ScalarSeq::Date32(s)),
                Err(e) => Err(e),
            },
        ),
        DataType::TimestampMillisecond => Some(
            match cells::cells_reading::<TimestampCell>(cells) {
                Ok(s) => Ok(ScalarSeq::TimestampMillisecond(s)),
                Err(e) => Err(e),
            },
        ),
        DataType::Binary => Some(
            match cells::cells_reading::<ByteaCell>(cells) {
                Ok(s) => Ok(ScalarSeq::Binary(s)),
                Err(e) => Err(e),
            },
        ),
        DataType::Utf8 => Some(
            if is_hstore {
                match cells::cells_reading::<HstoreCell>(cells) {
                    Ok(s) => Ok(ScalarSeq::Utf8(s)),
                    Err(e) => Err(e),
                }
            } else {
                Ok(ScalarSeq::Utf8(cells))
            },
        ),
        _ => None,
    }
}

/// The items of the list column `column`, read as values of the given type, or why they cannot be.
pub open spec fn item_reading(
    column: Seq<char>,
    data_type: DataType,
    items: Seq<Option<Seq<char>>>,
) -> Result<ScalarSeq, ColumnFault> {
    match flat_reading(data_type, false, items) {
        Some(Ok(values)) => Ok(values),
        Some(Err(failure)) => Err(cell_fault(column, true, data_type, items, failure)),
        None => Err(ColumnFault::Unsupported(data_type)),
    }
}

/// The items of the rows of a list column, one row behind the other.
pub open spec fn all_items(cells: Seq<Option<Seq<char>>>) -> Seq<Option<Seq<char>>>
    decreases cells.len(),
{
    if cells.len() == 0 {
        Seq::empty()
    } else {
        all_items(cells.drop_last()) + row_items(cells.last())
    }
}

/// The items of one row of a list column.
pub open spec fn row_items(cell: Option<Seq<char>>) -> Seq<Option<Seq<char>>> {
    match cell {
        Some(s) => array::array_text(s),
        None => Seq::empty(),
    }
}

/// The error for a cell that cannot be read.
pub open spec fn cell_fault(
    column: Seq<char>,
    in_list: bool,
    data_type: DataType,
    cells: Seq<Option<Seq<char>>>,
    failure: (int, CellFault),
) -> ColumnFault {
    ColumnFault::Cell {
        column,
        in_list,
        data_type,
        value: cells[failure.0]->0,
        fault: failure.1,
    }
}

/// The column that the cells make under a field, or why they make none.
pub open spec fn column_reading(
    name: Seq<char>,
    data_type: DataType,
    original_type: Option<Seq<char>>,
    cells: Seq<Option<Seq<char>>>,
) -> Result<ColumnSeq, ColumnFault> {
    match data_type {
        DataType::List(inner) => match item_reading(name, *inner, all_items(cells)) {
            Ok(items) => Ok(
                ColumnSeq::List {
                    valid: cells.map_values(|c: Option<Seq<char>>| c is Some),
                    lengths: cells.map_values(
                        |c: Option<Seq<char>>| row_items(c).len() as int,
                    ),
                    items,
                },
            ),
            Err(f) => Err(f),
        },
        DataType::Other(_) => Err(ColumnFault::Unsupported(data_type)),
        _ => match flat_reading(data_type, original_type == Some("hstore"@), cells)->0 {
            Ok(values) => Ok(ColumnSeq::Flat(values)),
            Err(e) => Err(cell_fault(name, false, data_type, cells, e)),
        },
    }
}

/// The cells of one column of text rows.
pub open spec fn column_of(rows: Seq<Vec<Option<String>>>, col_idx: int) -> Seq<
    Option<Seq<char>>,
> {
    rows.map_values(|row: Vec<Option<String>>| text::opt_view(row@[col_idx]))
}

fn column_cells(rows: &Vec<Vec<Option<String>>>, col_idx: usize) -> (cells: Vec<Option<String>>)
    requires
        forall|r: int| 0 <= r < rows@.len() ==> col_idx < #[trigger] rows@[r]@.len(),
    ensures
        text::opt_views(cells@) == column_of(rows@, col_idx as int),
{
    let mut cells: Vec<Option<String>> = Vec::new();
    for r in 0..rows.len()
        invariant
            forall|k: int| 0 <= k < rows@.len() ==> col_idx < #[trigger] rows@[k]@.len(),
            cells@.len() == r,
            forall|k: int|
                0 <= k < r ==> text::opt_view(#[trigger] cells@[k]) == text::opt_view(
                    rows@[k]@[col_idx as int],
                ),
    {
        assert(col_idx < rows@[r as int]@.len());
        let cell: Option<String> = match &rows[r][col_idx] {
            Some(s) => Some(s.clone()),
            None => None,
        };
        cells.push(cell);
    }
    assert(text::opt_views(cells@) =~= column_of(rows@, col_idx as int));
    cells
}

fn copy_cells(cells: &Vec<Option<String>>) -> (copy: Vec<Option<String>>)
    ensures
        text::opt_views(copy@) == text::opt_views(cells@),
{
    let mut copy: Vec<Option<String>> = Vec::new();
    for i in 0..cells.len()
        invariant
            copy@.len() == i,
            forall|k: int|
                0 <= k < i ==> text::opt_view(#[trigger] copy@[k]) == text::opt_view(cells@[k]),
    {
        let cell: Option<String> = match &cells[i] {
            Some(s) => Some(s.clone()),
            None => None,
        };
        copy.push(cell);
    }
    assert(text::opt_views(copy@) =~= text::opt_views(cells@));
    copy
}

fn read_flat(data_type: &DataType, is_hstore: bool, cells: &Vec<Option<String>>) -> (r: Result<
    Scalars,
    (usize, CellError),
>)
    requires
        flat_reading(*data_type, is_hstore, text::opt_views(cells@)) is Some,
    ensures
        match (r, flat_reading(*data_type, is_hstore, text::opt_views(cells@))->0) {
            (Ok(v), Ok(s)) => v@ == s,
            (Err((i, e)), Err((j, f))) => i == j && i < cells@.len() && cells@[i as int] is Some && e@
                == f,
            _ => false,
        },
{
    match data_type {
        DataType::Int32 => match read_cells::<Int32Cell>(cells) {
            Ok(v) => Ok(Scalars::Int32(v)),
            Err(e) => Err(e),
        },
        DataType::Int64 => match read_cells::<Int64Cell>(cells) {
            Ok(v) => Ok(Scalars::Int64(v)),
            Err(e) => Err(e),
        },
        DataType::Float32 => match read_cells::<FloatCell>(cells) {
            Ok(v) => Ok(Scalars::Float32(v)),
            Err(e) => Err(e),
        },
        DataType::Float64 => match read_cells::<FloatCell>(cells) {
            Ok(v) => Ok(Scalars::Float64(v)),
            Err(e) => Err(e),
        },
        DataType::Boolean => match read_cells::<BoolCell>(cells) {
            Ok(v) => Ok(Scalars::Boolean(v)),
            Err(e) => Err(e),
        },
        DataType::Date32 => match read_cells::<DateCell>(cells) {
            Ok(v) => Ok(Scalars::Date32(v)),
            Err(e) => Err(e),
        },
        DataType::TimestampMillisecond => match read_cells::<TimestampCell>(cells) {
            Ok(v) => Ok(Scalars::TimestampMillisecond(v)),
            Err(e) => Err(e),
        },
        DataType::Binary => match read_cells::<ByteaCell>(cells) {
            Ok(v) => Ok(Scalars::Binary(v)),
            Err(e) => Err(e),
        },
        _ => if is_hstore {
            match read_cells::<HstoreCell>(cells) {
                Ok(v) => Ok(Scalars::Utf8(v)),
                Err(e) => Err(e),
            }
        } else {
            Ok(Scalars::Utf8(copy_cells(cells)))
        },
    }
}

/// Builds the items of a list column, using the given type. A list, or a type that cells cannot be
/// read into, is no type of items.
pub fn build_flat_scalars(values: &Vec<Option<String>>, dtype: &DataType, col_name: &str) -> (r:
    Result<Scalars, ColumnError>)
    ensures
        match (r, item_reading(col_name@, *dtype, text::opt_views(values@))) {
            (Ok(v), Ok(s)) => v@ == s,
            (Err(e), Err(f)) => e@ == f,
            _ => false,
        },
        r matches Ok(v) ==> type_of(v@) == *dtype && scalar_len(v@) == values@.len(),
        r matches Ok(v) ==> forall|i: int|
            0 <= i < values@.len() ==> (#[trigger] is_absent(v@, i) <==> values@[i] is None),
{
    match dtype {
        DataType::List(_) | DataType::Other(_) => Err(ColumnError::Unsupported(dtype.clone())),
        _ => {
            proof {
                flat_values_are_of_type(*dtype, false, text::opt_views(values@));
            }
            match read_flat(dtype, false, values) {
                Ok(v) => {
                    assert forall|i: int| 0 <= i < values@.len() implies (#[trigger] is_absent(v@, i)
                        <==> values@[i] is None) by {
                        assert(text::opt_views(values@)[i] == text::opt_view(values@[i]));
                    }
                    Ok(v)
                },
                Err((i, error)) => Err(cell_error(col_name, true, dtype, values, i, error)),
            }
        },
    }
}

fn cell_error(
    col_name: &str,
    in_list: bool,
    data_type: &DataType,
    cells: &Vec<Option<String>>,
    i: usize,
    error: CellError,
) -> (e: ColumnError)
    requires
        i < cells@.len(),
        cells@[i as int] is Some,
    ensures
        e@ == cell_fault(
            col_name@,
            in_list,
            *data_type,
            text::opt_views(cells@),
            (i as int, error@),
        ),
{
    let value: String = match &cells[i] {
        Some(s) => s.clone(),
        None => String::new(),
    };
    assert(text::opt_views(cells@)[i as int] == Some(value@));
    ColumnError::Cell {
        column: col_name.to_owned(),
        in_list,
        data_type: data_type.clone(),
        value,
        error,
    }
}

/// Builds a list column from array texts.
pub fn build_list_column_text(
    rows: &Vec<Vec<Option<String>>>,
    col_idx: usize,
    inner: &DataType,
    col_name: &str,
) -> (r: Result<ColumnData, ColumnError>)
    requires
        forall|i: int| 0 <= i < rows@.len() ==> col_idx < #[trigger] rows@[i]@.len(),
    ensures
        match (
            r,
            column_reading(
                col_name@,
                DataType::List(Box::new(*inner)),
                None,
                column_of(rows@, col_idx as int),
            ),
        ) {
            (Ok(c), Ok(s)) => c@ == s,
            (Err(e), Err(f)) => e@ == f,
            _ => false,
        },
{
    let cells = column_cells(rows, col_idx);
    let ghost all = text::opt_views(cells@);
    let mut valid: Vec<bool> = Vec::new();
    let mut lengths: Vec<usize> = Vec::new();
    let mut flat: Vec<Option<String>> = Vec::new();
    assert(text::opt_views(flat@) =~= all_items(all.take(0)));
    for i in 0..cells.len()
        invariant
            all == text::opt_views(cells@),
            valid@.len() == i,
            lengths@.len() == i,
            forall|k: int| 0 <= k < i ==> valid@[k] == (#[trigger] all[k] is Some),
            forall|k: int| 0 <= k < i ==> lengths@[k] == row_items(#[trigger] all[k]).len(),
            text::opt_views(flat@) == all_items(all.take(i as int)),
    {
        assert(all.take(i + 1).drop_last() =~= all.take(i as int));
        assert(all.take(i + 1).last() == all[i as int]);
        assert(all[i as int] == text::opt_view(cells@[i as int]));
        match &cells[i] {
            None => {
                lengths.push(0);
                valid.push(false);
                assert(all_items(all.take(i + 1)) =~= all_items(all.take(i as int)));
            },
            Some(t) => {
                let mut items = parse_pg_array_text(t.as_str());
                lengths.push(items.len());
                valid.push(true);
                let ghost before = flat@;
                let ghost added = items@;
                flat.append(&mut items);
                assert(text::opt_views(flat@) =~= text::opt_views(before) + text::opt_views(added));
            },
        }
    }
    assert(all.take(cells@.len() as int) =~= all);
    match build_flat_scalars(&flat, inner, col_name) {
        Ok(items) => {
            let column = ColumnData::List { valid, lengths, items };
            assert(valid@ =~= all.map_values(|c: Option<Seq<char>>| c is Some));
            assert(lengths@.map_values(|n: usize| n as int) =~= all.map_values(
                |c: Option<Seq<char>>| row_items(c).len() as int,
            ));
            Ok(column)
        },
        Err(e) => Err(e),
    }
}

/// The column that the cells at `col_idx` make under `field`, or why they make none.
pub open spec fn field_reading(
    field: Field,
    rows: Seq<Vec<Option<String>>>,
    col_idx: int,
) -> Result<ColumnSeq, ColumnFault> {
    column_reading(
        field.name@,
        field.data_type,
        text::opt_view(field.original_type),
        column_of(rows, col_idx),
    )
}

/// Whether reading the cells as byte strings stops at a text that cannot be cut into pairs.
pub open spec fn stops_misaligned(cells: Seq<Option<Seq<char>>>) -> bool {
    cells::cells_reading::<ByteaCell>(cells) matches Err(failure) && failure.1 == CellFault::Bytea(
        ByteaError::Misaligned,
    )
}

/// Whether the column of byte strings at `col_idx` stops at a text that cannot be cut into pairs.
pub open spec fn is_misaligned_column(
    field: Field,
    rows: Seq<Vec<Option<String>>>,
    col_idx: int,
) -> bool {
    field.data_type is Binary && stops_misaligned(column_of(rows, col_idx))
}

/// Builds the column that the cells at `col_idx` make under `field`.
pub fn build_column_text(rows: &Vec<Vec<Option<String>>>, col_idx: usize, field: &Field) -> (r:
    Result<ColumnData, ColumnError>)
    requires
        forall|i: int| 0 <= i < rows@.len() ==> col_idx < #[trigger] rows@[i]@.len(),
        !is_misaligned_column(*field, rows@, col_idx as int),
    ensures
        match (r, field_reading(*field, rows@, col_idx as int)) {
            (Ok(c), Ok(s)) => c@ == s,
            (Err(e), Err(f)) => e@ == f,
            _ => false,
        },
{
    match &field.data_type {
        DataType::List(inner) => build_list_column_text(
            rows,
            col_idx,
            &**inner,
            field.name.as_str(),
        ),
        DataType::Other(_) => Err(ColumnError::Unsupported(field.data_type.clone())),
        _ => {
            let cells = column_cells(rows, col_idx);
            let is_hstore: bool = match &field.original_type {
                Some(t) => same_text(t.as_str(), "hstore"),
                None => false,
            };
            match read_flat(&field.data_type, is_hstore, &cells) {
                Ok(values) => Ok(ColumnData::Flat(values)),
                Err((i, error)) => Err(
                    cell_error(field.name.as_str(), false, &field.data_type, &cells, i, error),
                ),
            }
        },
    }
}

/// Whether the column at `col_idx` holds byte strings, and reading it stops at a text that cannot
/// be cut into pairs.
pub fn misaligned_column(rows: &Vec<Vec<Option<String>>>, col_idx: usize, field: &Field) -> (b:
    bool)
    requires
        forall|i: int| 0 <= i < rows@.len() ==> col_idx < #[trigger] rows@[i]@.len(),
    ensures
        b == is_misaligned_column(*field, rows@, col_idx as int),
{
    match &field.data_type {
        DataType::Binary => match read_cells::<ByteaCell>(&column_cells(rows, col_idx)) {
            Err((_, CellError::Bytea(ByteaError::Misaligned))) => true,
            _ => false,
        },
        _ => false,
    }
}

/// The first `n` columns that text rows make under a schema, or why the first column that fails
/// cannot be built.
pub open spec fn columns_reading(
    schema: Seq<Field>,
    rows: Seq<Vec<Option<String>>>,
    n: nat,
) -> Result<Seq<ColumnSeq>, ColumnFault>
    decreases n,
{
    if n == 0 {
        Ok(Seq::empty())
    } else {
        match columns_reading(schema, rows, (n - 1) as nat) {
            Err(f) => Err(f),
            Ok(before) => match field_reading(schema[n - 1], rows, n - 1) {
                Ok(column) => Ok(before.push(column)),
                Err(f) => Err(f),
            },
        }
    }
}

/// The columns that text rows make under a schema, or why the first column that fails cannot be
/// built.
pub open spec fn batch_reading(schema: Seq<Field>, rows: Seq<Vec<Option<String>>>) -> Result<
    Seq<ColumnSeq>,
    ColumnFault,
> {
    columns_reading(schema, rows, schema.len())
}

proof fn lemma_column_failure_stays(
    schema: Seq<Field>,
    rows: Seq<Vec<Option<String>>>,
    n: nat,
    m: nat,
)
    requires
        n <= m,
        columns_reading(schema, rows, n) is Err,
    ensures
        columns_reading(schema, rows, m) == columns_reading(schema, rows, n),
    decreases m,
{
    if n < m {
        lemma_column_failure_stays(schema, rows, n, (m - 1) as nat);
    }
}

/// Typed columns, as sequences.
pub open spec fn column_views(columns: Seq<ColumnData>) -> Seq<ColumnSeq> {
    columns.map_values(|c: ColumnData| c@)
}

/// Whether the reading of a batch comes to a column of byte strings that stops at a text that
/// cannot be cut into pairs.
pub open spec fn is_misaligned_batch(schema: Seq<Field>, rows: Seq<Vec<Option<String>>>) -> bool {
    exists|n: int|
        0 <= n < schema.len() && #[trigger] is_misaligned_column(schema[n], rows, n)
            && columns_reading(schema, rows, n as nat) is Ok
}

/// Converts text rows to typed columns, one for each field of the schema.
pub fn rows_to_batch_text(rows: &Vec<Vec<Option<String>>>, schema: &Vec<Field>) -> (r: Result<
    Vec<ColumnData>,
    ColumnError,
>)
    requires
        forall|i: int| 0 <= i < rows@.len() ==> schema@.len() <= #[trigger] rows@[i]@.len(),
        !is_misaligned_batch(schema@, rows@),
    ensures
        match (r, batch_reading(schema@, rows@)) {
            (Ok(v), Ok(s)) => column_views(v@) == s,
            (Err(e), Err(f)) => e@ == f,
            _ => false,
        },
{
    let mut columns: Vec<ColumnData> = Vec::new();
    assert(column_views(columns@) =~= Seq::empty());
    for idx in 0..schema.len()
        invariant
            forall|i: int| 0 <= i < rows@.len() ==> schema@.len() <= #[trigger] rows@[i]@.len(),
            !is_misaligned_batch(schema@, rows@),
            columns_reading(schema@, rows@, idx as nat) == Ok::<Seq<ColumnSeq>, ColumnFault>(
                column_views(columns@),
            ),
    {
        let ghost before = column_views(columns@);
        assert(!is_misaligned_column(schema@[idx as int], rows@, idx as int));
        match build_column_text(rows, idx, &schema[idx]) {
            Ok(column) => {
                let ghost c = column@;
                columns.push(column);
                assert(column_views(columns@) =~= before.push(c));
            },
            Err(e) => {
                proof {
                    lemma_column_failure_stays(
                        schema@,
                        rows@,
                        (idx + 1) as nat,
                        schema@.len(),
                    );
                }
                return Err(e);
            },
        }
    }
    Ok(columns)
}

/// Whether reading the batch comes to a text that cannot be cut into pairs before any column fails.
fn misaligned_batch(rows: &Vec<Vec<Option<String>>>, schema: &Vec<Field>) -> (b: bool)
    requires
        forall|i: int| 0 <= i < rows@.len() ==> schema@.len() <= #[trigger] rows@[i]@.len(),
    ensures
        b == is_misaligned_batch(schema@, rows@),
{
    let mut last: usize = schema.len();
    while last > 0 && !misaligned_column(rows, last - 1, &schema[last - 1])
        invariant
            last <= schema@.len(),
            forall|i: int| 0 <= i < rows@.len() ==> schema@.len() <= #[trigger] rows@[i]@.len(),
            forall|k: int|
                last <= k < schema@.len() ==> !#[trigger] is_misaligned_column(schema@[k], rows@, k),
        decreases last,
    {
        last = last - 1;
    }
    for idx in 0..last
        invariant
            last <= schema@.len(),
            forall|i: int| 0 <= i < rows@.len() ==> schema@.len() <= #[trigger] rows@[i]@.len(),
            forall|k: int|
                last <= k < schema@.len() ==> !#[trigger] is_misaligned_column(schema@[k], rows@, k),
            forall|k: int|
                0 <= k < idx ==> !#[trigger] is_misaligned_column(schema@[k], rows@, k),
            columns_reading(schema@, rows@, idx as nat) is Ok,
    {
        if misaligned_column(rows, idx, &schema[idx]) {
            return true;
        }
        if build_column_text(rows, idx, &schema[idx]).is_err() {
            proof {
                assert(columns_reading(schema@, rows@, (idx + 1) as nat) is Err);
                assert forall|n: int|
                    0 <= n < schema@.len() && #[trigger] is_misaligned_column(
                        schema@[n],
                        rows@,
                        n,
                    ) implies columns_reading(schema@, rows@, n as nat) is Err by {
                    lemma_column_failure_stays(schema@, rows@, (idx + 1) as nat, n as nat);
                }
            }
            return false;
        }
    }
    false
}

/// Converts text rows to typed columns, or returns `None` where the reading comes to a byte string
/// that cannot be cut into pairs.
pub fn try_rows_to_batch_text(rows: &Vec<Vec<Option<String>>>, schema: &Vec<Field>) -> (r: Option<
    Result<Vec<ColumnData>, ColumnError>,
>)
    requires
        forall|i: int| 0 <= i < rows@.len() ==> schema@.len() <= #[trigger] rows@[i]@.len(),
    ensures
        r is None <==> is_misaligned_batch(schema@, rows@),
        r matches Some(batch) ==> match (batch, batch_reading(schema@, rows@)) {
            (Ok(v), Ok(s)) => column_views(v@) == s,
            (Err(e), Err(f)) => e@ == f,
            _ => false,
        },
{
    if misaligned_batch(rows, schema) {
        None
    } else {
        Some(rows_to_batch_text(rows, schema))
    }
}

/// The sum of the lengths.
pub open spec fn total(lengths: Seq<int>) -> int
    decreases lengths.len(),
{
    if lengths.len() == 0 {
        0
    } else {
        total(lengths.drop_last()) + lengths.last()
    }
}

/// Whether a column has an entry for each of `n` rows and, where it is a list column, the items
/// that the lengths of its rows come to.
pub open spec fn covers_rows(column: ColumnSeq, n: nat) -> bool {
    match column {
        ColumnSeq::Flat(values) => scalar_len(values) == n,
        ColumnSeq::List { valid, lengths, items } => {
            &&& valid.len() == n
            &&& lengths.len() == n
            &&& forall|i: int| 0 <= i < n && !valid[i] ==> #[trigger] lengths[i] == 0
            &&& scalar_len(items) == total(lengths)
        },
    }
}

/// Cells that are read as values of a type become values of that type, one for each cell, and
/// absent where the cell is.
pub proof fn flat_values_are_of_type(
    data_type: DataType,
    is_hstore: bool,
    cells: Seq<Option<Seq<char>>>,
)
    ensures
        flat_reading(data_type, is_hstore, cells) matches Some(Ok(values)) ==> {
            &&& type_of(values) == data_type
            &&& scalar_len(values) == cells.len()
            &&& forall|i: int|
                0 <= i < cells.len() ==> (#[trigger] is_absent(values, i) <==> cells[i] is None)
        },
{
    if let Some(Ok(values)) = flat_reading(data_type, is_hstore, cells) {
        match values {
            ScalarSeq::Int32(s) => lemma_absence::<Int32Cell>(cells, s),
            ScalarSeq::Int64(s) => lemma_absence::<Int64Cell>(cells, s),
            ScalarSeq::Float32(s) => lemma_absence::<FloatCell>(cells, s),
            ScalarSeq::Float64(s) => lemma_absence::<FloatCell>(cells, s),
            ScalarSeq::Boolean(s) => lemma_absence::<BoolCell>(cells, s),
            ScalarSeq::Date32(s) => lemma_absence::<DateCell>(cells, s),
            ScalarSeq::TimestampMillisecond(s) => lemma_absence::<TimestampCell>(cells, s),
            ScalarSeq::Binary(s) => lemma_absence::<ByteaCell>(cells, s),
            ScalarSeq::Utf8(s) => if is_hstore {
                lemma_absence::<HstoreCell>(cells, s);
            },
        }
    }
}

proof fn lemma_absence<R: CellReader>(
    cells: Seq<Option<Seq<char>>>,
    values: Seq<Option<<R::Value as View>::V>>,
)
    requires
        cells::cells_reading::<R>(cells) == Ok::<
            Seq<Option<<R::Value as View>::V>>,
            (int, CellFault),
        >(values),
    ensures
        values.len() == cells.len(),
        forall|i: int| 0 <= i < cells.len() ==> (#[trigger] values[i] is None <==> cells[i] is None),
{
    cells::cells_are_read_one_by_one::<R>(cells, values);
    assert forall|i: int| 0 <= i < cells.len() implies (#[trigger] values[i] is None <==> cells[i] is None) by {
        assert(cells::is_read_as::<R>(cells[i], values[i]));
    }
}

proof fn lemma_item_count(cells: Seq<Option<Seq<char>>>)
    ensures
        all_items(cells).len() == total(
            cells.map_values(|c: Option<Seq<char>>| row_items(c).len() as int),
        ),
    decreases cells.len(),
{
    let lengths = cells.map_values(|c: Option<Seq<char>>| row_items(c).len() as int);
    if cells.len() > 0 {
        lemma_item_count(cells.drop_last());
        assert(lengths.drop_last() =~= cells.drop_last().map_values(
            |c: Option<Seq<char>>| row_items(c).len() as int,
        ));
    }
}

/// Whether a column is of a type, and the items of a list column of the type of its items.
pub open spec fn is_of_type(column: ColumnSeq, data_type: DataType) -> bool {
    match column {
        ColumnSeq::Flat(values) => data_type == type_of(values),
        ColumnSeq::List { items, .. } => data_type == DataType::List(Box::new(type_of(items))),
    }
}

proof fn lemma_column_covers_rows(
    name: Seq<char>,
    data_type: DataType,
    original_type: Option<Seq<char>>,
    cells: Seq<Option<Seq<char>>>,
)
    ensures
        column_reading(name, data_type, original_type, cells) matches Ok(column) ==> covers_rows(
            column,
            cells.len(),
        ) && is_of_type(column, data_type),
{
    flat_values_are_of_type(data_type, original_type == Some("hstore"@), cells);
    if let DataType::List(inner) = data_type {
        flat_values_are_of_type(*inner, false, all_items(cells));
        lemma_item_count(cells);
    }
}

/// A batch has a column for each field of the schema, of the type of the field, and in each column
/// an entry for each row.
pub proof fn batch_covers_rows(schema: Seq<Field>, rows: Seq<Vec<Option<String>>>, n: nat)
    requires
        n <= schema.len(),
    ensures
        columns_reading(schema, rows, n) matches Ok(columns) ==> columns.len() == n && forall|
            c: int,
        |
            0 <= c < n ==> covers_rows(#[trigger] columns[c], rows.len()) && is_of_type(
                columns[c],
                schema[c].data_type,
            ),
    decreases n,
{
    if n > 0 {
        let m = (n - 1) as nat;
        batch_covers_rows(schema, rows, m);
        let field = schema[n - 1];
        lemma_column_covers_rows(
            field.name@,
            field.data_type,
            text::opt_view(field.original_type),
            column_of(rows, n - 1),
        );
    }
}

/// The items of a row of a list column stand where the lengths of the rows before it say, in the
/// order in which the row has them.
pub proof fn row_items_are_in_place(cells: Seq<Option<Seq<char>>>, row: int)
    requires
        0 <= row < cells.len(),
    ensures
        ({
            let lengths = cells.map_values(|c: Option<Seq<char>>| row_items(c).len() as int);
            let from = total(lengths.take(row));
            &&& 0 <= from <= from + lengths[row] <= all_items(cells).len()
            &&& all_items(cells).subrange(from, from + lengths[row]) == row_items(cells[row])
        }),
    decreases cells.len(),
{
    let lengths = cells.map_values(|c: Option<Seq<char>>| row_items(c).len() as int);
    let before = cells.drop_last();
    let before_lengths = before.map_values(|c: Option<Seq<char>>| row_items(c).len() as int);
    assert(lengths.drop_last() =~= before_lengths);
    lemma_item_count(before);
    if row == cells.len() - 1 {
        assert(lengths.take(row) =~= before_lengths);
        assert(all_items(cells).subrange(
            all_items(before).len() as int,
            all_items(before).len() + lengths[row],
        ) =~= row_items(cells[row]));
    } else {
        row_items_are_in_place(before, row);
        assert(lengths.take(row) =~= before_lengths.take(row));
        let from = total(lengths.take(row));
        assert(all_items(cells).subrange(from, from + lengths[row]) =~= all_items(before).subrange(
            from,
            from + lengths[row],
        ));
    }
}

} // verus!
