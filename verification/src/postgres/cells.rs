//! Cells of a text-protocol result: how the text of one cell, and of a column of cells, is read.

use crate::float_text;
use crate::float_text::{check_float, FloatError};
use crate::number;
use crate::number::{parse_i32, parse_i64, IntError};
use crate::postgres::bytea;
use crate::postgres::bytea::{read_bytea_hex, ByteaError};
use crate::postgres::hstore;
use crate::postgres::hstore::{parse_hstore_to_json, HstoreError, HstoreFault};
use crate::postgres::temporal;
use crate::postgres::temporal::{parse_date_days, parse_timestamp_millis};
use crate::text;
use crate::text::{chars_of, same_text};
use vstd::prelude::*;

verus! {

/// Why the text of a cell is not a value of the column's type.
#[derive(Debug)]
pub enum CellError {
    Int(IntError),
    Float(FloatError),
    Bool,
    Date(String),
    Timestamp(String),
    Bytea(ByteaError),
    Hstore(HstoreError),
}

/// Why the text of a cell is not a value of the column's type, over sequences of characters.
pub enum CellFault {
    Int(IntError),
    Float(FloatError),
    Bool,
    Date(Seq<char>),
    Timestamp(Seq<char>),
    Bytea(ByteaError),
    Hstore(HstoreFault),
}

impl View for CellError {
    type V = CellFault;

    open spec fn view(&self) -> CellFault {
        match self {
            CellError::Int(e) => CellFault::Int(*e),
            CellError::Float(e) => CellFault::Float(*e),
            CellError::Bool => CellFault::Bool,
            CellError::Date(e) => CellFault::Date(e@),
            CellError::Timestamp(e) => CellFault::Timestamp(e@),
            CellError::Bytea(e) => CellFault::Bytea(*e),
            CellError::Hstore(e) => CellFault::Hstore(e@),
        }
    }
}

impl CellFault {
    /// What an error says of the reason.
    pub open spec fn wording(self) -> Seq<char> {
        match self {
            CellFault::Int(e) => e.wording(),
            CellFault::Float(e) => e.wording(),
            CellFault::Bool => Seq::empty(),
            CellFault::Date(e) => e,
            CellFault::Timestamp(e) => e,
            CellFault::Bytea(e) => e.wording(),
            CellFault::Hstore(f) => f.wording(),
        }
    }
}

impl CellError {
    /// What an error says of the reason.
    pub fn message(&self) -> (m: String)
        ensures
            m@ == self@.wording(),
    {
        match self {
            CellError::Int(e) => e.message().to_owned(),
            CellError::Float(e) => e.message().to_owned(),
            CellError::Bool => String::new(),
            CellError::Date(e) => e.clone(),
            CellError::Timestamp(e) => e.clone(),
            CellError::Bytea(e) => e.message().to_owned(),
            CellError::Hstore(e) => e.message(),
        }
    }
}

/// A way to read the text of one cell.
pub trait CellReader {
    type Value: View;

    /// The value that a text stands for, or why it stands for none.
    spec fn reading(text: Seq<char>) -> Result<<Self::Value as View>::V, CellFault>;

    /// Reads the text of a cell.
    fn read(text: &str) -> (r: Result<Self::Value, CellError>)
        ensures
            match (r, Self::reading(text@)) {
                (Ok(v), Ok(x)) => v@ == x,
                (Err(e), Err(f)) => e@ == f,
                _ => false,
            },
    ;
}

/// Integers of 32 bits.
pub struct Int32Cell;

impl CellReader for Int32Cell {
    type Value = i32;

    open spec fn reading(text: Seq<char>) -> Result<i32, CellFault> {
        match number::parsed_signed(text, i32::MAX as nat) {
            Ok(n) => Ok(n as i32),
            Err(e) => Err(CellFault::Int(e)),
        }
    }

    fn read(text: &str) -> (r: Result<i32, CellError>) {
        match parse_i32(&chars_of(text)) {
            Ok(n) => Ok(n),
            Err(e) => Err(CellError::Int(e)),
        }
    }
}

/// Integers of 64 bits.
pub struct Int64Cell;

impl CellReader for Int64Cell {
    type Value = i64;

    open spec fn reading(text: Seq<char>) -> Result<i64, CellFault> {
        match number::parsed_signed(text, i64::MAX as nat) {
            Ok(n) => Ok(n as i64),
            Err(e) => Err(CellFault::Int(e)),
        }
    }

    fn read(text: &str) -> (r: Result<i64, CellError>) {
        match parse_i64(&chars_of(text)) {
            Ok(n) => Ok(n),
            Err(e) => Err(CellError::Int(e)),
        }
    }
}

/// Floating-point numbers, kept as the text that writes them.
pub struct FloatCell;

impl CellReader for FloatCell {
    type Value = String;

    open spec fn reading(text: Seq<char>) -> Result<Seq<char>, CellFault> {
        match float_text::float_fault(text) {
            None => Ok(text),
            Some(e) => Err(CellFault::Float(e)),
        }
    }

    fn read(text: &str) -> (r: Result<String, CellError>) {
        match check_float(text) {
            Ok(_) => Ok(text.to_owned()),
            Err(e) => Err(CellError::Float(e)),
        }
    }
}

/// Truth values: `t`, `true`, `f` and `false`.
pub struct BoolCell;

impl CellReader for BoolCell {
    type Value = bool;

    open spec fn reading(text: Seq<char>) -> Result<bool, CellFault> {
        if text == "t"@ || text == "true"@ {
            Ok(true)
        } else if text == "f"@ || text == "false"@ {
            Ok(false)
        } else {
            Err(CellFault::Bool)
        }
    }

    fn read(text: &str) -> (r: Result<bool, CellError>) {
        if same_text(text, "t") || same_text(text, "true") {
            Ok(true)
        } else if same_text(text, "f") || same_text(text, "false") {
            Ok(false)
        } else {
            Err(CellError::Bool)
        }
    }
}

/// Dates, as days since 1970-01-01.
pub struct DateCell;

impl CellReader for DateCell {
    type Value = i32;

    open spec fn reading(text: Seq<char>) -> Result<i32, CellFault> {
        match temporal::date_reading(text) {
            Ok(d) => Ok(d),
            Err(e) => Err(CellFault::Date(e)),
        }
    }

    fn read(text: &str) -> (r: Result<i32, CellError>) {
        match parse_date_days(text) {
            Ok(d) => Ok(d),
            Err(e) => Err(CellError::Date(e)),
        }
    }
}

/// Timestamps, as milliseconds since the epoch.
pub struct TimestampCell;

impl CellReader for TimestampCell {
    type Value = i64;

    open spec fn reading(text: Seq<char>) -> Result<i64, CellFault> {
        match temporal::timestamp_reading(text) {
            Ok(m) => Ok(m),
            Err(e) => Err(CellFault::Timestamp(e)),
        }
    }

    fn read(text: &str) -> (r: Result<i64, CellError>) {
        match parse_timestamp_millis(text) {
            Ok(m) => Ok(m),
            Err(e) => Err(CellError::Timestamp(e)),
        }
    }
}

/// Byte strings.
pub struct ByteaCell;

impl CellReader for ByteaCell {
    type Value = Vec<u8>;

    open spec fn reading(text: Seq<char>) -> Result<Seq<u8>, CellFault> {
        match bytea::bytea_bytes(text) {
            Ok(b) => Ok(b),
            Err(e) => Err(CellFault::Bytea(e)),
        }
    }

    fn read(text: &str) -> (r: Result<Vec<u8>, CellError>) {
        match read_bytea_hex(text) {
            Ok(b) => Ok(b),
            Err(e) => Err(CellError::Bytea(e)),
        }
    }
}

/// Hstore values, rendered as JSON.
pub struct HstoreCell;

impl CellReader for HstoreCell {
    type Value = String;

    open spec fn reading(text: Seq<char>) -> Result<Seq<char>, CellFault> {
        match hstore::hstore_pairs(text::trimmed(text)) {
            Ok(pairs) => Ok(hstore::json_object_text(hstore::members_of(pairs))),
            Err(f) => Err(CellFault::Hstore(f)),
        }
    }

    fn read(text: &str) -> (r: Result<String, CellError>) {
        match parse_hstore_to_json(text) {
            Ok(json) => Ok(json),
            Err(e) => Err(CellError::Hstore(e)),
        }
    }
}

/// The values of a list of cells, or the first cell that cannot be read and why.
pub open spec fn cells_reading<R: CellReader>(cells: Seq<Option<Seq<char>>>) -> Result<
    Seq<Option<<R::Value as View>::V>>,
    (int, CellFault),
>
    decreases cells.len(),
{
    if cells.len() == 0 {
        Ok(Seq::empty())
    } else {
        match cells_reading::<R>(cells.drop_last()) {
            Err(e) => Err(e),
            Ok(before) => match cells.last() {
                None => Ok(before.push(None)),
                Some(text) => match R::reading(text) {
                    Ok(value) => Ok(before.push(Some(value))),
                    Err(f) => Err((cells.len() - 1, f)),
                },
            },
        }
    }
}

proof fn lemma_failure_stays<R: CellReader>(cells: Seq<Option<Seq<char>>>, n: int)
    requires
        0 <= n <= cells.len(),
        cells_reading::<R>(cells.take(n)) is Err,
    ensures
        cells_reading::<R>(cells) == cells_reading::<R>(cells.take(n)),
    decreases cells.len(),
{
    if n == cells.len() {
        assert(cells.take(n) =~= cells);
    } else {
        assert(cells.drop_last().take(n) =~= cells.take(n));
        lemma_failure_stays::<R>(cells.drop_last(), n);
    }
}

/// Whether `value` is what the cell is read as.
pub open spec fn is_read_as<R: CellReader>(
    cell: Option<Seq<char>>,
    value: Option<<R::Value as View>::V>,
) -> bool {
    match (cell, value) {
        (None, None) => true,
        (Some(text), Some(x)) => R::reading(text) == Ok::<<R::Value as View>::V, CellFault>(x),
        _ => false,
    }
}

/// Cells are read one by one: a list of cells is read as a list of values exactly when each cell
/// is read as the value in its place.
pub proof fn cells_are_read_one_by_one<R: CellReader>(
    cells: Seq<Option<Seq<char>>>,
    values: Seq<Option<<R::Value as View>::V>>,
)
    ensures
        cells_reading::<R>(cells) == Ok::<
            Seq<Option<<R::Value as View>::V>>,
            (int, CellFault),
        >(values) <==> cells.len() == values.len() && forall|i: int|
            0 <= i < cells.len() ==> #[trigger] is_read_as::<R>(cells[i], values[i]),
    decreases cells.len(),
{
    if cells.len() == 0 {
        assert(values.len() == 0 ==> values =~= Seq::empty());
    } else if values.len() > 0 {
        cells_are_read_one_by_one::<R>(cells.drop_last(), values.drop_last());
        assert(values.drop_last().push(values.last()) =~= values);
        let n = cells.len() - 1;
        if cells_reading::<R>(cells) == Ok::<
            Seq<Option<<R::Value as View>::V>>,
            (int, CellFault),
        >(values) {
            let before = cells_reading::<R>(cells.drop_last())->Ok_0;
            assert(before =~= values.drop_last());
            assert forall|i: int| 0 <= i < cells.len() implies #[trigger] is_read_as::<R>(
                cells[i],
                values[i],
            ) by {
                if i < n {
                    assert(is_read_as::<R>(cells.drop_last()[i], values.drop_last()[i]));
                }
            }
        }
        if cells.len() == values.len() && forall|i: int|
            0 <= i < cells.len() ==> #[trigger] is_read_as::<R>(cells[i], values[i]) {
            assert forall|i: int| 0 <= i < n implies #[trigger] is_read_as::<R>(
                cells.drop_last()[i],
                values.drop_last()[i],
            ) by {
                assert(is_read_as::<R>(cells[i], values[i]));
            }
            assert(is_read_as::<R>(cells[n], values[n]));
        }
    }
}

/// Where a list of cells cannot be read, the cell that is named cannot be read, for the reason that
/// is given, and all cells before it can.
pub proof fn first_failing_cell_is_named<R: CellReader>(cells: Seq<Option<Seq<char>>>)
    ensures
        cells_reading::<R>(cells) matches Err((i, f)) ==> {
            &&& 0 <= i < cells.len()
            &&& cells[i] is Some
            &&& R::reading(cells[i]->0) == Err::<<R::Value as View>::V, CellFault>(f)
            &&& cells_reading::<R>(cells.take(i)) is Ok
        },
    decreases cells.len(),
{
    if cells.len() > 0 {
        first_failing_cell_is_named::<R>(cells.drop_last());
        if let Err((i, f)) = cells_reading::<R>(cells) {
            assert(cells.take(i) =~= cells.drop_last().take(i));
            assert(cells.drop_last().take(cells.len() - 1) =~= cells.drop_last());
        }
    }
}

/// Reads a list of cells. An absent cell stays absent; the first cell that cannot be read ends the
/// reading.
pub fn read_cells<R: CellReader>(cells: &Vec<Option<String>>) -> (r: Result<
    Vec<Option<R::Value>>,
    (usize, CellError),
>)
    ensures
        match (r, cells_reading::<R>(text::opt_views(cells@))) {
            (Ok(v), Ok(s)) => text::opt_views(v@) == s,
            (Err((i, e)), Err((j, f))) => i == j && i < cells@.len() && cells@[i as int] is Some && e@
                == f,
            _ => false,
        },
{
    let ghost all = text::opt_views(cells@);
    let mut values: Vec<Option<R::Value>> = Vec::new();
    assert(text::opt_views(values@) =~= Seq::empty());
    for i in 0..cells.len()
        invariant
            all == text::opt_views(cells@),
            cells_reading::<R>(all.take(i as int)) == Ok::<
                Seq<Option<<R::Value as View>::V>>,
                (int, CellFault),
            >(text::opt_views(values@)),
    {
        let ghost before = text::opt_views(values@);
        assert(all.take(i + 1).drop_last() =~= all.take(i as int));
        assert(all.take(i + 1).last() == text::opt_view(cells@[i as int]));
        match &cells[i] {
            None => {
                values.push(None);
                assert(text::opt_views(values@) =~= before.push(None));
            },
            Some(t) => match R::read(t.as_str()) {
                Ok(value) => {
                    let ghost x = value@;
                    values.push(Some(value));
                    assert(text::opt_views(values@) =~= before.push(Some(x)));
                },
                Err(e) => {
                    proof {
                        lemma_failure_stays::<R>(all, i + 1);
                    }
                    return Err((i, e));
                },
            },
        }
    }
    assert(all.take(cells@.len() as int) =~= all);
    Ok(values)
}

} // verus!
