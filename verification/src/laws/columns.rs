//! What the columns of a query result are read as.

use crate::float_text::FloatError;
use crate::json::JsonValue;
use crate::number;
use crate::postgres::array;
use crate::postgres::bytea;
use crate::postgres::bytea::ByteaError;
use crate::postgres::cells;
use crate::postgres::cells::{
    BoolCell, ByteaCell, CellFault, CellReader, DateCell, FloatCell, HstoreCell, Int32Cell, Int64Cell,
    TimestampCell,
};
use crate::postgres::hstore;
use crate::postgres::temporal;
use crate::postgres::types;
use crate::postgres::types::{ColumnFault, ColumnSeq, DataType, Field, PgColumn, PgKind, PgType, ScalarSeq};
use crate::text;
use vstd::prelude::*;

verus! {

/// A timestamp is read as the whole milliseconds that have passed, whatever fraction of the next
/// one has.
pub proof fn timestamp_counts_whole_millis(t: Seq<char>, secs: i64, nanos: u32)
    requires
        temporal::FIRST_SECOND <= secs <= temporal::LAST_SECOND,
        temporal::parsed_date_time(t, "%Y-%m-%d %H:%M:%S%.f"@) == Ok::<(i64, u32), Seq<char>>(
            (secs, nanos),
        ),
    ensures
        temporal::timestamp_reading(t) matches Ok(m) && m * 1_000_000 <= secs * 1_000_000_000 + nanos
            < (m + 1) * 1_000_000,
{
    millis_are_whole(secs as int, nanos as int);
}

/// The whole milliseconds of a time are those that have passed.
pub proof fn millis_are_whole(secs: int, nanos: int)
    requires
        0 <= nanos,
    ensures
        ({
            let m = temporal::whole_millis(secs, nanos);
            m * 1_000_000 <= secs * 1_000_000_000 + nanos < (m + 1) * 1_000_000
        }),
{
}

/// Whether `members` are those of an object for the pairs: a member for the key of each pair, with
/// the value of the last pair of that key, and no other member.
pub open spec fn are_members_of(
    members: Map<Seq<char>, JsonValue>,
    pairs: Seq<(Seq<char>, Option<Seq<char>>)>,
) -> bool {
    &&& forall|key: Seq<char>| #[trigger]
        members.dom().contains(key) ==> exists|i: int|
            0 <= i < pairs.len() && (#[trigger] pairs[i]).0 == key
    &&& forall|i: int|
        0 <= i < pairs.len() ==> members.dom().contains((#[trigger] pairs[i]).0)
    &&& forall|i: int|
        0 <= i < pairs.len() && (forall|k: int| i < k < pairs.len() ==> pairs[k].0 != pairs[i].0)
            ==> members[(#[trigger] pairs[i]).0] == match pairs[i].1 {
            Some(s) => JsonValue::Text(s),
            None => JsonValue::Null,
        }
}

proof fn lemma_members_unique(
    members: Map<Seq<char>, JsonValue>,
    pairs: Seq<(Seq<char>, Option<Seq<char>>)>,
)
    requires
        are_members_of(members, pairs),
    ensures
        members == hstore::members_of(pairs),
{
    let object = hstore::members_of(pairs);
    assert forall|key: Seq<char>| #![trigger members.dom().contains(key)]
        members.dom().contains(key) == object.dom().contains(key) && (members.dom().contains(key)
            ==> members[key] == object[key]) by {
        if object.dom().contains(key) {
            hstore::members_are_keys(pairs, key);
            let i = choose|i: int| 0 <= i < pairs.len() && (#[trigger] pairs[i]).0 == key;
            assert(members.dom().contains(pairs[i].0));
        }
        if members.dom().contains(key) {
            let i = choose|i: int| 0 <= i < pairs.len() && (#[trigger] pairs[i]).0 == key;
            let last = lemma_last_with_key(pairs, i);
            hstore::last_pair_decides(pairs, last);
        }
    }
    assert(members =~= object);
}

proof fn lemma_last_with_key(pairs: Seq<(Seq<char>, Option<Seq<char>>)>, i: int) -> (last: int)
    requires
        0 <= i < pairs.len(),
    ensures
        i <= last < pairs.len(),
        pairs[last].0 == pairs[i].0,
        forall|k: int| last < k < pairs.len() ==> (#[trigger] pairs[k]).0 != pairs[i].0,
    decreases pairs.len() - i,
{
    if exists|k: int| i < k < pairs.len() && (#[trigger] pairs[k]).0 == pairs[i].0 {
        let k = choose|k: int| i < k < pairs.len() && (#[trigger] pairs[k]).0 == pairs[i].0;
        lemma_last_with_key(pairs, k)
    } else {
        i
    }
}

/// An hstore cell is read as the text of the JSON object of its pairs, all of them.
pub proof fn hstore_cell_holds_all_pairs(
    t: Seq<char>,
    pairs: Seq<(Seq<char>, Option<Seq<char>>)>,
    members: Map<Seq<char>, JsonValue>,
)
    requires
        hstore::hstore_pairs(text::trimmed(t)) == Ok::<
            Seq<(Seq<char>, Option<Seq<char>>)>,
            hstore::HstoreFault,
        >(pairs),
        are_members_of(members, pairs),
    ensures
        HstoreCell::reading(t) == Ok::<Seq<char>, CellFault>(hstore::json_object_text(members)),
{
    lemma_members_unique(members, pairs);
}

/// A column of a query result that is an hstore is read, cell by cell, as the text of the JSON
/// object of the pairs that the cell was written for: a member for the key of each pair, with the
/// value of the last pair of that key, and no other member.
pub proof fn hstore_column_holds_all_pairs(
    column: PgColumn,
    field: Field,
    lists: Seq<Option<Seq<(Seq<char>, Option<Seq<char>>)>>>,
    objects: Seq<Map<Seq<char>, JsonValue>>,
    written: Seq<Option<Seq<char>>>,
    texts: Seq<Option<Seq<char>>>,
)
    requires
        column.pg_type.name@ == "hstore"@,
        types::is_field_of(field, column),
        lists.len() == objects.len() == written.len() == texts.len(),
        forall|i: int|
            0 <= i < lists.len() ==> match #[trigger] lists[i] {
                None => written[i] is None && texts[i] is None,
                Some(pairs) => {
                    &&& written[i] == Some(hstore::hstore_literal(pairs))
                    &&& are_members_of(objects[i], pairs)
                    &&& texts[i] == Some(hstore::json_object_text(objects[i]))
                },
            },
    ensures
        types::column_reading(
            field.name@,
            field.data_type,
            text::opt_view(field.original_type),
            written,
        ) == Ok::<ColumnSeq, ColumnFault>(ColumnSeq::Flat(ScalarSeq::Utf8(texts))),
{
    assert forall|i: int| 0 <= i < written.len() implies #[trigger] cells::is_read_as::<HstoreCell>(
        written[i],
        texts[i],
    ) by {
        if let Some(pairs) = lists[i] {
            hstore::hstore_round_trip(pairs);
            hstore_cell_holds_all_pairs(written[i]->0, pairs, objects[i]);
        }
    }
    cells::cells_are_read_one_by_one::<HstoreCell>(written, texts);
}

/// Which Postgres types become which column types: a type that is no array becomes something other
/// than text only by its name, and each of the names stands for one type.
pub proof fn types_go_by_name(t: PgType)
    requires
        t.kind is Other,
    ensures
        types::arrow_type(t) == DataType::Int32 <==> (t.name@ == "int2"@ || t.name@ == "int4"@),
        types::arrow_type(t) == DataType::Int64 <==> t.name@ == "int8"@,
        types::arrow_type(t) == DataType::Float32 <==> t.name@ == "float4"@,
        types::arrow_type(t) == DataType::Float64 <==> t.name@ == "float8"@,
        types::arrow_type(t) == DataType::Boolean <==> t.name@ == "bool"@,
        types::arrow_type(t) == DataType::Date32 <==> t.name@ == "date"@,
        types::arrow_type(t) == DataType::TimestampMillisecond <==> (t.name@ == "timestamp"@
            || t.name@ == "timestamptz"@),
        types::arrow_type(t) == DataType::Binary <==> t.name@ == "bytea"@,
        types::arrow_type(t) == DataType::Utf8 <==> !seq![
            "int2"@,
            "int4"@,
            "int8"@,
            "float4"@,
            "float8"@,
            "bool"@,
            "date"@,
            "timestamp"@,
            "timestamptz"@,
            "bytea"@,
        ].contains(t.name@),
{
    let name = t.name@;
    reveal_strlit("hstore");
    reveal_strlit("int2");
    reveal_strlit("int4");
    reveal_strlit("int8");
    reveal_strlit("float4");
    reveal_strlit("float8");
    reveal_strlit("bool");
    reveal_strlit("date");
    reveal_strlit("timestamp");
    reveal_strlit("timestamptz");
    reveal_strlit("bytea");
    let names = seq![
        "int2"@,
        "int4"@,
        "int8"@,
        "float4"@,
        "float8"@,
        "bool"@,
        "date"@,
        "timestamp"@,
        "timestamptz"@,
        "bytea"@,
    ];
    assert(name == "int2"@ ==> name.len() == 4 && name[0] == 'i' && name[3] == '2' && name
        == names[0]);
    assert(name == "int4"@ ==> name.len() == 4 && name[0] == 'i' && name[3] == '4' && name
        == names[1]);
    assert(name == "int8"@ ==> name.len() == 4 && name[0] == 'i' && name[3] == '8' && name
        == names[2]);
    assert(name == "float4"@ ==> name.len() == 6 && name[5] == '4' && name == names[3]);
    assert(name == "float8"@ ==> name.len() == 6 && name[5] == '8' && name == names[4]);
    assert(name == "bool"@ ==> name.len() == 4 && name[0] == 'b' && name == names[5]);
    assert(name == "date"@ ==> name.len() == 4 && name[0] == 'd' && name == names[6]);
    assert(name == "timestamp"@ ==> name.len() == 9 && name == names[7]);
    assert(name == "timestamptz"@ ==> name.len() == 11 && name == names[8]);
    assert(name == "bytea"@ ==> name.len() == 5 && name == names[9]);
    assert(name == "hstore"@ ==> name.len() == 6 && name[5] == 'e');
}

/// An array becomes a list of what its elements become, however deep, and an hstore becomes text.
pub proof fn arrays_become_lists(t: PgType)
    ensures
        t.name@ == "hstore"@ ==> types::arrow_type(t) == DataType::Utf8,
        t.name@ != "hstore"@ ==> (t.kind matches PgKind::Array(inner) ==> types::arrow_type(t)
            == DataType::List(Box::new(types::arrow_type(*inner)))),
        types::arrow_type(t) is List <==> t.name@ != "hstore"@ && t.kind is Array,
        !(types::arrow_type(t) is Other),
{
}

/// Whether `field` describes a result column of the type `name`, which is no array.
pub open spec fn is_field_for(field: Field, column: PgColumn, name: Seq<char>) -> bool {
    &&& column.pg_type.name@ == name
    &&& column.pg_type.kind is Other
    &&& types::is_field_of(field, column)
}

/// The column that cells make under a field.
pub open spec fn column_under(field: Field, cells: Seq<Option<Seq<char>>>) -> Result<
    ColumnSeq,
    ColumnFault,
> {
    types::column_reading(field.name@, field.data_type, text::opt_view(field.original_type), cells)
}

/// A result column of small integers holds the very integers that its cells write.
pub proof fn small_integers_are_kept(
    column: PgColumn,
    field: Field,
    numbers: Seq<Option<i32>>,
    written: Seq<Option<Seq<char>>>,
)
    requires
        is_field_for(field, column, "int2"@) || is_field_for(field, column, "int4"@),
        written.len() == numbers.len(),
        forall|i: int|
            0 <= i < numbers.len() ==> #[trigger] written[i] == match numbers[i] {
                Some(n) => Some(number::signed_decimal(n as int)),
                None => None,
            },
    ensures
        column_under(field, written) == Ok::<ColumnSeq, ColumnFault>(
            ColumnSeq::Flat(ScalarSeq::Int32(numbers)),
        ),
{
    types_go_by_name(column.pg_type);
    assert forall|i: int| 0 <= i < written.len() implies #[trigger] cells::is_read_as::<Int32Cell>(
        written[i],
        numbers[i],
    ) by {
        if let Some(n) = numbers[i] {
            number::signed_round_trip(n as int, i32::MAX as nat);
        }
    }
    cells::cells_are_read_one_by_one::<Int32Cell>(written, numbers);
}

/// A result column of large integers holds the very integers that its cells write.
pub proof fn large_integers_are_kept(
    column: PgColumn,
    field: Field,
    numbers: Seq<Option<i64>>,
    written: Seq<Option<Seq<char>>>,
)
    requires
        is_field_for(field, column, "int8"@),
        written.len() == numbers.len(),
        forall|i: int|
            0 <= i < numbers.len() ==> #[trigger] written[i] == match numbers[i] {
                Some(n) => Some(number::signed_decimal(n as int)),
                None => None,
            },
    ensures
        column_under(field, written) == Ok::<ColumnSeq, ColumnFault>(
            ColumnSeq::Flat(ScalarSeq::Int64(numbers)),
        ),
{
    types_go_by_name(column.pg_type);
    assert forall|i: int| 0 <= i < written.len() implies #[trigger] cells::is_read_as::<Int64Cell>(
        written[i],
        numbers[i],
    ) by {
        if let Some(n) = numbers[i] {
            number::signed_round_trip(n as int, i64::MAX as nat);
        }
    }
    cells::cells_are_read_one_by_one::<Int64Cell>(written, numbers);
}

/// A result column of truth values holds true for `t` and false for `f`.
pub proof fn truth_values_are_kept(
    column: PgColumn,
    field: Field,
    values: Seq<Option<bool>>,
    written: Seq<Option<Seq<char>>>,
)
    requires
        is_field_for(field, column, "bool"@),
        written.len() == values.len(),
        forall|i: int|
            0 <= i < values.len() ==> #[trigger] written[i] == match values[i] {
                Some(true) => Some("t"@),
                Some(false) => Some("f"@),
                None => None,
            },
    ensures
        column_under(field, written) == Ok::<ColumnSeq, ColumnFault>(
            ColumnSeq::Flat(ScalarSeq::Boolean(values)),
        ),
{
    types_go_by_name(column.pg_type);
    assert forall|i: int| 0 <= i < written.len() implies #[trigger] cells::is_read_as::<BoolCell>(
        written[i],
        values[i],
    ) by {
        crate::laws::numbers::truth_cells_hold_four_words("t"@);
        crate::laws::numbers::truth_cells_hold_four_words("f"@);
    }
    cells::cells_are_read_one_by_one::<BoolCell>(written, values);
}

/// A result column of byte strings holds the very bytes that its cells write.
pub proof fn bytes_are_kept(
    column: PgColumn,
    field: Field,
    values: Seq<Option<Seq<u8>>>,
    written: Seq<Option<Seq<char>>>,
)
    requires
        is_field_for(field, column, "bytea"@),
        written.len() == values.len(),
        forall|i: int|
            0 <= i < values.len() ==> #[trigger] written[i] == match values[i] {
                Some(bytes) => Some(bytea::bytea_literal(bytes)),
                None => None,
            },
    ensures
        column_under(field, written) == Ok::<ColumnSeq, ColumnFault>(
            ColumnSeq::Flat(ScalarSeq::Binary(values)),
        ),
{
    types_go_by_name(column.pg_type);
    assert forall|i: int| 0 <= i < written.len() implies #[trigger] cells::is_read_as::<ByteaCell>(
        written[i],
        values[i],
    ) by {
        if let Some(bytes) = values[i] {
            bytea::bytea_round_trip(bytes);
        }
    }
    cells::cells_are_read_one_by_one::<ByteaCell>(written, values);
}

/// A result column of floating-point numbers holds the very texts that its cells hold, where each
/// of them writes such a number.
pub proof fn floats_are_kept(column: PgColumn, field: Field, written: Seq<Option<Seq<char>>>)
    requires
        is_field_for(field, column, "float4"@) || is_field_for(field, column, "float8"@),
        forall|i: int|
            0 <= i < written.len() ==> (#[trigger] written[i] matches Some(t) ==> FloatCell::reading(
                t,
            ) is Ok),
    ensures
        column_under(field, written) == Ok::<ColumnSeq, ColumnFault>(
            ColumnSeq::Flat(
                if column.pg_type.name@ == "float4"@ {
                    ScalarSeq::Float32(written)
                } else {
                    ScalarSeq::Float64(written)
                },
            ),
        ),
{
    types_go_by_name(column.pg_type);
    assert forall|i: int| 0 <= i < written.len() implies #[trigger] cells::is_read_as::<FloatCell>(
        written[i],
        written[i],
    ) by {
        if let Some(t) = written[i] {
            assert(FloatCell::reading(t) is Ok);
        }
    }
    cells::cells_are_read_one_by_one::<FloatCell>(written, written);
}

/// A result column of dates holds the days that `chrono` reads, of the form `YYYY-MM-DD`.
pub proof fn dates_are_kept(
    column: PgColumn,
    field: Field,
    days: Seq<Option<i32>>,
    written: Seq<Option<Seq<char>>>,
)
    requires
        is_field_for(field, column, "date"@),
        written.len() == days.len(),
        forall|i: int|
            0 <= i < days.len() ==> match (#[trigger] written[i], days[i]) {
                (Some(t), Some(d)) => temporal::parsed_date(t, "%Y-%m-%d"@) == Ok::<i32, Seq<char>>(
                    d,
                ),
                (None, None) => true,
                _ => false,
            },
    ensures
        column_under(field, written) == Ok::<ColumnSeq, ColumnFault>(
            ColumnSeq::Flat(ScalarSeq::Date32(days)),
        ),
{
    types_go_by_name(column.pg_type);
    assert forall|i: int| 0 <= i < written.len() implies #[trigger] cells::is_read_as::<DateCell>(
        written[i],
        days[i],
    ) by {}
    cells::cells_are_read_one_by_one::<DateCell>(written, days);
}

/// A result column of timestamps, with a time zone or without, holds the whole milliseconds up to
/// the times that `chrono` reads.
pub proof fn timestamps_are_kept(
    column: PgColumn,
    field: Field,
    times: Seq<Option<(i64, u32)>>,
    millis: Seq<Option<i64>>,
    written: Seq<Option<Seq<char>>>,
)
    requires
        is_field_for(field, column, "timestamp"@) || is_field_for(field, column, "timestamptz"@),
        written.len() == times.len() == millis.len(),
        forall|i: int|
            0 <= i < times.len() ==> match (#[trigger] written[i], times[i], millis[i]) {
                (Some(t), Some((secs, nanos)), Some(m)) => {
                    &&& temporal::parsed_date_time(t, "%Y-%m-%d %H:%M:%S%.f"@) == Ok::<
                        (i64, u32),
                        Seq<char>,
                    >((secs, nanos))
                    &&& m * 1_000_000 <= secs * 1_000_000_000 + nanos < (m + 1) * 1_000_000
                },
                (None, None, None) => true,
                _ => false,
            },
    ensures
        column_under(field, written) == Ok::<ColumnSeq, ColumnFault>(
            ColumnSeq::Flat(ScalarSeq::TimestampMillisecond(millis)),
        ),
{
    types_go_by_name(column.pg_type);
    assert forall|i: int| 0 <= i < written.len() implies #[trigger] cells::is_read_as::<TimestampCell>(
        written[i],
        millis[i],
    ) by {
        if written[i] is Some {
            let (secs, nanos) = times[i]->0;
            let m = millis[i]->0;
            millis_are_whole(secs as int, nanos as int);
            assert(m == temporal::whole_millis(secs as int, nanos as int));
        }
    }
    cells::cells_are_read_one_by_one::<TimestampCell>(written, millis);
}

/// A result column of any other type that is no array holds its cells as they are, whatever they
/// hold, but for an hstore.
pub proof fn other_types_are_kept_as_text(
    column: PgColumn,
    field: Field,
    written: Seq<Option<Seq<char>>>,
)
    requires
        column.pg_type.kind is Other,
        types::is_field_of(field, column),
        !seq![
            "int2"@,
            "int4"@,
            "int8"@,
            "float4"@,
            "float8"@,
            "bool"@,
            "date"@,
            "timestamp"@,
            "timestamptz"@,
            "bytea"@,
        ].contains(column.pg_type.name@),
        column.pg_type.name@ != "hstore"@,
    ensures
        column_under(field, written) == Ok::<ColumnSeq, ColumnFault>(
            ColumnSeq::Flat(ScalarSeq::Utf8(written)),
        ),
{
    types_go_by_name(column.pg_type);
}

/// A result column that is an array holds a list for each cell that is there: as many items as the
/// cell has elements, read as the type of the elements, and each in its place behind those of the
/// rows before it.
pub proof fn arrays_are_kept(
    column: PgColumn,
    field: Field,
    inner: PgType,
    written: Seq<Option<Seq<char>>>,
    list: ColumnSeq,
    row: int,
)
    requires
        column.pg_type.name@ != "hstore"@,
        column.pg_type.kind == PgKind::Array(Box::new(inner)),
        types::is_field_of(field, column),
        column_under(field, written) == Ok::<ColumnSeq, ColumnFault>(list),
        0 <= row < written.len(),
    ensures
        match list {
            ColumnSeq::List { valid, lengths, items } => {
                let from = types::total(lengths.take(row));
                let elements = match written[row] {
                    Some(t) => array::array_text(t),
                    None => Seq::empty(),
                };
                let all = types::all_items(written);
                &&& valid.len() == lengths.len() == written.len()
                &&& valid[row] <==> written[row] is Some
                &&& lengths[row] == elements.len()
                &&& all.subrange(from, from + lengths[row]) == elements
                &&& types::flat_reading(types::arrow_type(inner), false, all) == Some(
                    Ok::<ScalarSeq, (int, CellFault)>(items),
                )
            },
            ColumnSeq::Flat(_) => false,
        },
{
    types::row_items_are_in_place(written, row);
    let lengths = written.map_values(|c: Option<Seq<char>>| types::row_items(c).len() as int);
    assert(list->lengths =~= lengths);
}

/// Why a text is no value of a column type, where it is none. `is_hstore` tells apart the two ways
/// in which text is read.
pub open spec fn fault_of(data_type: DataType, is_hstore: bool, t: Seq<char>) -> Option<CellFault> {
    match data_type {
        DataType::Int32 => match Int32Cell::reading(t) {
            Err(f) => Some(f),
            Ok(_) => None,
        },
        DataType::Int64 => match Int64Cell::reading(t) {
            Err(f) => Some(f),
            Ok(_) => None,
        },
        DataType::Float32 | DataType::Float64 => match FloatCell::reading(t) {
            Err(f) => Some(f),
            Ok(_) => None,
        },
        DataType::Boolean => match BoolCell::reading(t) {
            Err(f) => Some(f),
            Ok(_) => None,
        },
        DataType::Date32 => match DateCell::reading(t) {
            Err(f) => Some(f),
            Ok(_) => None,
        },
        DataType::TimestampMillisecond => match TimestampCell::reading(t) {
            Err(f) => Some(f),
            Ok(_) => None,
        },
        DataType::Binary => match ByteaCell::reading(t) {
            Err(f) => Some(f),
            Ok(_) => None,
        },
        DataType::Utf8 => if is_hstore {
            match HstoreCell::reading(t) {
                Err(f) => Some(f),
                Ok(_) => None,
            }
        } else {
            None
        },
        _ => None,
    }
}

proof fn lemma_first_bad_cell<R: CellReader>(
    cells: Seq<Option<Seq<char>>>,
    i: int,
    t: Seq<char>,
    f: CellFault,
)
    requires
        0 <= i < cells.len(),
        cells[i] == Some(t),
        R::reading(t) == Err::<<R::Value as View>::V, CellFault>(f),
        forall|k: int|
            0 <= k < i ==> (#[trigger] cells[k] matches Some(u) ==> R::reading(u) is Ok),
    ensures
        cells::cells_reading::<R>(cells) == Err::<
            Seq<Option<<R::Value as View>::V>>,
            (int, CellFault),
        >((i, f)),
{
    cells::first_failing_cell_is_named::<R>(cells);
    match cells::cells_reading::<R>(cells) {
        Ok(values) => {
            cells::cells_are_read_one_by_one::<R>(cells, values);
            assert(cells::is_read_as::<R>(cells[i], values[i]));
        },
        Err((k, g)) => {
            assert(cells[k] is Some);
            if k > i {
                let values = cells::cells_reading::<R>(cells.take(k))->Ok_0;
                cells::cells_are_read_one_by_one::<R>(cells.take(k), values);
                assert(cells::is_read_as::<R>(cells.take(k)[i], values[i]));
            }
        },
    }
}

/// The first cell that cannot be read is the one that the error speaks of: its column, its text
/// and its fault, in a column of scalars and among the items of a list.
pub proof fn first_bad_cell_is_reported(
    name: Seq<char>,
    data_type: DataType,
    original_type: Option<Seq<char>>,
    cells: Seq<Option<Seq<char>>>,
    i: int,
    t: Seq<char>,
    f: CellFault,
)
    requires
        0 <= i < cells.len(),
        cells[i] == Some(t),
        fault_of(data_type, original_type == Some("hstore"@), t) == Some(f),
        forall|k: int|
            0 <= k < i ==> (#[trigger] cells[k] matches Some(u) ==> fault_of(
                data_type,
                original_type == Some("hstore"@),
                u,
            ) is None),
    ensures
        types::column_reading(name, data_type, original_type, cells) == Err::<
            ColumnSeq,
            ColumnFault,
        >(ColumnFault::Cell { column: name, in_list: false, data_type, value: t, fault: f }),
        original_type is None ==> types::item_reading(name, data_type, cells) == Err::<
            ScalarSeq,
            ColumnFault,
        >(ColumnFault::Cell { column: name, in_list: true, data_type, value: t, fault: f }),
{
    match data_type {
        DataType::Int32 => lemma_first_bad_cell::<Int32Cell>(cells, i, t, f),
        DataType::Int64 => lemma_first_bad_cell::<Int64Cell>(cells, i, t, f),
        DataType::Float32 => lemma_first_bad_cell::<FloatCell>(cells, i, t, f),
        DataType::Float64 => lemma_first_bad_cell::<FloatCell>(cells, i, t, f),
        DataType::Boolean => lemma_first_bad_cell::<BoolCell>(cells, i, t, f),
        DataType::Date32 => lemma_first_bad_cell::<DateCell>(cells, i, t, f),
        DataType::TimestampMillisecond => lemma_first_bad_cell::<TimestampCell>(cells, i, t, f),
        DataType::Binary => lemma_first_bad_cell::<ByteaCell>(cells, i, t, f),
        DataType::Utf8 => lemma_first_bad_cell::<HstoreCell>(cells, i, t, f),
        _ => {},
    }
}

/// The words of an error on a cell begin with its column, say whether it is the item of a list,
/// and hold the text of the cell, but for byte strings and hstores.
pub proof fn cell_error_names_column_and_text(
    column: Seq<char>,
    in_list: bool,
    data_type: DataType,
    value: Seq<char>,
    fault: CellFault,
)
    requires
        !(fault is Bytea),
    ensures
        ({
            let words = (ColumnFault::Cell { column, in_list, data_type, value, fault }).wording();
            let head = "col "@ + column + (if in_list { "[]: "@ } else { ": "@ });
            &&& text::starts_with(words, head)
            &&& fault is Bool ==> text::ends_with(words, "'"@ + value + "'"@)
            &&& fault matches CellFault::Hstore(f) ==> text::ends_with(
                words,
                "hstore parse: "@ + f.wording(),
            )
            &&& !(fault is Bool) && !(fault is Hstore) ==> text::ends_with(
                words,
                "'"@ + value + "': "@ + fault.wording(),
            )
        }),
{
    let words = (ColumnFault::Cell { column, in_list, data_type, value, fault }).wording();
    let head = "col "@ + column + (if in_list { "[]: "@ } else { ": "@ });
    reveal_strlit("unexpected bool '");
    reveal_strlit("unexpected bool value '");
    reveal_strlit(" '");
    reveal_strlit(" parse '");
    reveal_strlit("'");
    assert(words.take(head.len() as int) =~= head);
    if fault is Bool {
        let tail = "'"@ + value + "'"@;
        assert(words.skip(words.len() - tail.len()) =~= tail);
    } else if let CellFault::Hstore(f) = fault {
        let tail = "hstore parse: "@ + f.wording();
        assert(words.skip(words.len() - tail.len()) =~= tail);
    } else {
        let tail = "'"@ + value + "': "@ + fault.wording();
        assert(words.skip(words.len() - tail.len()) =~= tail);
    }
}

/// The cells of one column of the rows.
pub open spec fn cells_at(rows: Seq<Vec<Option<String>>>, column: int) -> Seq<Option<Seq<char>>> {
    Seq::new(
        rows.len(),
        |r: int|
            match rows[r]@[column] {
                Some(t) => Some(t@),
                None => None,
            },
    )
}

/// A batch is read column by column: there is a column for each field, and it holds what the cells
/// in its place make under its field. Where a batch cannot be read, its first bad column says why.
pub proof fn batch_is_read_column_by_column(
    schema: Seq<Field>,
    rows: Seq<Vec<Option<String>>>,
    columns: Seq<ColumnSeq>,
)
    requires
        columns.len() == schema.len(),
        forall|c: int|
            0 <= c < schema.len() ==> column_under(#[trigger] schema[c], cells_at(rows, c)) == Ok::<
                ColumnSeq,
                ColumnFault,
            >(columns[c]),
    ensures
        types::batch_reading(schema, rows) == Ok::<Seq<ColumnSeq>, ColumnFault>(columns),
{
    lemma_columns_read(schema, rows, columns, schema.len());
    assert(columns.take(schema.len() as int) =~= columns);
}

proof fn lemma_columns_read(
    schema: Seq<Field>,
    rows: Seq<Vec<Option<String>>>,
    columns: Seq<ColumnSeq>,
    n: nat,
)
    requires
        n <= columns.len(),
        columns.len() <= schema.len(),
        forall|c: int|
            0 <= c < n ==> column_under(#[trigger] schema[c], cells_at(rows, c)) == Ok::<
                ColumnSeq,
                ColumnFault,
            >(columns[c]),
    ensures
        types::columns_reading(schema, rows, n) == Ok::<Seq<ColumnSeq>, ColumnFault>(
            columns.take(n as int),
        ),
    decreases n,
{
    if n > 0 {
        lemma_columns_read(schema, rows, columns, (n - 1) as nat);
        assert(types::column_of(rows, n - 1) =~= cells_at(rows, n - 1));
        assert(column_under(schema[n - 1], cells_at(rows, n - 1)) is Ok);
        assert(columns.take(n as int) =~= columns.take(n - 1).push(columns[n - 1]));
    } else {
        assert(columns.take(0) =~= Seq::empty());
    }
}

/// Where the columns before it can be read, a column that cannot be read says why the batch cannot.
pub proof fn first_bad_column_is_reported(
    schema: Seq<Field>,
    rows: Seq<Vec<Option<String>>>,
    columns: Seq<ColumnSeq>,
    f: ColumnFault,
)
    requires
        columns.len() < schema.len(),
        forall|c: int|
            0 <= c < columns.len() ==> column_under(#[trigger] schema[c], cells_at(rows, c)) == Ok::<
                ColumnSeq,
                ColumnFault,
            >(columns[c]),
        column_under(schema[columns.len() as int], cells_at(rows, columns.len() as int)) == Err::<
            ColumnSeq,
            ColumnFault,
        >(f),
    ensures
        types::batch_reading(schema, rows) == Err::<Seq<ColumnSeq>, ColumnFault>(f),
{
    let n = columns.len();
    lemma_columns_read(schema, rows, columns, n);
    assert(types::column_of(rows, n as int) =~= cells_at(rows, n as int));
    lemma_failure_lasts(schema, rows, n + 1, schema.len());
}

proof fn lemma_failure_lasts(schema: Seq<Field>, rows: Seq<Vec<Option<String>>>, n: nat, m: nat)
    requires
        n <= m,
        types::columns_reading(schema, rows, n) is Err,
    ensures
        types::columns_reading(schema, rows, m) == types::columns_reading(schema, rows, n),
    decreases m,
{
    if n < m {
        lemma_failure_lasts(schema, rows, n, (m - 1) as nat);
    }
}

/// Cells cannot be read into a column of an unknown type, nor into a list of lists or of an
/// unknown type; the error names the type.
pub proof fn unknown_types_are_refused(
    name: Seq<char>,
    data_type: DataType,
    original_type: Option<Seq<char>>,
    cells: Seq<Option<Seq<char>>>,
)
    ensures
        data_type is Other ==> types::column_reading(name, data_type, original_type, cells) == Err::<
            ColumnSeq,
            ColumnFault,
        >(ColumnFault::Unsupported(data_type)),
        data_type is Other || data_type is List ==> types::item_reading(name, data_type, cells)
            == Err::<ScalarSeq, ColumnFault>(ColumnFault::Unsupported(data_type)),
        data_type matches DataType::List(inner) ==> (*inner is Other || *inner is List
            ==> types::column_reading(name, data_type, original_type, cells) == Err::<
            ColumnSeq,
            ColumnFault,
        >(ColumnFault::Unsupported(*inner))),
{
}

/// A column of byte strings stops at a text that cannot be cut into pairs exactly where its first
/// bad cell is such a text.
pub proof fn misaligned_cell_comes_first(
    field: Field,
    rows: Seq<Vec<Option<String>>>,
    column: int,
    i: int,
    t: Seq<char>,
    e: ByteaError,
)
    requires
        field.data_type == DataType::Binary,
        0 <= i < rows.len(),
        cells_at(rows, column)[i] == Some(t),
        bytea::bytea_bytes(t) == Err::<Seq<u8>, ByteaError>(e),
        forall|k: int|
            0 <= k < i ==> (#[trigger] cells_at(rows, column)[k] matches Some(u)
                ==> bytea::bytea_bytes(u) is Ok),
    ensures
        types::is_misaligned_column(field, rows, column) <==> e == ByteaError::Misaligned,
{
    let cells = cells_at(rows, column);
    assert(types::column_of(rows, column) =~= cells);
    lemma_first_bad_cell::<ByteaCell>(cells, i, t, CellFault::Bytea(e));
}

/// A column whose byte strings can all be read is not misaligned, and neither is a column of
/// another type.
pub proof fn readable_column_is_aligned(
    field: Field,
    rows: Seq<Vec<Option<String>>>,
    column: int,
    values: Seq<Option<Seq<u8>>>,
)
    ensures
        field.data_type != DataType::Binary ==> !types::is_misaligned_column(field, rows, column),
        values.len() == rows.len() && (forall|i: int|
            0 <= i < rows.len() ==> cells::is_read_as::<ByteaCell>(
                cells_at(rows, column)[i],
                #[trigger] values[i],
            )) ==> !types::is_misaligned_column(field, rows, column),
{
    let cells = cells_at(rows, column);
    assert(types::column_of(rows, column) =~= cells);
    if values.len() == rows.len() && (forall|i: int|
        0 <= i < rows.len() ==> cells::is_read_as::<ByteaCell>(cells[i], #[trigger] values[i])) {
        assert forall|i: int| 0 <= i < cells.len() implies #[trigger] cells::is_read_as::<ByteaCell>(
            cells[i],
            values[i],
        ) by {}
        cells::cells_are_read_one_by_one::<ByteaCell>(cells, values);
    }
}

/// A batch stops at a misaligned column exactly where one is reached: the columns before it can be
/// read.
pub proof fn misaligned_column_is_reached(
    schema: Seq<Field>,
    rows: Seq<Vec<Option<String>>>,
    columns: Seq<ColumnSeq>,
)
    requires
        columns.len() < schema.len(),
        forall|c: int|
            0 <= c < columns.len() ==> column_under(#[trigger] schema[c], cells_at(rows, c)) == Ok::<
                ColumnSeq,
                ColumnFault,
            >(columns[c]),
        types::is_misaligned_column(schema[columns.len() as int], rows, columns.len() as int),
    ensures
        types::is_misaligned_batch(schema, rows),
{
    lemma_columns_read(schema, rows, columns, columns.len());
}

/// Only a column that is misaligned makes a batch so.
pub proof fn aligned_columns_make_aligned_batch(
    schema: Seq<Field>,
    rows: Seq<Vec<Option<String>>>,
)
    requires
        forall|c: int|
            0 <= c < schema.len() ==> !#[trigger] types::is_misaligned_column(schema[c], rows, c),
    ensures
        !types::is_misaligned_batch(schema, rows),
{
}

/// The words of an error on a number, a date or a timestamp say which it was to be.
pub proof fn cell_error_names_type(
    column: Seq<char>,
    in_list: bool,
    data_type: DataType,
    value: Seq<char>,
    fault: CellFault,
)
    requires
        fault is Int || fault is Float || fault is Date || fault is Timestamp,
    ensures
        ({
            let words = (ColumnFault::Cell { column, in_list, data_type, value, fault }).wording();
            let tail = (if in_list { " '"@ } else { " parse '"@ }) + value + "': "@
                + fault.wording();
            &&& data_type == DataType::Int32 ==> text::ends_with(words, ": int32"@ + tail)
            &&& data_type == DataType::Int64 ==> text::ends_with(words, ": int64"@ + tail)
            &&& data_type == DataType::Float32 ==> text::ends_with(words, ": float32"@ + tail)
            &&& data_type == DataType::Float64 ==> text::ends_with(words, ": float64"@ + tail)
            &&& data_type == DataType::Date32 ==> text::ends_with(words, ": date"@ + tail)
            &&& data_type == DataType::TimestampMillisecond ==> text::ends_with(
                words,
                ": ts"@ + tail,
            )
        }),
{
    let words = (ColumnFault::Cell { column, in_list, data_type, value, fault }).wording();
    let tail = (if in_list { " '"@ } else { " parse '"@ }) + value + "': "@ + fault.wording();
    reveal_strlit(": ");
    reveal_strlit("[]: ");
    reveal_strlit("int32");
    reveal_strlit("int64");
    reveal_strlit("float32");
    reveal_strlit("float64");
    reveal_strlit("date");
    reveal_strlit("ts");
    reveal_strlit(": int32");
    reveal_strlit(": int64");
    reveal_strlit(": float32");
    reveal_strlit(": float64");
    reveal_strlit(": date");
    reveal_strlit(": ts");
    let head = match data_type {
        DataType::Int32 => ": int32"@,
        DataType::Int64 => ": int64"@,
        DataType::Float32 => ": float32"@,
        DataType::Float64 => ": float64"@,
        DataType::Date32 => ": date"@,
        DataType::TimestampMillisecond => ": ts"@,
        _ => Seq::empty(),
    };
    if head.len() > 0 {
        assert(head.skip(2) =~= types::type_word(data_type));
        assert(words.skip(words.len() - (head + tail).len()) =~= head + tail);
    }
}

/// The column views are those of the columns, one by one.
pub proof fn views_are_of_columns(columns: Seq<types::ColumnData>, i: int)
    requires
        0 <= i < columns.len(),
    ensures
        types::column_views(columns).len() == columns.len(),
        types::column_views(columns)[i] == columns[i]@,
{
}

/// A text that is no value is refused for what is wrong with it, in every kind of cell, and for
/// nothing else.
pub proof fn cells_are_refused_for_their_cause(t: Seq<char>)
    ensures
        match hstore::hstore_pairs(text::trimmed(t)) {
            Err(f) => HstoreCell::reading(t) == Err::<Seq<char>, CellFault>(CellFault::Hstore(f)),
            Ok(_) => HstoreCell::reading(t) is Ok,
        },
        match temporal::parsed_date(t, "%Y-%m-%d"@) {
            Err(e) => DateCell::reading(t) == Err::<i32, CellFault>(CellFault::Date(e)),
            Ok(days) => DateCell::reading(t) == Ok::<i32, CellFault>(days),
        },
        match temporal::parsed_date_time(t, "%Y-%m-%d %H:%M:%S%.f"@) {
            Err(e) => TimestampCell::reading(t) == Err::<i64, CellFault>(CellFault::Timestamp(e)),
            Ok(_) => TimestampCell::reading(t) is Ok,
        },
        match bytea::bytea_bytes(t) {
            Err(e) => ByteaCell::reading(t) == Err::<Seq<u8>, CellFault>(CellFault::Bytea(e)),
            Ok(bytes) => ByteaCell::reading(t) == Ok::<Seq<u8>, CellFault>(bytes),
        },
        t.len() == 0 ==> FloatCell::reading(t) == Err::<Seq<char>, CellFault>(
            CellFault::Float(FloatError::Empty),
        ),
        t.len() > 0 && FloatCell::reading(t) is Err ==> FloatCell::reading(t) == Err::<
            Seq<char>,
            CellFault,
        >(CellFault::Float(FloatError::Invalid)),
        match number::parsed_signed(t, 2_147_483_647) {
            Err(e) => Int32Cell::reading(t) == Err::<i32, CellFault>(CellFault::Int(e)),
            Ok(n) => Int32Cell::reading(t) == Ok::<i32, CellFault>(n as i32),
        },
        match number::parsed_signed(t, 9_223_372_036_854_775_807) {
            Err(e) => Int64Cell::reading(t) == Err::<i64, CellFault>(CellFault::Int(e)),
            Ok(n) => Int64Cell::reading(t) == Ok::<i64, CellFault>(n as i64),
        },
{
}

} // verus!
