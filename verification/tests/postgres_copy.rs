use loadsmith_plugins::postgres::copy::{
    batch_to_copy_text, cell_text, escape, scalar_text, Batch, CopyColumn, CopyError,
};
use loadsmith_plugins::postgres::types::{
    rows_to_batch_text, ColumnData, DataType, Field, Scalars,
};

fn batch(names: &[&str], columns: Vec<CopyColumn>, num_rows: usize) -> Batch {
    Batch { names: names.iter().map(|n| n.to_string()).collect(), columns, num_rows }
}

fn texts(cells: &[Option<&str>]) -> Vec<Option<String>> {
    cells.iter().map(|c| c.map(String::from)).collect()
}

#[test]
fn renders_rows_with_nulls_and_escaping() {
    let ids = CopyColumn::Flat(Scalars::Int64(vec![Some(1), Some(2)]));
    let names = CopyColumn::Flat(Scalars::Utf8(texts(&[Some("a\tb"), None])));
    let batch = batch(&["id", "name"], vec![ids, names], 2);

    let text = batch_to_copy_text(&batch).unwrap();
    assert_eq!(text, "1\ta\\tb\n2\t\\N\n");
}

#[test]
fn renders_bool_as_t_f() {
    let col = CopyColumn::Flat(Scalars::Boolean(vec![Some(true), Some(false)]));
    let batch = batch(&["ok"], vec![col], 2);
    assert_eq!(batch_to_copy_text(&batch).unwrap(), "t\nf\n");
}

#[test]
fn renders_each_type() {
    let columns = vec![
        CopyColumn::Flat(Scalars::Int32(vec![Some(-7)])),
        CopyColumn::Flat(Scalars::Float32(texts(&[Some("0.5")]))),
        CopyColumn::Flat(Scalars::Float64(texts(&[Some("1e300")]))),
        CopyColumn::Flat(Scalars::Date32(vec![Some(19_782)])),
        CopyColumn::Flat(Scalars::TimestampMillisecond(vec![Some(1_500)])),
        CopyColumn::Flat(Scalars::Binary(vec![Some(vec![0xde, 0x0f])])),
        CopyColumn::LargeUtf8(texts(&[Some("x\ny\\z\r")])),
        CopyColumn::Unsupported { data_type: "Null".into(), absent: vec![true] },
    ];
    let batch = batch(&["a", "b", "c", "d", "e", "f", "g", "h"], columns, 1);
    assert_eq!(
        batch_to_copy_text(&batch).unwrap(),
        "-7\t0.5\t1e300\t2024-02-29\t1970-01-01 00:00:01.500\t\\\\xde0f\tx\\ny\\\\z\\r\t\\N\n"
    );
}

#[test]
fn batches_without_rows_or_columns() {
    assert_eq!(batch_to_copy_text(&batch(&[], vec![], 0)).unwrap(), "");
    assert_eq!(batch_to_copy_text(&batch(&[], vec![], 2)).unwrap(), "\n\n");
    let empty = CopyColumn::Flat(Scalars::Int32(vec![]));
    assert_eq!(batch_to_copy_text(&batch(&["a"], vec![empty], 0)).unwrap(), "");
}

#[test]
fn escaping_keeps_texts_apart() {
    assert_eq!(escape("a\\N\t\r\n"), "a\\\\N\\t\\r\\n");
    assert_eq!(escape(""), "");
    // The text `\N` is not an absent cell.
    let col = CopyColumn::LargeUtf8(texts(&[Some("\\N"), None, Some("")]));
    assert_eq!(batch_to_copy_text(&batch(&["a"], vec![col], 3)).unwrap(), "\\\\N\n\\N\n\n");
}

#[test]
fn cells_that_cannot_be_written() {
    let col = CopyColumn::Flat(Scalars::Date32(vec![Some(i32::MAX)]));
    let e = cell_text(&col, 0).unwrap_err();
    assert!(matches!(e, CopyError::DateOutOfRange(i32::MAX)));
    assert_eq!(e.message(), "date32 out of range: 2147483647");
    let col = CopyColumn::Flat(Scalars::TimestampMillisecond(vec![Some(i64::MIN)]));
    let e = cell_text(&col, 0).unwrap_err();
    assert_eq!(e.message(), "timestamp out of range: -9223372036854775808");
    let col =
        CopyColumn::Unsupported { data_type: "Int8".into(), absent: vec![true, false] };
    assert_eq!(cell_text(&col, 0).unwrap(), None);
    let e = cell_text(&col, 1).unwrap_err();
    assert_eq!(e.message(), "postgres destination does not support Arrow type Int8 yet");
}

#[test]
fn first_cell_that_fails_decides() {
    let dates = CopyColumn::Flat(Scalars::Date32(vec![Some(0), Some(i32::MAX)]));
    let other =
        CopyColumn::Unsupported { data_type: "Int8".into(), absent: vec![false, true] };
    let e = batch_to_copy_text(&batch(&["a", "b"], vec![dates, other], 2)).unwrap_err();
    assert!(matches!(e, CopyError::Unsupported(t) if t == "Int8"));
}

#[test]
fn written_columns_read_back() {
    let columns = vec![
        (DataType::Int32, Scalars::Int32(vec![Some(i32::MIN), None, Some(5)])),
        (DataType::Int64, Scalars::Int64(vec![Some(i64::MAX), Some(-1), None])),
        (DataType::Boolean, Scalars::Boolean(vec![Some(true), Some(false), None])),
        (DataType::Date32, Scalars::Date32(vec![Some(-1), Some(19_782), None])),
        (
            DataType::TimestampMillisecond,
            Scalars::TimestampMillisecond(vec![Some(-1), Some(1_705_321_845_123), None]),
        ),
        (DataType::Binary, Scalars::Binary(vec![Some(vec![]), Some(vec![0, 255]), None])),
        (DataType::Utf8, Scalars::Utf8(texts(&[Some("a\tb"), Some(""), None]))),
        (DataType::Float64, Scalars::Float64(texts(&[Some("0.1"), Some("inf"), None]))),
    ];
    for (data_type, values) in columns {
        let rows: Vec<Vec<Option<String>>> =
            (0..3).map(|r| vec![scalar_text(&values, r).unwrap()]).collect();
        let field = Field { name: "c".into(), data_type, original_type: None };
        let mut read = rows_to_batch_text(&rows, &vec![field]).unwrap();
        if let ColumnData::Flat(back) = read.remove(0) {
            assert_eq!(format!("{back:?}"), format!("{values:?}"));
        } else {
            panic!("a flat column");
        }
    }
}

fn read_field(field: &str) -> Option<String> {
    if field == "\\N" {
        return None;
    }
    let mut text = String::new();
    let mut chars = field.chars();
    while let Some(c) = chars.next() {
        if c == '\\' {
            match chars.next() {
                Some('t') => text.push('\t'),
                Some('n') => text.push('\n'),
                Some('r') => text.push('\r'),
                Some(other) => text.push(other),
                None => text.push(c),
            }
        } else {
            text.push(c);
        }
    }
    Some(text)
}

#[test]
fn payload_reads_back() {
    let ids = vec![Some(1), None, Some(-3)];
    let notes = texts(&[Some("a\tb\\N"), Some("\\N"), None]);
    let blobs = vec![Some(vec![9, 10, 13]), None, Some(vec![])];
    let columns = vec![
        CopyColumn::Flat(Scalars::Int64(ids.clone())),
        CopyColumn::Flat(Scalars::Utf8(notes.clone())),
        CopyColumn::Flat(Scalars::Binary(blobs.clone())),
    ];
    let payload = batch_to_copy_text(&batch(&["id", "note", "blob"], columns, 3)).unwrap();
    let rows: Vec<Vec<Option<String>>> = payload
        .strip_suffix('\n')
        .unwrap()
        .split('\n')
        .map(|line| line.split('\t').map(read_field).collect())
        .collect();
    let schema = [DataType::Int64, DataType::Utf8, DataType::Binary]
        .into_iter()
        .map(|data_type| Field { name: "c".into(), data_type, original_type: None })
        .collect();
    let read = rows_to_batch_text(&rows, &schema).unwrap();
    assert!(matches!(&read[0], ColumnData::Flat(Scalars::Int64(v)) if *v == ids));
    assert!(matches!(&read[1], ColumnData::Flat(Scalars::Utf8(v)) if *v == notes));
    assert!(matches!(&read[2], ColumnData::Flat(Scalars::Binary(v)) if *v == blobs));
}
