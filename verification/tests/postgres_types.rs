use loadsmith_plugins::postgres::array::parse_pg_array_text;
use loadsmith_plugins::postgres::bytea::{bytea_text, parse_bytea_hex, read_bytea_hex, ByteaError};
use loadsmith_plugins::postgres::hstore::{
    parse_hstore_pairs, parse_hstore_to_json, HstoreError,
};
use loadsmith_plugins::postgres::temporal::{
    date_text, parse_date_days, parse_timestamp_millis, timestamp_text, FIRST_DAY, FIRST_SECOND,
    LAST_DAY, LAST_SECOND,
};
use loadsmith_plugins::postgres::types::{
    build_flat_scalars, columns_to_schema, hstore_type_key, list_item_name, pg_type_to_arrow,
    rows_to_batch_text, try_rows_to_batch_text, ColumnData, DataType, Field, PgColumn, PgKind,
    PgType, Scalars,
};
use tokio_postgres::types::{Kind, Type};

fn pg_type(t: &Type) -> PgType {
    PgType {
        name: t.name().to_string(),
        kind: match t.kind() {
            Kind::Array(inner) => PgKind::Array(Box::new(pg_type(inner))),
            _ => PgKind::Other,
        },
    }
}

fn field(name: &str, data_type: DataType) -> Field {
    Field { name: name.to_string(), data_type, original_type: None }
}

fn rows(cells: &[Option<&str>]) -> Vec<Vec<Option<String>>> {
    cells.iter().map(|c| vec![c.map(String::from)]).collect()
}

fn one_column(field: Field, cells: &[Option<&str>]) -> Result<ColumnData, String> {
    match try_rows_to_batch_text(&rows(cells), &vec![field]).unwrap() {
        Ok(mut columns) => {
            assert_eq!(columns.len(), 1);
            Ok(columns.remove(0))
        }
        Err(e) => Err(e.message()),
    }
}

// ── arrays ───────────────────────────────────────────────────────────────────

#[test]
fn array_empty() {
    assert_eq!(parse_pg_array_text("{}"), Vec::<Option<String>>::new());
}

#[test]
fn array_integers() {
    let v = parse_pg_array_text("{1,2,3}");
    assert_eq!(v, vec![Some("1".into()), Some("2".into()), Some("3".into())]);
}

#[test]
fn array_text_quoted() {
    let v = parse_pg_array_text(r#"{"hello","world"}"#);
    assert_eq!(v, vec![Some("hello".into()), Some("world".into())]);
}

#[test]
fn array_text_with_spaces_in_value() {
    let v = parse_pg_array_text(r#"{"hello world","foo bar"}"#);
    assert_eq!(v, vec![Some("hello world".into()), Some("foo bar".into())]);
}

#[test]
fn array_with_null_element() {
    let v = parse_pg_array_text("{1,NULL,3}");
    assert_eq!(v, vec![Some("1".into()), None, Some("3".into())]);
}

#[test]
fn array_quoted_with_backslash_escape() {
    let v = parse_pg_array_text(r#"{"say \"hi\""}"#);
    assert_eq!(v, vec![Some(r#"say "hi""#.into())]);
}

#[test]
fn array_edges() {
    // Text without braces is a single element.
    assert_eq!(parse_pg_array_text(" abc "), vec![Some("abc".into())]);
    assert_eq!(parse_pg_array_text("{"), vec![Some("{".into())]);
    assert_eq!(parse_pg_array_text("{ }"), Vec::<Option<String>>::new());
    // A trailing comma adds nothing, an empty place between commas is an empty text.
    assert_eq!(parse_pg_array_text("{a,}"), vec![Some("a".into())]);
    assert_eq!(
        parse_pg_array_text("{a,,b}"),
        vec![Some("a".into()), Some("".into()), Some("b".into())]
    );
    // A quoted NULL is text; a bare one is absent in any case.
    assert_eq!(
        parse_pg_array_text(r#"{"NULL",null,Null}"#),
        vec![Some("NULL".into()), None, None]
    );
    // Anything behind a quoted element ends the list.
    assert_eq!(parse_pg_array_text(r#"{"a"x,"b"}"#), vec![Some("a".into())]);
    assert_eq!(parse_pg_array_text(r#"{"a","#), vec![Some(r#"{"a","#.into())]);
    assert_eq!(parse_pg_array_text(r#"{"a}"#), vec![Some("a".into())]);
    assert_eq!(
        parse_pg_array_text("{ x y , 1 }"),
        vec![Some("x y".into()), Some("1".into())]
    );
}

// ── hstore ───────────────────────────────────────────────────────────────────

#[test]
fn hstore_simple_pair() {
    let json = parse_hstore_to_json(r#""k"=>"v""#).unwrap();
    let parsed: serde_json::Value = serde_json::from_str(&json).unwrap();
    assert_eq!(parsed["k"], "v");
}

#[test]
fn hstore_multiple_pairs() {
    let json = parse_hstore_to_json(r#""a"=>"1", "b"=>"2""#).unwrap();
    let parsed: serde_json::Value = serde_json::from_str(&json).unwrap();
    assert_eq!(parsed["a"], "1");
    assert_eq!(parsed["b"], "2");
}

#[test]
fn hstore_null_value() {
    let json = parse_hstore_to_json(r#""k"=>NULL"#).unwrap();
    let parsed: serde_json::Value = serde_json::from_str(&json).unwrap();
    assert!(parsed["k"].is_null());
}

#[test]
fn hstore_empty_string_value() {
    let json = parse_hstore_to_json(r#""k"=>"  ""#).unwrap();
    let parsed: serde_json::Value = serde_json::from_str(&json).unwrap();
    assert_eq!(parsed["k"], "  ");
}

#[test]
fn hstore_renders_exact_json() {
    assert_eq!(parse_hstore_to_json("").unwrap(), "{}");
    assert_eq!(
        parse_hstore_to_json(r#" "b"=>"x\"y" , "a"=>bare,"b"=>NULL "#).unwrap(),
        r#"{"a":"bare","b":null}"#
    );
    assert_eq!(parse_hstore_to_json(r#""a\\b"=>"\"""#).unwrap(), r#"{"a\\b":"\""}"#);
}

#[test]
fn hstore_pairs_keep_order() {
    let pairs = parse_hstore_pairs(r#""b"=>"2","a"=>NULL,"b"=>"""#).unwrap();
    assert_eq!(
        pairs,
        vec![
            ("b".to_string(), Some("2".to_string())),
            ("a".to_string(), None),
            ("b".to_string(), Some("".to_string())),
        ]
    );
}

#[test]
fn hstore_errors() {
    let e = parse_hstore_to_json("k=>1").unwrap_err();
    assert!(matches!(e, HstoreError::ExpectedKey));
    assert_eq!(e.message(), "expected '\"' at start of hstore key");
    let e = parse_hstore_to_json(r#""k"#).unwrap_err();
    assert!(matches!(e, HstoreError::Unterminated));
    assert_eq!(e.message(), "hstore: unterminated quoted string");
    let e = parse_hstore_to_json(r#""k\"#).unwrap_err();
    assert!(matches!(e, HstoreError::EndAfterBackslash));
    assert_eq!(e.message(), "hstore: unexpected end after '\\'");
    let e = parse_hstore_to_json(r#""k"->"v""#).unwrap_err();
    assert!(matches!(e, HstoreError::ExpectedArrow(_)));
    assert_eq!(e.message(), "expected '=>' in hstore, got '->'");
    let e = parse_hstore_to_json(r#""k"="#).unwrap_err();
    assert_eq!(e.message(), "expected '=>' in hstore, got '='");
}

// ── types ────────────────────────────────────────────────────────────────────

#[test]
fn type_int4_array_becomes_list_of_int32() {
    let dt = pg_type_to_arrow(&pg_type(&Type::INT4_ARRAY));
    assert!(matches!(dt, DataType::List(_)));
    if let DataType::List(inner) = dt {
        assert_eq!(*inner, DataType::Int32);
    }
}

#[test]
fn type_text_becomes_utf8() {
    let dt = pg_type_to_arrow(&pg_type(&Type::TEXT));
    assert_eq!(dt, DataType::Utf8);
}

#[test]
fn type_float8_becomes_float64() {
    let dt = pg_type_to_arrow(&pg_type(&Type::FLOAT8));
    assert_eq!(dt, DataType::Float64);
}

#[test]
fn types_by_name() {
    let cases = [
        (Type::INT2, DataType::Int32),
        (Type::INT4, DataType::Int32),
        (Type::INT8, DataType::Int64),
        (Type::FLOAT4, DataType::Float32),
        (Type::BOOL, DataType::Boolean),
        (Type::DATE, DataType::Date32),
        (Type::TIMESTAMP, DataType::TimestampMillisecond),
        (Type::TIMESTAMPTZ, DataType::TimestampMillisecond),
        (Type::BYTEA, DataType::Binary),
        (Type::NUMERIC, DataType::Utf8),
        (Type::UUID, DataType::Utf8),
        (Type::BOOL_ARRAY, DataType::List(Box::new(DataType::Boolean))),
    ];
    for (t, expected) in cases {
        assert_eq!(pg_type_to_arrow(&pg_type(&t)), expected);
    }
    let hstore = PgType { name: "hstore".into(), kind: PgKind::Other };
    assert_eq!(pg_type_to_arrow(&hstore), DataType::Utf8);
}

#[test]
fn schema_marks_hstore() {
    let cols = vec![
        PgColumn { name: "id".into(), pg_type: pg_type(&Type::INT8) },
        PgColumn {
            name: "tags".into(),
            pg_type: PgType { name: "hstore".into(), kind: PgKind::Other },
        },
    ];
    let schema = columns_to_schema(&cols);
    assert_eq!(schema.len(), 2);
    assert_eq!(schema[0].name, "id");
    assert_eq!(schema[0].data_type, DataType::Int64);
    assert_eq!(schema[0].original_type, None);
    assert_eq!(schema[1].name, "tags");
    assert_eq!(schema[1].data_type, DataType::Utf8);
    assert_eq!(schema[1].original_type.as_deref(), Some("hstore"));
    assert_eq!(hstore_type_key(), "pg_original_type");
    assert_eq!(list_item_name(), "item");
}

// ── timestamps, dates, bytes ─────────────────────────────────────────────────

#[test]
fn parse_timestamp_millis_basic() {
    let ms = parse_timestamp_millis("2024-01-15 12:30:45.123").unwrap();
    assert!(ms > 0);
}

#[test]
fn timestamps_exact() {
    assert_eq!(parse_timestamp_millis("1970-01-01 00:00:00"), Ok(0));
    assert_eq!(parse_timestamp_millis("2024-01-15 12:30:45.123"), Ok(1_705_321_845_123));
    assert_eq!(parse_timestamp_millis("1969-12-31 23:59:59.999999"), Ok(-1));
    assert_eq!(timestamp_text(0).unwrap(), "1970-01-01 00:00:00");
    assert_eq!(timestamp_text(1_705_321_845_123).unwrap(), "2024-01-15 12:30:45.123");
    assert!(parse_timestamp_millis("2024-01-15").is_err());
}

#[test]
fn timestamps_read_back() {
    let first = FIRST_SECOND * 1000;
    let last = LAST_SECOND * 1000 + 999;
    for ms in [first, first + 1, -62_167_219_200_001, -1, 0, 1, 999, 253_402_300_800_000, last] {
        let text = timestamp_text(ms).unwrap();
        assert_eq!(parse_timestamp_millis(&text), Ok(ms), "{text}");
    }
    assert_eq!(timestamp_text(first - 1), None);
    assert_eq!(timestamp_text(last + 1), None);
    assert_eq!(timestamp_text(i64::MIN), None);
    assert_eq!(timestamp_text(i64::MAX), None);
}

#[test]
fn dates_read_back() {
    assert_eq!(parse_date_days("1970-01-02"), Ok(1));
    assert_eq!(parse_date_days("2024-02-29"), Ok(19_782));
    assert_eq!(date_text(19_782).unwrap(), "2024-02-29");
    for days in [FIRST_DAY, FIRST_DAY + 1, -719_529, -719_528, -1, 0, 2_932_897, LAST_DAY] {
        let text = date_text(days).unwrap();
        assert_eq!(parse_date_days(&text), Ok(days), "{text}");
    }
    assert_eq!(date_text(FIRST_DAY - 1), None);
    assert_eq!(date_text(LAST_DAY + 1), None);
    assert_eq!(date_text(i32::MIN), None);
    assert!(parse_date_days("2024-02-30").is_err());
}

#[test]
fn parse_bytea_hex_basic() {
    let bytes = parse_bytea_hex("\\xdeadbeef").unwrap();
    assert_eq!(bytes, vec![0xde, 0xad, 0xbe, 0xef]);
}

#[test]
fn bytea_edges() {
    assert_eq!(parse_bytea_hex(""), Ok(vec![]));
    assert_eq!(parse_bytea_hex("\\x"), Ok(vec![]));
    assert_eq!(parse_bytea_hex("DEad"), Ok(vec![0xde, 0xad]));
    assert_eq!(parse_bytea_hex("+f"), Ok(vec![0x0f]));
    assert_eq!(parse_bytea_hex("zz"), Err(ByteaError::InvalidDigit));
    assert_eq!(parse_bytea_hex("-1"), Err(ByteaError::InvalidDigit));
    assert_eq!(parse_bytea_hex("é"), Err(ByteaError::InvalidDigit));
    assert_eq!(read_bytea_hex("abc"), Err(ByteaError::Misaligned));
    assert_eq!(read_bytea_hex("aé"), Err(ByteaError::Misaligned));
    assert_eq!(read_bytea_hex("€"), Err(ByteaError::Misaligned));
    assert_eq!(read_bytea_hex("zz€"), Err(ByteaError::InvalidDigit));
    assert_eq!(ByteaError::InvalidDigit.message(), "invalid digit found in string");
}

#[test]
fn bytes_read_back() {
    let bytes: Vec<u8> = (0..=255).collect();
    let text = bytea_text(&bytes);
    assert!(text.starts_with("\\x000102"));
    assert_eq!(parse_bytea_hex(&text), Ok(bytes));
}

// ── columns ──────────────────────────────────────────────────────────────────

#[test]
fn columns_of_each_type() {
    let c = one_column(field("c", DataType::Int32), &[Some("1"), None, Some("-2")]).unwrap();
    assert!(matches!(c, ColumnData::Flat(Scalars::Int32(v)) if v == vec![Some(1), None, Some(-2)]));
    let c = one_column(field("c", DataType::Int64), &[Some("9")]).unwrap();
    assert!(matches!(c, ColumnData::Flat(Scalars::Int64(v)) if v == vec![Some(9)]));
    let c = one_column(field("c", DataType::Float32), &[Some("1.5")]).unwrap();
    assert!(matches!(c, ColumnData::Flat(Scalars::Float32(v)) if v == vec![Some("1.5".to_string())]));
    let c = one_column(field("c", DataType::Float64), &[Some("NaN"), None]).unwrap();
    assert!(
        matches!(c, ColumnData::Flat(Scalars::Float64(v)) if v == vec![Some("NaN".to_string()), None])
    );
    let c = one_column(
        field("c", DataType::Boolean),
        &[Some("t"), Some("true"), Some("f"), Some("false"), None],
    )
    .unwrap();
    assert!(matches!(c, ColumnData::Flat(Scalars::Boolean(v))
        if v == vec![Some(true), Some(true), Some(false), Some(false), None]));
    let c = one_column(field("c", DataType::Date32), &[Some("1970-01-11")]).unwrap();
    assert!(matches!(c, ColumnData::Flat(Scalars::Date32(v)) if v == vec![Some(10)]));
    let c = one_column(field("c", DataType::TimestampMillisecond), &[Some("1970-01-01 00:00:01.5")])
        .unwrap();
    assert!(
        matches!(c, ColumnData::Flat(Scalars::TimestampMillisecond(v)) if v == vec![Some(1500)])
    );
    let c = one_column(field("c", DataType::Binary), &[Some("\\x00ff")]).unwrap();
    assert!(matches!(c, ColumnData::Flat(Scalars::Binary(v)) if v == vec![Some(vec![0, 255])]));
    let c = one_column(field("c", DataType::Utf8), &[Some("x"), None]).unwrap();
    assert!(matches!(c, ColumnData::Flat(Scalars::Utf8(v)) if v == vec![Some("x".to_string()), None]));
    let mut hstore = field("c", DataType::Utf8);
    hstore.original_type = Some("hstore".into());
    let c = one_column(hstore, &[Some(r#""a"=>"1""#)]).unwrap();
    assert!(
        matches!(c, ColumnData::Flat(Scalars::Utf8(v)) if v == vec![Some(r#"{"a":"1"}"#.to_string())])
    );
}

#[test]
fn list_columns_keep_rows_apart() {
    let list = DataType::List(Box::new(DataType::Int32));
    let c = one_column(field("c", list), &[Some("{1,2}"), None, Some("{}"), Some("{NULL,5}")])
        .unwrap();
    if let ColumnData::List { valid, lengths, items } = c {
        assert_eq!(valid, vec![true, false, true, true]);
        assert_eq!(lengths, vec![2, 0, 0, 2]);
        assert!(matches!(items, Scalars::Int32(v) if v == vec![Some(1), Some(2), None, Some(5)]));
    } else {
        panic!("a list column");
    }
}

#[test]
fn list_items_are_of_the_type_of_the_list() {
    let list = |inner: DataType| field("c", DataType::List(Box::new(inner)));
    let c = one_column(list(DataType::Date32), &[Some("{2024-02-29,NULL}")]).unwrap();
    assert!(matches!(c, ColumnData::List { items: Scalars::Date32(v), .. }
        if v == vec![Some(19_782), None]));
    let c = one_column(
        list(DataType::TimestampMillisecond),
        &[Some(r#"{"1970-01-01 00:00:01.5"}"#)],
    )
    .unwrap();
    assert!(matches!(c, ColumnData::List { items: Scalars::TimestampMillisecond(v), .. }
        if v == vec![Some(1500)]));
    let c = one_column(list(DataType::Binary), &[Some(r#"{"\\x00ff",NULL}"#)]).unwrap();
    assert!(matches!(c, ColumnData::List { items: Scalars::Binary(v), .. }
        if v == vec![Some(vec![0, 255]), None]));
    let c = one_column(list(DataType::Utf8), &[Some("{a}")]).unwrap();
    assert!(matches!(c, ColumnData::List { items: Scalars::Utf8(v), .. }
        if v == vec![Some("a".to_string())]));

    let e = one_column(list(DataType::Date32), &[Some("{x}")]).unwrap_err();
    assert_eq!(e, "col c[]: date 'x': input contains invalid characters");
    let e = one_column(list(DataType::TimestampMillisecond), &[Some("{x}")]).unwrap_err();
    assert_eq!(e, "col c[]: ts 'x': input contains invalid characters");
    let e = one_column(list(DataType::Binary), &[Some("{zz}")]).unwrap_err();
    assert_eq!(e, "invalid digit found in string");
    let e = one_column(list(DataType::Binary), &[Some("{abc}")]).unwrap_err();
    assert_eq!(e, "byte string cannot be cut into pairs");
    let e = one_column(list(DataType::Other("Null".into())), &[None]).unwrap_err();
    assert_eq!(e, "unsupported arrow type: Null");
    let nested = DataType::List(Box::new(DataType::Int32));
    assert!(one_column(list(nested), &[Some("{1}")]).is_err());
}

#[test]
fn column_errors_name_the_cell() {
    let text = |dt: DataType, cell: &str| one_column(field("c", dt), &[Some(cell)]).unwrap_err();
    assert_eq!(text(DataType::Int32, "x"), "col c: int32 parse 'x': invalid digit found in string");
    assert_eq!(
        text(DataType::Int64, ""),
        "col c: int64 parse '': cannot parse integer from empty string"
    );
    assert_eq!(text(DataType::Float32, "x"), "col c: float32 parse 'x': invalid float literal");
    assert_eq!(text(DataType::Float64, "x"), "col c: float64 parse 'x': invalid float literal");
    assert_eq!(text(DataType::Boolean, "yes"), "col c: unexpected bool value 'yes'");
    assert_eq!(
        text(DataType::Date32, "x"),
        "col c: date parse 'x': input contains invalid characters"
    );
    assert_eq!(
        text(DataType::TimestampMillisecond, "x"),
        "col c: ts parse 'x': input contains invalid characters"
    );
    assert_eq!(text(DataType::Binary, "zz"), "invalid digit found in string");
    let mut hstore = field("c", DataType::Utf8);
    hstore.original_type = Some("hstore".into());
    assert_eq!(
        one_column(hstore, &[Some("k")]).unwrap_err(),
        "col c: hstore parse: expected '\"' at start of hstore key"
    );
    let ints = DataType::List(Box::new(DataType::Int32));
    assert_eq!(text(ints, "{1,x}"), "col c[]: int32 'x': invalid digit found in string");
    let bools = DataType::List(Box::new(DataType::Boolean));
    assert_eq!(text(bools, "{maybe}"), "col c[]: unexpected bool 'maybe'");
    assert_eq!(
        text(DataType::Other("Decimal128(1, 2)".into()), "x"),
        "unsupported arrow type: Decimal128(1, 2)"
    );
}

#[test]
fn first_column_that_fails_decides() {
    let schema = vec![field("a", DataType::Int32), field("b", DataType::Boolean)];
    let rows = vec![
        vec![Some("1".to_string()), Some("x".to_string())],
        vec![Some("y".to_string()), Some("t".to_string())],
    ];
    let e = rows_to_batch_text(&rows, &schema).unwrap_err();
    assert_eq!(e.message(), "col a: int32 parse 'y': invalid digit found in string");
}

#[test]
fn byte_strings_that_cannot_be_cut() {
    let schema = vec![field("a", DataType::Int32), field("b", DataType::Binary)];
    let bad = vec![vec![Some("1".to_string()), Some("abc".to_string())]];
    assert!(try_rows_to_batch_text(&bad, &schema).is_none());
    // A column that fails before is reported instead.
    let worse = vec![vec![Some("x".to_string()), Some("abc".to_string())]];
    assert!(matches!(try_rows_to_batch_text(&worse, &schema), Some(Err(_))));
}

#[test]
fn flat_scalars_of_text_items() {
    let items = vec![Some("a".to_string()), None];
    let r = build_flat_scalars(&items, &DataType::Utf8, "c").unwrap();
    assert!(matches!(r, Scalars::Utf8(v) if v == items));
}
