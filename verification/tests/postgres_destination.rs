use loadsmith_plugins::postgres::conn::ConnectionConfig;
use loadsmith_plugins::postgres::copy::{Batch, CopyColumn};
use loadsmith_plugins::postgres::destination::{
    build_merge_sql, CommitMode, DestError, PostgresDestConfig, PostgresDestPlugin,
};
use loadsmith_plugins::postgres::sql::quote_ident;
use loadsmith_plugins::postgres::types::Scalars;

fn config(table: &str, mode: CommitMode, keys: &[&str]) -> PostgresDestConfig {
    let conn = ConnectionConfig::new("d".into(), "u".into(), "p".into());
    let mut cfg = PostgresDestConfig::new(conn, table.to_string());
    cfg.mode = mode;
    cfg.merge_key = keys.iter().map(|k| k.to_string()).collect();
    cfg
}

fn batch(names: &[&str], values: Vec<Vec<Option<i64>>>) -> Batch {
    let num_rows = values[0].len();
    Batch {
        names: names.iter().map(|n| n.to_string()).collect(),
        columns: values.into_iter().map(|v| CopyColumn::Flat(Scalars::Int64(v))).collect(),
        num_rows,
    }
}

#[test]
fn config_requires_merge_key_for_staged_merge() {
    let mut p = PostgresDestPlugin::new();
    // staged_merge without a key is rejected at configure().
    let err = p.configure(config("events", CommitMode::StagedMerge, &[]));
    assert!(err.is_err());
    assert_eq!(
        err.unwrap_err().message(),
        "mode 'staged_merge' requires a non-empty merge_key"
    );
    assert!(p.config.is_none());
    // A valid staged_merge config with a key passes.
    assert!(p.configure(config("events", CommitMode::StagedMerge, &["id"])).is_ok());
}

#[test]
fn default_mode_is_atomic() {
    let conn = ConnectionConfig::new("d".into(), "u".into(), "p".into());
    let cfg = PostgresDestConfig::new(conn, "t".into());
    assert_eq!(cfg.mode, CommitMode::Atomic);
}

#[test]
fn merge_sql_updates_non_key_and_inserts() {
    let cols = vec!["id".to_string(), "name".to_string(), "updated_at".to_string()];
    let keys = vec!["id".to_string()];
    let sql = build_merge_sql("events", "_ls_staging", &cols, &keys).unwrap();
    assert!(sql.contains("ON t.\"id\" = s.\"id\""));
    assert!(sql.contains("WHEN MATCHED THEN UPDATE SET \"name\" = s.\"name\", \"updated_at\" = s.\"updated_at\""));
    assert!(sql.contains("WHEN NOT MATCHED THEN INSERT (\"id\", \"name\", \"updated_at\") VALUES (s.\"id\", s.\"name\", s.\"updated_at\")"));
}

#[test]
fn merge_sql_all_keys_does_nothing_on_match() {
    let cols = vec!["a".to_string(), "b".to_string()];
    let keys = vec!["a".to_string(), "b".to_string()];
    let sql = build_merge_sql("t", "_ls_staging", &cols, &keys).unwrap();
    assert!(sql.contains("WHEN MATCHED THEN DO NOTHING"));
}

#[test]
fn merge_sql_rejects_key_not_in_data() {
    let cols = vec!["a".to_string()];
    let keys = vec!["missing".to_string()];
    assert!(build_merge_sql("t", "_ls_staging", &cols, &keys).is_err());
}

#[test]
fn merge_sql_exact() {
    let cols = vec!["id".to_string(), "k".to_string(), "v".to_string()];
    let keys = vec!["id".to_string(), "k".to_string()];
    assert_eq!(
        build_merge_sql("public.t", "_ls_staging", &cols, &keys).unwrap(),
        "MERGE INTO public.t t USING _ls_staging s ON t.\"id\" = s.\"id\" AND t.\"k\" = s.\"k\" \
         WHEN MATCHED THEN UPDATE SET \"v\" = s.\"v\" \
         WHEN NOT MATCHED THEN INSERT (\"id\", \"k\", \"v\") VALUES (s.\"id\", s.\"k\", s.\"v\")"
    );
}

#[test]
fn first_missing_key_is_named() {
    let cols = vec!["a".to_string()];
    let keys = vec!["a".to_string(), "x".to_string(), "y".to_string()];
    let e = build_merge_sql("t", "_ls_staging", &cols, &keys).unwrap_err();
    assert!(matches!(&e, DestError::KeyNotInData(k) if k == "x"));
    assert_eq!(e.message(), "merge_key column 'x' is not present in the data");
}

#[test]
fn identifiers_are_quoted() {
    assert_eq!(quote_ident("id"), "\"id\"");
    assert_eq!(quote_ident("we\"ird"), "\"we\"\"ird\"");
    assert_eq!(quote_ident(""), "\"\"");
}

#[test]
fn atomic_load() {
    let mut p = PostgresDestPlugin::default();
    p.configure(config("public.events", CommitMode::Atomic, &[])).unwrap();
    let opening = p.prepare();
    assert_eq!(opening.len(), 1);
    assert_eq!((opening[0].sql.as_str(), opening[0].failure), ("BEGIN", "BEGIN failed"));
    assert_eq!(p.copy_target(), "public.events");

    let step = p.write_batch(&batch(&["id", "n"], vec![vec![Some(1), None], vec![Some(2), Some(3)]]));
    let step = step.unwrap();
    assert_eq!(
        step.sql,
        "COPY public.events (\"id\", \"n\") FROM STDIN WITH (FORMAT text)"
    );
    assert_eq!(step.payload, "1\t2\n\\N\t3\n");

    // The first batch fixes the columns.
    let step = p.write_batch(&batch(&["x", "y"], vec![vec![Some(1)], vec![Some(2)]])).unwrap();
    assert!(step.sql.contains("(\"id\", \"n\")"));

    let closing = p.finalize().unwrap();
    assert_eq!(closing.len(), 1);
    assert_eq!((closing[0].sql.as_str(), closing[0].failure), ("COMMIT", "COMMIT failed"));
    assert_eq!(p.rows_written, 3);
    assert_eq!(p.cancel(), "ROLLBACK");
}

#[test]
fn staged_load() {
    let mut p = PostgresDestPlugin::new();
    p.configure(config("events", CommitMode::StagedMerge, &["id"])).unwrap();
    let opening = p.prepare();
    assert_eq!(opening.len(), 2);
    assert_eq!(
        opening[1].sql,
        "CREATE TEMP TABLE _ls_staging (LIKE events INCLUDING DEFAULTS) ON COMMIT DROP"
    );
    assert_eq!(opening[1].failure, "create staging table failed");
    assert_eq!(p.copy_target(), "_ls_staging");
    // Without data there is nothing to merge.
    assert_eq!(p.finalize().unwrap().len(), 1);

    p.write_batch(&batch(&["id"], vec![vec![Some(1)]])).unwrap();
    let closing = p.finalize().unwrap();
    assert_eq!(closing.len(), 2);
    assert!(closing[0].sql.starts_with("MERGE INTO events t USING _ls_staging s ON"));
    assert_eq!(closing[0].failure, "MERGE failed");
    assert_eq!(closing[1].sql, "COMMIT");
}

#[test]
fn staged_load_without_its_key() {
    let mut p = PostgresDestPlugin::new();
    p.configure(config("events", CommitMode::StagedMerge, &["id"])).unwrap();
    p.write_batch(&batch(&["other"], vec![vec![Some(1)]])).unwrap();
    assert!(matches!(p.finalize(), Err(DestError::KeyNotInData(k)) if k == "id"));
}

#[test]
fn refused_batch_still_counts() {
    let mut p = PostgresDestPlugin::new();
    p.configure(config("t", CommitMode::Atomic, &[])).unwrap();
    let bad = Batch {
        names: vec!["a".into()],
        columns: vec![CopyColumn::Unsupported { data_type: "Int8".into(), absent: vec![false] }],
        num_rows: 1,
    };
    assert!(p.write_batch(&bad).is_err());
    assert_eq!(p.rows_written, 1);
    assert_eq!(p.columns, vec!["a".to_string()]);
    assert!(p.can_count(5));
    p.rows_written = u64::MAX;
    assert!(!p.can_count(1));
}

#[test]
fn destination_describes_itself() {
    let p = PostgresDestPlugin::new();
    assert_eq!(p.plugin_name(), "loadsmith-destination-postgres");
    assert_eq!(p.capabilities(), vec!["batch_write".to_string(), "staged_merge".to_string()]);
}
