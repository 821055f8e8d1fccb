use loadsmith_plugins::postgres::conn::ConnectionConfig;
use loadsmith_plugins::postgres::source::{
    Fetched, IncrementalConfig, PostgresConfig, PostgresSourcePlugin, SourceAction,
    TransactionIsolation,
};
use loadsmith_plugins::postgres::types::{ColumnData, PgColumn, PgKind, PgType, Scalars};

fn config(query: &str) -> PostgresConfig {
    let conn = ConnectionConfig::new("lab".into(), "lab".into(), "secret".into());
    PostgresConfig::new(conn, query.to_string())
}

fn column(name: &str, pg_type: &str) -> PgColumn {
    PgColumn {
        name: name.to_string(),
        pg_type: PgType { name: pg_type.to_string(), kind: PgKind::Other },
    }
}

fn row(cells: &[Option<&str>]) -> Vec<Option<String>> {
    cells.iter().map(|c| c.map(String::from)).collect()
}

fn names(names: &[&str]) -> Vec<String> {
    names.iter().map(|n| n.to_string()).collect()
}

fn plugin_with(query: &str, cursor: Option<&str>) -> PostgresSourcePlugin {
    let mut p = PostgresSourcePlugin::new();
    p.query = query.to_string();
    p.cursor_column = cursor.map(String::from);
    p
}

#[test]
fn new_source_config_has_defaults() {
    let cfg = config("SELECT 1");
    assert_eq!(cfg.conn.dbname, "lab");
    assert_eq!(cfg.batch_size, 1000);
    assert!(cfg.conn.tls.is_none());
    assert!(cfg.incremental.is_none());
}

#[test]
fn cursor_query_plain_is_verbatim() {
    let p = plugin_with("SELECT * FROM t", None);
    assert_eq!(p.cursor_query(), "SELECT * FROM t");
}

#[test]
fn cursor_query_first_run_orders_without_filter() {
    let p = plugin_with("SELECT id, updated_at FROM t", Some("updated_at"));
    assert_eq!(
        p.cursor_query(),
        "SELECT * FROM (SELECT id, updated_at FROM t) AS _ls ORDER BY _ls.\"updated_at\" ASC"
    );
}

#[test]
fn cursor_query_resume_filters_and_orders() {
    let mut p = plugin_with("SELECT id, updated_at FROM t", Some("updated_at"));
    p.resume_value = Some("2026-06-09 08:00:00".into());
    assert_eq!(
        p.cursor_query(),
        "SELECT * FROM (SELECT id, updated_at FROM t) AS _ls \
         WHERE _ls.\"updated_at\" > '2026-06-09 08:00:00' ORDER BY _ls.\"updated_at\" ASC"
    );
}

#[test]
fn cursor_query_resume_takes_priority_over_initial() {
    let mut p = plugin_with("SELECT updated_at FROM t", Some("updated_at"));
    p.initial_value = Some("2000-01-01".into());
    p.resume_value = Some("2026-06-09".into());
    assert!(p.cursor_query().contains("> '2026-06-09'"));
    assert!(!p.cursor_query().contains("2000-01-01"));
}

#[test]
fn cursor_query_escapes_quotes() {
    let mut p = plugin_with("SELECT c FROM t", Some("we\"ird"));
    p.resume_value = Some("o'brien".into());
    let q = p.cursor_query();
    assert!(q.contains("\"we\"\"ird\""));
    assert!(q.contains("> 'o''brien'"));
}

#[test]
fn initial_value_bounds_the_first_run() {
    let mut p = plugin_with("SELECT u FROM t", Some("u"));
    p.initial_value = Some("2000-01-01".into());
    assert_eq!(
        p.cursor_query(),
        "SELECT * FROM (SELECT u FROM t) AS _ls WHERE _ls.\"u\" > '2000-01-01' ORDER BY _ls.\"u\" ASC"
    );
}

#[test]
fn configure_picks_the_isolation_level() {
    for (level, expected) in [
        (None, "BEGIN"),
        (
            Some(TransactionIsolation::ReadCommitted),
            "BEGIN ISOLATION LEVEL READ COMMITTED",
        ),
        (
            Some(TransactionIsolation::RepeatableRead),
            "BEGIN ISOLATION LEVEL REPEATABLE READ",
        ),
        (Some(TransactionIsolation::Serializable), "BEGIN ISOLATION LEVEL SERIALIZABLE"),
    ] {
        let mut cfg = config("SELECT 1");
        cfg.transaction_isolation = level;
        let mut p = PostgresSourcePlugin::default();
        p.configure(cfg, &vec![column("a", "int4")]);
        assert_eq!(p.begin_sql, expected);
    }
}

#[test]
fn cursor_column_goes_with_the_incremental_block() {
    let mut p = PostgresSourcePlugin::new();
    let mut cfg = config("SELECT u FROM t");
    cfg.incremental =
        Some(IncrementalConfig { cursor_column: "u".into(), initial_value: Some("0".into()) });
    p.configure(cfg, &vec![column("u", "int4")]);
    assert_eq!(p.cursor_column.as_deref(), Some("u"));
    p.configure(config("SELECT 2"), &vec![column("u", "int4")]);
    assert_eq!(p.cursor_column, None);
    assert_eq!(p.initial_value, None);
    assert_eq!(p.cursor_query(), "SELECT 2");
}

#[test]
fn a_run_from_start_to_end() {
    let mut cfg = config("SELECT id FROM t");
    cfg.batch_size = 2;
    cfg.incremental =
        Some(IncrementalConfig { cursor_column: "id".into(), initial_value: Some("0".into()) });
    let mut p = PostgresSourcePlugin::new();
    p.configure(cfg, &vec![column("id", "int8")]);
    assert!(p.current_watermark().is_none());

    match p.next_action() {
        SourceAction::OpenCursor { begin, declare } => {
            assert_eq!(begin, "BEGIN");
            assert_eq!(
                declare,
                "DECLARE ls_cursor NO SCROLL CURSOR FOR (SELECT * FROM (SELECT id FROM t) AS _ls \
                 WHERE _ls.\"id\" > '0' ORDER BY _ls.\"id\" ASC)"
            );
        }
        other => panic!("{other:?}"),
    }
    p.cursor_opened();
    assert!(matches!(p.next_action(), SourceAction::Fetch(s) if s == "FETCH FORWARD 2 FROM ls_cursor"));
    let rows = vec![row(&[Some("1")]), row(&[Some("7")])];
    match p.rows_fetched(&names(&["id"]), &rows) {
        Fetched::Batch(Ok(columns)) => {
            assert!(matches!(&columns[0], ColumnData::Flat(Scalars::Int64(v))
                if *v == vec![Some(1), Some(7)]));
        }
        other => panic!("{other:?}"),
    }
    let watermark = p.current_watermark();
    assert_eq!(watermark, Some(serde_json::Value::String("7".into())));

    assert!(matches!(p.rows_fetched(&names(&[]), &vec![]), Fetched::End("CLOSE ls_cursor; COMMIT")));
    assert!(matches!(p.next_action(), SourceAction::Finished));
    assert_eq!(p.current_watermark(), watermark);

    // The next run resumes behind the watermark.
    let mut next = plugin_with("SELECT id FROM t", Some("id"));
    next.resume_from(watermark);
    assert!(next.cursor_query().contains("WHERE _ls.\"id\" > '7'"));
}

#[test]
fn watermark_comes_from_the_last_row() {
    let mut p = plugin_with("q", Some("u"));
    p.schema = Some(vec![]);
    p.rows_fetched(&names(&["id", "u", "u"]), &vec![row(&[Some("1"), Some("a"), Some("b")])]);
    assert_eq!(p.last_cursor_value.as_deref(), Some("a"));
    // An absent value leaves the watermark where it was.
    p.rows_fetched(&names(&["id", "u"]), &vec![row(&[Some("1"), None])]);
    assert_eq!(p.last_cursor_value.as_deref(), Some("a"));
    // So does a result without the column.
    p.rows_fetched(&names(&["id"]), &vec![row(&[Some("1")])]);
    assert_eq!(p.last_cursor_value.as_deref(), Some("a"));
    // Without a cursor column there is no watermark.
    let mut p = plugin_with("q", None);
    p.schema = Some(vec![]);
    p.rows_fetched(&names(&["u"]), &vec![row(&[Some("a")])]);
    assert_eq!(p.last_cursor_value, None);
}

#[test]
fn watermark_moves_before_the_batch_fails() {
    let mut p = PostgresSourcePlugin::new();
    let mut cfg = config("q");
    cfg.incremental = Some(IncrementalConfig { cursor_column: "id".into(), initial_value: None });
    p.configure(cfg, &vec![column("id", "int4")]);
    assert!(matches!(
        p.rows_fetched(&names(&["id"]), &vec![row(&[Some("x")])]),
        Fetched::Batch(Err(_))
    ));
    assert_eq!(p.last_cursor_value.as_deref(), Some("x"));
    p.configure(config("q"), &vec![column("id", "bytea")]);
    assert!(matches!(
        p.rows_fetched(&names(&["id"]), &vec![row(&[Some("abc")])]),
        Fetched::Misaligned
    ));
}

#[test]
fn resume_value_of_any_json() {
    let mut p = plugin_with("q", Some("u"));
    p.resume_from(Some(serde_json::Value::String("a\"b".into())));
    assert_eq!(p.resume_value.as_deref(), Some("a\"b"));
    p.resume_from(Some(serde_json::Value::from(42)));
    assert_eq!(p.resume_value.as_deref(), Some("42"));
    p.resume_from(Some(serde_json::Value::Bool(true)));
    assert_eq!(p.resume_value.as_deref(), Some("true"));
    p.resume_from(Some(serde_json::Value::Null));
    assert_eq!(p.resume_value.as_deref(), Some("null"));
    p.resume_from(Some(serde_json::Value::Array(vec![serde_json::Value::from(1)])));
    assert_eq!(p.resume_value.as_deref(), Some("[1]"));
    p.resume_from(None);
    assert_eq!(p.resume_value, None);
}

#[test]
fn source_describes_itself() {
    let p = PostgresSourcePlugin::new();
    assert_eq!(p.plugin_name(), "loadsmith-source-postgres");
    assert_eq!(
        p.capabilities(),
        vec![
            "batch_read".to_string(),
            "schema_inference".to_string(),
            "incremental_state".to_string()
        ]
    );
    assert_eq!(p.cancel(), "CLOSE ls_cursor; ROLLBACK");
}
