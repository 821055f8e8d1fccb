use loadsmith_plugins::file_provider::FileProvider;
use loadsmith_plugins::jsonl::{frame_line, row_line, JsonlConfig, JsonlPlugin, OutputTarget};
use loadsmith_plugins::local_copy::{
    crash_after_env, crash_marker, LocalCopyConfig, LocalCopyPlugin,
};
use loadsmith_plugins::null::NullPlugin;
use loadsmith_plugins::path::{file_name, path_join};

#[test]
fn null_counts_rows() {
    let mut p = NullPlugin::new();
    assert_eq!(p.finalize(), 0);
    p.write_batch(3);
    p.write_batch(0);
    p.write_batch(4);
    assert_eq!(p.finalize(), 7);
    assert!(p.can_count(1));
    p.rows_written = u64::MAX;
    assert!(!p.can_count(1));
    assert_eq!(NullPlugin::new().plugin_name(), "loadsmith-destination-null");
}

#[test]
fn jsonl_goes_to_the_file_or_to_stdout() {
    let mut p = JsonlPlugin::new();
    p.configure(JsonlConfig { path: Some("out.jsonl".into()) });
    assert!(matches!(p.prepare(), OutputTarget::File(f) if f == "out.jsonl"));
    p.configure(JsonlConfig { path: None });
    assert!(matches!(p.prepare(), OutputTarget::Stdout));
    assert_eq!(p.plugin_name(), "loadsmith-destination-jsonl");
}

#[test]
fn jsonl_rows_are_lines() {
    let mut row = serde_json::Map::new();
    row.insert("b".into(), serde_json::Value::from(1));
    row.insert("a".into(), serde_json::Value::String("x\ny\u{2028}".into()));
    let row = serde_json::Value::Object(row);
    assert_eq!(row_line(&row).unwrap(), "{\"a\":\"x\\ny\u{2028}\",\"b\":1}\n");
    assert_eq!(row_line(&serde_json::Value::Null).unwrap(), "null\n");
    assert_eq!(row_line(&serde_json::Value::String("s\n".into())).unwrap(), "\"s\\n\"\n");
    let odd = "\u{1}\u{8}\t\u{c}\r\u{1f}\u{7f}\"\\/é";
    assert_eq!(
        row_line(&serde_json::Value::String(odd.into())).unwrap(),
        "\"\\u0001\\b\\t\\f\\r\\u001f\u{7f}\\\"\\\\/é\"\n"
    );
    assert_eq!(row_line(&serde_json::Value::from(f64::NAN)).unwrap(), "null\n");
    let text = [row_line(&row).unwrap(), row_line(&serde_json::Value::Null).unwrap()].concat();
    assert_eq!(text.lines().count(), 2);
}

#[test]
fn jsonl_counts_written_rows() {
    let mut p = JsonlPlugin::new();
    assert!(p.can_count());
    p.row_written();
    p.row_written();
    assert_eq!(p.finalize(), 2);
    assert_eq!(frame_line(Ok("{}".into())).unwrap(), "{}\n");
    let e = frame_line(Err("why".into())).unwrap_err();
    assert_eq!(e.reason, "why");
    assert_eq!(e.message(), "json serialize error");
}

#[test]
fn file_uris() {
    let mut p = FileProvider::new();
    p.configure("file:///etc/pipeline.yaml".into()).unwrap();
    assert_eq!(p.path.as_deref(), Some("/etc/pipeline.yaml"));
    p.configure("file://".into()).unwrap();
    assert_eq!(p.path.as_deref(), Some(""));
    for uri in ["/etc/x", "http://x", "file:/x", "File:///x", ""] {
        let e = p.configure(uri.into()).unwrap_err();
        assert_eq!(e.message(), format!("file provider requires file:// URI, got: {uri}"));
        assert_eq!(p.path.as_deref(), Some(""));
    }
    assert_eq!(p.plugin_name(), "loadsmith-config-provider-file");
}

#[test]
fn delivery_targets() {
    let mut p = LocalCopyPlugin::new(None);
    p.configure(LocalCopyConfig { dest: "/dst".into() });
    assert_eq!(p.deliver("/src/part.0001.parquet").unwrap(), "/dst/part.0001.parquet");
    // The same file again has the same target.
    assert_eq!(p.deliver("/src/part.0001.parquet").unwrap(), "/dst/part.0001.parquet");
    assert_eq!(p.deliver("other/part.0001.parquet/").unwrap(), "/dst/part.0001.parquet");
    let e = p.deliver("/src/..").unwrap_err();
    assert_eq!(e.message(), "staged path has no file name: /src/..");
    assert!(p.can_count());
    p.object_delivered();
    assert_eq!(p.finalize(), 1);
    assert_eq!(p.plugin_name(), "loadsmith-sink-local-copy");
}

#[test]
fn simulated_crash() {
    let mut p = LocalCopyPlugin::new(Some("2"));
    assert_eq!(p.crash_after, Some(2));
    p.object_delivered();
    assert!(!p.crash_is_due(false));
    p.object_delivered();
    assert!(p.crash_is_due(false));
    assert!(!p.crash_is_due(true));
    assert!(!LocalCopyPlugin::new(None).crash_is_due(false));
    assert_eq!(LocalCopyPlugin::new(Some("soon")).crash_after, None);
    assert_eq!(LocalCopyPlugin::new(Some("")).crash_after, None);
    assert_eq!(crash_after_env(), "LOADSMITH_SINK_CRASH_AFTER");
    assert_eq!(crash_marker("/tmp"), "/tmp/loadsmith-sink-crash.marker");
}

#[test]
fn paths_agree_with_std() {
    let paths = [
        "", "/", "a", "a/b", "a/b/", "a//b", "a/b/.", "a/./b", "./a", ".", "..", "a/..", "/..",
        "a/../b", "...", "/a", "//a//", "a/. ", "a/./.", "./.", "/.", "../.", "é/ü.x", "a.b.c",
    ];
    for p in paths {
        let expected =
            std::path::Path::new(p).file_name().map(|n| n.to_string_lossy().to_string());
        assert_eq!(file_name(p), expected, "{p}");
        for n in ["", "x", "/x", "x/y", ".x", "../x"] {
            let expected = std::path::Path::new(p).join(n).to_string_lossy().to_string();
            assert_eq!(path_join(p, n), expected, "{p} {n}");
        }
    }
}
