use loadsmith_plugins::parquet::{
    file_name, parse_size, read_size, size_overflows, suffixed_size, CompressionKind,
    ParquetConfig, ParquetError, ParquetPlugin, SizeError, MIN_FILE_SIZE,
};

fn config(max_file_size: Option<&str>) -> ParquetConfig {
    ParquetConfig {
        path: "/out".into(),
        prefix: "events".into(),
        compression: CompressionKind::default(),
        max_file_size: max_file_size.map(String::from),
    }
}

#[test]
fn bare_number_is_kib() {
    assert_eq!(parse_size("500").unwrap(), 500 * 1024);
    assert_eq!(parse_size("  64 ").unwrap(), 64 * 1024);
}

#[test]
fn suffixed_sizes() {
    assert_eq!(parse_size("64KiB").unwrap(), 64 * 1024);
    assert_eq!(parse_size("1MiB").unwrap(), 1024 * 1024);
    assert_eq!(parse_size("1MB").unwrap(), 1_000_000);
    assert_eq!(parse_size("500b").unwrap(), 500);
}

#[test]
fn rejects_garbage() {
    assert!(parse_size("not-a-size").is_err());
    assert!(parse_size("").is_err());
}

#[test]
fn single_file_name_omits_sequence() {
    assert_eq!(
        file_name("events", CompressionKind::Snappy, None),
        "events.snappy.parquet"
    );
    assert_eq!(
        file_name("orders-2024", CompressionKind::Uncompressed, None),
        "orders-2024.uncompressed.parquet"
    );
}

#[test]
fn chunked_name_is_zero_padded_8_digits() {
    assert_eq!(
        file_name("events", CompressionKind::Snappy, Some(1)),
        "events.00000001.snappy.parquet"
    );
    assert_eq!(
        file_name("events", CompressionKind::Zstd, Some(42)),
        "events.00000042.zstd.parquet"
    );
}

#[test]
fn padding_is_minimum_width_not_a_cap() {
    // Eight digits are a minimum width: large sequences widen rather than truncate.
    assert_eq!(
        file_name("e", CompressionKind::Lz4, Some(100_000_000)),
        "e.100000000.lz4.parquet"
    );
}

#[test]
fn compression_labels_match_codecs() {
    assert_eq!(CompressionKind::Snappy.label(), "snappy");
    assert_eq!(CompressionKind::Gzip.label(), "gzip");
    assert_eq!(CompressionKind::Zstd.label(), "zstd");
    assert_eq!(CompressionKind::Lz4.label(), "lz4");
    assert_eq!(CompressionKind::Uncompressed.label(), "uncompressed");
}

#[test]
fn size_errors() {
    assert!(matches!(parse_size("  "), Err(SizeError::Empty)));
    assert_eq!(parse_size("").unwrap_err().message(), "max_file_size is empty");
    let e = parse_size(" 5 \"x\" ").unwrap_err();
    assert!(e.message().starts_with("invalid max_file_size \"5 \\\"x\\\"\": "));
    let e = suffixed_size("5 q".to_string(), Err("no".to_string())).unwrap_err();
    assert_eq!(e.message(), "invalid max_file_size \"5 q\": no");
    assert_eq!(suffixed_size("1k".to_string(), Ok(7)).unwrap(), 7);
    assert!(size_overflows("18014398509481984"));
    assert!(!size_overflows("18014398509481983"));
    assert!(matches!(read_size("18014398509481984"), Err(SizeError::Overflow)));
    assert_eq!(read_size("18014398509481983").unwrap(), 18014398509481983 * 1024);
}

#[test]
fn configure_checks_in_order() {
    let mut p = ParquetPlugin::new();
    let mut cfg = config(Some("x"));
    cfg.prefix = "  ".into();
    let e = p.configure(cfg, false).unwrap_err();
    assert_eq!(e.message(), "prefix must not be empty");
    let e = p.configure(config(Some("x")), false).unwrap_err();
    assert!(matches!(&e, ParquetError::NoDirectory(d) if d == "/out"));
    assert_eq!(e.message(), "output directory does not exist: /out");
    let e = p.configure(config(Some("x")), true).unwrap_err();
    assert!(matches!(e, ParquetError::Size(SizeError::Invalid { .. })));
    let e = p.configure(config(Some("63")), true).unwrap_err();
    assert_eq!(
        e.message(),
        "max_file_size must be at least 64KiB (got \"63\" = 64512 bytes); this is a sanity floor, \
         not a hard Parquet limit — a smaller cap would yield files that are mostly footer overhead"
    );
    assert!(p.config.is_none());
    assert_eq!(p.threshold, None);
    assert!(p.configure(config(Some("64")), true).is_ok());
    assert_eq!(p.threshold, Some(MIN_FILE_SIZE));
    // A configuration without a size asks for a single file.
    assert!(p.configure(config(None), true).is_ok());
    assert_eq!(p.threshold, None);
    assert!(ParquetPlugin::overflowing_config(&config(Some("18014398509481984")), true));
    assert!(!ParquetPlugin::overflowing_config(&config(Some("18014398509481984")), false));
}

#[test]
fn single_file_run() {
    let mut p = ParquetPlugin::new();
    p.configure(config(None), true).unwrap();
    let path = p.start_batch().unwrap();
    assert_eq!(path, "/out/events.snappy.parquet");
    p.file_created(path.clone());
    p.writer_opened(path);
    assert!(!p.batch_written(10, u64::MAX, 0));
    assert_eq!(p.start_batch(), None);
    assert!(!p.batch_written(5, 1, 1));
    assert!(p.take_writer());
    p.writer_closed();
    assert_eq!(p.take_ready_objects(), vec!["/out/events.snappy.parquet".to_string()]);
    assert_eq!(p.take_ready_objects(), Vec::<String>::new());
    assert_eq!(p.rows_written, 15);
    assert_eq!(p.seq, 0);
}

#[test]
fn chunked_run_rolls_over() {
    let mut p = ParquetPlugin::new();
    p.configure(config(Some("64KiB")), true).unwrap();
    let first = p.start_batch().unwrap();
    assert_eq!(first, "/out/events.00000001.snappy.parquet");
    p.file_created(first.clone());
    p.writer_opened(first.clone());
    assert!(!p.batch_written(1, 65_000, 535));
    assert_eq!(p.start_batch(), None);
    assert_eq!(p.current_size(65_000, 536), 65_536);
    assert!(p.batch_written(1, 65_000, 536));
    assert!(p.take_writer());
    assert_eq!(p.current_size(1, 1), 0);
    p.writer_closed();
    let second = p.start_batch().unwrap();
    assert_eq!(second, "/out/events.00000002.snappy.parquet");
    p.file_created(second.clone());
    p.writer_opened(second.clone());
    assert_eq!(p.take_ready_objects(), vec![first.clone()]);
    // Cancelling hands back every file of the run.
    assert_eq!(p.cancel(), vec![first, second]);
    assert!(!p.writer_open);
    assert_eq!(p.cancel(), Vec::<String>::new());
}

#[test]
fn failed_creation_uses_up_a_number() {
    let mut p = ParquetPlugin::new();
    p.configure(config(Some("1MB")), true).unwrap();
    assert!(p.can_open());
    assert_eq!(p.start_batch().unwrap(), "/out/events.00000001.snappy.parquet");
    // The file could not be created: nothing is recorded, and the next try has the next number.
    assert!(p.created.is_empty());
    assert_eq!(p.start_batch().unwrap(), "/out/events.00000002.snappy.parquet");
    p.seq = u64::MAX;
    assert!(!p.can_open());
    p.threshold = None;
    assert!(p.can_open());
}

#[test]
fn created_file_without_a_writer_is_removed() {
    let mut p = ParquetPlugin::new();
    p.configure(config(Some("1MB")), true).unwrap();
    let path = p.start_batch().unwrap();
    p.file_created(path.clone());
    // No writer could be opened on the file.
    assert!(!p.writer_open);
    assert_eq!(p.current_path, None);
    assert!(!p.take_writer());
    assert_eq!(p.cancel(), vec![path]);
}

#[test]
fn files_handed_on_are_those_created() {
    let mut p = ParquetPlugin::new();
    p.configure(config(Some("64KiB")), true).unwrap();
    let mut handed = Vec::new();
    for (i, (rows, size)) in [(1, 70_000), (2, 10), (3, 65_536), (4, 1)].into_iter().enumerate() {
        if let Some(path) = p.start_batch() {
            p.file_created(path.clone());
            p.writer_opened(path);
        }
        if p.batch_written(rows, size, 0) && p.take_writer() {
            p.writer_closed();
        }
        if i == 1 {
            handed.extend(p.take_ready_objects());
        }
    }
    if p.take_writer() {
        p.writer_closed();
    }
    handed.extend(p.take_ready_objects());
    assert_eq!(p.rows_written, 10);
    assert_eq!(handed, p.created);
    assert_eq!(
        handed,
        vec![
            "/out/events.00000001.snappy.parquet".to_string(),
            "/out/events.00000002.snappy.parquet".to_string(),
            "/out/events.00000003.snappy.parquet".to_string(),
        ]
    );
}

#[test]
fn failed_close_is_not_ready() {
    let mut p = ParquetPlugin::new();
    p.configure(config(None), true).unwrap();
    let path = p.start_batch().unwrap();
    p.file_created(path.clone());
    p.writer_opened(path.clone());
    assert!(p.take_writer());
    assert!(p.take_ready_objects().is_empty());
    assert_eq!(p.current_path, Some(path));
}

#[test]
fn run_without_batches_has_no_file() {
    let mut p = ParquetPlugin::new();
    p.configure(config(None), true).unwrap();
    assert!(!p.take_writer());
    assert!(p.take_ready_objects().is_empty());
    assert!(p.cancel().is_empty());
    assert_eq!(p.rows_written, 0);
    assert!(p.can_count(3));
}

#[test]
fn parquet_describes_itself() {
    let p = ParquetPlugin::new();
    assert_eq!(p.plugin_name(), "loadsmith-destination-parquet");
    assert_eq!(p.capabilities(), vec!["batch_write".to_string(), "object_output".to_string()]);
}
