use loadsmith_plugins::postgres::conn::{
    connect_settings, default_port, duration_overflows, next_step, parse_duration, read_duration,
    set_config_sql, ChannelBinding, ConnectionConfig, Duration, DurationError, HostSpec, SslMode,
    TargetSessionAttrs, TcpKeepalives, TimeSetting, TlsMode,
};

fn config() -> ConnectionConfig {
    ConnectionConfig::new("lab".into(), "lab".into(), "secret".into())
}

#[test]
fn parse_duration_seconds() {
    assert_eq!(parse_duration("10s").unwrap(), Duration::from_secs(10));
    assert_eq!(parse_duration("0s").unwrap(), Duration::from_secs(0));
}

#[test]
fn parse_duration_millis() {
    assert_eq!(parse_duration("500ms").unwrap(), Duration::from_millis(500));
    assert_eq!(parse_duration("1000ms").unwrap(), Duration::from_secs(1));
}

#[test]
fn parse_duration_minutes_hours_days() {
    assert_eq!(parse_duration("30m").unwrap(), Duration::from_secs(1800));
    assert_eq!(parse_duration("2h").unwrap(), Duration::from_secs(7200));
    assert_eq!(parse_duration("1d").unwrap(), Duration::from_secs(86400));
}

#[test]
fn parse_duration_rejects_bad_input() {
    assert!(parse_duration("100").is_err());
    assert!(parse_duration("10y").is_err());
    assert!(parse_duration("abc").is_err());
}

#[test]
fn parse_duration_ms_not_confused_with_s() {
    assert_eq!(parse_duration("10ms").unwrap(), Duration::from_millis(10));
}

#[test]
fn durations_take_whitespace() {
    assert_eq!(parse_duration("  10 s ").unwrap(), Duration::from_secs(10));
    assert_eq!(parse_duration("\t7\u{3000}ms\n").unwrap(), Duration::from_millis(7));
    assert_eq!(parse_duration("+5s").unwrap(), Duration::from_secs(5));
}

#[test]
fn duration_errors() {
    let e = parse_duration(" x ms ").unwrap_err();
    assert_eq!(e.message(), "invalid duration 'x ms': expected integer before 'ms'");
    for (text, unit) in [("s", "s"), ("-1m", "m"), ("1.5h", "h"), ("d", "d")] {
        let e = parse_duration(text).unwrap_err();
        assert!(matches!(e, DurationError::ExpectedInteger { .. }));
        assert_eq!(
            e.message(),
            format!("invalid duration '{text}': expected integer before '{unit}'")
        );
    }
    let e = parse_duration("10y").unwrap_err();
    assert!(matches!(e, DurationError::UnknownUnit { .. }));
    assert_eq!(
        e.message(),
        "invalid duration '10y': expected a number followed by ms/s/m/h/d (e.g. '10s', '30m', '500ms', '2h')"
    );
    assert!(parse_duration("").is_err());
    assert!(parse_duration("18446744073709551616s").is_err());
}

#[test]
fn durations_out_of_range() {
    assert!(duration_overflows("307445734561825861m"));
    assert!(!duration_overflows("307445734561825860m"));
    assert!(!duration_overflows("18446744073709551615ms"));
    assert!(matches!(
        read_duration("18446744073709551615d"),
        Err(DurationError::Overflow { .. })
    ));
    assert_eq!(read_duration("18446744073709551615s").unwrap(), Duration::from_secs(u64::MAX));
}

#[test]
fn duration_parts() {
    let d = Duration::from_millis(61_234);
    assert_eq!(d.as_secs(), 61);
    assert_eq!(d.subsec_millis(), 234);
    assert_eq!(d.as_millis(), 61_234);
    assert_eq!(Duration::from_secs(u64::MAX).as_millis(), u64::MAX as u128 * 1000);
}

#[test]
fn new_connection_config_has_defaults() {
    let cfg = config();
    assert_eq!(cfg.dbname, "lab");
    assert_eq!(cfg.port, 5432);
    assert_eq!(default_port(), 5432);
    assert!(cfg.tls.is_none());
    assert!(matches!(cfg.host, HostSpec::One(ref h) if h == "localhost"));
}

#[test]
fn settings_of_a_minimal_config() {
    let s = connect_settings(&config(), TlsMode::Prefer).unwrap();
    assert_eq!(s.hosts, vec!["localhost".to_string()]);
    assert_eq!(s.port, 5432);
    assert_eq!(s.user, "lab");
    assert_eq!(s.password, "secret");
    assert_eq!(s.application_name, None);
    assert_eq!(s.connect_timeout, None);
    assert_eq!(s.options, None);
    assert!(s.keepalives.is_none());
    assert_eq!(s.ssl_mode, SslMode::Prefer);
}

#[test]
fn settings_of_a_full_config() {
    let mut cfg = config();
    cfg.host = HostSpec::Many(vec!["a".into(), "b".into()]);
    cfg.port = 6000;
    cfg.application_name = Some("app".into());
    cfg.connect_timeout = Some("5s".into());
    cfg.options = Some(vec![("a".into(), "1".into()), ("b".into(), "2".into())]);
    cfg.tls = Some(TlsMode::VerifyFull);
    cfg.channel_binding = Some(ChannelBinding::Require);
    cfg.target_session_attrs = Some(TargetSessionAttrs::ReadWrite);
    cfg.tcp_keepalives =
        Some(TcpKeepalives { idle: Some("1m".into()), interval: None, retries: Some(3) });
    let s = connect_settings(&cfg, TlsMode::Disable).unwrap();
    assert_eq!(s.hosts, vec!["a".to_string(), "b".to_string()]);
    assert_eq!(s.port, 6000);
    assert_eq!(s.application_name.as_deref(), Some("app"));
    assert_eq!(s.connect_timeout, Some(Duration::from_secs(5)));
    assert_eq!(s.options.as_deref(), Some("-c a=1 -c b=2"));
    assert_eq!(s.channel_binding, Some(ChannelBinding::Require));
    assert_eq!(s.target_session_attrs, Some(TargetSessionAttrs::ReadWrite));
    let k = s.keepalives.unwrap();
    assert_eq!(k.idle, Some(Duration::from_secs(60)));
    assert_eq!(k.interval, None);
    assert_eq!(k.retries, Some(3));
    assert_eq!(s.ssl_mode, SslMode::Require);
}

#[test]
fn tls_modes() {
    for (mode, expected) in [
        (TlsMode::Disable, SslMode::Disable),
        (TlsMode::Prefer, SslMode::Prefer),
        (TlsMode::Require, SslMode::Require),
        (TlsMode::VerifyCa, SslMode::Require),
        (TlsMode::VerifyFull, SslMode::Require),
    ] {
        let mut cfg = config();
        cfg.tls = Some(mode);
        assert_eq!(connect_settings(&cfg, TlsMode::Prefer).unwrap().ssl_mode, expected);
    }
}

#[test]
fn settings_report_the_first_bad_duration() {
    let mut cfg = config();
    cfg.tcp_keepalives = Some(TcpKeepalives {
        idle: Some("1s".into()),
        interval: Some("x".into()),
        retries: None,
    });
    let e = connect_settings(&cfg, TlsMode::Prefer).unwrap_err();
    assert_eq!(e.setting, TimeSetting::KeepalivesInterval);
    assert_eq!(e.setting.message(), "invalid tcp_keepalives.interval");
    cfg.tcp_keepalives = Some(TcpKeepalives {
        idle: Some("y".into()),
        interval: Some("x".into()),
        retries: None,
    });
    let e = connect_settings(&cfg, TlsMode::Prefer).unwrap_err();
    assert_eq!(e.setting.message(), "invalid tcp_keepalives.idle");
    cfg.connect_timeout = Some("z".into());
    let e = connect_settings(&cfg, TlsMode::Prefer).unwrap_err();
    assert_eq!(e.setting.message(), "invalid connect_timeout");
    assert!(matches!(e.cause, DurationError::UnknownUnit { text } if text == "z"));
}

#[test]
fn session_parameters_come_one_by_one() {
    let mut cfg = config();
    assert!(next_step(&cfg, 0).unwrap().is_none());
    cfg.session = Some(vec![("work_mem".into(), "256MB".into()), ("a".into(), "b".into())]);
    cfg.statement_timeout = Some("1m".into());
    let step = next_step(&cfg, 0).unwrap().unwrap();
    assert_eq!((step.name.as_str(), step.value.as_str()), ("work_mem", "256MB"));
    assert_eq!(step.failure, "set_config(work_mem) failed");
    let step = next_step(&cfg, 1).unwrap().unwrap();
    assert_eq!((step.name.as_str(), step.value.as_str()), ("a", "b"));
    let step = next_step(&cfg, 2).unwrap().unwrap();
    assert_eq!((step.name.as_str(), step.value.as_str()), ("statement_timeout", "60000"));
    assert_eq!(step.failure, "set statement_timeout failed");
    assert!(next_step(&cfg, 3).unwrap().is_none());
    assert_eq!(set_config_sql(), "SELECT set_config($1, $2, false)");
    // A bad statement timeout is found only when its turn comes.
    cfg.statement_timeout = Some("soon".into());
    assert!(next_step(&cfg, 1).is_ok());
    let e = next_step(&cfg, 2).unwrap_err();
    assert_eq!(e.setting.message(), "invalid statement_timeout");
}
