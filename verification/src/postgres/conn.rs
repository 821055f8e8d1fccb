//! The connection configuration that the source and the destination share, and what it asks of the
//! driver: hosts, TLS mode, channel binding, keepalives, timeouts and session parameters.

use crate::number;
use crate::number::{decimal_text, parse_u64};
use crate::text;
use crate::text::{chars_of, join, slice_of, text_of, trim};
use vstd::prelude::*;

verus! {

/// A span of time, in whole milliseconds.
#[derive(Debug, Clone, Copy, PartialEq, Eq, Structural)]
pub struct Duration {
    secs: u64,
    millis: u64,
}

impl Duration {
    #[verifier::type_invariant]
    spec fn well_formed(self) -> bool {
        self.millis < 1000
    }

    /// How many milliseconds the span has.
    pub closed spec fn span(self) -> nat {
        self.secs as nat * 1000 + self.millis as nat
    }

    /// A span of whole seconds.
    pub fn from_secs(secs: u64) -> (d: Duration)
        ensures
            d.span() == secs * 1000,
    {
        Duration { secs, millis: 0 }
    }

    /// A span of milliseconds.
    pub fn from_millis(millis: u64) -> (d: Duration)
        ensures
            d.span() == millis,
    {
        Duration { secs: millis / 1000, millis: millis % 1000 }
    }

    /// The whole seconds of the span.
    pub fn as_secs(self) -> (secs: u64)
        ensures
            secs == self.span() / 1000,
    {
        proof {
            use_type_invariant(&self);
        }
        self.secs
    }

    /// The milliseconds behind the whole seconds.
    pub fn subsec_millis(self) -> (millis: u64)
        ensures
            millis == self.span() % 1000,
    {
        proof {
            use_type_invariant(&self);
        }
        self.millis
    }

    /// The span in milliseconds.
    pub fn as_millis(self) -> (millis: u128)
        ensures
            millis == self.span(),
    {
        proof {
            use_type_invariant(&self);
        }
        self.secs as u128 * 1000 + self.millis as u128
    }
}

/// A unit of time in a duration text.
#[derive(Debug, Clone, Copy, PartialEq, Eq, Structural)]
pub enum TimeUnit {
    Milliseconds,
    Seconds,
    Minutes,
    Hours,
    Days,
}

impl TimeUnit {
    /// How the unit is written.
    pub open spec fn suffix(self) -> Seq<char> {
        match self {
            TimeUnit::Milliseconds => seq!['m', 's'],
            TimeUnit::Seconds => seq!['s'],
            TimeUnit::Minutes => seq!['m'],
            TimeUnit::Hours => seq!['h'],
            TimeUnit::Days => seq!['d'],
        }
    }

    /// How many milliseconds the unit has.
    pub open spec fn millis(self) -> nat {
        match self {
            TimeUnit::Milliseconds => 1,
            TimeUnit::Seconds => 1000,
            TimeUnit::Minutes => 60_000,
            TimeUnit::Hours => 3_600_000,
            TimeUnit::Days => 86_400_000,
        }
    }

    /// How the unit is written.
    pub fn name(self) -> (s: &'static str)
        ensures
            s@ == self.suffix(),
    {
        proof {
            reveal_strlit("ms");
            reveal_strlit("s");
            reveal_strlit("m");
            reveal_strlit("h");
            reveal_strlit("d");
            assert("ms"@ =~= TimeUnit::Milliseconds.suffix());
            assert("s"@ =~= TimeUnit::Seconds.suffix());
            assert("m"@ =~= TimeUnit::Minutes.suffix());
            assert("h"@ =~= TimeUnit::Hours.suffix());
            assert("d"@ =~= TimeUnit::Days.suffix());
        }
        match self {
            TimeUnit::Milliseconds => "ms",
            TimeUnit::Seconds => "s",
            TimeUnit::Minutes => "m",
            TimeUnit::Hours => "h",
            TimeUnit::Days => "d",
        }
    }
}

/// Why a text is no duration. Each text is held without the whitespace round it.
#[derive(Debug)]
pub enum DurationError {
    /// What stands before the unit is no integer of 64 bits.
    ExpectedInteger { text: String, unit: TimeUnit },
    UnknownUnit { text: String },
    /// The span has more seconds than 64 bits hold.
    Overflow { text: String, unit: TimeUnit },
}

/// Why a text is no duration, over sequences of characters.
pub enum DurationFault {
    ExpectedInteger { text: Seq<char>, unit: TimeUnit },
    UnknownUnit { text: Seq<char> },
    Overflow { text: Seq<char>, unit: TimeUnit },
}

impl View for DurationError {
    type V = DurationFault;

    open spec fn view(&self) -> DurationFault {
        match self {
            DurationError::ExpectedInteger { text, unit } => DurationFault::ExpectedInteger {
                text: text@,
                unit: *unit,
            },
            DurationError::UnknownUnit { text } => DurationFault::UnknownUnit { text: text@ },
            DurationError::Overflow { text, unit } => DurationFault::Overflow {
                text: text@,
                unit: *unit,
            },
        }
    }
}

impl DurationFault {
    /// The wording of the error.
    pub open spec fn wording(self) -> Seq<char> {
        match self {
            DurationFault::ExpectedInteger { text, unit } => "invalid duration '"@ + text
                + "': expected integer before '"@ + unit.suffix() + "'"@,
            DurationFault::UnknownUnit { text } => "invalid duration '"@ + text
                + "': expected a number followed by ms/s/m/h/d (e.g. '10s', '30m', '500ms', '2h')"@,
            DurationFault::Overflow { .. } => "attempt to multiply with overflow"@,
        }
    }
}

impl DurationError {
    /// The wording of the error.
    pub fn message(&self) -> (m: String)
        ensures
            m@ == self@.wording(),
    {
        let mut m = String::new();
        match self {
            DurationError::ExpectedInteger { text, unit } => {
                m.append("invalid duration '");
                m.append(text.as_str());
                m.append("': expected integer before '");
                m.append(unit.name());
                m.append("'");
            },
            DurationError::UnknownUnit { text } => {
                m.append("invalid duration '");
                m.append(text.as_str());
                m.append(
                    "': expected a number followed by ms/s/m/h/d (e.g. '10s', '30m', '500ms', '2h')",
                );
            },
            DurationError::Overflow { .. } => {
                m.append("attempt to multiply with overflow");
            },
        }
        assert(m@ =~= self@.wording());
        m
    }
}

/// The unit that a text ends in. A text that ends in `ms` is in milliseconds, not in seconds.
pub open spec fn unit_of(s: Seq<char>) -> Option<TimeUnit> {
    if s.len() == 0 {
        None
    } else if s.len() > 1 && s[s.len() - 2] == 'm' && s.last() == 's' {
        Some(TimeUnit::Milliseconds)
    } else if s.last() == 's' {
        Some(TimeUnit::Seconds)
    } else if s.last() == 'm' {
        Some(TimeUnit::Minutes)
    } else if s.last() == 'h' {
        Some(TimeUnit::Hours)
    } else if s.last() == 'd' {
        Some(TimeUnit::Days)
    } else {
        None
    }
}

/// The milliseconds that a duration text stands for, or why it stands for none.
pub open spec fn duration_reading(text: Seq<char>) -> Result<nat, DurationFault> {
    let s = text::trimmed(text);
    match unit_of(s) {
        None => Err(DurationFault::UnknownUnit { text: s }),
        Some(unit) => match number::parsed_unsigned(
            text::trimmed(s.take(s.len() - unit.suffix().len())),
            u64::MAX as nat,
        ) {
            Err(_) => Err(DurationFault::ExpectedInteger { text: s, unit }),
            Ok(n) => if n * unit.millis() / 1000 > u64::MAX {
                Err(DurationFault::Overflow { text: s, unit })
            } else {
                Ok(n * unit.millis())
            },
        },
    }
}

fn trailing_unit(v: &Vec<char>) -> (unit: Option<TimeUnit>)
    ensures
        unit == unit_of(v@),
{
    let n: usize = v.len();
    if n == 0 {
        return None;
    }
    let last: char = v[n - 1];
    if n > 1 && v[n - 2] == 'm' && last == 's' {
        Some(TimeUnit::Milliseconds)
    } else if last == 's' {
        Some(TimeUnit::Seconds)
    } else if last == 'm' {
        Some(TimeUnit::Minutes)
    } else if last == 'h' {
        Some(TimeUnit::Hours)
    } else if last == 'd' {
        Some(TimeUnit::Days)
    } else {
        None
    }
}

/// The span of `n` times a unit, where its seconds fit.
fn span_of(n: u64, unit: TimeUnit) -> (d: Option<Duration>)
    ensures
        match d {
            Some(d) => d.span() == n * unit.millis() && n * unit.millis() / 1000 <= u64::MAX,
            None => n * unit.millis() / 1000 > u64::MAX,
        },
{
    let secs: Option<u64> = match unit {
        TimeUnit::Milliseconds => {
            return Some(Duration::from_millis(n));
        },
        TimeUnit::Seconds => Some(n),
        TimeUnit::Minutes => n.checked_mul(60),
        TimeUnit::Hours => n.checked_mul(3600),
        TimeUnit::Days => n.checked_mul(86400),
    };
    match secs {
        Some(secs) => Some(Duration::from_secs(secs)),
        None => None,
    }
}

/// Reads a duration text of any kind. `parse_duration` is the same for texts whose seconds fit.
pub fn read_duration(s: &str) -> (r: Result<Duration, DurationError>)
    ensures
        match (r, duration_reading(s@)) {
            (Ok(d), Ok(millis)) => d.span() == millis,
            (Err(e), Err(f)) => e@ == f,
            _ => false,
        },
{
    let v = trim(&chars_of(s));
    match trailing_unit(&v) {
        None => Err(DurationError::UnknownUnit { text: text_of(&v) }),
        Some(unit) => {
            let cut: usize = match unit {
                TimeUnit::Milliseconds => 2,
                _ => 1,
            };
            assert(v@.subrange(0, v@.len() - cut) =~= v@.take(v@.len() - unit.suffix().len()));
            let count = trim(&slice_of(&v, 0, v.len() - cut));
            match parse_u64(&count) {
                Err(_) => Err(DurationError::ExpectedInteger { text: text_of(&v), unit }),
                Ok(n) => match span_of(n, unit) {
                    Some(d) => Ok(d),
                    None => Err(DurationError::Overflow { text: text_of(&v), unit }),
                },
            }
        },
    }
}

/// Whether the seconds of a duration text are more than 64 bits hold.
pub fn duration_overflows(s: &str) -> (b: bool)
    ensures
        b == (duration_reading(s@) matches Err(DurationFault::Overflow { .. })),
{
    match read_duration(s) {
        Err(DurationError::Overflow { .. }) => true,
        _ => false,
    }
}

/// Parses a human-readable duration text. Accepted suffixes: `ms`, `s`, `m`, `h`, `d`.
/// Examples: `"10s"`, `"30m"`, `"500ms"`, `"2h"`, `"1d"`.
pub fn parse_duration(s: &str) -> (r: Result<Duration, DurationError>)
    requires
        !(duration_reading(s@) matches Err(DurationFault::Overflow { .. })),
    ensures
        match (r, duration_reading(s@)) {
            (Ok(d), Ok(millis)) => d.span() == millis,
            (Err(e), Err(f)) => e@ == f,
            _ => false,
        },
{
    read_duration(s)
}

/// A count and a unit are read as that many of the unit, with any whitespace before the count,
/// between the two and behind the unit. Milliseconds are not taken for seconds.
pub proof fn duration_round_trip(
    n: nat,
    unit: TimeUnit,
    lead: Seq<char>,
    gap: Seq<char>,
    tail: Seq<char>,
)
    requires
        n <= u64::MAX,
        n * unit.millis() / 1000 <= u64::MAX,
        text::all_white(lead),
        text::all_white(gap),
        text::all_white(tail),
    ensures
        duration_reading(lead + (number::decimal(n) + gap + unit.suffix()) + tail) == Ok::<
            nat,
            DurationFault,
        >(n * unit.millis()),
{
    let count = number::decimal(n);
    let s = count + gap + unit.suffix();
    number::decimal_is_digits(n);
    number::unsigned_round_trip(n, u64::MAX as nat);
    assert(s[0] == count[0]);
    assert(s.last() == unit.suffix().last());
    text::trim_takes_padding(lead, s, tail);
    assert(s.take(s.len() - unit.suffix().len()) =~= Seq::empty() + count + gap);
    text::trim_takes_padding(Seq::empty(), count, gap);
    if unit == TimeUnit::Seconds {
        let before = count + gap;
        assert(s[s.len() - 2] == before.last());
        if gap.len() > 0 {
            assert(text::is_white(gap.last()));
        }
    }
}

/// Whether the channel is bound to the TLS session.
#[derive(Debug, Clone, Copy, PartialEq, Eq, Structural)]
pub enum ChannelBinding {
    Disable,
    Prefer,
    Require,
}

/// Which kind of session the server must offer.
#[derive(Debug, Clone, Copy, PartialEq, Eq, Structural)]
pub enum TargetSessionAttrs {
    Any,
    ReadWrite,
    ReadOnly,
}

/// Keepalives of the TCP connection. `idle` and `interval` are duration texts.
#[derive(Debug)]
pub struct TcpKeepalives {
    pub idle: Option<String>,
    pub interval: Option<String>,
    pub retries: Option<u32>,
}

/// A single host, or the hosts of a cluster of several nodes.
#[derive(Debug)]
pub enum HostSpec {
    One(String),
    Many(Vec<String>),
}

impl Default for HostSpec {
    fn default() -> (r: HostSpec)
        ensures
            r matches HostSpec::One(h) && h@ == "localhost"@,
    {
        HostSpec::One("localhost".to_owned())
    }
}

impl HostSpec {
    /// The hosts, in order.
    pub open spec fn hosts(self) -> Seq<Seq<char>> {
        match self {
            HostSpec::One(h) => seq![h@],
            HostSpec::Many(hosts) => text::views(hosts@),
        }
    }
}

/// How far the server's certificate is trusted.
#[derive(Debug, Clone, Copy, PartialEq, Eq, Structural)]
pub enum TlsMode {
    Disable,
    Prefer,
    Require,
    VerifyCa,
    VerifyFull,
}

/// What the driver knows of TLS.
#[derive(Debug, Clone, Copy, PartialEq, Eq, Structural)]
pub enum SslMode {
    Disable,
    Prefer,
    Require,
}

/// The connection-level configuration that both plugins share.
#[derive(Debug)]
pub struct ConnectionConfig {
    pub host: HostSpec,
    pub port: u16,
    pub dbname: String,
    pub user: String,
    pub password: String,
    pub application_name: Option<String>,
    /// Duration text: "10s", "500ms", "2m", "1h".
    pub connect_timeout: Option<String>,
    /// Duration text; handed to Postgres in milliseconds.
    pub statement_timeout: Option<String>,
    /// Extra parameters for the startup message, by name, in the order in which they are passed.
    pub options: Option<Vec<(String, String)>>,
    /// The TLS mode, where one is configured.
    pub tls: Option<TlsMode>,
    pub channel_binding: Option<ChannelBinding>,
    pub target_session_attrs: Option<TargetSessionAttrs>,
    /// Parameters that are set after connecting, by name, in the order in which they are set.
    pub session: Option<Vec<(String, String)>>,
    pub tcp_keepalives: Option<TcpKeepalives>,
}

/// Whether no name occurs twice.
pub open spec fn names_differ(pairs: Seq<(String, String)>) -> bool {
    forall|i: int, j: int|
        0 <= i < j < pairs.len() ==> #[trigger] pairs[i].0@ != #[trigger] pairs[j].0@
}

/// The port of a Postgres server.
pub fn default_port() -> (port: u16)
    ensures
        port == 5432,
{
    5432
}

impl ConnectionConfig {
    /// No parameter is given twice.
    pub open spec fn well_formed(self) -> bool {
        &&& self.options matches Some(options) ==> names_differ(options@)
        &&& self.session matches Some(session) ==> names_differ(session@)
    }

    /// A configuration with everything left at its default but for what has none.
    pub fn new(dbname: String, user: String, password: String) -> (cfg: ConnectionConfig)
        ensures
            cfg.host matches HostSpec::One(h) && h@ == "localhost"@,
            cfg.port == 5432,
            cfg.dbname == dbname,
            cfg.user == user,
            cfg.password == password,
            cfg.application_name is None,
            cfg.connect_timeout is None,
            cfg.statement_timeout is None,
            cfg.options is None,
            cfg.tls is None,
            cfg.channel_binding is None,
            cfg.target_session_attrs is None,
            cfg.session is None,
            cfg.tcp_keepalives is None,
            cfg.well_formed(),
    {
        ConnectionConfig {
            host: HostSpec::default(),
            port: default_port(),
            dbname,
            user,
            password,
            application_name: None,
            connect_timeout: None,
            statement_timeout: None,
            options: None,
            tls: None,
            channel_binding: None,
            target_session_attrs: None,
            session: None,
            tcp_keepalives: None,
        }
    }
}

/// The configured text that is no duration.
#[derive(Debug, Clone, Copy, PartialEq, Eq, Structural)]
pub enum TimeSetting {
    ConnectTimeout,
    KeepalivesIdle,
    KeepalivesInterval,
    StatementTimeout,
}

impl TimeSetting {
    /// What an error says of the setting.
    pub open spec fn wording(self) -> Seq<char> {
        match self {
            TimeSetting::ConnectTimeout => "invalid connect_timeout"@,
            TimeSetting::KeepalivesIdle => "invalid tcp_keepalives.idle"@,
            TimeSetting::KeepalivesInterval => "invalid tcp_keepalives.interval"@,
            TimeSetting::StatementTimeout => "invalid statement_timeout"@,
        }
    }

    /// What an error says of the setting.
    pub fn message(self) -> (m: &'static str)
        ensures
            m@ == self.wording(),
    {
        match self {
            TimeSetting::ConnectTimeout => "invalid connect_timeout",
            TimeSetting::KeepalivesIdle => "invalid tcp_keepalives.idle",
            TimeSetting::KeepalivesInterval => "invalid tcp_keepalives.interval",
            TimeSetting::StatementTimeout => "invalid statement_timeout",
        }
    }
}

/// A configured text that is no duration, and why.
#[derive(Debug)]
pub struct SettingError {
    pub setting: TimeSetting,
    pub cause: DurationError,
}

/// What the driver is told of keepalives.
#[derive(Debug)]
pub struct KeepaliveSettings {
    pub idle: Option<Duration>,
    pub interval: Option<Duration>,
    pub retries: Option<u32>,
}

/// What the driver is told before it connects.
#[derive(Debug)]
pub struct ConnectSettings {
    /// The hosts, each of them on `port`.
    pub hosts: Vec<String>,
    pub port: u16,
    pub dbname: String,
    pub user: String,
    pub password: String,
    pub application_name: Option<String>,
    pub connect_timeout: Option<Duration>,
    pub options: Option<String>,
    pub channel_binding: Option<ChannelBinding>,
    pub target_session_attrs: Option<TargetSessionAttrs>,
    /// Keepalives are switched on where this is `Some`.
    pub keepalives: Option<KeepaliveSettings>,
    pub ssl_mode: SslMode,
}

/// What is read of an optional duration text: nothing where it is absent.
pub open spec fn optional_duration(text: Option<String>) -> Result<Option<nat>, DurationFault> {
    match text {
        None => Ok(None),
        Some(t) => match duration_reading(t@) {
            Ok(millis) => Ok(Some(millis)),
            Err(f) => Err(f),
        },
    }
}

/// The first of the configured texts, in the order in which they are read before connecting, that
/// is no duration, and why.
pub open spec fn setting_fault(cfg: ConnectionConfig) -> Option<(TimeSetting, DurationFault)> {
    match optional_duration(cfg.connect_timeout) {
        Err(f) => Some((TimeSetting::ConnectTimeout, f)),
        Ok(_) => match cfg.tcp_keepalives {
            None => None,
            Some(ka) => match optional_duration(ka.idle) {
                Err(f) => Some((TimeSetting::KeepalivesIdle, f)),
                Ok(_) => match optional_duration(ka.interval) {
                    Err(f) => Some((TimeSetting::KeepalivesInterval, f)),
                    Ok(_) => None,
                },
            },
        },
    }
}

/// Whether `d` is the span that the text is read as.
pub open spec fn is_span_of(d: Option<Duration>, text: Option<String>) -> bool {
    match d {
        None => text is None,
        Some(d) => optional_duration(text) == Ok::<Option<nat>, DurationFault>(Some(d.span())),
    }
}

/// The startup options: a `-c name=value` for each parameter, separated by spaces.
pub open spec fn options_text(options: Seq<(String, String)>) -> Seq<char> {
    text::joined(
        options.map_values(|o: (String, String)| "-c "@ + o.0@ + "="@ + o.1@),
        " "@,
    )
}

/// The driver's mode for a TLS mode: from `Require` on, the driver must encrypt, and what it
/// verifies is up to the TLS layer.
pub open spec fn ssl_mode_of(mode: TlsMode) -> SslMode {
    match mode {
        TlsMode::Disable => SslMode::Disable,
        TlsMode::Prefer => SslMode::Prefer,
        TlsMode::Require | TlsMode::VerifyCa | TlsMode::VerifyFull => SslMode::Require,
    }
}

/// Whether `settings` are what `cfg` asks for.
pub open spec fn are_settings_of(
    settings: ConnectSettings,
    cfg: ConnectionConfig,
    default_mode: TlsMode,
) -> bool {
    &&& text::views(settings.hosts@) == cfg.host.hosts()
    &&& settings.port == cfg.port
    &&& settings.dbname@ == cfg.dbname@
    &&& settings.user@ == cfg.user@
    &&& settings.password@ == cfg.password@
    &&& text::opt_view(settings.application_name) == text::opt_view(cfg.application_name)
    &&& is_span_of(settings.connect_timeout, cfg.connect_timeout)
    &&& match (settings.options, cfg.options) {
        (Some(s), Some(options)) => s@ == options_text(options@),
        (None, None) => true,
        _ => false,
    }
    &&& settings.channel_binding == cfg.channel_binding
    &&& settings.target_session_attrs == cfg.target_session_attrs
    &&& match (settings.keepalives, cfg.tcp_keepalives) {
        (Some(k), Some(ka)) => {
            &&& is_span_of(k.idle, ka.idle)
            &&& is_span_of(k.interval, ka.interval)
            &&& k.retries == ka.retries
        },
        (None, None) => true,
        _ => false,
    }
    &&& settings.ssl_mode == ssl_mode_of(
        match cfg.tls {
            Some(mode) => mode,
            None => default_mode,
        },
    )
}

fn read_optional(text: &Option<String>, setting: TimeSetting) -> (r: Result<
    Option<Duration>,
    SettingError,
>)
    ensures
        match (r, optional_duration(*text)) {
            (Ok(d), Ok(_)) => is_span_of(d, *text),
            (Err(e), Err(f)) => e.setting == setting && e.cause@ == f,
            _ => false,
        },
{
    match text {
        None => Ok(None),
        Some(t) => match read_duration(t.as_str()) {
            Ok(d) => Ok(Some(d)),
            Err(cause) => Err(SettingError { setting, cause }),
        },
    }
}

fn host_list(host: &HostSpec) -> (hosts: Vec<String>)
    ensures
        text::views(hosts@) == host.hosts(),
{
    let mut hosts: Vec<String> = Vec::new();
    match host {
        HostSpec::One(h) => {
            hosts.push(h.clone());
            assert(text::views(hosts@) =~= host.hosts());
        },
        HostSpec::Many(many) => {
            for i in 0..many.len()
                invariant
                    text::views(hosts@) == text::views(many@).take(i as int),
            {
                let ghost before = text::views(hosts@);
                hosts.push(many[i].clone());
                assert(text::views(hosts@) =~= before.push(many@[i as int]@));
                assert(text::views(hosts@) =~= text::views(many@).take(i + 1));
            }
            assert(text::views(hosts@) =~= host.hosts());
        },
    }
    hosts
}

fn startup_options(options: &Vec<(String, String)>) -> (s: String)
    ensures
        s@ == options_text(options@),
{
    let ghost all = options@.map_values(|o: (String, String)| "-c "@ + o.0@ + "="@ + o.1@);
    let mut parts: Vec<String> = Vec::new();
    for i in 0..options.len()
        invariant
            all == options@.map_values(|o: (String, String)| "-c "@ + o.0@ + "="@ + o.1@),
            text::views(parts@) == all.take(i as int),
    {
        let mut part = String::new();
        part.append("-c ");
        part.append(options[i].0.as_str());
        part.append("=");
        part.append(options[i].1.as_str());
        assert(part@ =~= all[i as int]);
        let ghost before = text::views(parts@);
        parts.push(part);
        assert(text::views(parts@) =~= before.push(all[i as int]));
        assert(text::views(parts@) =~= all.take(i + 1));
    }
    assert(text::views(parts@) =~= all);
    join(&parts, " ")
}

fn ssl_mode(mode: TlsMode) -> (r: SslMode)
    ensures
        r == ssl_mode_of(mode),
{
    match mode {
        TlsMode::Disable => SslMode::Disable,
        TlsMode::Prefer => SslMode::Prefer,
        TlsMode::Require | TlsMode::VerifyCa | TlsMode::VerifyFull => SslMode::Require,
    }
}

fn copy_optional(s: &Option<String>) -> (r: Option<String>)
    ensures
        text::opt_view(r) == text::opt_view(*s),
{
    match s {
        Some(t) => Some(t.clone()),
        None => None,
    }
}

/// What the driver is told before it connects. `default_mode` is the TLS mode where none is
/// configured. The first configured text that is no duration is the error.
pub fn connect_settings(cfg: &ConnectionConfig, default_mode: TlsMode) -> (r: Result<
    ConnectSettings,
    SettingError,
>)
    ensures
        match (r, setting_fault(*cfg)) {
            (Ok(settings), None) => are_settings_of(settings, *cfg, default_mode),
            (Err(e), Some((setting, f))) => e.setting == setting && e.cause@ == f,
            _ => false,
        },
{
    let connect_timeout = match read_optional(&cfg.connect_timeout, TimeSetting::ConnectTimeout) {
        Ok(d) => d,
        Err(e) => {
            return Err(e);
        },
    };
    let keepalives = match &cfg.tcp_keepalives {
        None => None,
        Some(ka) => {
            let idle = match read_optional(&ka.idle, TimeSetting::KeepalivesIdle) {
                Ok(d) => d,
                Err(e) => {
                    return Err(e);
                },
            };
            let interval = match read_optional(&ka.interval, TimeSetting::KeepalivesInterval) {
                Ok(d) => d,
                Err(e) => {
                    return Err(e);
                },
            };
            Some(KeepaliveSettings { idle, interval, retries: ka.retries })
        },
    };
    let options = match &cfg.options {
        None => None,
        Some(options) => Some(startup_options(options)),
    };
    let mode = match cfg.tls {
        Some(mode) => mode,
        None => default_mode,
    };
    Ok(
        ConnectSettings {
            hosts: host_list(&cfg.host),
            port: cfg.port,
            dbname: cfg.dbname.clone(),
            user: cfg.user.clone(),
            password: cfg.password.clone(),
            application_name: copy_optional(&cfg.application_name),
            connect_timeout,
            options,
            channel_binding: cfg.channel_binding,
            target_session_attrs: cfg.target_session_attrs,
            keepalives,
            ssl_mode: ssl_mode(mode),
        },
    )
}

/// A session parameter that is to be set, with `SELECT set_config($1, $2, false)`.
#[derive(Debug)]
pub struct SetConfig {
    pub name: String,
    pub value: String,
    /// What an error says where setting it fails.
    pub failure: String,
}

/// The statement that sets a session parameter.
pub fn set_config_sql() -> (sql: &'static str)
    ensures
        sql@ == "SELECT set_config($1, $2, false)"@,
{
    "SELECT set_config($1, $2, false)"
}

/// The parameters that are set after connecting, in order: those of the session.
pub open spec fn session_of(cfg: ConnectionConfig) -> Seq<(String, String)> {
    match cfg.session {
        Some(session) => session@,
        None => Seq::empty(),
    }
}

/// Whether `step` sets the parameter `name` to `value`, with what it says where that fails.
pub open spec fn is_step(
    step: SetConfig,
    name: Seq<char>,
    value: Seq<char>,
    failure: Seq<char>,
) -> bool {
    &&& step.name@ == name
    &&& step.value@ == value
    &&& step.failure@ == failure
}

/// The next parameter to set on a new connection, once `applied` of them are set: first those of
/// the session, one by one, then the statement timeout in milliseconds. `Ok(None)` where all are
/// set. The statement timeout is read only when its turn comes.
pub fn next_step(cfg: &ConnectionConfig, applied: usize) -> (r: Result<
    Option<SetConfig>,
    SettingError,
>)
    ensures
        ({
            let session = session_of(*cfg);
            if applied < session.len() {
                r matches Ok(Some(step)) && is_step(
                    step,
                    session[applied as int].0@,
                    session[applied as int].1@,
                    "set_config("@ + session[applied as int].0@ + ") failed"@,
                )
            } else if applied > session.len() {
                r matches Ok(None)
            } else {
                match (r, optional_duration(cfg.statement_timeout)) {
                    (Ok(None), Ok(None)) => true,
                    (Ok(Some(step)), Ok(Some(millis))) => is_step(
                        step,
                        "statement_timeout"@,
                        number::decimal(millis),
                        "set statement_timeout failed"@,
                    ),
                    (Err(e), Err(f)) => e.setting == TimeSetting::StatementTimeout && e.cause@ == f,
                    _ => false,
                }
            }
        }),
{
    let count: usize = match &cfg.session {
        Some(session) => {
            if applied < session.len() {
                let name = session[applied].0.clone();
                let value = session[applied].1.clone();
                let mut failure = String::new();
                failure.append("set_config(");
                failure.append(name.as_str());
                failure.append(") failed");
                assert(failure@ =~= "set_config("@ + name@ + ") failed"@);
                return Ok(Some(SetConfig { name, value, failure }));
            }
            session.len()
        },
        None => 0,
    };
    if applied > count {
        return Ok(None);
    }
    match read_optional(&cfg.statement_timeout, TimeSetting::StatementTimeout) {
        Err(e) => Err(e),
        Ok(None) => Ok(None),
        Ok(Some(d)) => Ok(
            Some(
                SetConfig {
                    name: "statement_timeout".to_owned(),
                    value: decimal_text(d.as_millis()),
                    failure: "set statement_timeout failed".to_owned(),
                },
            ),
        ),
    }
}

} // verus!
