//! What a connection configuration comes to.

use crate::laws::numbers;
use crate::number;
use crate::postgres::conn;
use crate::postgres::conn::{
    ConnectSettings, ConnectionConfig, DurationFault, HostSpec, SetConfig, SslMode, TimeSetting, TimeUnit,
    TlsMode,
};
use crate::text;
use vstd::prelude::*;

verus! {

/// The text of a duration: digits and a unit, with whitespace before, between and behind them.
pub open spec fn duration_text(
    lead: Seq<char>,
    digits: Seq<char>,
    gap: Seq<char>,
    unit: Seq<char>,
    tail: Seq<char>,
) -> Seq<char> {
    lead + (digits + gap + unit) + tail
}

/// What so many times a unit of `millis` milliseconds come to: `text` is the whole text without
/// whitespace round it.
pub open spec fn span_or_fault(count: nat, millis: nat, t: Seq<char>, unit: TimeUnit) -> Result<
    nat,
    DurationFault,
> {
    if count > 18_446_744_073_709_551_615 {
        Err(DurationFault::ExpectedInteger { text: t, unit })
    } else if count * millis / 1000 > 18_446_744_073_709_551_615 {
        Err(DurationFault::Overflow { text: t, unit })
    } else {
        Ok(count * millis)
    }
}

/// A duration is as many units as its digits are worth: a millisecond, a second of a thousand of
/// them, a minute of sixty seconds, an hour of sixty minutes, and a day of twenty-four hours.
pub proof fn duration_is_count_of_units(
    lead: Seq<char>,
    digits: Seq<char>,
    gap: Seq<char>,
    tail: Seq<char>,
)
    requires
        digits.len() > 0,
        numbers::is_digits(digits),
        text::all_white(lead),
        text::all_white(gap),
        text::all_white(tail),
    ensures
        conn::duration_reading(duration_text(lead, digits, gap, "ms"@, tail)) == span_or_fault(
            numbers::place_value(digits),
            1,
            digits + gap + "ms"@,
            TimeUnit::Milliseconds,
        ),
        conn::duration_reading(duration_text(lead, digits, gap, "s"@, tail)) == span_or_fault(
            numbers::place_value(digits),
            1000,
            digits + gap + "s"@,
            TimeUnit::Seconds,
        ),
        conn::duration_reading(duration_text(lead, digits, gap, "m"@, tail)) == span_or_fault(
            numbers::place_value(digits),
            60 * 1000,
            digits + gap + "m"@,
            TimeUnit::Minutes,
        ),
        conn::duration_reading(duration_text(lead, digits, gap, "h"@, tail)) == span_or_fault(
            numbers::place_value(digits),
            60 * 60 * 1000,
            digits + gap + "h"@,
            TimeUnit::Hours,
        ),
        conn::duration_reading(duration_text(lead, digits, gap, "d"@, tail)) == span_or_fault(
            numbers::place_value(digits),
            24 * 60 * 60 * 1000,
            digits + gap + "d"@,
            TimeUnit::Days,
        ),
{
    reveal_strlit("ms");
    reveal_strlit("s");
    reveal_strlit("m");
    reveal_strlit("h");
    reveal_strlit("d");
    assert("ms"@ =~= TimeUnit::Milliseconds.suffix());
    assert("s"@ =~= TimeUnit::Seconds.suffix());
    assert("m"@ =~= TimeUnit::Minutes.suffix());
    assert("h"@ =~= TimeUnit::Hours.suffix());
    assert("d"@ =~= TimeUnit::Days.suffix());
    lemma_duration(lead, digits, gap, TimeUnit::Milliseconds, tail);
    lemma_duration(lead, digits, gap, TimeUnit::Seconds, tail);
    lemma_duration(lead, digits, gap, TimeUnit::Minutes, tail);
    lemma_duration(lead, digits, gap, TimeUnit::Hours, tail);
    lemma_duration(lead, digits, gap, TimeUnit::Days, tail);
}

proof fn lemma_duration(
    lead: Seq<char>,
    digits: Seq<char>,
    gap: Seq<char>,
    unit: TimeUnit,
    tail: Seq<char>,
)
    requires
        digits.len() > 0,
        numbers::is_digits(digits),
        text::all_white(lead),
        text::all_white(gap),
        text::all_white(tail),
    ensures
        conn::duration_reading(duration_text(lead, digits, gap, unit.suffix(), tail))
            == span_or_fault(
            numbers::place_value(digits),
            unit.millis(),
            digits + gap + unit.suffix(),
            unit,
        ),
{
    let s = digits + gap + unit.suffix();
    assert('0' <= digits[0] <= '9');
    assert('0' <= digits[digits.len() - 1] <= '9');
    assert(s[0] == digits[0]);
    assert(s.last() == unit.suffix().last());
    text::trim_takes_padding(lead, s, tail);
    assert(s.take(s.len() - unit.suffix().len()) =~= Seq::empty() + digits + gap);
    text::trim_takes_padding(Seq::empty(), digits, gap);
    numbers::digits_are_read_by_place(digits, u64::MAX as nat);
    if unit == TimeUnit::Seconds {
        let before = digits + gap;
        assert(s[s.len() - 2] == before.last());
        if gap.len() > 0 {
            assert(text::is_white(gap.last()));
        }
    }
}

/// A text that ends in none of the letters of units has no unit. One that ends in a unit without
/// digits before it, or with anything else there, lacks an integer.
pub proof fn other_texts_are_no_durations(t: Seq<char>, s: Seq<char>)
    requires
        s == text::trimmed(t),
    ensures
        s.len() == 0 || (s.last() != 's' && s.last() != 'm' && s.last() != 'h' && s.last() != 'd')
            <==> conn::duration_reading(t) == Err::<nat, DurationFault>(
            DurationFault::UnknownUnit { text: s },
        ),
        conn::duration_reading(t) is Ok ==> exists|digits: Seq<char>|
            digits.len() > 0 && #[trigger] numbers::is_digits(digits) && (text::starts_with(s, digits)
                || text::starts_with(s, seq!['+'] + digits)),
{
    if conn::duration_reading(t) is Ok {
        let unit = conn::unit_of(s)->0;
        let front = s.take(s.len() - unit.suffix().len());
        let count = text::trimmed(front);
        numbers::only_digits_are_read(count, u64::MAX as nat);
        let digits = choose|digits: Seq<char>|
            digits.len() > 0 && #[trigger] numbers::is_digits(digits) && (count == digits || count
                == seq!['+'] + digits);
        lemma_trimmed_has_no_lead(t);
        assert(!text::is_white(s[0]));
        if front.len() > 0 {
            assert(front[0] == s[0]);
            lemma_trimmed_is_prefix(front);
            assert(s.take(count.len() as int) =~= front.take(count.len() as int));
        } else {
            assert(front =~= Seq::<char>::empty());
        }
        if count == digits {
            assert(text::starts_with(s, digits));
        } else {
            assert(text::starts_with(s, seq!['+'] + digits));
        }
    }
}

proof fn lemma_trimmed_has_no_lead(t: Seq<char>)
    ensures
        text::trimmed(t).len() > 0 ==> !text::is_white(text::trimmed(t)[0]),
{
    lemma_start_has_no_lead(t);
    lemma_end_is_prefix(text::trimmed_start(t));
}

proof fn lemma_start_has_no_lead(t: Seq<char>)
    ensures
        text::trimmed_start(t).len() > 0 ==> !text::is_white(text::trimmed_start(t)[0]),
    decreases t.len(),
{
    if t.len() > 0 && text::is_white(t[0]) {
        lemma_start_has_no_lead(t.drop_first());
    }
}

proof fn lemma_end_is_prefix(t: Seq<char>)
    ensures
        text::trimmed_end(t).len() <= t.len(),
        text::trimmed_end(t) == t.take(text::trimmed_end(t).len() as int),
    decreases t.len(),
{
    if t.len() > 0 && text::is_white(t.last()) {
        lemma_end_is_prefix(t.drop_last());
        let n = text::trimmed_end(t).len() as int;
        assert(t.drop_last().take(n) =~= t.take(n));
    } else {
        assert(t.take(t.len() as int) =~= t);
    }
}

proof fn lemma_trimmed_is_prefix(t: Seq<char>)
    requires
        t.len() > 0,
        !text::is_white(t[0]),
    ensures
        text::trimmed(t).len() <= t.len(),
        text::trimmed(t) == t.take(text::trimmed(t).len() as int),
{
    lemma_end_is_prefix(t);
}

/// Whether `d` is the span, in milliseconds, that a configured text is read as; nothing where none
/// is configured.
pub open spec fn is_configured_span(d: Option<nat>, t: Option<String>) -> bool {
    match (d, t) {
        (None, None) => true,
        (Some(millis), Some(t)) => conn::duration_reading(t@) == Ok::<nat, DurationFault>(millis),
        _ => false,
    }
}

/// The milliseconds of an optional span.
pub open spec fn opt_span(d: Option<conn::Duration>) -> Option<nat> {
    match d {
        Some(d) => Some(d.span()),
        None => None,
    }
}

/// The driver is told what the configuration says, setting by setting: every host in order, the
/// port, the database, the user and the password; the optional settings exactly where they are
/// configured; and encryption wherever the TLS mode is `Require` or above.
pub proof fn settings_follow_configuration(
    settings: ConnectSettings,
    cfg: ConnectionConfig,
    default_mode: TlsMode,
)
    requires
        conn::are_settings_of(settings, cfg, default_mode),
    ensures
        match cfg.host {
            HostSpec::One(h) => settings.hosts@.len() == 1 && settings.hosts@[0]@ == h@,
            HostSpec::Many(hosts) => settings.hosts@.len() == hosts@.len() && forall|i: int|
                0 <= i < hosts@.len() ==> (#[trigger] settings.hosts@[i])@ == hosts@[i]@,
        },
        settings.port == cfg.port,
        settings.dbname@ == cfg.dbname@,
        settings.user@ == cfg.user@,
        settings.password@ == cfg.password@,
        match (settings.application_name, cfg.application_name) {
            (Some(a), Some(b)) => a@ == b@,
            (None, None) => true,
            _ => false,
        },
        is_configured_span(opt_span(settings.connect_timeout), cfg.connect_timeout),
        settings.options is Some <==> cfg.options is Some,
        settings.channel_binding == cfg.channel_binding,
        settings.target_session_attrs == cfg.target_session_attrs,
        match (settings.keepalives, cfg.tcp_keepalives) {
            (Some(k), Some(ka)) => {
                &&& is_configured_span(opt_span(k.idle), ka.idle)
                &&& is_configured_span(opt_span(k.interval), ka.interval)
                &&& k.retries == ka.retries
            },
            (None, None) => true,
            _ => false,
        },
        ({
            let mode = match cfg.tls {
                Some(mode) => mode,
                None => default_mode,
            };
            &&& settings.ssl_mode == SslMode::Disable <==> mode == TlsMode::Disable
            &&& settings.ssl_mode == SslMode::Prefer <==> mode == TlsMode::Prefer
            &&& settings.ssl_mode == SslMode::Require <==> (mode == TlsMode::Require || mode
                == TlsMode::VerifyCa || mode == TlsMode::VerifyFull)
        }),
{
    let views = text::views(settings.hosts@);
    assert(views.len() == settings.hosts@.len());
    match cfg.host {
        HostSpec::One(h) => {
            assert(views.len() == 1);
            assert(views[0] == settings.hosts@[0]@);
        },
        HostSpec::Many(hosts) => {
            assert(views.len() == hosts@.len());
            assert forall|i: int| 0 <= i < hosts@.len() implies (#[trigger] settings.hosts@[i])@
                == hosts@[i]@ by {
                assert(views[i] == settings.hosts@[i]@);
                assert(text::views(hosts@)[i] == hosts@[i]@);
            }
        },
    }
}

/// The options are one `-c name=value` for each parameter, in order, with a space between two of
/// them.
pub proof fn options_are_listed(
    settings: ConnectSettings,
    cfg: ConnectionConfig,
    default_mode: TlsMode,
    first: (String, String),
    rest: Seq<(String, String)>,
)
    requires
        conn::are_settings_of(settings, cfg, default_mode),
        cfg.options matches Some(options) && options@ == seq![first] + rest,
    ensures
        settings.options matches Some(s) && s@ == "-c "@ + first.0@ + "="@ + first.1@ + if rest.len()
            == 0 {
            Seq::empty()
        } else {
            " "@ + conn::options_text(rest)
        },
{
    let all = cfg.options->0@;
    let part = |o: (String, String)| "-c "@ + o.0@ + "="@ + o.1@;
    let parts = all.map_values(part);
    assert(all[0] == first);
    assert(parts.drop_first() =~= rest.map_values(part));
    let s = settings.options->0@;
    let head = "-c "@ + first.0@ + "="@ + first.1@;
    if rest.len() == 0 {
        assert(parts[0] == head);
        assert(s =~= head + Seq::<char>::empty());
    } else {
        assert(s =~= head + (" "@ + conn::options_text(rest)));
    }
}

/// What is refused before connecting is the first of the connect timeout, the idle time and the
/// interval that is configured and is no duration; where all of those that are configured are
/// durations, nothing is refused.
pub proof fn first_bad_duration_is_refused(cfg: ConnectionConfig, f: DurationFault)
    ensures
        ({
            let bad = |t: Option<String>| t matches Some(t) && conn::duration_reading(t@) is Err;
            let timeout = bad(cfg.connect_timeout);
            let idle = cfg.tcp_keepalives matches Some(ka) && bad(ka.idle);
            let interval = cfg.tcp_keepalives matches Some(ka) && bad(ka.interval);
            &&& conn::setting_fault(cfg) is None <==> !timeout && !idle && !interval
            &&& timeout ==> conn::setting_fault(cfg) == Some(
                (
                    TimeSetting::ConnectTimeout,
                    conn::duration_reading(cfg.connect_timeout->0@)->Err_0,
                ),
            )
            &&& !timeout && idle ==> conn::setting_fault(cfg) == Some(
                (
                    TimeSetting::KeepalivesIdle,
                    conn::duration_reading(cfg.tcp_keepalives->0.idle->0@)->Err_0,
                ),
            )
            &&& !timeout && !idle && interval ==> conn::setting_fault(cfg) == Some(
                (
                    TimeSetting::KeepalivesInterval,
                    conn::duration_reading(cfg.tcp_keepalives->0.interval->0@)->Err_0,
                ),
            )
        }),
{
}

/// The session has the configured parameters, all of them and in order, and a step sets exactly
/// what it names.
pub proof fn session_is_as_configured(
    cfg: ConnectionConfig,
    step: SetConfig,
    name: Seq<char>,
    value: Seq<char>,
    failure: Seq<char>,
)
    ensures
        cfg.session matches Some(session) ==> conn::session_of(cfg) == session@,
        cfg.session is None ==> conn::session_of(cfg).len() == 0,
        conn::is_step(step, name, value, failure) <==> step.name@ == name && step.value@ == value
            && step.failure@ == failure,
{
}

/// The statement timeout is read as any duration is, and not at all where none is configured.
pub proof fn optional_text_is_read_as_duration(t: Option<String>)
    ensures
        t is None ==> conn::optional_duration(t) == Ok::<Option<nat>, DurationFault>(None),
        t matches Some(s) ==> match conn::duration_reading(s@) {
            Ok(millis) => conn::optional_duration(t) == Ok::<Option<nat>, DurationFault>(
                Some(millis),
            ),
            Err(f) => conn::optional_duration(t) == Err::<Option<nat>, DurationFault>(f),
        },
{
}

/// No parameter of a well-formed configuration is given twice.
pub proof fn parameters_have_own_names(cfg: ConnectionConfig, i: int, j: int)
    requires
        cfg.well_formed(),
        i != j,
    ensures
        cfg.options matches Some(options) ==> (0 <= i < options@.len() && 0 <= j < options@.len()
            ==> options@[i].0@ != options@[j].0@),
        cfg.session matches Some(session) ==> (0 <= i < session@.len() && 0 <= j < session@.len()
            ==> session@[i].0@ != session@[j].0@),
{
}

} // verus!
