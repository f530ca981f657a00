//! Calendar texts: reading and writing stored timestamps.

use vstd::prelude::*;

use crate::models::Stamp;

verus! {

/// What `chrono::DateTime::parse_from_rfc3339` makes of a text: the instant, as
/// seconds since the epoch and nanoseconds, or the text of its error.
pub uninterp spec fn rfc3339_instant(raw: Seq<char>) -> Result<(i64, u32), Seq<char>>;

/// What `chrono::DateTime::parse_from_str` makes of a text under a format: the
/// instant, as seconds since the epoch and nanoseconds, or the text of its error.
pub uninterp spec fn formatted_instant(raw: Seq<char>, format: Seq<char>) -> Result<
    (i64, u32),
    Seq<char>,
>;

/// What `str::parse` into chrono's `DateTime<Utc>` makes of a text: the instant,
/// as seconds since the epoch and nanoseconds, or the text of its error.
pub uninterp spec fn utc_instant(raw: Seq<char>) -> Result<(i64, u32), Seq<char>>;

/// The RFC 3339 text that `chrono::DateTime::to_rfc3339` writes for an instant,
/// where the instant is a date at all.
pub uninterp spec fn rfc3339_text(secs: i64, nanos: u32) -> Option<Seq<char>>;

/// The span from the second instant to the first, by chrono's `DateTime`
/// subtraction: `TimeDelta::num_seconds` and `TimeDelta::subsec_nanos`, where both
/// are dates.
pub uninterp spec fn span_apart(
    now_secs: i64,
    now_nanos: u32,
    then_secs: i64,
    then_nanos: u32,
) -> Option<(i64, i32)>;

/// The whole seconds from the second instant to the first, by chrono's
/// `DateTime` subtraction and `TimeDelta::num_seconds`, where both are dates.
pub uninterp spec fn seconds_apart(
    now_secs: i64,
    now_nanos: u32,
    then_secs: i64,
    then_nanos: u32,
) -> Option<i64>;

/// The whole days from the second instant to the first, by chrono's `DateTime`
/// subtraction and `TimeDelta::num_days`, where both are dates.
pub uninterp spec fn days_apart(
    now_secs: i64,
    now_nanos: u32,
    then_secs: i64,
    then_nanos: u32,
) -> Option<i64>;

/// What `chrono::NaiveDate::parse_from_str` makes of a `%Y-%m-%d` text: the day,
/// counted from the start of the calendar by `Datelike::num_days_from_ce`, or the
/// text of its error.
pub uninterp spec fn calendar_day(raw: Seq<char>) -> Result<i32, Seq<char>>;

/// The whole milliseconds from the second instant to the first, by chrono's
/// `DateTime` subtraction and `TimeDelta::num_milliseconds`, where both are dates.
pub uninterp spec fn millis_apart(
    now_secs: i64,
    now_nanos: u32,
    then_secs: i64,
    then_nanos: u32,
) -> Option<i64>;

/// An instant well inside chrono's calendar and not within a leap second.
pub open spec fn is_plain(secs: i64, nanos: u32) -> bool {
    -8_000_000_000_000 <= secs <= 8_000_000_000_000 && nanos < 1_000_000_000
}

/// The nanoseconds from the second instant to the first.
pub open spec fn nanos_apart(now: (i64, u32), then: (i64, u32)) -> int {
    (now.0 - then.0) * 1_000_000_000 + (now.1 - then.1)
}

/// The whole units in `d`, counted toward zero.
pub open spec fn whole(d: int, unit: int) -> int {
    if d >= 0 {
        d / unit
    } else {
        -((-d) / unit)
    }
}

/// The view of a parse: the instant, or the text of the error.
pub open spec fn parse_view(r: Result<Stamp, String>) -> Result<(i64, u32), Seq<char>> {
    match r {
        Ok(s) => Ok((s.secs, s.nanos)),
        Err(e) => Err(e@),
    }
}

/// Calls `chrono::DateTime::parse_from_rfc3339`. The result is the instant that
/// chrono read, or the text of chrono's error.
#[verifier::external_body]
pub(crate) fn parse_rfc3339(raw: &str) -> (r: Result<Stamp, String>)
    ensures
        parse_view(r) == rfc3339_instant(raw@),
{
    match chrono::DateTime::parse_from_rfc3339(raw) {
        Ok(dt) => Ok(Stamp { secs: dt.timestamp(), nanos: dt.timestamp_subsec_nanos() }),
        Err(e) => Err(format!("{e}")),
    }
}

/// Calls `chrono::DateTime::parse_from_str`. The result is the instant that
/// chrono read under the format, or the text of chrono's error.
#[verifier::external_body]
pub(crate) fn parse_formatted(raw: &str, format: &str) -> (r: Result<Stamp, String>)
    ensures
        parse_view(r) == formatted_instant(raw@, format@),
{
    match chrono::DateTime::parse_from_str(raw, format) {
        Ok(dt) => Ok(Stamp { secs: dt.timestamp(), nanos: dt.timestamp_subsec_nanos() }),
        Err(e) => Err(format!("{e}")),
    }
}

/// Calls `str::parse` into chrono's `DateTime<Utc>`. The result is the instant
/// that chrono read, or the text of chrono's error.
#[verifier::external_body]
pub(crate) fn parse_utc(raw: &str) -> (r: Result<Stamp, String>)
    ensures
        parse_view(r) == utc_instant(raw@),
{
    match raw.parse::<chrono::DateTime<chrono::Utc>>() {
        Ok(dt) => Ok(Stamp { secs: dt.timestamp(), nanos: dt.timestamp_subsec_nanos() }),
        Err(e) => Err(format!("{e}")),
    }
}

/// Calls `chrono::DateTime::to_rfc3339` on the UTC date of the instant; `None`
/// where chrono's `from_timestamp` has no date for it.
#[verifier::external_body]
pub(crate) fn write_rfc3339(s: Stamp) -> (r: Option<String>)
    ensures
        (match r {
            Some(t) => Some(t@),
            None => None,
        }) == rfc3339_text(s.secs, s.nanos),
{
    chrono::DateTime::<chrono::Utc>::from_timestamp(s.secs, s.nanos).map(|d| d.to_rfc3339())
}

/// The nanoseconds of a span of seconds and nanoseconds.
pub open spec fn span_nanos(span: (i64, i32)) -> int {
    span.0 * 1_000_000_000 + span.1
}

/// Subtracts two instants with chrono and takes the span apart into `num_seconds`
/// and `subsec_nanos`; `None` where chrono's `from_timestamp` has no date for one
/// of them. For plain instants the span is the exact time between them.
#[verifier::external_body]
pub(crate) fn span_between(now: Stamp, last: Stamp) -> (r: Option<(i64, i32)>)
    ensures
        r == span_apart(now.secs, now.nanos, last.secs, last.nanos),
        is_plain(now.secs, now.nanos) && is_plain(last.secs, last.nanos) ==> r is Some
            && span_nanos(r->0) == nanos_apart((now.secs, now.nanos), (last.secs, last.nanos)),
{
    let a = chrono::DateTime::<chrono::Utc>::from_timestamp(now.secs, now.nanos)?;
    let b = chrono::DateTime::<chrono::Utc>::from_timestamp(last.secs, last.nanos)?;
    let d = a - b;
    Some((d.num_seconds(), d.subsec_nanos()))
}

/// Subtracts two instants with chrono and takes `num_seconds`; `None` where
/// chrono's `from_timestamp` has no date for one of them. For plain instants the
/// result is the number of whole seconds between them.
#[verifier::external_body]
pub(crate) fn seconds_between(now: Stamp, last: Stamp) -> (r: Option<i64>)
    ensures
        r == seconds_apart(now.secs, now.nanos, last.secs, last.nanos),
        is_plain(now.secs, now.nanos) && is_plain(last.secs, last.nanos) ==> r == Some(
            whole(
                nanos_apart((now.secs, now.nanos), (last.secs, last.nanos)),
                1_000_000_000,
            ) as i64,
        ),
{
    let a = chrono::DateTime::<chrono::Utc>::from_timestamp(now.secs, now.nanos)?;
    let b = chrono::DateTime::<chrono::Utc>::from_timestamp(last.secs, last.nanos)?;
    Some((a - b).num_seconds())
}

/// Subtracts two instants with chrono and takes `num_days`; `None` where chrono's
/// `from_timestamp` has no date for one of them. For plain instants the result is
/// the number of whole days between them.
#[verifier::external_body]
pub(crate) fn days_between(now: Stamp, last: Stamp) -> (r: Option<i64>)
    ensures
        r == days_apart(now.secs, now.nanos, last.secs, last.nanos),
        is_plain(now.secs, now.nanos) && is_plain(last.secs, last.nanos) ==> r == Some(
            whole(
                nanos_apart((now.secs, now.nanos), (last.secs, last.nanos)),
                86_400_000_000_000,
            ) as i64,
        ),
{
    let a = chrono::DateTime::<chrono::Utc>::from_timestamp(now.secs, now.nanos)?;
    let b = chrono::DateTime::<chrono::Utc>::from_timestamp(last.secs, last.nanos)?;
    Some((a - b).num_days())
}

/// The view of a day: its number, or the text of the error.
pub open spec fn day_view(r: Result<i32, String>) -> Result<i32, Seq<char>> {
    match r {
        Ok(n) => Ok(n),
        Err(e) => Err(e@),
    }
}

/// Calls `chrono::NaiveDate::parse_from_str` with the format `%Y-%m-%d`, and
/// `num_days_from_ce` on the date. The result is the day's number, or the text of
/// chrono's error.
#[verifier::external_body]
pub(crate) fn parse_day(raw: &str) -> (r: Result<i32, String>)
    ensures
        day_view(r) == calendar_day(raw@),
{
    match chrono::NaiveDate::parse_from_str(raw, "%Y-%m-%d") {
        Ok(d) => Ok(chrono::Datelike::num_days_from_ce(&d)),
        Err(e) => Err(format!("{e}")),
    }
}

/// Subtracts two instants with chrono and takes `num_milliseconds`; `None` where
/// chrono's `from_timestamp` has no date for one of them. For plain instants
/// the result is the number of whole milliseconds between them.
#[verifier::external_body]
pub(crate) fn millis_between(now: Stamp, last: Stamp) -> (r: Option<i64>)
    ensures
        r == millis_apart(now.secs, now.nanos, last.secs, last.nanos),
        is_plain(now.secs, now.nanos) && is_plain(last.secs, last.nanos) ==> r == Some(
            whole(
                nanos_apart((now.secs, now.nanos), (last.secs, last.nanos)),
                1_000_000,
            ) as i64,
        ),
{
    let a = chrono::DateTime::<chrono::Utc>::from_timestamp(now.secs, now.nanos)?;
    let b = chrono::DateTime::<chrono::Utc>::from_timestamp(last.secs, last.nanos)?;
    Some((a - b).num_milliseconds())
}

/// `a` lies after `b`.
pub open spec fn is_after(a: Stamp, b: Stamp) -> bool {
    a.secs > b.secs || (a.secs == b.secs && a.nanos > b.nanos)
}

pub fn after(a: Stamp, b: Stamp) -> (r: bool)
    ensures
        r == is_after(a, b),
{
    a.secs > b.secs || (a.secs == b.secs && a.nanos > b.nanos)
}

/// The instant of a stored text, given what each of the three formats made of
/// it: the first that reads it wins, and the error of the last is reported.
pub open spec fn choose_datetime(
    raw: Seq<char>,
    first: Result<(i64, u32), Seq<char>>,
    second: Result<(i64, u32), Seq<char>>,
    third: Result<(i64, u32), Seq<char>>,
) -> Result<(i64, u32), Seq<char>> {
    match first {
        Ok(x) => Ok(x),
        Err(_) => match second {
            Ok(x) => Ok(x),
            Err(_) => match third {
                Ok(x) => Ok(x),
                Err(e) => Err("Failed to parse datetime '"@ + raw + "': "@ + e),
            },
        },
    }
}

/// The instant of a stored text, given what each of the three formats made of it.
pub fn pick_datetime(
    raw: &str,
    first: Result<Stamp, String>,
    second: Result<Stamp, String>,
    third: Result<Stamp, String>,
) -> (r: Result<Stamp, String>)
    ensures
        parse_view(r) == choose_datetime(
            raw@,
            parse_view(first),
            parse_view(second),
            parse_view(third),
        ),
{
    match first {
        Ok(x) => Ok(x),
        Err(_) => match second {
            Ok(x) => Ok(x),
            Err(_) => match third {
                Ok(x) => Ok(x),
                Err(e) => {
                    let mut m = String::from_str("Failed to parse datetime '");
                    m.append(raw);
                    m.append("': ");
                    m.append(e.as_str());
                    Err(m)
                },
            },
        },
    }
}

/// What a stored timestamp text stands for.
pub open spec fn db_datetime(raw: Seq<char>) -> Result<(i64, u32), Seq<char>> {
    choose_datetime(
        raw,
        rfc3339_instant(raw),
        formatted_instant(raw, "%Y-%m-%d %H:%M:%S%.f %Z"@),
        formatted_instant(raw, "%Y-%m-%d %H:%M:%S %Z"@),
    )
}

/// Reads a stored timestamp: RFC 3339, or one of two spaced formats.
pub fn parse_db_datetime(raw: &str) -> (r: Result<Stamp, String>)
    ensures
        parse_view(r) == db_datetime(raw@),
{
    let first = parse_rfc3339(raw);
    let second = parse_formatted(raw, "%Y-%m-%d %H:%M:%S%.f %Z");
    let third = parse_formatted(raw, "%Y-%m-%d %H:%M:%S %Z");
    pick_datetime(raw, first, second, third)
}

/// The seconds of an RFC 3339 text, zero where it is none.
pub open spec fn epoch_or_zero(parsed: Result<(i64, u32), Seq<char>>) -> i64 {
    match parsed {
        Ok(x) => x.0,
        Err(_) => 0,
    }
}

/// The seconds of a parsed text, zero where it could not be read.
pub fn seconds_or_zero(parsed: Result<Stamp, String>) -> (r: i64)
    ensures
        r == epoch_or_zero(parse_view(parsed)),
{
    match parsed {
        Ok(s) => s.secs,
        Err(_) => 0,
    }
}

/// The seconds of an RFC 3339 text, zero where it is none.
pub fn epoch_of(raw: &str) -> (r: i64)
    ensures
        r == epoch_or_zero(rfc3339_instant(raw@)),
{
    seconds_or_zero(parse_rfc3339(raw))
}

/// A stored time is read in the first of the three forms that fits it, and refused
/// where none does.
pub proof fn law_first_form_counts(
    raw: Seq<char>,
    a: Result<(i64, u32), Seq<char>>,
    b: Result<(i64, u32), Seq<char>>,
    c: Result<(i64, u32), Seq<char>>,
)
    ensures
        choose_datetime(raw, a, b, c) is Ok <==> a is Ok || b is Ok || c is Ok,
        a is Ok ==> choose_datetime(raw, a, b, c) == a,
        a is Err && b is Ok ==> choose_datetime(raw, a, b, c) == b,
        a is Err && b is Err && c is Ok ==> choose_datetime(raw, a, b, c) == c,
        a is Err && b is Err && c is Err ==> choose_datetime(raw, a, b, c)->Err_0
            == "Failed to parse datetime '"@ + raw + "': "@ + c->Err_0,
{
}

/// One instant is after another exactly where more nanoseconds lie before it.
pub proof fn law_after(a: Stamp, b: Stamp)
    requires
        a.nanos < 1_000_000_000,
        b.nanos < 1_000_000_000,
    ensures
        is_after(a, b) <==> nanos_apart((a.secs, a.nanos), (b.secs, b.nanos)) > 0,
{
}

/// Whole units cut off toward zero.
pub proof fn law_whole(d: int, unit: int)
    requires
        unit > 0,
    ensures
        d >= 0 ==> whole(d, unit) * unit <= d < (whole(d, unit) + 1) * unit,
        whole(-d, unit) == -whole(d, unit),
{
    if d >= 0 {
        let q = d / unit;
        assert(q * unit <= d < (q + 1) * unit) by (nonlinear_arith)
            requires
                unit > 0,
                q == d / unit,
        ;
        if d == 0 {
            assert(0int / unit == 0) by (nonlinear_arith)
                requires
                    unit > 0,
            ;
        }
    }
}

/// A time that is read counts its seconds, and any other zero.
pub proof fn law_epoch(parsed: Result<(i64, u32), Seq<char>>)
    ensures
        parsed is Ok ==> epoch_or_zero(parsed) == parsed->Ok_0.0,
        parsed is Err ==> epoch_or_zero(parsed) == 0,
{
}

} // verus!
