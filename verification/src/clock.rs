//! Points in time, and their texts.
use vstd::prelude::*;

use crate::text;

verus! {

/// A point in time: whole seconds since the start of 1970 in UTC, and the nanoseconds after them.
#[derive(Clone, Copy, Debug, PartialEq, Eq, Structural)]
pub struct Moment {
    pub secs: i64,
    pub nanos: u32,
}

/// The form of a time in the name of a file.
pub const STAMP_FORMAT: &'static str = "%Y%m%dT%H%M%S%.3fZ";

/// The present lies less than this many seconds from the start of 1970.
pub const SECS_LIMIT: i64 = 0x1000_0000_0000;

/// The first second after the year 9999.
pub const YEAR_LIMIT: i64 = 253_402_300_800;

/// Whether a text is a time in the form for the name of a file, in a year of four digits.
pub open spec fn is_stamp(s: Seq<char>) -> bool {
    &&& s.len() == 20
    &&& forall|i: int|
        0 <= i < 20 ==> (if i == 8 {
            #[trigger] s[i] == 'T'
        } else if i == 15 {
            s[i] == '.'
        } else if i == 19 {
            s[i] == 'Z'
        } else {
            '0' <= s[i] <= '9'
        })
}

/// The RFC 3339 text of a point in time, where it lies within the calendar.
pub uninterp spec fn rfc3339_of(secs: i64, nanos: u32) -> Option<Seq<char>>;

/// The text of a point in time in the given form, where it lies within the calendar.
pub uninterp spec fn formatted(secs: i64, nanos: u32, pattern: Seq<char>) -> Option<Seq<char>>;

/// The point in time that an RFC 3339 text names, as seconds and nanoseconds.
pub uninterp spec fn rfc3339_moment(s: Seq<char>) -> Option<(i64, u32)>;

/// Calls `chrono::Utc::now`. Which time it is is left open. What holds of each is that it does not
/// lie before 1970 and lies within the calendar of the crate: its text can be written, and its
/// seconds are far from the end of their range.
#[verifier::external_body]
fn utc_now() -> (r: Moment)
    ensures
        rfc3339_of(r.secs, r.nanos) is Some,
        0 <= r.secs < SECS_LIMIT,
{
    let now = chrono::Utc::now();
    Moment { secs: now.timestamp(), nanos: now.timestamp_subsec_nanos() }
}

/// Calls `chrono::DateTime::from_timestamp` and `to_rfc3339`. The text is named, not described.
#[verifier::external_body]
fn to_rfc3339(secs: i64, nanos: u32) -> (r: Option<String>)
    ensures
        text::opt_text(r) == rfc3339_of(secs, nanos),
{
    chrono::DateTime::from_timestamp(secs, nanos).map(|t| t.to_rfc3339())
}

/// Calls `chrono::DateTime::from_timestamp` and `format`. The text is named; there is one for the
/// times that have an RFC 3339 text, and from 1970 to the year 9999 it is made of digits with a `T`,
/// a dot and a `Z` in their places. Another pattern could be malformed, on which the crate panics.
#[verifier::external_body]
fn format_moment(secs: i64, nanos: u32, pattern: &str) -> (r: Option<String>)
    requires
        pattern@ == STAMP_FORMAT@,
    ensures
        text::opt_text(r) == formatted(secs, nanos, pattern@),
        r is Some == rfc3339_of(secs, nanos) is Some,
        r matches Some(t) ==> 0 <= secs < YEAR_LIMIT ==> is_stamp(t@),
{
    chrono::DateTime::from_timestamp(secs, nanos).map(|t| t.format(pattern).to_string())
}

/// Calls `chrono::DateTime::parse_from_rfc3339`. The time is named, not described; `None` is an
/// error of the crate, on a text that is not in the form.
#[verifier::external_body]
fn from_rfc3339(s: &str) -> (r: Option<(i64, u32)>)
    ensures
        r == rfc3339_moment(s@),
{
    let parsed = chrono::DateTime::parse_from_rfc3339(s).ok();
    parsed.map(|t| (t.timestamp(), t.timestamp_subsec_nanos()))
}

/// Whether `a` lies before `b`.
pub open spec fn is_before(a: (i64, u32), b: Moment) -> bool {
    a.0 < b.secs || (a.0 == b.secs && a.1 < b.nanos)
}

/// The present.
pub fn now() -> (r: Moment)
    ensures
        rfc3339_of(r.secs, r.nanos) is Some,
        0 <= r.secs < SECS_LIMIT,
{
    utc_now()
}

/// The RFC 3339 text of a point in time, where it lies within the calendar.
pub fn moment_text(m: Moment) -> (r: Option<String>)
    ensures
        text::opt_text(r) == rfc3339_of(m.secs, m.nanos),
{
    to_rfc3339(m.secs, m.nanos)
}

/// The text of a point in time for the name of a file, where it lies within the calendar.
pub fn stamp_text(m: Moment) -> (r: Option<String>)
    ensures
        text::opt_text(r) == formatted(m.secs, m.nanos, STAMP_FORMAT@),
        r is Some == rfc3339_of(m.secs, m.nanos) is Some,
        r matches Some(t) ==> 0 <= m.secs < YEAR_LIMIT ==> is_stamp(t@),
{
    format_moment(m.secs, m.nanos, STAMP_FORMAT)
}

/// The RFC 3339 text of the present.
pub fn now_text() -> (r: String)
    ensures
        exists|m: Moment| #[trigger] rfc3339_of(m.secs, m.nanos) == Some(r@),
{
    let m = utc_now();
    match to_rfc3339(m.secs, m.nanos) {
        Some(t) => t,
        None => String::new(),
    }
}

/// Whether the text names a point in time before `m`. A text that names none does not.
pub fn text_before(s: &str, m: Moment) -> (r: bool)
    ensures
        r == (rfc3339_moment(s@) is Some && is_before(rfc3339_moment(s@)->0, m)),
{
    match from_rfc3339(s) {
        Some((secs, nanos)) => secs < m.secs || (secs == m.secs && nanos < m.nanos),
        None => false,
    }
}

/// The point in time that lies a number of milliseconds after the start of 1970.
pub open spec fn millis_moment(millis: i64) -> Moment {
    Moment {
        secs: (millis as int / 1000) as i64,
        nanos: ((millis as int % 1000) * 1_000_000) as u32,
    }
}

/// The point in time that lies a number of milliseconds after the start of 1970.
pub fn from_millis(millis: i64) -> (r: Moment)
    ensures
        r == millis_moment(millis),
{
    if millis >= 0 {
        let m: u64 = millis as u64;
        let rest: u32 = (m % 1000) as u32;
        Moment { secs: (m / 1000) as i64, nanos: rest * 1_000_000 }
    } else {
        let m: u64 = (-(millis + 1)) as u64;
        let rest: u32 = 999 - (m % 1000) as u32;
        Moment { secs: -((m / 1000) as i64) - 1, nanos: rest * 1_000_000 }
    }
}

/// The RFC 3339 text of a point in time given in milliseconds, or that of `now` where it lies
/// outside the calendar.
pub open spec fn millis_text(millis: i64, now: Moment) -> Option<Seq<char>> {
    let m = millis_moment(millis);
    match rfc3339_of(m.secs, m.nanos) {
        Some(t) => Some(t),
        None => rfc3339_of(now.secs, now.nanos),
    }
}

/// The RFC 3339 text of a point in time given in milliseconds, or that of `now` where it lies
/// outside the calendar.
pub fn unix_milliseconds_to_rfc3339_at(millis: i64, now: Moment) -> (r: Option<String>)
    ensures
        text::opt_text(r) == millis_text(millis, now),
{
    match moment_text(from_millis(millis)) {
        Some(t) => Some(t),
        None => moment_text(now),
    }
}

/// The RFC 3339 text of a point in time given in milliseconds, or that of the present where it lies
/// outside the calendar.
pub fn unix_milliseconds_to_rfc3339(millis: i64) -> (r: String)
    ensures
        exists|now: Moment| #[trigger] millis_text(millis, now) == Some(r@),
{
    let m = now();
    let written = unix_milliseconds_to_rfc3339_at(millis, m);
    assert(text::opt_text(written) == millis_text(millis, m));
    match written {
        Some(t) => t,
        None => String::new(),
    }
}

/// A number of milliseconds is its whole seconds and the nanoseconds after them, before 1970 as
/// after.
pub proof fn law_milliseconds_are_kept(millis: i64)
    ensures
        ({
            let m = millis_moment(millis);
            &&& m.secs * 1000 + m.nanos as int / 1_000_000 == millis
            &&& m.nanos < 1_000_000_000
            &&& m.nanos as int % 1_000_000 == 0
        }),
{
    let s = millis as int / 1000;
    let r = millis as int % 1000;
    assert(-9_223_372_036_854_776 <= s <= 9_223_372_036_854_775);
    assert(0 <= r < 1000);
    assert((r * 1_000_000) / 1_000_000 == r);
    assert((r * 1_000_000) % 1_000_000 == 0);
}

/// A time in milliseconds is written as it is where it lies within the calendar, and as the present
/// where it does not.
pub proof fn law_times_outside_the_calendar_are_the_present(millis: i64, now: Moment, m: Moment)
    requires
        m == millis_moment(millis),
    ensures
        rfc3339_of(m.secs, m.nanos) is Some ==> millis_text(millis, now) == rfc3339_of(
            m.secs,
            m.nanos,
        ),
        rfc3339_of(m.secs, m.nanos) is None ==> millis_text(millis, now) == rfc3339_of(
            now.secs,
            now.nanos,
        ),
{
}

/// A time lies before another if it is earlier by a second, or by a nanosecond in the same second;
/// not if it is the same, or later.
pub proof fn law_earlier_times_lie_before(secs: i64, nanos: u32, b: Moment)
    ensures
        secs < b.secs ==> is_before((secs, nanos), b),
        secs > b.secs ==> !is_before((secs, nanos), b),
        secs == b.secs ==> is_before((secs, nanos), b) == (nanos < b.nanos),
        !is_before((b.secs, b.nanos), b),
{
}

} // verus!
