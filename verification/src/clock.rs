//! Instants in UTC and their RFC 3339 text.

use crate::text::text_lt;
use vstd::prelude::*;

verus! {

/// First and last second that the calendar of `chrono` can represent.
pub const MIN_SECS: i64 = -8_334_601_228_800;

pub const MAX_SECS: i64 = 8_210_266_876_799;

/// First and last second of the years 0 to 9999, which RFC 3339 writes with
/// four digits.
pub const FIRST_STAMP: i64 = -62_167_219_200;

pub const LAST_STAMP: i64 = 253_402_300_799;

/// An instant: seconds since 1970 in UTC and nanoseconds within the second.
/// A leap second is second 59 of its minute with a billion or more nanoseconds.
#[derive(Debug, Clone, Copy, PartialEq, Eq, Structural)]
pub struct Moment {
    pub secs: i64,
    pub nanos: u32,
}

impl Moment {
    /// The instants that the calendar can represent.
    pub open spec fn valid(self) -> bool {
        &&& MIN_SECS <= self.secs <= MAX_SECS
        &&& self.nanos < 2_000_000_000
        &&& self.nanos >= 1_000_000_000 ==> self.secs % 60 == 59
    }

    /// The instants that the clock can give: since 1970, and no leap second.
    pub open spec fn from_clock(self) -> bool {
        self.valid() && self.secs >= 0 && self.nanos < 1_000_000_000
    }
}

pub open spec fn in_four_digit_years(secs: i64) -> bool {
    FIRST_STAMP <= secs <= LAST_STAMP
}

/// The text `chrono` writes for the second `secs`: RFC 3339 in UTC, whole
/// seconds, with the suffix `Z`.
pub uninterp spec fn rfc3339(secs: i64) -> Seq<char>;

/// The instant `chrono` reads from an RFC 3339 text, if it is one.
pub uninterp spec fn rfc3339_moment(ts: Seq<char>) -> Option<Moment>;

/// `ts` is the text of the second `secs`. Within the four-digit years reading
/// it gives the second back, and texts sort as their seconds do; the text of any
/// other year starts with a sign and cannot be read.
pub open spec fn is_stamp(ts: Seq<char>, secs: i64) -> bool {
    &&& ts == rfc3339(secs)
    &&& rfc3339_moment(ts) == (if in_four_digit_years(secs) {
        Some(Moment { secs, nanos: 0 })
    } else {
        None
    })
    &&& in_four_digit_years(secs) ==> forall|other: i64|
        in_four_digit_years(other) ==> (#[trigger] text_lt(ts, rfc3339(other)) <==> secs < other)
}

/// `ts` is the text of some second since 1970.
pub open spec fn is_some_stamp(ts: Seq<char>) -> bool {
    exists|secs: i64| 0 <= secs <= MAX_SECS && #[trigger] is_stamp(ts, secs)
}

/// `chrono::Utc::now`: the current instant, as the seconds and nanoseconds that
/// it reports. Nothing is claimed of which instant that is, only that it is not
/// before 1970, can be represented and is no leap second. The clock of a machine
/// set before 1970 makes the outside call panic.
#[verifier::external_body]
pub(crate) fn utc_now() -> (now: Moment)
    ensures
        now.from_clock(),
{
    let now = chrono::Utc::now();
    Moment { secs: now.timestamp(), nanos: now.timestamp_subsec_nanos() }
}

/// `DateTime::to_rfc3339_opts` with whole seconds and `Z`, on the instant `secs`.
/// The result is named; beside the name stands that the text of a second in the
/// four-digit years reads back as that second, and that such texts, which all
/// have the same fixed layout, sort lexicographically as their seconds do. A year
/// of more than four digits or below 0 is written with a sign, which
/// `parse_from_rfc3339` refuses.
#[verifier::external_body]
pub(crate) fn format_rfc3339(secs: i64) -> (ts: String)
    requires
        MIN_SECS <= secs <= MAX_SECS,
    ensures
        ts@ == rfc3339(secs),
        is_stamp(ts@, secs),
{
    let at = chrono::DateTime::from_timestamp(secs, 0).unwrap();
    at.to_rfc3339_opts(chrono::SecondsFormat::Secs, true)
}

/// `DateTime::parse_from_rfc3339`: the instant a text gives, in UTC, or `None`
/// where the text is no RFC 3339 date and time. The result is named; what is
/// read can be represented.
#[verifier::external_body]
pub(crate) fn parse_rfc3339(ts: &str) -> (at: Option<Moment>)
    ensures
        at == rfc3339_moment(ts@),
        at matches Some(m) ==> m.valid(),
{
    let at = chrono::DateTime::parse_from_rfc3339(ts).ok()?;
    Some(Moment { secs: at.timestamp(), nanos: at.timestamp_subsec_nanos() })
}

/// Seconds since midnight.
pub open spec fn day_second(m: Moment) -> int {
    m.secs as int % 86_400
}

/// Nanoseconds from `earlier` to `later`, where a leap second that the time of
/// day has passed counts.
pub open spec fn nanos_between(later: Moment, earlier: Moment) -> int {
    let leap: int = if day_second(later) > day_second(earlier) && earlier.nanos
        >= 1_000_000_000 {
        1
    } else if day_second(later) < day_second(earlier) && later.nanos >= 1_000_000_000 {
        -1
    } else {
        0
    };
    (later.secs - earlier.secs + leap) * 1_000_000_000 + later.nanos - earlier.nanos
}

/// Whole seconds from `earlier` to `later`, a fraction dropped towards zero.
pub open spec fn seconds_between(later: Moment, earlier: Moment) -> int {
    let n = nanos_between(later, earlier);
    if n >= 0 {
        n / 1_000_000_000
    } else {
        -((-n) / 1_000_000_000)
    }
}

/// The difference of two `DateTime`s and `TimeDelta::num_seconds` on it: whole
/// seconds from one instant to the other, towards zero.
#[verifier::external_body]
pub(crate) fn elapsed_secs(later: Moment, earlier: Moment) -> (secs: i64)
    requires
        later.valid(),
        earlier.valid(),
    ensures
        secs == seconds_between(later, earlier),
{
    let a = chrono::DateTime::from_timestamp(later.secs, later.nanos).unwrap();
    let b = chrono::DateTime::from_timestamp(earlier.secs, earlier.nanos).unwrap();
    (a - b).num_seconds()
}

/// The current second as RFC 3339 text.
pub fn now_rfc3339() -> (ts: String)
    ensures
        is_some_stamp(ts@),
{
    let now = utc_now();
    let ts = format_rfc3339(now.secs);
    assert(is_stamp(ts@, now.secs));
    ts
}

/// Seconds from the instant that `ts` gives to `now`; `None` if `ts` gives none.
pub open spec fn age_at(ts: Seq<char>, now: Moment) -> Option<int> {
    match rfc3339_moment(ts) {
        Some(at) => Some(seconds_between(now, at)),
        None => None,
    }
}

/// A number of seconds, if there is one.
pub open spec fn opt_secs(age: Option<i64>) -> Option<int> {
    match age {
        Some(a) => Some(a as int),
        None => None,
    }
}

/// Seconds from `ts`, an RFC 3339 text, to `now`; `None` if it cannot be read.
pub fn age_secs_at(ts: &str, now: Moment) -> (age: Option<i64>)
    requires
        now.valid(),
    ensures
        opt_secs(age) == age_at(ts@, now),
        age matches Some(a) ==> a == seconds_between(now, rfc3339_moment(ts@)->0),
{
    match parse_rfc3339(ts) {
        Some(at) => Some(elapsed_secs(now, at)),
        None => None,
    }
}

/// Seconds since `ts`, an RFC 3339 text; `None` if it cannot be read.
pub fn age_secs(ts: &str) -> (age: Option<i64>)
    ensures
        exists|now: Moment|
            now.from_clock() && opt_secs(age) == #[trigger] age_at(ts@, now) && (age matches Some(a)
                ==> a == seconds_between(now, rfc3339_moment(ts@)->0)),
{
    let now = utc_now();
    age_secs_at(ts, now)
}

} // verus!
