//! Points in time, and how they are written for people.
use crate::text;
use vstd::prelude::*;

verus! {

/// The first second that has a date: the start of the year -262143.
pub const MIN_SECS: i64 = -8334601228800;

/// The last second that has a date: the end of the year 262142.
pub const MAX_SECS: i64 = 8210266876799;

/// A point in time: Unix seconds, and the nanoseconds past them. A leap second has
/// more than a thousand million nanoseconds, and is the last second of a minute.
#[derive(Clone, Copy, Debug, PartialEq, Eq, Structural)]
pub struct Timestamp {
    pub secs: i64,
    pub nanos: u32,
}

impl Timestamp {
    /// Whether there is such a point in time.
    pub open spec fn wf(self) -> bool {
        &&& MIN_SECS <= self.secs <= MAX_SECS
        &&& self.nanos < 2_000_000_000
        &&& self.nanos >= 1_000_000_000 ==> self.secs % 60 == 59
    }

    /// Whether the point in time is not inside a leap second.
    pub open spec fn ordinary(self) -> bool {
        self.nanos < 1_000_000_000
    }

    /// Whether this point in time is `other` or comes before it.
    pub open spec fn not_after(self, other: Timestamp) -> bool {
        self.secs < other.secs || (self.secs == other.secs && self.nanos <= other.nanos)
    }

    /// The point in time, where there is one.
    pub fn new(secs: i64, nanos: u32) -> (r: Option<Timestamp>)
        ensures
            match r {
                Some(t) => t.wf() && t == (Timestamp { secs, nanos }),
                None => !(Timestamp { secs, nanos }).wf(),
            },
    {
        if secs < MIN_SECS || secs > MAX_SECS || nanos >= 2_000_000_000 {
            return None;
        }
        if nanos >= 1_000_000_000 {
            // Counted from the first second, which starts a minute.
            let since: u64 = (secs - MIN_SECS) as u64;
            if since % 60 != 59 {
                return None;
            }
        }
        Some(Timestamp { secs, nanos })
    }

    /// Whether this point in time is `other` or comes before it.
    pub fn at_or_before(self, other: Timestamp) -> (r: bool)
        ensures
            r == self.not_after(other),
    {
        self.secs < other.secs || (self.secs == other.secs && self.nanos <= other.nanos)
    }
}

/// `chrono::DateTime::parse_from_rfc3339`: the Unix seconds and the nanoseconds past
/// them that a text in the form of RFC 3339 writes.
pub uninterp spec fn rfc3339_instant(s: Seq<char>) -> Option<(i64, u32)>;

/// `chrono::DateTime::parse_from_rfc3339`, taken apart by `timestamp` and
/// `timestamp_subsec_nanos`: a date and time in the form of RFC 3339, or nothing. The
/// result depends on the characters of `s` alone.
#[verifier::external_body]
pub(crate) fn parse_rfc3339(s: &str) -> (r: Option<Timestamp>)
    ensures
        match r {
            Some(t) => t.wf() && rfc3339_instant(s@) == Some((t.secs, t.nanos)),
            None => rfc3339_instant(s@) is None,
        },
{
    chrono::DateTime::parse_from_rfc3339(s).ok().map(
        |t| Timestamp { secs: t.timestamp(), nanos: t.timestamp_subsec_nanos() },
    )
}

/// `chrono::DateTime::to_rfc3339_opts` of a UTC time, to the second, with a `Z`.
pub uninterp spec fn rfc3339_text(secs: i64, nanos: u32) -> Seq<char>;

/// `chrono::DateTime::to_rfc3339_opts` of the UTC time, to the second, with a `Z`
/// for the offset. In the years 0 to 9999, and outside leap seconds, the text reads
/// back as the second that it was made from.
#[verifier::external_body]
pub(crate) fn fmt_rfc3339(t: Timestamp) -> (r: String)
    requires
        t.wf(),
    ensures
        r@ == rfc3339_text(t.secs, t.nanos),
        -62167219200 <= t.secs <= 253402300799 && t.nanos < 1_000_000_000 ==> rfc3339_instant(r@)
            == Some((t.secs, 0u32)),
{
    let utc = chrono::DateTime::from_timestamp(t.secs, t.nanos).unwrap_or_default();
    utc.to_rfc3339_opts(chrono::SecondsFormat::Secs, true)
}

/// `chrono::DateTime::format` of a UTC time, to the minute.
pub uninterp spec fn utc_minute_text(secs: i64, nanos: u32) -> Seq<char>;

/// `chrono::DateTime::format` with `%Y-%m-%d %H:%M UTC`: the UTC date and the time
/// of day to the minute.
#[verifier::external_body]
fn utc_minute(t: Timestamp) -> (r: String)
    requires
        t.wf(),
    ensures
        r@ == utc_minute_text(t.secs, t.nanos),
{
    let utc = chrono::DateTime::from_timestamp(t.secs, t.nanos).unwrap_or_default();
    utc.format("%Y-%m-%d %H:%M UTC").to_string()
}

/// `chrono::TimeDelta::num_seconds` of the difference of two UTC times.
pub uninterp spec fn seconds_apart(
    later_secs: i64,
    later_nanos: u32,
    earlier_secs: i64,
    earlier_nanos: u32,
) -> i64;

/// `n` nanoseconds in whole seconds, rounded towards zero.
pub open spec fn whole_seconds(n: int) -> int {
    if n >= 0 {
        n / 1_000_000_000
    } else {
        -((-n) / 1_000_000_000)
    }
}

/// The `-` of two `chrono::DateTime`s and `num_seconds` of what it gives: the whole
/// seconds from `earlier` to `later`, rounded towards zero. How a leap second counts
/// is left to that function.
#[verifier::external_body]
fn seconds_between(later: Timestamp, earlier: Timestamp) -> (r: i64)
    requires
        later.wf(),
        earlier.wf(),
    ensures
        r == seconds_apart(later.secs, later.nanos, earlier.secs, earlier.nanos),
        later.ordinary() && earlier.ordinary() ==> r == whole_seconds(
            (later.secs - earlier.secs) * 1_000_000_000 + later.nanos - earlier.nanos,
        ),
{
    let a = chrono::DateTime::from_timestamp(later.secs, later.nanos).unwrap_or_default();
    let b = chrono::DateTime::from_timestamp(earlier.secs, earlier.nanos).unwrap_or_default();
    (a - b).num_seconds()
}

/// The seconds from `earlier` to `later`, none where they are the other way round.
pub open spec fn elapsed(later: Timestamp, earlier: Timestamp) -> nat {
    let n = seconds_apart(later.secs, later.nanos, earlier.secs, earlier.nanos);
    if n < 0 {
        0
    } else {
        n as nat
    }
}

/// The whole seconds that passed from `earlier` to `later`, neither of them in a leap second;
/// none where they are the other way round.
pub open spec fn passed(later: Timestamp, earlier: Timestamp) -> nat {
    let nanos = (later.secs - earlier.secs) * 1_000_000_000 + later.nanos - earlier.nanos;
    if nanos < 0 {
        0
    } else {
        (nanos / 1_000_000_000) as nat
    }
}

fn seconds_elapsed(later: Timestamp, earlier: Timestamp) -> (r: u64)
    requires
        later.wf(),
        earlier.wf(),
    ensures
        r == elapsed(later, earlier),
        later.ordinary() && earlier.ordinary() ==> r == passed(later, earlier),
{
    let n: i64 = seconds_between(later, earlier);
    if n < 0 {
        0
    } else {
        n as u64
    }
}

/// A duration in the compact form: its two largest units, or one.
pub open spec fn duration_text(secs: nat) -> Seq<char> {
    let d = secs / 86400;
    let h = (secs % 86400) / 3600;
    let m = (secs % 3600) / 60;
    if d > 0 {
        text::decimal(d) + "d "@ + text::decimal(h) + "h"@
    } else if h > 0 {
        text::decimal(h) + "h "@ + text::decimal(m) + "m"@
    } else if m > 0 {
        text::decimal(m) + "m"@
    } else {
        text::decimal(secs) + "s"@
    }
}

/// A duration in the compact form, e.g. `2d 3h`.
pub fn fmt_duration(secs: u64) -> (r: String)
    ensures
        r@ == duration_text(secs as nat),
{
    let d: u64 = secs / 86400;
    let h: u64 = (secs % 86400) / 3600;
    let m: u64 = (secs % 3600) / 60;
    let mut out = String::new();
    if d > 0 {
        text::push_decimal(&mut out, d);
        out.append("d ");
        text::push_decimal(&mut out, h);
        out.append("h");
    } else if h > 0 {
        text::push_decimal(&mut out, h);
        out.append("h ");
        text::push_decimal(&mut out, m);
        out.append("m");
    } else if m > 0 {
        text::push_decimal(&mut out, m);
        out.append("m");
    } else {
        text::push_decimal(&mut out, secs);
        out.append("s");
    }
    assert(out@ =~= duration_text(secs as nat));
    out
}

/// The point in time that a text in the form of RFC 3339 writes.
pub open spec fn read_instant(s: Seq<char>) -> Option<Timestamp> {
    match rfc3339_instant(s) {
        Some((secs, nanos)) => Some(Timestamp { secs, nanos }),
        None => None,
    }
}

pub open spec fn utc_text(rfc3339: Seq<char>) -> Seq<char> {
    match read_instant(rfc3339) {
        Some(t) => utc_minute_text(t.secs, t.nanos),
        None => rfc3339,
    }
}

/// `2026-05-02 14:11 UTC`, for absolute timestamps. What is no timestamp is shown as
/// it is.
pub fn fmt_utc(rfc3339: &str) -> (r: String)
    ensures
        r@ == utc_text(rfc3339@),
{
    match parse_rfc3339(rfc3339) {
        Some(t) => utc_minute(t),
        None => text::copied(rfc3339),
    }
}

pub open spec fn age_text(rfc3339: Seq<char>, now: Timestamp) -> Seq<char> {
    match read_instant(rfc3339) {
        Some(t) => duration_text(elapsed(now, t)),
        None => "?"@,
    }
}

/// Age of a past timestamp as a compact duration, e.g. `2d 3h`.
pub fn fmt_age(rfc3339: &str, now: Timestamp) -> (r: String)
    requires
        now.wf(),
    ensures
        r@ == age_text(rfc3339@, now),
        rfc3339_instant(rfc3339@) matches Some((secs, nanos)) ==> nanos < 1_000_000_000
            && now.ordinary() ==> r@ == duration_text(passed(now, Timestamp { secs, nanos })),
{
    match parse_rfc3339(rfc3339) {
        Some(t) => fmt_duration(seconds_elapsed(now, t)),
        None => text::copied("?"),
    }
}

pub open spec fn until_text(rfc3339: Seq<char>, now: Timestamp) -> Seq<char> {
    match read_instant(rfc3339) {
        Some(t) => duration_text(elapsed(t, now)),
        None => "?"@,
    }
}

/// Time until a future timestamp as a compact duration, e.g. `23h 4m`.
pub fn fmt_until(rfc3339: &str, now: Timestamp) -> (r: String)
    requires
        now.wf(),
    ensures
        r@ == until_text(rfc3339@, now),
        rfc3339_instant(rfc3339@) matches Some((secs, nanos)) ==> nanos < 1_000_000_000
            && now.ordinary() ==> r@ == duration_text(passed(Timestamp { secs, nanos }, now)),
{
    match parse_rfc3339(rfc3339) {
        Some(t) => fmt_duration(seconds_elapsed(t, now)),
        None => text::copied("?"),
    }
}

/// An age in prose.
pub open spec fn ago(secs: nat) -> Seq<char> {
    if secs < 60 {
        "just now"@
    } else if secs < 3600 {
        text::decimal(secs / 60) + " min ago"@
    } else if secs < 86400 {
        text::decimal(secs / 3600) + " h ago"@
    } else if secs < 172800 {
        "1 day ago"@
    } else {
        text::decimal(secs / 86400) + " days ago"@
    }
}

/// An age in prose, e.g. `2 min ago`.
pub fn fmt_seconds_ago(secs: u64) -> (r: String)
    ensures
        r@ == ago(secs as nat),
{
    let mut out = String::new();
    if secs < 60 {
        out.append("just now");
    } else if secs < 3600 {
        text::push_decimal(&mut out, secs / 60);
        out.append(" min ago");
    } else if secs < 86400 {
        text::push_decimal(&mut out, secs / 3600);
        out.append(" h ago");
    } else if secs < 172800 {
        out.append("1 day ago");
    } else {
        text::push_decimal(&mut out, secs / 86400);
        out.append(" days ago");
    }
    assert(out@ =~= ago(secs as nat));
    out
}

pub open spec fn ago_text(rfc3339: Seq<char>, now: Timestamp) -> Seq<char> {
    match read_instant(rfc3339) {
        Some(t) => ago(elapsed(now, t)),
        None => rfc3339,
    }
}

/// Age of a past timestamp in prose, e.g. `2 min ago`. What is no timestamp is shown
/// as it is.
pub fn fmt_ago(rfc3339: &str, now: Timestamp) -> (r: String)
    requires
        now.wf(),
    ensures
        r@ == ago_text(rfc3339@, now),
        rfc3339_instant(rfc3339@) matches Some((secs, nanos)) ==> nanos < 1_000_000_000
            && now.ordinary() ==> r@ == ago(passed(now, Timestamp { secs, nanos })),
{
    match parse_rfc3339(rfc3339) {
        Some(t) => fmt_seconds_ago(seconds_elapsed(now, t)),
        None => text::copied(rfc3339),
    }
}

/// A second as a text: that of the epoch where the second has no date.
pub open spec fn unix_text(secs: i64) -> Seq<char> {
    if MIN_SECS <= secs <= MAX_SECS {
        rfc3339_text(secs, 0)
    } else {
        rfc3339_text(0, 0)
    }
}

/// A second in the form of RFC 3339; the epoch where it has no date.
pub fn fmt_unix(secs: i64) -> (r: String)
    ensures
        r@ == unix_text(secs),
        -62167219200 <= secs <= 253402300799 ==> rfc3339_instant(r@) == Some((secs, 0u32)),
{
    match Timestamp::new(secs, 0) {
        Some(t) => fmt_rfc3339(t),
        None => fmt_rfc3339(Timestamp { secs: 0, nanos: 0 }),
    }
}

//-- How durations read -----------------------------------------------------------
/// A duration is shown by its two largest units: days and hours, hours and minutes, minutes,
/// or seconds. What is smaller is left out, not rounded.
pub proof fn durations_are_shown_by_their_largest_units(d: nat, h: nat, m: nat, s: nat)
    requires
        h < 24,
        m < 60,
        s < 60,
    ensures
        duration_text(86400 * d + 3600 * h + 60 * m + s) == if d > 0 {
            text::decimal(d) + "d "@ + text::decimal(h) + "h"@
        } else if h > 0 {
            text::decimal(h) + "h "@ + text::decimal(m) + "m"@
        } else if m > 0 {
            text::decimal(m) + "m"@
        } else {
            text::decimal(s) + "s"@
        },
{
    lemma_units(d, h, m, s);
}

proof fn lemma_units(d: nat, h: nat, m: nat, s: nat)
    requires
        h < 24,
        m < 60,
        s < 60,
    ensures
        ({
            let n = 86400 * d + 3600 * h + 60 * m + s;
            &&& n / 86400 == d
            &&& n % 86400 == 3600 * h + 60 * m + s
            &&& (n % 86400) / 3600 == h
            &&& n % 3600 == 60 * m + s
            &&& (n % 3600) / 60 == m
            &&& d == 0 ==> n / 3600 == h
            &&& d == 0 && h == 0 ==> n / 60 == m
        }),
{
    let n = (86400 * d + 3600 * h + 60 * m + s) as int;
    let rest = (3600 * h + 60 * m + s) as int;
    let low = (60 * m + s) as int;
    vstd::arithmetic::div_mod::lemma_fundamental_div_mod_converse(n, 86400, d as int, rest);
    vstd::arithmetic::div_mod::lemma_fundamental_div_mod_converse(rest, 3600, h as int, low);
    vstd::arithmetic::div_mod::lemma_fundamental_div_mod_converse(
        n,
        3600,
        (24 * d + h) as int,
        low,
    );
    vstd::arithmetic::div_mod::lemma_fundamental_div_mod_converse(low, 60, m as int, s as int);
}

/// An age in prose counts whole minutes below an hour, whole hours below a day, and whole
/// days from then on.
pub proof fn ages_are_told_by_their_largest_unit(d: nat, h: nat, m: nat, s: nat)
    requires
        h < 24,
        m < 60,
        s < 60,
    ensures
        ago(86400 * d + 3600 * h + 60 * m + s) == if d > 1 {
            text::decimal(d) + " days ago"@
        } else if d == 1 {
            "1 day ago"@
        } else if h > 0 {
            text::decimal(h) + " h ago"@
        } else if m > 0 {
            text::decimal(m) + " min ago"@
        } else {
            "just now"@
        },
{
    lemma_units(d, h, m, s);
}

/// Points in time are ordered as the nanoseconds that they are from the epoch.
pub proof fn points_in_time_are_ordered(a: Timestamp, b: Timestamp)
    requires
        a.ordinary(),
        b.ordinary(),
    ensures
        a.not_after(b) <==> a.secs * 1_000_000_000 + a.nanos <= b.secs * 1_000_000_000 + b.nanos,
{
}

/// A text that is no timestamp is shown as it is, or as unknown where an age is asked for; one
/// that is, by the instant that it writes. Ages count from it to now, what is left from now to
/// it, and neither below zero.
pub proof fn timestamps_are_shown_by_their_instant(s: Seq<char>, now: Timestamp)
    ensures
        match rfc3339_instant(s) {
            Some((secs, nanos)) => {
                let past = seconds_apart(now.secs, now.nanos, secs, nanos);
                let left = seconds_apart(secs, nanos, now.secs, now.nanos);
                &&& utc_text(s) == utc_minute_text(secs, nanos)
                &&& past >= 0 ==> age_text(s, now) == duration_text(past as nat) && ago_text(s, now)
                    == ago(past as nat)
                &&& past < 0 ==> age_text(s, now) == duration_text(0) && ago_text(s, now) == ago(0)
                &&& left >= 0 ==> until_text(s, now) == duration_text(left as nat)
                &&& left < 0 ==> until_text(s, now) == duration_text(0)
            },
            None => utc_text(s) == s && ago_text(s, now) == s && age_text(s, now) == "?"@
                && until_text(s, now) == "?"@,
        },
{
}

/// A second is written by the instant that it is.
pub proof fn seconds_are_written_as_they_are(secs: i64)
    ensures
        MIN_SECS <= secs <= MAX_SECS ==> unix_text(secs) == rfc3339_text(secs, 0),
{
}

/// What passed between two points in time are the whole seconds that the one is later, and
/// none where it is not.
pub proof fn whole_seconds_pass(earlier: Timestamp, later: Timestamp, d: nat)
    requires
        earlier.ordinary(),
        later.ordinary(),
    ensures
        later.secs == earlier.secs + d && later.nanos >= earlier.nanos ==> passed(later, earlier)
            == d,
        later.secs == earlier.secs + d + 1 && later.nanos < earlier.nanos ==> passed(
            later,
            earlier,
        ) == d,
        later.not_after(earlier) ==> passed(later, earlier) == 0,
{
    let nanos = (later.secs - earlier.secs) * 1_000_000_000 + later.nanos - earlier.nanos;
    if later.secs == earlier.secs + d && later.nanos >= earlier.nanos {
        vstd::arithmetic::div_mod::lemma_fundamental_div_mod_converse(
            nanos,
            1_000_000_000,
            d as int,
            later.nanos - earlier.nanos,
        );
    } else if later.secs == earlier.secs + d + 1 && later.nanos < earlier.nanos {
        vstd::arithmetic::div_mod::lemma_fundamental_div_mod_converse(
            nanos,
            1_000_000_000,
            d as int,
            later.nanos - earlier.nanos + 1_000_000_000,
        );
    }
}

} // verus!
