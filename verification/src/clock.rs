//! Points in time with the local offset from UTC, as `chrono` gives and writes them.

use chrono::Datelike;
use vstd::prelude::*;

use crate::digits;

verus! {

/// The first second that `chrono` can represent.
pub const MIN_SECONDS: i64 = -8_334_601_228_800;

/// The last second that `chrono` can represent.
pub const MAX_SECONDS: i64 = 8_210_266_876_799;

/// A point in time: seconds since 1970 in UTC, and the seconds to add for local time.
#[derive(Clone, Copy, Debug, PartialEq, Eq)]
pub struct LocalTime {
    pub secs: i64,
    pub offset: i32,
}

impl LocalTime {
    /// Whether the point in time lies in the range of `chrono`, and the offset is less than a day.
    pub open spec fn in_range(self) -> bool {
        &&& MIN_SECONDS <= self.secs <= MAX_SECONDS
        &&& -86_400 < self.offset < 86_400
    }

    /// The day since 1970, in local time.
    pub open spec fn day(self) -> int {
        (self.secs + self.offset) / 86_400
    }
}

/// The days from 1970 to the first of January of the year `y` in the Gregorian calendar.
pub open spec fn new_year(y: int) -> int {
    365 * (y - 1970) + (y - 1969) / 4 - (y - 1901) / 100 + (y - 1601) / 400
}

/// Whether the day lies in the year `y`.
pub open spec fn in_year(y: int, day: int) -> bool {
    new_year(y) <= day < new_year(y + 1)
}

/// Whether two points in time lie in the same calendar year, each by its own local time.
pub open spec fn same_year(a: LocalTime, b: LocalTime) -> bool {
    exists|y: int| #[trigger] in_year(y, a.day()) && in_year(y, b.day())
}

/// The calendar year in which a day lies.
pub open spec fn year_of(day: int) -> int {
    choose|y: int| #[trigger] in_year(y, day)
}

/// The days of the year `y` before its month `m`, counted from 1.
pub open spec fn month_start(y: int, m: int) -> int {
    let leap = new_year(y + 1) - new_year(y) - 365;
    if m <= 1 {
        0
    } else if m == 2 {
        31
    } else if m == 3 {
        59 + leap
    } else if m == 4 {
        90 + leap
    } else if m == 5 {
        120 + leap
    } else if m == 6 {
        151 + leap
    } else if m == 7 {
        181 + leap
    } else if m == 8 {
        212 + leap
    } else if m == 9 {
        243 + leap
    } else if m == 10 {
        273 + leap
    } else if m == 11 {
        304 + leap
    } else {
        334 + leap
    }
}

/// The last month of the year `y`, up to the month `m`, that has begun on its day `n`, counted from
/// 0.
pub open spec fn month_on(y: int, n: int, m: int) -> int
    decreases m,
{
    if m <= 1 || month_start(y, m) <= n {
        m
    } else {
        month_on(y, n, m - 1)
    }
}

/// The month in which a day lies, counted from 1.
pub open spec fn month_of(day: int) -> int {
    month_on(year_of(day), day - new_year(year_of(day)), 12)
}

/// The day of its month, counted from 1.
pub open spec fn day_of_month(day: int) -> int {
    day - new_year(year_of(day)) - month_start(year_of(day), month_of(day)) + 1
}

/// A number below 100 in two digits.
pub open spec fn two_digits(n: int) -> Seq<char> {
    seq![digits::digit((n / 10) as nat), digits::digit((n % 10) as nat)]
}

/// A year: at least four digits, with a sign if it is before the year 0 or after 9999.
pub open spec fn year_text(y: int) -> Seq<char> {
    let n = if y < 0 {
        -y
    } else {
        y
    };
    let sign = if y < 0 {
        "-"@
    } else if y > 9999 {
        "+"@
    } else {
        ""@
    };
    sign + (if n < 10_000 {
        two_digits(n / 100) + two_digits(n % 100)
    } else {
        digits::decimal(n as nat)
    })
}

/// The short English name of a month.
pub open spec fn month_text(m: int) -> Seq<char> {
    if m == 1 {
        "Jan"@
    } else if m == 2 {
        "Feb"@
    } else if m == 3 {
        "Mar"@
    } else if m == 4 {
        "Apr"@
    } else if m == 5 {
        "May"@
    } else if m == 6 {
        "Jun"@
    } else if m == 7 {
        "Jul"@
    } else if m == 8 {
        "Aug"@
    } else if m == 9 {
        "Sep"@
    } else if m == 10 {
        "Oct"@
    } else if m == 11 {
        "Nov"@
    } else {
        "Dec"@
    }
}

impl LocalTime {
    /// The seconds since midnight, in local time.
    pub open spec fn second(self) -> int {
        (self.secs + self.offset) % 86_400
    }

    /// Hour and minute.
    pub open spec fn hour_and_minute(self) -> Seq<char> {
        two_digits(self.second() / 3600) + ":"@ + two_digits(self.second() / 60 % 60)
    }
}

/// The date that a log entry carries: year, month and day in numbers, then the time to the second.
pub open spec fn log_stamp(t: LocalTime) -> Seq<char> {
    year_text(year_of(t.day())) + "-"@ + two_digits(month_of(t.day())) + "-"@ + two_digits(
        day_of_month(t.day()),
    ) + " "@ + t.hour_and_minute() + ":"@ + two_digits(t.second() % 60)
}

/// The name of the month and the day of the month.
pub open spec fn month_and_day(t: LocalTime) -> Seq<char> {
    month_text(month_of(t.day())) + " "@ + two_digits(day_of_month(t.day()))
}

/// What a pattern stands for. There are three: date and time for the log, and for a folder listing
/// the day with the time or with the year.
pub open spec fn pattern_text(t: LocalTime, pattern: Seq<char>) -> Seq<char> {
    if pattern == "%Y-%m-%d %H:%M:%S"@ {
        log_stamp(t)
    } else if pattern == "%b %d %H:%M"@ {
        month_and_day(t) + " "@ + t.hour_and_minute()
    } else {
        month_and_day(t) + "  "@ + year_text(year_of(t.day()))
    }
}

/// The patterns in use.
pub open spec fn known_pattern(pattern: Seq<char>) -> bool {
    ||| pattern == "%Y-%m-%d %H:%M:%S"@
    ||| pattern == "%b %d %H:%M"@
    ||| pattern == "%b %d  %Y"@
}

/// Calls `chrono::Local::now`. The time and the offset are whatever the machine says; they are in
/// the range of `chrono`.
#[verifier::external_body]
pub(crate) fn local_now() -> (t: LocalTime)
    ensures
        t.in_range(),
{
    let now = chrono::Local::now();
    LocalTime { secs: now.timestamp(), offset: now.offset().local_minus_utc() }
}

/// Calls `DateTime::with_timezone` with `chrono::Local`: the same point in time, with the offset
/// that the machine's time zone has then.
#[verifier::external_body]
pub(crate) fn local_time(secs: i64) -> (t: LocalTime)
    requires
        MIN_SECONDS <= secs <= MAX_SECONDS,
    ensures
        t.secs == secs,
        t.in_range(),
{
    let t = chrono::DateTime::from_timestamp(secs, 0).unwrap().with_timezone(&chrono::Local);
    LocalTime { secs: t.timestamp(), offset: t.offset().local_minus_utc() }
}

/// Calls `Datelike::year` on a `DateTime`: the Gregorian year in which the local day lies.
#[verifier::external_body]
pub(crate) fn local_year(t: LocalTime) -> (y: i32)
    requires
        t.in_range(),
    ensures
        in_year(y as int, t.day()),
{
    let zone = chrono::FixedOffset::east_opt(t.offset).unwrap();
    chrono::DateTime::from_timestamp(t.secs, 0).unwrap().with_timezone(&zone).year()
}

/// Calls `DateTime::format` and writes the result: the numbers of the Gregorian date and of the
/// local time with leading zeros, and the name of the month in English.
#[verifier::external_body]
pub(crate) fn local_format(t: LocalTime, pattern: &str) -> (s: String)
    requires
        t.in_range(),
        known_pattern(pattern@),
    ensures
        s@ == pattern_text(t, pattern@),
{
    let zone = chrono::FixedOffset::east_opt(t.offset).unwrap();
    let time = chrono::DateTime::from_timestamp(t.secs, 0).unwrap().with_timezone(&zone);
    time.format(pattern).to_string()
}

/// A year is 365 or 366 days long.
proof fn lemma_year_length(y: int)
    ensures
        365 <= new_year(y + 1) - new_year(y) <= 366,
{
    let fourth = y - 1968;
    let hundredth = y - 1900;
    let last = y - 1600;
    assert(fourth / 4 == (fourth - 1) / 4 + (if fourth % 4 == 0 {
        1int
    } else {
        0
    }));
    assert(hundredth / 100 == (hundredth - 1) / 100 + (if hundredth % 100 == 0 {
        1int
    } else {
        0
    }));
    assert(last / 400 == (last - 1) / 400 + (if last % 400 == 0 {
        1int
    } else {
        0
    }));
    assert(new_year(y) == 365 * (y - 1970) + (fourth - 1) / 4 - (hundredth - 1) / 100 + (last - 1) / 400);
    assert(new_year(y + 1) == 365 * (y - 1969) + fourth / 4 - hundredth / 100 + last / 400);
    if hundredth % 100 == 0 {
        let q = hundredth / 100;
        assert(fourth == 4 * (25 * q - 17));
    }
    if last % 400 == 0 {
        let q = last / 400;
        assert(hundredth == 100 * (4 * q - 3));
    }
}

/// A later year begins at least 365 days later.
proof fn lemma_new_year(a: int, b: int)
    requires
        a < b,
    ensures
        new_year(a) + 365 <= new_year(b),
    decreases b - a,
{
    lemma_year_length(b - 1);
    if a + 1 < b {
        lemma_new_year(a, b - 1);
    }
}

/// A day lies in one year only.
pub proof fn lemma_one_year(a: int, b: int, day: int)
    requires
        in_year(a, day),
        in_year(b, day),
    ensures
        a == b,
{
    if a + 1 < b {
        lemma_new_year(a + 1, b);
    }
    if b + 1 < a {
        lemma_new_year(b + 1, a);
    }
}

/// No two patterns are the same.
proof fn lemma_patterns_differ()
    ensures
        "%Y-%m-%d %H:%M:%S"@ != "%b %d %H:%M"@,
        "%Y-%m-%d %H:%M:%S"@ != "%b %d  %Y"@,
        "%b %d %H:%M"@ != "%b %d  %Y"@,
{
    reveal_strlit("%Y-%m-%d %H:%M:%S");
    reveal_strlit("%b %d %H:%M");
    reveal_strlit("%b %d  %Y");
    assert("%Y-%m-%d %H:%M:%S"@.len() == 17 && "%b %d %H:%M"@.len() == 11 && "%b %d  %Y"@.len() == 9);
}

/// The date in a folder listing: with the time of day in the current year, else with the year.
pub open spec fn list_stamp(modified: LocalTime, now: LocalTime) -> Seq<char> {
    if same_year(modified, now) {
        month_and_day(modified) + " "@ + modified.hour_and_minute()
    } else {
        month_and_day(modified) + "  "@ + year_text(year_of(modified.day()))
    }
}

/// The date in a folder listing.
pub fn list_date(modified: LocalTime, now: LocalTime) -> (s: String)
    requires
        modified.in_range(),
        now.in_range(),
    ensures
        s@ == list_stamp(modified, now),
{
    proof {
        lemma_patterns_differ();
    }
    let a: i32 = local_year(modified);
    let b: i32 = local_year(now);
    if a == b {
        assert(same_year(modified, now));
        local_format(modified, "%b %d %H:%M")
    } else {
        proof {
            if same_year(modified, now) {
                let y = choose|y: int|
                    #[trigger] in_year(y, modified.day()) && in_year(y, now.day());
                lemma_one_year(y, a as int, modified.day());
                lemma_one_year(y, b as int, now.day());
            }
        }
        local_format(modified, "%b %d  %Y")
    }
}

/// The date and time of a moment, as a log entry carries it.
pub fn log_date(t: LocalTime) -> (s: String)
    requires
        t.in_range(),
    ensures
        s@ == log_stamp(t),
        0 <= year_of(t.day()) <= 9999 ==> tells_moment(s@, t),
{
    proof {
        if 0 <= year_of(t.day()) <= 9999 {
            law_log_stamp(t);
        }
    }
    local_format(t, "%Y-%m-%d %H:%M:%S")
}

/// The date and time of now, as a log entry carries it.
pub fn timestamp() -> (s: String)
    ensures
        exists|t: LocalTime| t.in_range() && s@ == #[trigger] log_stamp(t),
{
    let t: LocalTime = local_now();
    log_date(t)
}

// ---------------------------------------------------------------------------
// Laws of the calendar
// ---------------------------------------------------------------------------

/// Every fourth year is a leap year, but of the hundredth years only every fourth; the count of days
/// begins with 1970.
pub proof fn law_leap_years(y: int)
    ensures
        new_year(1970) == 0,
        new_year(y + 1) - new_year(y) == if y % 4 == 0 && (y % 100 != 0 || y % 400 == 0) {
            366int
        } else {
            365
        },
{
    let fourth = y - 1968;
    let hundredth = y - 1900;
    let last = y - 1600;
    assert(fourth / 4 == (fourth - 1) / 4 + (if fourth % 4 == 0 {
        1int
    } else {
        0
    }));
    assert(hundredth / 100 == (hundredth - 1) / 100 + (if hundredth % 100 == 0 {
        1int
    } else {
        0
    }));
    assert(last / 400 == (last - 1) / 400 + (if last % 400 == 0 {
        1int
    } else {
        0
    }));
    assert(new_year(y) == 365 * (y - 1970) + (fourth - 1) / 4 - (hundredth - 1) / 100 + (last - 1) / 400);
    assert(new_year(y + 1) == 365 * (y - 1969) + fourth / 4 - hundredth / 100 + last / 400);
}

/// The months have 31 and 30 days in turn, with the known exceptions, and fill the year.
pub proof fn law_month_lengths(y: int, m: int)
    requires
        1 <= m <= 12,
    ensures
        month_start(y, 1) == 0,
        m < 12 ==> month_start(y, m + 1) - month_start(y, m) == if m == 2 {
            if y % 4 == 0 && (y % 100 != 0 || y % 400 == 0) {
                29int
            } else {
                28
            }
        } else if m == 4 || m == 6 || m == 9 || m == 11 {
            30
        } else {
            31
        },
        new_year(y + 1) - new_year(y) - month_start(y, 12) == 31,
{
    law_leap_years(y);
}

/// Every day lies in some year.
proof fn lemma_some_year(day: int)
    ensures
        exists|y: int| #[trigger] in_year(y, day),
    decreases if day < 0 {
        -day
    } else {
        day
    },
{
    law_leap_years(1970);
    if day == 0 {
        assert(in_year(1970, 0));
    } else if day > 0 {
        lemma_some_year(day - 1);
        let y = choose|y: int| #[trigger] in_year(y, day - 1);
        lemma_year_length(y);
        lemma_year_length(y + 1);
        assert(in_year(y, day) || in_year(y + 1, day));
    } else {
        lemma_some_year(day + 1);
        let y = choose|y: int| #[trigger] in_year(y, day + 1);
        lemma_year_length(y);
        lemma_year_length(y - 1);
        assert(in_year(y, day) || in_year(y - 1, day));
    }
}

/// The month that has begun on a day is the last one to have done so.
proof fn lemma_month_on(y: int, n: int, m: int)
    requires
        0 <= n,
        1 <= m <= 12,
        m < 12 ==> n < month_start(y, m + 1),
        m == 12 ==> n < new_year(y + 1) - new_year(y),
    ensures
        ({
            let r = month_on(y, n, m);
            &&& 1 <= r <= m
            &&& month_start(y, r) <= n
            &&& r < 12 ==> n < month_start(y, r + 1)
        }),
    decreases m,
{
    if m > 1 && month_start(y, m) > n {
        lemma_month_on(y, n, m - 1);
    }
}

/// Year, month and day of the month make up the day, and the day of the month is one that the month
/// has.
pub proof fn law_date_of_day(day: int)
    ensures
        ({
            let y = year_of(day);
            let m = month_of(day);
            let d = day_of_month(day);
            &&& new_year(y) <= day < new_year(y + 1)
            &&& 1 <= m <= 12
            &&& 1 <= d <= 31
            &&& new_year(y) + month_start(y, m) + (d - 1) == day
            &&& m < 12 ==> d <= month_start(y, m + 1) - month_start(y, m)
        }),
{
    lemma_some_year(day);
    let y = year_of(day);
    assert(in_year(y, day));
    lemma_month_on(y, day - new_year(y), 12);
    law_month_lengths(y, month_of(day));
}

/// The number that two digits write.
proof fn lemma_two_digits(n: int)
    requires
        0 <= n < 100,
    ensures
        two_digits(n).len() == 2,
        digits::is_digit(two_digits(n)[0]),
        digits::is_digit(two_digits(n)[1]),
        digits::value(two_digits(n)) == n,
{
    let s = two_digits(n);
    let none = Seq::<char>::empty();
    digits::law_place_value(none, s[0]);
    digits::law_place_value(none.push(s[0]), s[1]);
    assert(s =~= none.push(s[0]).push(s[1]));
}

/// The number that four digits write.
proof fn lemma_four_digits(n: int)
    requires
        0 <= n < 10_000,
    ensures
        ({
            let s = two_digits(n / 100) + two_digits(n % 100);
            s.len() == 4 && digits::value(s) == n
        }),
{
    let a = two_digits(n / 100);
    let b = two_digits(n % 100);
    lemma_two_digits(n / 100);
    lemma_two_digits(n % 100);
    let none = Seq::<char>::empty();
    digits::law_place_value(a, b[0]);
    digits::law_place_value(a.push(b[0]), b[1]);
    digits::law_place_value(none, b[0]);
    digits::law_place_value(none.push(b[0]), b[1]);
    assert(b =~= none.push(b[0]).push(b[1]));
    assert(a + b =~= a.push(b[0]).push(b[1]));
}

/// Whether a text tells a moment to the second: its year, month, day, hour, minute and second in
/// digits.
pub open spec fn tells_moment(s: Seq<char>, t: LocalTime) -> bool {
    let y = digits::value(s.subrange(0, 4)) as int;
    let m = digits::value(s.subrange(5, 7)) as int;
    let d = digits::value(s.subrange(8, 10)) as int;
    let hour = digits::value(s.subrange(11, 13)) as int;
    let minute = digits::value(s.subrange(14, 16)) as int;
    let second = digits::value(s.subrange(17, 19)) as int;
    &&& s.len() == 19
    &&& s[4] == '-' && s[7] == '-' && s[10] == ' ' && s[13] == ':' && s[16] == ':'
    &&& 1 <= m <= 12 && 1 <= d <= 31 && hour < 24 && minute < 60 && second < 60
    &&& m < 12 ==> d <= month_start(y, m + 1) - month_start(y, m)
    &&& 86_400 * (new_year(y) + month_start(y, m) + (d - 1)) + 3600 * hour + 60 * minute + second
        == t.secs + t.offset
}

/// Hour and minute in digits.
proof fn lemma_hour_and_minute(t: LocalTime)
    ensures
        ({
            let s = t.hour_and_minute();
            &&& s.len() == 5
            &&& s[2] == ':'
            &&& digits::value(s.subrange(0, 2)) == t.second() / 3600
            &&& digits::value(s.subrange(3, 5)) == t.second() / 60 % 60
        }),
{
    reveal_strlit(":");
    let s = t.hour_and_minute();
    lemma_two_digits(t.second() / 3600);
    lemma_two_digits(t.second() / 60 % 60);
    assert(s.subrange(0, 2) =~= two_digits(t.second() / 3600));
    assert(s.subrange(3, 5) =~= two_digits(t.second() / 60 % 60));
}

/// The date of a log entry tells its moment, from the year 0 to the year 9999.
pub proof fn law_log_stamp(t: LocalTime)
    requires
        0 <= year_of(t.day()) <= 9999,
    ensures
        tells_moment(log_stamp(t), t),
{
    reveal_strlit("");
    reveal_strlit("-");
    reveal_strlit(":");
    reveal_strlit(" ");
    let s = log_stamp(t);
    let y = year_of(t.day());
    let m = month_of(t.day());
    let d = day_of_month(t.day());
    let clock = t.hour_and_minute();
    law_date_of_day(t.day());
    lemma_four_digits(y);
    lemma_two_digits(m);
    lemma_two_digits(d);
    lemma_hour_and_minute(t);
    lemma_two_digits(t.second() % 60);
    assert(year_text(y) =~= two_digits(y / 100) + two_digits(y % 100));
    assert(s.subrange(0, 4) =~= year_text(y));
    assert(s.subrange(5, 7) =~= two_digits(m));
    assert(s.subrange(8, 10) =~= two_digits(d));
    assert(s.subrange(11, 16) =~= clock);
    assert(s.subrange(11, 13) =~= clock.subrange(0, 2));
    assert(s.subrange(14, 16) =~= clock.subrange(3, 5));
    assert(s[13] == clock[2]);
    assert(s.subrange(17, 19) =~= two_digits(t.second() % 60));
    let q = t.second();
    assert(q == 3600 * (q / 3600) + 60 * (q / 60 % 60) + q % 60);
}

/// The date in a folder listing begins with the month and the day, and then tells the time of day
/// exactly if the moment lies in the current year, and else the year.
pub proof fn law_list_stamp(t: LocalTime, now: LocalTime)
    requires
        0 <= year_of(t.day()) <= 9999,
    ensures
        ({
            let s = list_stamp(t, now);
            &&& s.len() == 12
            &&& s[3] == ' ' && s[6] == ' '
            &&& s.take(3) == month_text(month_of(t.day()))
            &&& digits::value(s.subrange(4, 6)) == day_of_month(t.day())
            &&& year_of(t.day()) == year_of(now.day()) ==> {
                &&& s[9] == ':'
                &&& digits::value(s.subrange(7, 9)) == (t.secs + t.offset) % 86_400 / 3600
                &&& digits::value(s.subrange(10, 12)) == (t.secs + t.offset) % 3600 / 60
            }
            &&& year_of(t.day()) != year_of(now.day()) ==> {
                &&& s[7] == ' '
                &&& digits::value(s.subrange(8, 12)) == year_of(t.day())
            }
        }),
{
    reveal_strlit("");
    reveal_strlit(" ");
    reveal_strlit("  ");
    reveal_strlit("Jan");
    reveal_strlit("Feb");
    reveal_strlit("Mar");
    reveal_strlit("Apr");
    reveal_strlit("May");
    reveal_strlit("Jun");
    reveal_strlit("Jul");
    reveal_strlit("Aug");
    reveal_strlit("Sep");
    reveal_strlit("Oct");
    reveal_strlit("Nov");
    reveal_strlit("Dec");
    let s = list_stamp(t, now);
    let y = year_of(t.day());
    let d = day_of_month(t.day());
    let clock = t.hour_and_minute();
    law_date_of_day(t.day());
    law_date_of_day(now.day());
    lemma_four_digits(y);
    lemma_two_digits(d);
    lemma_hour_and_minute(t);
    assert(month_text(month_of(t.day())).len() == 3);
    assert(s.take(3) =~= month_text(month_of(t.day())));
    assert(s.subrange(4, 6) =~= two_digits(d));
    assert(in_year(y, t.day()) && in_year(year_of(now.day()), now.day()));
    if same_year(t, now) {
        let z = choose|z: int| #[trigger] in_year(z, t.day()) && in_year(z, now.day());
        lemma_one_year(z, y, t.day());
        lemma_one_year(z, year_of(now.day()), now.day());
        assert(s.subrange(7, 12) =~= clock);
        assert(s[9] == clock[2]);
        assert(s.subrange(7, 9) =~= clock.subrange(0, 2));
        assert(s.subrange(10, 12) =~= clock.subrange(3, 5));
    } else {
        assert(year_text(y) =~= two_digits(y / 100) + two_digits(y % 100));
        assert(s.subrange(8, 12) =~= year_text(y));
    }
}

/// The names of the months, in their order.
pub proof fn law_month_names()
    ensures
        month_text(1) == seq!['J', 'a', 'n'],
        month_text(2) == seq!['F', 'e', 'b'],
        month_text(3) == seq!['M', 'a', 'r'],
        month_text(4) == seq!['A', 'p', 'r'],
        month_text(5) == seq!['M', 'a', 'y'],
        month_text(6) == seq!['J', 'u', 'n'],
        month_text(7) == seq!['J', 'u', 'l'],
        month_text(8) == seq!['A', 'u', 'g'],
        month_text(9) == seq!['S', 'e', 'p'],
        month_text(10) == seq!['O', 'c', 't'],
        month_text(11) == seq!['N', 'o', 'v'],
        month_text(12) == seq!['D', 'e', 'c'],
{
    reveal_strlit("Jan");
    reveal_strlit("Feb");
    reveal_strlit("Mar");
    reveal_strlit("Apr");
    reveal_strlit("May");
    reveal_strlit("Jun");
    reveal_strlit("Jul");
    reveal_strlit("Aug");
    reveal_strlit("Sep");
    reveal_strlit("Oct");
    reveal_strlit("Nov");
    reveal_strlit("Dec");
    assert(month_text(1) =~= seq!['J', 'a', 'n']);
    assert(month_text(2) =~= seq!['F', 'e', 'b']);
    assert(month_text(3) =~= seq!['M', 'a', 'r']);
    assert(month_text(4) =~= seq!['A', 'p', 'r']);
    assert(month_text(5) =~= seq!['M', 'a', 'y']);
    assert(month_text(6) =~= seq!['J', 'u', 'n']);
    assert(month_text(7) =~= seq!['J', 'u', 'l']);
    assert(month_text(8) =~= seq!['A', 'u', 'g']);
    assert(month_text(9) =~= seq!['S', 'e', 'p']);
    assert(month_text(10) =~= seq!['O', 'c', 't']);
    assert(month_text(11) =~= seq!['N', 'o', 'v']);
    assert(month_text(12) =~= seq!['D', 'e', 'c']);
}

/// A day between the new years of two years lies in a year between them.
pub proof fn lemma_year_between(y: int, day: int)
    requires
        in_year(y, day),
        new_year(0) <= day < new_year(10_000),
    ensures
        0 <= y < 10_000,
{
    if y < 0 {
        if y + 1 < 0 {
            lemma_new_year(y + 1, 0);
        }
    }
    if y >= 10_000 && y > 10_000 {
        lemma_new_year(10_000, y);
    }
}

} // verus!
