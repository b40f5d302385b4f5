//! Calendar dates of the proleptic Gregorian calendar.
//!
//! A [`Date`] holds a year, a month and a day as plain numbers. Its meaning is
//! given by [`day_number`], the count of days since the day before
//! 0001-01-01: two dates are in calendar order exactly when their day numbers
//! are, and the day of the week is the day number modulo seven. The date
//! arithmetic itself is done by `chrono`; this module states what that
//! arithmetic returns in terms of day numbers, and
//! [`Date::num_days_from_ce`] computes the day number, so that the two can
//! be held against each other.

use crate::text::{short_number, two_digits};
use chrono::{Datelike, NaiveDate, TimeDelta};
use vstd::prelude::*;
use vstd::string::{StrSliceExecFns, StringExecFns};

verus! {

/// The first year in which every day is a representable date.
pub const MIN_YEAR: i32 = -262143;

/// The last year in which every day is a representable date.
pub const MAX_YEAR: i32 = 262142;

/// Whether `year` has a 29th of February.
pub open spec fn is_leap_year(year: int) -> bool {
    year % 4 == 0 && (year % 100 != 0 || year % 400 == 0)
}

/// The number of days of `year`.
pub open spec fn days_in_year(year: int) -> int {
    if is_leap_year(year) {
        366
    } else {
        365
    }
}

/// The number of days of month `month` (1 to 12) of `year`.
pub open spec fn days_in_month(year: int, month: int) -> int {
    if month == 2 {
        if is_leap_year(year) {
            29
        } else {
            28
        }
    } else if month == 4 || month == 6 || month == 9 || month == 11 {
        30
    } else {
        31
    }
}

/// The number of days of `year` that lie before the first day of `month`.
pub open spec fn days_before_month(year: int, month: int) -> int {
    let leap_day: int = if month > 2 && is_leap_year(year) {
        1
    } else {
        0
    };
    let before: int = if month <= 1 {
        0
    } else if month == 2 {
        31
    } else if month == 3 {
        59
    } else if month == 4 {
        90
    } else if month == 5 {
        120
    } else if month == 6 {
        151
    } else if month == 7 {
        181
    } else if month == 8 {
        212
    } else if month == 9 {
        243
    } else if month == 10 {
        273
    } else if month == 11 {
        304
    } else {
        334
    };
    before + leap_day
}

/// The number of days between 0001-01-01 and the first day of `year`
/// (negative for years before year 1).
#[verifier::opaque]
pub open spec fn days_before_year(year: int) -> int {
    365 * (year - 1) + (year - 1) / 4 - (year - 1) / 100 + (year - 1) / 400
}

/// The day number of a calendar day: 0001-01-01 is day 1, and each following
/// day is one more.
pub open spec fn day_number(year: int, month: int, day: int) -> int {
    days_before_year(year) + days_before_month(year, month) + day
}

/// Whether year, month and day name a day that exists and is representable.
pub open spec fn valid_ymd(year: int, month: int, day: int) -> bool {
    &&& MIN_YEAR <= year <= MAX_YEAR
    &&& 1 <= month <= 12
    &&& 1 <= day <= days_in_month(year, month)
}

/// The day number of the first representable date.
pub open spec fn min_day_number() -> int {
    day_number(MIN_YEAR as int, 1, 1)
}

/// The day number of the last representable date.
pub open spec fn max_day_number() -> int {
    day_number(MAX_YEAR as int, 12, 31)
}

/// The day number of the Sunday on or before day `n`. Day 1 is a Monday, so
/// the Sundays are the multiples of seven.
pub open spec fn sunday_on_or_before(n: int) -> int {
    n - n % 7
}

/// A calendar date.
#[derive(Clone, Copy, Debug, PartialEq, Eq, Structural, PartialOrd, Ord, Hash)]
pub struct Date {
    pub year: i32,
    pub month: u32,
    pub day: u32,
}

impl Date {
    /// Whether the date names a day that exists and is representable.
    pub open spec fn wf(self) -> bool {
        valid_ymd(self.year as int, self.month as int, self.day as int)
    }

    /// The date's day number.
    pub open spec fn day_number(self) -> int {
        day_number(self.year as int, self.month as int, self.day as int)
    }

    /// Days since the last Sunday: 0 for a Sunday, 6 for a Saturday.
    pub open spec fn days_from_sunday(self) -> int {
        self.day_number() % 7
    }

    /// Whether this date is `other` or an earlier day, read off year, month
    /// and day.
    pub open spec fn on_or_before(self, other: Date) -> bool {
        self.year < other.year || (self.year == other.year && (self.month < other.month || (
        self.month == other.month && self.day <= other.day)))
    }

    /// Whether the date is the first day of its month.
    pub open spec fn is_month_start(self) -> bool {
        self.day == 1
    }

    /// Whether the date is the last day of its month.
    pub open spec fn is_month_end(self) -> bool {
        self.day == days_in_month(self.year as int, self.month as int)
    }
}

/// A quotient grows by one where the dividend reaches a multiple of the
/// divisor.
proof fn lemma_quotient_step(x: int)
    ensures
        (x + 1) / 4 == x / 4 + if (x + 1) % 4 == 0 {
            1int
        } else {
            0int
        },
        (x + 1) / 100 == x / 100 + if (x + 1) % 100 == 0 {
            1int
        } else {
            0int
        },
        (x + 1) / 400 == x / 400 + if (x + 1) % 400 == 0 {
            1int
        } else {
            0int
        },
{
}

/// One year follows the other without a gap.
pub proof fn lemma_year_length(year: int)
    ensures
        days_before_year(year + 1) == days_before_year(year) + days_in_year(year),
{
    reveal(days_before_year);
    lemma_quotient_step(year - 1);
}

/// Later years start later, by at least 365 days for each year between.
pub proof fn lemma_years_ordered(y1: int, y2: int)
    requires
        y1 <= y2,
    ensures
        days_before_year(y2) - days_before_year(y1) >= 365 * (y2 - y1),
        days_before_year(y2) - days_before_year(y1) <= 366 * (y2 - y1),
    decreases y2 - y1,
{
    if y1 < y2 {
        lemma_years_ordered(y1, y2 - 1);
        lemma_year_length(y2 - 1);
    }
}

/// One month follows the other without a gap, and December ends the year.
pub proof fn lemma_month_length(year: int, month: int)
    requires
        1 <= month <= 12,
    ensures
        days_before_month(year, month) + days_in_month(year, month) == if month == 12 {
            days_in_year(year)
        } else {
            days_before_month(year, month + 1)
        },
        0 <= days_before_month(year, month),
        days_before_month(year, month) + days_in_month(year, month) <= days_in_year(year),
{
}

/// Months of one year are in order.
pub proof fn lemma_months_ordered(year: int, m1: int, m2: int)
    requires
        1 <= m1 < m2 <= 12,
    ensures
        days_before_month(year, m1) + days_in_month(year, m1) <= days_before_month(year, m2),
{
}

/// Calendar order and the order of day numbers agree on dates that exist, so
/// a date is determined by its day number.
pub proof fn lemma_day_number_order(a: Date, b: Date)
    requires
        a.wf(),
        b.wf(),
    ensures
        a.on_or_before(b) <==> a.day_number() <= b.day_number(),
        a.day_number() == b.day_number() <==> a == b,
{
    let (ay, am, ad) = (a.year as int, a.month as int, a.day as int);
    let (by, bm, bd) = (b.year as int, b.month as int, b.day as int);
    lemma_month_length(ay, am);
    lemma_month_length(by, bm);
    if ay < by {
        lemma_years_ordered(ay + 1, by);
        lemma_year_length(ay);
    } else if by < ay {
        lemma_years_ordered(by + 1, ay);
        lemma_year_length(by);
    } else if am < bm {
        lemma_months_ordered(ay, am, bm);
    } else if bm < am {
        lemma_months_ordered(ay, bm, am);
    }
}

/// Every date that exists lies between the first and the last representable
/// date, and the days of its year lie between the year's first and last day.
pub proof fn lemma_day_number_bounds(d: Date)
    requires
        d.wf(),
    ensures
        min_day_number() <= d.day_number() <= max_day_number(),
        day_number(d.year as int, 1, 1) <= d.day_number() <= day_number(d.year as int, 12, 31),
{
    let first = Date { year: MIN_YEAR, month: 1, day: 1 };
    let last = Date { year: MAX_YEAR, month: 12, day: 31 };
    lemma_day_number_order(first, d);
    lemma_day_number_order(d, last);
    lemma_month_length(d.year as int, d.month as int);
}

/// The day after a date: the date whose day number is one more.
pub open spec fn next_date(date: Date) -> Date {
    if date.day < days_in_month(date.year as int, date.month as int) {
        Date { year: date.year, month: date.month, day: (date.day + 1) as u32 }
    } else if date.month < 12 {
        Date { year: date.year, month: (date.month + 1) as u32, day: 1 }
    } else {
        Date { year: (date.year + 1) as i32, month: 1, day: 1 }
    }
}

/// Every date but the last representable one is followed by a date.
pub proof fn lemma_next_date(date: Date)
    requires
        date.wf(),
        date.day_number() < max_day_number(),
    ensures
        next_date(date).wf(),
        next_date(date).day_number() == date.day_number() + 1,
{
    lemma_month_length(date.year as int, date.month as int);
    lemma_year_length(date.year as int);
    lemma_day_number_order(date, Date { year: MAX_YEAR, month: 12, day: 31 });
}

/// Every day number between those of the first and the last representable
/// date is the day number of a date, so the calendar has no gap.
pub proof fn lemma_every_day_has_a_date(n: int) -> (date: Date)
    requires
        min_day_number() <= n <= max_day_number(),
    ensures
        date.wf(),
        date.day_number() == n,
    decreases n - min_day_number(),
{
    if n == min_day_number() {
        Date { year: MIN_YEAR, month: 1, day: 1 }
    } else {
        let before = lemma_every_day_has_a_date(n - 1);
        lemma_next_date(before);
        next_date(before)
    }
}

impl Date {
    /// The date with the given year, month and day, if that day exists.
    pub fn from_ymd_opt(year: i32, month: u32, day: u32) -> (date: Option<Date>)
        ensures
            date is Some <==> valid_ymd(year as int, month as int, day as int),
            date is Some ==> date->0 == (Date { year, month, day }),
    {
        checked_date(year, month, day)
    }

    /// The date's day number: the count of days from 0001-01-01, which is
    /// day 1, to this date.
    pub fn num_days_from_ce(&self) -> (n: i64)
        requires
            self.wf(),
        ensures
            n == self.day_number(),
    {
        let y: i64 = self.year as i64 - 1;
        let before_year: i64 = 365 * y + floor_quotient(y, 4) - floor_quotient(y, 100)
            + floor_quotient(y, 400);
        let leap = self.year % 4 == 0 && (self.year % 100 != 0 || self.year % 400 == 0);
        let leap_day: i64 = if self.month > 2 && leap {
            1
        } else {
            0
        };
        let before_month: i64 = if self.month == 1 {
            0
        } else if self.month == 2 {
            31
        } else if self.month == 3 {
            59
        } else if self.month == 4 {
            90
        } else if self.month == 5 {
            120
        } else if self.month == 6 {
            151
        } else if self.month == 7 {
            181
        } else if self.month == 8 {
            212
        } else if self.month == 9 {
            243
        } else if self.month == 10 {
            273
        } else if self.month == 11 {
            304
        } else {
            334
        };
        proof {
            reveal(days_before_year);
        }
        before_year + before_month + leap_day + self.day as i64
    }

    /// Whether this date is `other` or an earlier day.
    pub fn is_on_or_before(&self, other: &Date) -> (earlier: bool)
        ensures
            earlier == self.on_or_before(*other),
            self.wf() && other.wf() ==> earlier == (self.day_number() <= other.day_number()),
    {
        proof {
            if self.wf() && other.wf() {
                lemma_day_number_order(*self, *other);
            }
        }
        self.year < other.year || (self.year == other.year && (self.month < other.month || (
        self.month == other.month && self.day <= other.day)))
    }

    /// The later of two dates.
    pub fn later_of(self, other: Date) -> (later: Date)
        ensures
            later == if self.on_or_before(other) {
                other
            } else {
                self
            },
    {
        if self.is_on_or_before(&other) {
            other
        } else {
            self
        }
    }

    /// The earlier of two dates.
    pub fn earlier_of(self, other: Date) -> (earlier: Date)
        ensures
            earlier == if self.on_or_before(other) {
                self
            } else {
                other
            },
    {
        if self.is_on_or_before(&other) {
            self
        } else {
            other
        }
    }
}

/// The quotient of `a` by `b`, rounded down.
fn floor_quotient(a: i64, b: i64) -> (q: i64)
    requires
        -1_000_000 <= a <= 1_000_000,
        b == 4 || b == 100 || b == 400,
    ensures
        q == a as int / b as int,
{
    if a >= 0 {
        a / b
    } else {
        -((b - 1 - a) / b)
    }
}

/// `NaiveDate::from_ymd_opt`, which gives a date exactly for the year, month
/// and day that name an existing day within the representable years.
#[verifier::external_body]
pub(crate) fn checked_date(year: i32, month: u32, day: u32) -> (date: Option<Date>)
    ensures
        date is Some <==> valid_ymd(year as int, month as int, day as int),
        date is Some ==> date->0 == (Date { year, month, day }),
{
    match NaiveDate::from_ymd_opt(year, month, day) {
        Some(d) => Some(Date { year: d.year(), month: d.month(), day: d.day() }),
        None => None,
    }
}

/// `NaiveDate::pred_opt`, the previous calendar day: the day whose number is
/// one less, and none before the first representable date.
#[verifier::external_body]
pub(crate) fn day_before(date: Date) -> (previous: Option<Date>)
    requires
        date.wf(),
    ensures
        previous is Some <==> date.day_number() > min_day_number(),
        previous is Some ==> previous->0.wf() && previous->0.day_number() == date.day_number() - 1,
{
    match NaiveDate::from_ymd_opt(date.year, date.month, date.day).unwrap().pred_opt() {
        Some(d) => Some(Date { year: d.year(), month: d.month(), day: d.day() }),
        None => None,
    }
}

/// `Datelike::weekday` of a `NaiveDate`, counted from Sunday by
/// `Weekday::num_days_from_sunday`: the day number modulo seven, as day 1
/// of the proleptic Gregorian calendar is a Monday.
#[verifier::external_body]
pub(crate) fn days_from_sunday(date: Date) -> (days: u32)
    requires
        date.wf(),
    ensures
        days == date.days_from_sunday(),
{
    NaiveDate::from_ymd_opt(date.year, date.month, date.day).unwrap().weekday().num_days_from_sunday()
}

/// `NaiveDate + TimeDelta::days(days)`: the date `days` days later, which
/// exists by [`lemma_every_day_has_a_date`]. The sum panics outside the
/// representable dates, which `requires` leaves out.
#[verifier::external_body]
pub(crate) fn plus_days(date: Date, days: i64) -> (later: Date)
    requires
        date.wf(),
        i32::MIN <= days <= i32::MAX,
        min_day_number() <= date.day_number() + days <= max_day_number(),
    ensures
        later.wf(),
        later.day_number() == date.day_number() + days,
{
    let d = NaiveDate::from_ymd_opt(date.year, date.month, date.day).unwrap() + TimeDelta::days(days);
    Date { year: d.year(), month: d.month(), day: d.day() }
}

/// `NaiveDate - TimeDelta::days(days)`: the date `days` days earlier, which
/// exists by [`lemma_every_day_has_a_date`]. The difference panics outside
/// the representable dates, which `requires` leaves out.
#[verifier::external_body]
pub(crate) fn minus_days(date: Date, days: i64) -> (earlier: Date)
    requires
        date.wf(),
        i32::MIN < days <= i32::MAX,
        min_day_number() <= date.day_number() - days <= max_day_number(),
    ensures
        earlier.wf(),
        earlier.day_number() == date.day_number() - days,
{
    let d = NaiveDate::from_ymd_opt(date.year, date.month, date.day).unwrap() - TimeDelta::days(days);
    Date { year: d.year(), month: d.month(), day: d.day() }
}

/// `NaiveDate - NaiveDate`, read in whole days by `TimeDelta::num_days`: the
/// difference of the two day numbers.
#[verifier::external_body]
pub(crate) fn days_between(later: Date, earlier: Date) -> (days: i64)
    requires
        later.wf(),
        earlier.wf(),
    ensures
        days == later.day_number() - earlier.day_number(),
{
    let a = NaiveDate::from_ymd_opt(later.year, later.month, later.day).unwrap();
    let b = NaiveDate::from_ymd_opt(earlier.year, earlier.month, earlier.day).unwrap();
    (a - b).num_days()
}

/// The English name of a month, cut to three letters.
pub open spec fn month_abbreviation(month: int) -> Seq<char> {
    if month == 1 {
        "Jan"@
    } else if month == 2 {
        "Feb"@
    } else if month == 3 {
        "Mar"@
    } else if month == 4 {
        "Apr"@
    } else if month == 5 {
        "May"@
    } else if month == 6 {
        "Jun"@
    } else if month == 7 {
        "Jul"@
    } else if month == 8 {
        "Aug"@
    } else if month == 9 {
        "Sep"@
    } else if month == 10 {
        "Oct"@
    } else if month == 11 {
        "Nov"@
    } else {
        "Dec"@
    }
}

/// `NaiveDate::format` with the pattern `%b %d`, written out: the
/// abbreviated name of the month, which always has three letters, a space,
/// and the day of the month in two digits.
#[verifier::external_body]
pub(crate) fn month_and_day(date: Date) -> (text: String)
    requires
        date.wf(),
    ensures
        text@ == month_abbreviation(date.month as int) + seq![' '] + two_digits(date.day as int),
{
    NaiveDate::from_ymd_opt(date.year, date.month, date.day).unwrap().format("%b %d").to_string()
}

/// The place of the last space in `text`, or -1 where it has none.
pub open spec fn last_space(text: Seq<char>) -> int
    decreases text.len(),
{
    if text.len() == 0 {
        -1
    } else if text.last() == ' ' {
        text.len() - 1
    } else {
        last_space(text.drop_last())
    }
}

/// The text without the zero that follows its last space, if one does.
pub open spec fn without_zero_after_last_space(text: Seq<char>) -> Seq<char> {
    let space = last_space(text);
    if 0 <= space && space + 1 < text.len() && text[space + 1] == '0' {
        text.take(space + 1) + text.skip(space + 2)
    } else {
        text
    }
}

/// The last space of a text is the space behind which no space follows.
proof fn lemma_last_space(text: Seq<char>, place: int)
    requires
        -1 <= place < text.len(),
        place >= 0 ==> text[place] == ' ',
        forall|k: int| place < k < text.len() ==> text[k] != ' ',
    ensures
        last_space(text) == place,
    decreases text.len(),
{
    if text.len() > 0 && place < text.len() - 1 {
        assert(text.last() == text[text.len() - 1]);
        lemma_last_space(text.drop_last(), place);
    }
}

/// A date label without the zero before a one-digit day: the text without
/// the zero that follows its last space.
pub fn drop_day_zero(formatted: &str) -> (text: String)
    ensures
        text@ == without_zero_after_last_space(formatted@),
{
    let length = formatted.unicode_len();
    let mut place = length;
    while place > 0 && formatted.get_char(place - 1) != ' '
        invariant
            place <= length == formatted@.len(),
            forall|k: int| place <= k < length ==> formatted@[k] != ' ',
        decreases place,
    {
        place -= 1;
    }
    proof {
        lemma_last_space(formatted@, place as int - 1);
    }
    if place > 0 && place < length && formatted.get_char(place) == '0' {
        let mut text = String::from_str(formatted.substring_char(0, place));
        text.append(formatted.substring_char(place + 1, length));
        assert(text@ =~= formatted@.take(place as int) + formatted@.skip(place as int + 1));
        text
    } else {
        String::from_str(formatted)
    }
}

/// The short label of a date: the abbreviated name of its month and the day
/// of the month without a leading zero, such as `Mar 9`.
pub fn format_short_date(date: Date) -> (text: String)
    requires
        date.wf(),
    ensures
        text@ == month_abbreviation(date.month as int) + seq![' '] + short_number(date.day as int),
{
    let formatted = month_and_day(date);
    proof {
        let name = month_abbreviation(date.month as int);
        let long = name + seq![' '] + two_digits(date.day as int);
        reveal_strlit("Jan");
        reveal_strlit("Feb");
        reveal_strlit("Mar");
        reveal_strlit("Apr");
        reveal_strlit("May");
        reveal_strlit("Jun");
        reveal_strlit("Jul");
        reveal_strlit("Aug");
        reveal_strlit("Sep");
        reveal_strlit("Oct");
        reveal_strlit("Nov");
        reveal_strlit("Dec");
        assert(name.len() == 3);
        assert(long.len() == 6);
        assert(long[3] == ' ');
        assert(long[4] != ' ' && long[5] != ' ');
        lemma_last_space(long, 3);
        if date.day < 10 {
            assert(long.take(4) + long.skip(5) =~= name + seq![' '] + short_number(
                date.day as int,
            ));
        } else {
            assert(long =~= name + seq![' '] + short_number(date.day as int));
        }
    }
    drop_day_zero(formatted.as_str())
}

} // verus!
