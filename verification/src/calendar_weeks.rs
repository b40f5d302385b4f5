//! A calendar year cut into weeks that run from Sunday to Saturday and stop
//! at month boundaries.
//!
//! The year is covered by seven-day windows, the first of which starts on the
//! Sunday on or before the first of January. Each window gives one
//! [`MonthWeek`] for every month of the year that it touches, so a window
//! that straddles two months gives two, with the same week number.
//!
//! [`partition`] says what the partition of a year is; what holds of every
//! partition is proved in [`crate::calendar_laws`].

use crate::calendar_laws::{
    lemma_clipped_is_segment, lemma_month_partition_members, lemma_months_of_window,
    lemma_partition_consecutive, lemma_partition_covers_year, lemma_segment_boundaries,
    lemma_windows,
};
use crate::date::{
    checked_date, day_before, day_number, days_before_month, days_before_year, days_between,
    days_from_sunday, days_in_month, lemma_day_number_bounds, lemma_day_number_order,
    lemma_month_length, lemma_year_length, lemma_years_ordered, max_day_number, min_day_number,
    minus_days, plus_days, sunday_on_or_before, Date, MAX_YEAR, MIN_YEAR,
};
use crate::sequences::lemma_filter_members;
use vstd::prelude::*;

verus! {

/// The part of one seven-day window that lies in one month.
#[derive(Clone, Copy, Debug, PartialEq, Eq, Structural)]
pub struct MonthWeek {
    pub month: u32,
    pub week_start: Date,
    pub week_end: Date,
    pub week_number: usize,
}

impl MonthWeek {
    /// Whether `day` lies between the first and the last day of the segment.
    pub open spec fn contains(self, day: Date) -> bool {
        self.week_start.on_or_before(day) && day.on_or_before(self.week_end)
    }

    /// The days of the segment, from the first to the last.
    pub fn dates(&self) -> (days: Vec<Date>)
        requires
            self.week_start.wf(),
            self.week_end.wf(),
        ensures
            days.len() == if self.week_start.day_number() <= self.week_end.day_number() {
                self.week_end.day_number() - self.week_start.day_number() + 1
            } else {
                0
            },
            forall|i: int|
                0 <= i < days.len() ==> (#[trigger] days[i]).wf() && days[i].day_number()
                    == self.week_start.day_number() + i,
            forall|day: Date| day.wf() ==> (days@.contains(day) <==> self.contains(day)),
    {
        let start = self.week_start;
        let span: i64 = days_between(self.week_end, start);
        let mut days: Vec<Date> = Vec::new();
        let mut offset: i64 = 0;
        proof {
            lemma_day_number_bounds(start);
            lemma_day_number_bounds(self.week_end);
            lemma_years_ordered(MIN_YEAR as int, MAX_YEAR as int);
            lemma_month_length(MAX_YEAR as int, 12);
        }
        while offset <= span
            invariant
                0 <= offset,
                span < 0 ==> offset == 0,
                span >= 0 ==> offset <= span + 1,
                span < i32::MAX,
                start == self.week_start,
                start.wf(),
                span == self.week_end.day_number() - start.day_number(),
                min_day_number() <= start.day_number(),
                self.week_end.day_number() <= max_day_number(),
                days.len() == offset,
                forall|i: int|
                    0 <= i < offset ==> (#[trigger] days[i]).wf() && days[i].day_number()
                        == start.day_number() + i,
            decreases span + 1 - offset,
        {
            days.push(plus_days(start, offset));
            offset += 1;
        }
        proof {
            assert forall|day: Date| day.wf() implies (days@.contains(day) <==> self.contains(
                day,
            )) by {
                lemma_day_number_order(start, day);
                lemma_day_number_order(day, self.week_end);
                if days@.contains(day) {
                    let i = choose|i: int| 0 <= i < days.len() && days[i] == day;
                    assert(days[i].day_number() == start.day_number() + i);
                }
                if self.contains(day) {
                    let i = day.day_number() - start.day_number();
                    lemma_day_number_order(days[i], day);
                }
            }
        }
        days
    }
}

/// Why a date could not be resolved to a month week.
#[derive(Clone, Copy, Debug, PartialEq, Eq, Structural)]
pub enum CalendarError {
    /// No month week of the date's month holds the date.
    NotFound { day: Date },
}

/// The years that can be partitioned: those whose first and last window lie
/// wholly within the representable dates.
pub open spec fn supported_year(year: int) -> bool {
    MIN_YEAR < year < MAX_YEAR
}

/// The day number of the first of January.
pub open spec fn year_start(year: int) -> int {
    day_number(year, 1, 1)
}

/// The day number of the 31st of December.
pub open spec fn year_end(year: int) -> int {
    day_number(year, 12, 31)
}

/// The day number of the first day of a month.
pub open spec fn month_start(year: int, month: int) -> int {
    day_number(year, month, 1)
}

/// The day number of the last day of a month.
pub open spec fn month_end(year: int, month: int) -> int {
    day_number(year, month, days_in_month(year, month))
}

/// The day number of the Sunday that starts window `index` of `year`; the
/// windows are counted from 0.
pub open spec fn window_start(year: int, index: int) -> int {
    sunday_on_or_before(year_start(year)) + 7 * index
}

/// The number of windows of `year`: the last one holds the 31st of December.
pub open spec fn window_count(year: int) -> int {
    (sunday_on_or_before(year_end(year)) + 6 - sunday_on_or_before(year_start(year))) / 7 + 1
}

/// Whether window `index` and `month` have a day in common.
pub open spec fn window_meets_month(year: int, index: int, month: int) -> bool {
    window_start(year, index) <= month_end(year, month) && month_start(year, month)
        <= window_start(year, index) + 6
}

/// The first day of window `index` that lies in `month`.
pub open spec fn segment_start(year: int, index: int, month: int) -> int {
    if window_start(year, index) >= month_start(year, month) {
        window_start(year, index)
    } else {
        month_start(year, month)
    }
}

/// The last day of window `index` that lies in `month`.
pub open spec fn segment_end(year: int, index: int, month: int) -> int {
    if window_start(year, index) + 6 <= month_end(year, month) {
        window_start(year, index) + 6
    } else {
        month_end(year, month)
    }
}

/// The segment that window `index` has in `month`, where the two meet.
pub open spec fn segment(year: int, index: int, month: int) -> MonthWeek {
    MonthWeek {
        month: month as u32,
        week_start: Date {
            year: year as i32,
            month: month as u32,
            day: (segment_start(year, index, month) - month_start(year, month) + 1) as u32,
        },
        week_end: Date {
            year: year as i32,
            month: month as u32,
            day: (segment_end(year, index, month) - month_start(year, month) + 1) as u32,
        },
        week_number: (index + 1) as usize,
    }
}

/// The window from `week_start` to `week_end`, cut at the first and the last
/// day of `month`.
pub open spec fn clipped_to_month(
    year: int,
    month: int,
    week_start: Date,
    week_end: Date,
    week_number: usize,
) -> MonthWeek {
    let month_first = Date { year: year as i32, month: month as u32, day: 1 };
    let month_last = Date {
        year: year as i32,
        month: month as u32,
        day: days_in_month(year, month) as u32,
    };
    MonthWeek {
        month: month as u32,
        week_start: if week_start.on_or_before(month_first) {
            month_first
        } else {
            week_start
        },
        week_end: if week_end.on_or_before(month_last) {
            week_end
        } else {
            month_last
        },
        week_number,
    }
}

/// The month of `year` in which day number `n` lies.
pub open spec fn month_containing(year: int, n: int) -> int {
    let ordinal = n - days_before_year(year);
    if ordinal <= days_before_month(year, 2) {
        1
    } else if ordinal <= days_before_month(year, 3) {
        2
    } else if ordinal <= days_before_month(year, 4) {
        3
    } else if ordinal <= days_before_month(year, 5) {
        4
    } else if ordinal <= days_before_month(year, 6) {
        5
    } else if ordinal <= days_before_month(year, 7) {
        6
    } else if ordinal <= days_before_month(year, 8) {
        7
    } else if ordinal <= days_before_month(year, 9) {
        8
    } else if ordinal <= days_before_month(year, 10) {
        9
    } else if ordinal <= days_before_month(year, 11) {
        10
    } else if ordinal <= days_before_month(year, 12) {
        11
    } else {
        12
    }
}

/// The first day of window `index` that lies in `year`.
pub open spec fn window_first_day(year: int, index: int) -> int {
    if window_start(year, index) >= year_start(year) {
        window_start(year, index)
    } else {
        year_start(year)
    }
}

/// The last day of window `index` that lies in `year`.
pub open spec fn window_last_day(year: int, index: int) -> int {
    if window_start(year, index) + 6 <= year_end(year) {
        window_start(year, index) + 6
    } else {
        year_end(year)
    }
}

/// The segments of window `index`: one for each month of `year` in which a
/// day of the window lies, in the order of the months. Seven days touch one
/// month or two.
pub open spec fn window_segments(year: int, index: int) -> Seq<MonthWeek> {
    let first_month = month_containing(year, window_first_day(year, index));
    let last_month = month_containing(year, window_last_day(year, index));
    if first_month == last_month {
        seq![segment(year, index, first_month)]
    } else {
        seq![segment(year, index, first_month), segment(year, index, last_month)]
    }
}

/// The segments of the first `count` windows of `year`, window after window.
pub open spec fn partition_windows(year: int, count: nat) -> Seq<MonthWeek>
    decreases count,
{
    if count == 0 {
        Seq::empty()
    } else {
        partition_windows(year, (count - 1) as nat) + window_segments(year, count - 1)
    }
}

/// The partition of `year`: the segments of all its windows.
pub open spec fn partition(year: int) -> Seq<MonthWeek> {
    partition_windows(year, window_count(year) as nat)
}

/// The segments of `month` in the partition of `year`, in partition order.
pub open spec fn month_partition(year: int, month: int) -> Seq<MonthWeek> {
    partition(year).filter(|week: MonthWeek| week.month == month)
}

/// Whether `week` is the segment that one of the windows of `year` has in the
/// month that `week` names.
pub open spec fn is_segment_of(year: int, week: MonthWeek) -> bool {
    let index = week.week_number - 1;
    let month = week.month as int;
    &&& 0 <= index < window_count(year)
    &&& 1 <= month <= 12
    &&& window_meets_month(year, index, month)
    &&& week == segment(year, index, month)
}

/// Whether `weeks` are segments of `year` that follow one another without a
/// gap, from day number `first` to day number `last`.
pub open spec fn consecutive(year: int, weeks: Seq<MonthWeek>, first: int, last: int) -> bool {
    &&& weeks.len() > 0
    &&& weeks[0].week_start.day_number() == first
    &&& weeks.last().week_end.day_number() == last
    &&& forall|i: int|
        0 <= i < weeks.len() ==> {
            &&& is_segment_of(year, #[trigger] weeks[i])
            &&& weeks[i].week_start.wf()
            &&& weeks[i].week_end.wf()
            &&& weeks[i].week_start.day_number() <= weeks[i].week_end.day_number()
        }
    &&& forall|i: int, j: int|
        0 <= i && j == i + 1 && j < weeks.len() ==> (#[trigger] weeks[j]).week_start.day_number()
            == (#[trigger] weeks[i]).week_end.day_number() + 1
}

/// A sequence of numbers in which each is greater than the one before.
pub open spec fn strictly_increasing(numbers: Seq<u32>) -> bool {
    forall|i: int, j: int| 0 <= i < j < numbers.len() ==> numbers[i] < numbers[j]
}

/// The Sunday on or before `day`.
fn previous_sunday(day: Date) -> (sunday: Date)
    requires
        day.wf(),
        min_day_number() <= sunday_on_or_before(day.day_number()),
    ensures
        sunday.wf(),
        sunday.day_number() == sunday_on_or_before(day.day_number()),
{
    let days_since_sunday: i64 = days_from_sunday(day) as i64;
    proof {
        lemma_day_number_bounds(day);
    }
    minus_days(day, days_since_sunday)
}

/// The seven days of the window that starts on `week_start`.
fn week_days(week_start: Date) -> (days: Vec<Date>)
    requires
        week_start.wf(),
        week_start.day_number() + 6 <= max_day_number(),
    ensures
        days.len() == 7,
        forall|i: int|
            0 <= i < 7 ==> (#[trigger] days[i]).wf() && days[i].day_number()
                == week_start.day_number() + i,
{
    let mut days: Vec<Date> = Vec::new();
    let mut offset: i64 = 0;
    proof {
        lemma_day_number_bounds(week_start);
    }
    while offset < 7
        invariant
            0 <= offset <= 7,
            week_start.wf(),
            min_day_number() <= week_start.day_number(),
            week_start.day_number() + 6 <= max_day_number(),
            days.len() == offset,
            forall|i: int|
                0 <= i < offset ==> (#[trigger] days[i]).wf() && days[i].day_number()
                    == week_start.day_number() + i,
        decreases 7 - offset,
    {
        days.push(plus_days(week_start, offset));
        offset += 1;
    }
    days
}

/// The days among `days` that lie in `year`, in their order.
fn days_of_year(days: &Vec<Date>, year: i32) -> (kept: Vec<Date>)
    ensures
        kept@ == days@.filter(|day: Date| day.year == year),
{
    let mut kept: Vec<Date> = Vec::new();
    let mut i: usize = 0;
    let ghost in_year = |day: Date| day.year == year;
    assert(days@.take(0) =~= Seq::empty());
    while i < days.len()
        invariant
            i <= days.len(),
            in_year == |day: Date| day.year == year,
            kept@ == days@.take(i as int).filter(in_year),
        decreases days.len() - i,
    {
        proof {
            assert(days@.take(i + 1).drop_last() =~= days@.take(i as int));
            reveal(Seq::filter);
        }
        if days[i].year == year {
            kept.push(days[i]);
        }
        i += 1;
    }
    assert(days@.take(days.len() as int) =~= days@);
    kept
}

/// Puts `month` at its place in the ascending list `months`, unless it is
/// there already.
fn insert_month(months: &mut Vec<u32>, month: u32)
    requires
        strictly_increasing(old(months)@),
    ensures
        strictly_increasing(final(months)@),
        forall|m: u32| final(months)@.contains(m) <==> old(months)@.contains(m) || m == month,
{
    let mut place: usize = 0;
    while place < months.len() && months[place] < month
        invariant
            place <= months.len(),
            months@ == old(months)@,
            forall|k: int| 0 <= k < place ==> months[k] < month,
        decreases months.len() - place,
    {
        place += 1;
    }
    let ghost before = months@;
    if place < months.len() && months[place] == month {
        assert(before.contains(month));
    } else {
        months.insert(place, month);
        proof {
            let after = months@;
            assert forall|k: int| 0 <= k < after.len() implies #[trigger] after[k] == (if k
                < place {
                before[k]
            } else if k == place {
                month
            } else {
                before[k - 1]
            }) by {}
            assert forall|i: int, j: int| 0 <= i < j < after.len() implies after[i]
                < after[j] by {
                assert(after[i] == (if i < place {
                    before[i]
                } else if i == place {
                    month
                } else {
                    before[i - 1]
                }));
            }
            assert forall|m: u32| after.contains(m) <==> before.contains(m) || m == month by {
                if after.contains(m) {
                    let k = choose|k: int| 0 <= k < after.len() && after[k] == m;
                    if k < place {
                        assert(before[k] == m);
                    } else if k > place {
                        assert(before[k - 1] == m);
                    }
                }
                if before.contains(m) {
                    let k = choose|k: int| 0 <= k < before.len() && before[k] == m;
                    if k < place {
                        assert(after[k] == m);
                    } else {
                        assert(after[k + 1] == m);
                    }
                }
                if m == month {
                    assert(after[place as int] == m);
                }
            }
        }
    }
}

/// The months in which `days` lie, each once, in ascending order.
fn split_by_month(days: &Vec<Date>) -> (months: Vec<u32>)
    ensures
        strictly_increasing(months@),
        forall|m: u32|
            months@.contains(m) <==> exists|i: int|
                0 <= i < days.len() && (#[trigger] days[i]).month == m,
{
    let mut months: Vec<u32> = Vec::new();
    let mut i: usize = 0;
    while i < days.len()
        invariant
            i <= days.len(),
            strictly_increasing(months@),
            forall|m: u32|
                months@.contains(m) <==> exists|k: int|
                    0 <= k < i && (#[trigger] days[k]).month == m,
        decreases days.len() - i,
    {
        let ghost before = months@;
        insert_month(&mut months, days[i].month);
        proof {
            assert forall|m: u32| months@.contains(m) <==> exists|k: int|
                0 <= k < i + 1 && (#[trigger] days[k]).month == m by {
                if months@.contains(m) {
                    if before.contains(m) {
                        let k = choose|k: int| 0 <= k < i && (#[trigger] days[k]).month == m;
                        assert(0 <= k < i + 1 && days[k].month == m);
                    } else {
                        assert(days[i as int].month == m);
                    }
                }
                if exists|k: int| 0 <= k < i + 1 && (#[trigger] days[k]).month == m {
                    let k = choose|k: int| 0 <= k < i + 1 && (#[trigger] days[k]).month == m;
                    if k < i {
                        assert(before.contains(m));
                    }
                }
            }
        }
        i += 1;
    }
    months
}

/// The part of the window from `week_start` to `week_end` that lies in
/// `month` of `year`: the window, cut at the first and the last day of the
/// month.
fn make_month_week(
    year: i32,
    month: u32,
    week_start: Date,
    week_end: Date,
    week_number: usize,
) -> (week: MonthWeek)
    requires
        MIN_YEAR <= year < MAX_YEAR,
        1 <= month <= 12,
    ensures
        week == clipped_to_month(year as int, month as int, week_start, week_end, week_number),
{
    let month_first = checked_date(year, month, 1).unwrap();
    let next_month_first = if month == 12 {
        checked_date(year + 1, 1, 1)
    } else {
        checked_date(year, month + 1, 1)
    }.unwrap();
    proof {
        lemma_day_number_order(Date { year: MIN_YEAR, month: 1, day: 1 }, next_month_first);
        lemma_month_length(year as int, month as int);
        lemma_year_length(year as int);
    }
    let last_of_month = day_before(next_month_first).unwrap();
    proof {
        lemma_day_number_order(
            last_of_month,
            Date { year, month, day: days_in_month(year as int, month as int) as u32 },
        );
    }
    let days_in_month = last_of_month.day;
    let month_last = checked_date(year, month, days_in_month).unwrap();
    MonthWeek {
        month,
        week_start: week_start.later_of(month_first),
        week_end: week_end.earlier_of(month_last),
        week_number,
    }
}

/// Cuts `year` into its month weeks: for each seven-day window from the
/// Sunday on or before the first of January, one segment for each month of
/// the year in which the window has a day. The segments follow one another
/// without a gap from the first of January to the 31st of December.
pub fn partition_year_into_month_weeks(year: i32) -> (weeks: Vec<MonthWeek>)
    requires
        supported_year(year as int),
    ensures
        weeks@ == partition(year as int),
        consecutive(year as int, weeks@, year_start(year as int), year_end(year as int)),
{
    proof {
        lemma_partition_consecutive(year as int);
    }
    let first_day = checked_date(year, 1, 1).unwrap();
    let last_day = checked_date(year, 12, 31).unwrap();
    proof {
        lemma_windows(year as int);
        lemma_year_length(year as int - 1);
        lemma_year_length(year as int);
        lemma_years_ordered(MIN_YEAR as int, year as int - 1);
        lemma_years_ordered(year as int + 1, MAX_YEAR as int);
        lemma_month_length(year as int, 12);
        lemma_month_length(MAX_YEAR as int, 12);
    }
    let anchor_week_start = previous_sunday(first_day);
    let last_sunday = previous_sunday(last_day);
    let last_week_end = plus_days(last_sunday, 6);
    let num_weeks: i64 = days_between(last_week_end, anchor_week_start) / 7 + 1;
    assert(num_weeks == window_count(year as int));

    let mut result: Vec<MonthWeek> = Vec::new();
    let mut week_offset: i64 = 0;
    while week_offset < num_weeks
        invariant
            supported_year(year as int),
            0 <= week_offset <= num_weeks == window_count(year as int) <= 54,
            anchor_week_start.wf(),
            anchor_week_start.day_number() == window_start(year as int, 0),
            min_day_number() <= anchor_week_start.day_number(),
            window_start(year as int, num_weeks - 1) + 6 <= max_day_number(),
            result@ == partition_windows(year as int, week_offset as nat),
        decreases num_weeks - week_offset,
    {
        let week_number = (week_offset + 1) as usize;
        let week_start = plus_days(anchor_week_start, 7 * week_offset);
        let week_end = plus_days(week_start, 6);
        let week = week_days(week_start);
        let in_year_days = days_of_year(&week, year);
        let months = split_by_month(&in_year_days);
        proof {
            let in_year = |day: Date| day.year == year;
            assert forall|j: int| 0 <= j < in_year_days.len() implies (
            #[trigger] in_year_days[j]).year == year && week@.contains(in_year_days[j]) by {
                lemma_filter_members(week@, in_year, j);
            }
            assert forall|i: int| 0 <= i < 7 && (#[trigger] week[i]).year
                == year implies in_year_days@.contains(week[i]) by {
                week@.lemma_filter_contains(in_year, i);
            }
            lemma_months_of_window(
                year as int,
                week_offset as int,
                week@,
                in_year_days@,
                months@,
            );
        }
        let ghost before = result@;
        let mut k: usize = 0;
        while k < months.len()
            invariant
                supported_year(year as int),
                0 <= week_offset < window_count(year as int),
                week_number == week_offset + 1,
                week_start.wf(),
                week_end.wf(),
                week_start.day_number() == window_start(year as int, week_offset as int),
                week_end.day_number() == window_start(year as int, week_offset as int) + 6,
                k <= months.len() == window_segments(year as int, week_offset as int).len(),
                forall|t: int|
                    0 <= t < months.len() ==> {
                        &&& 1 <= #[trigger] months[t] <= 12
                        &&& window_meets_month(year as int, week_offset as int, months[t] as int)
                        &&& window_segments(year as int, week_offset as int)[t] == segment(
                            year as int,
                            week_offset as int,
                            months[t] as int,
                        )
                    },
                result@ == before + window_segments(year as int, week_offset as int).take(
                    k as int,
                ),
            decreases months.len() - k,
        {
            let month = months[k];
            let month_week = make_month_week(year, month, week_start, week_end, week_number);
            proof {
                lemma_clipped_is_segment(
                    year as int,
                    week_offset as int,
                    month as int,
                    week_start,
                    week_end,
                );
                let segments = window_segments(year as int, week_offset as int);
                assert(segments.take(k + 1) =~= segments.take(k as int).push(segments[k as int]));
                assert(before + segments.take(k + 1) =~= (before + segments.take(k as int)).push(
                    segments[k as int],
                ));
            }
            result.push(month_week);
            k += 1;
        }
        proof {
            let segments = window_segments(year as int, week_offset as int);
            assert(segments.take(segments.len() as int) =~= segments);
        }
        week_offset += 1;
    }
    result
}

/// The month weeks of `month` in `year`, in the order of the partition.
pub fn month_weeks(year: i32, month: u32) -> (weeks: Vec<MonthWeek>)
    requires
        supported_year(year as int),
    ensures
        weeks@ == month_partition(year as int, month as int),
{
    let all = partition_year_into_month_weeks(year);
    let mut weeks: Vec<MonthWeek> = Vec::new();
    let mut i: usize = 0;
    let ghost in_month = |week: MonthWeek| week.month == month as int;
    assert(all@.take(0) =~= Seq::empty());
    while i < all.len()
        invariant
            i <= all.len(),
            in_month == |week: MonthWeek| week.month == month as int,
            weeks@ == all@.take(i as int).filter(in_month),
        decreases all.len() - i,
    {
        proof {
            assert(all@.take(i + 1).drop_last() =~= all@.take(i as int));
            reveal(Seq::filter);
        }
        if all[i].month == month {
            weeks.push(all[i]);
        }
        i += 1;
    }
    assert(all@.take(all.len() as int) =~= all@);
    weeks
}

/// The month week in which `day` lies: the one segment of the partition of
/// the day's year that holds the day. It is a month week of the day's month.
/// Every day of a supported year has its month week, so the search never
/// fails.
pub fn month_week_for_date(day: Date) -> (found: Result<MonthWeek, CalendarError>)
    requires
        day.wf(),
        supported_year(day.year as int),
    ensures
        found is Ok,
        found->Ok_0.contains(day),
        found->Ok_0.month == day.month,
        found->Ok_0.week_start.wf(),
        found->Ok_0.week_end.wf(),
        month_partition(day.year as int, day.month as int).contains(found->Ok_0),
        partition(day.year as int).contains(found->Ok_0),
        forall|other: MonthWeek|
            partition(day.year as int).contains(other) && other.contains(day) ==> other
                == found->Ok_0,
{
    let weeks = month_weeks(day.year, day.month);
    let mut i: usize = 0;
    while i < weeks.len()
        invariant
            i <= weeks.len(),
            day.wf(),
            supported_year(day.year as int),
            weeks@ == month_partition(day.year as int, day.month as int),
            forall|k: int| 0 <= k < i ==> !(#[trigger] weeks[k]).contains(day),
        decreases weeks.len() - i,
    {
        let week = weeks[i];
        if week.week_start.is_on_or_before(&day) && day.is_on_or_before(&week.week_end) {
            proof {
                let all = partition(day.year as int);
                lemma_month_partition_members(day.year as int, day.month as int, i as int);
                lemma_partition_covers_year(day.year as int, day);
                let at = choose|at: int| 0 <= at < all.len() && all[at] == week;
                lemma_segment_boundaries(day.year as int, at);
                assert forall|other: MonthWeek| all.contains(other) && other.contains(
                    day,
                ) implies other == week by {
                    let k = choose|k: int| 0 <= k < all.len() && all[k] == other;
                    assert(all[k].contains(day) && all[at].contains(day));
                }
            }
            return Ok(week);
        }
        i += 1;
    }
    proof {
        let year = day.year as int;
        lemma_partition_covers_year(year, day);
        let k = choose|k: int|
            0 <= k < partition(year).len() && (#[trigger] partition(year)[k]).contains(day);
        lemma_segment_boundaries(year, k);
        let in_month = |week: MonthWeek| week.month == day.month as int;
        partition(year).lemma_filter_contains(in_month, k);
        let t = choose|t: int| 0 <= t < weeks.len() && weeks[t] == partition(year)[k];
        assert(weeks[t].contains(day));
    }
    Err(CalendarError::NotFound { day })
}

} // verus!
