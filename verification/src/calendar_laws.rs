//! What holds of the partition of every year: its segments follow one
//! another from the first of January to the 31st of December, so each day
//! of the year lies in exactly one of them; each segment keeps to the bounds
//! of a week and of a month; and the week numbers count the Sundays.

use crate::calendar_weeks::{
    clipped_to_month, consecutive, is_segment_of, month_containing, month_end, month_partition, month_start, partition,
    partition_windows, segment, segment_end, segment_start, strictly_increasing, supported_year,
    window_count, window_first_day, window_last_day, window_meets_month, window_segments,
    window_start, year_end, year_start, MonthWeek,
};
use crate::date::{
    days_in_month, is_leap_year, lemma_day_number_order, lemma_month_length,
    sunday_on_or_before, Date, MAX_YEAR, MIN_YEAR,
};
use crate::sequences::lemma_filter_members;
use vstd::prelude::*;

verus! {

/// A date lies in its year and in its month, at the place its day gives.
pub proof fn lemma_date_in_month(date: Date)
    requires
        date.wf(),
    ensures
        year_start(date.year as int) <= date.day_number() <= year_end(date.year as int),
        date.day_number() == month_start(date.year as int, date.month as int) + date.day - 1,
        date.day_number() <= month_end(date.year as int, date.month as int),
        month_containing(date.year as int, date.day_number()) == date.month,
{
    lemma_month_length(date.year as int, date.month as int);
}

/// The dates of a year are those between its first and its last day.
pub proof fn lemma_year_of_date(date: Date, year: int)
    requires
        date.wf(),
        MIN_YEAR <= year <= MAX_YEAR,
    ensures
        date.year == year <==> year_start(year) <= date.day_number() <= year_end(year),
{
    lemma_day_number_order(Date { year: year as i32, month: 1, day: 1 }, date);
    lemma_day_number_order(date, Date { year: year as i32, month: 12, day: 31 });
}

/// Every day of a year lies in the month that `month_containing` names.
pub proof fn lemma_month_containing(year: int, n: int)
    requires
        year_start(year) <= n <= year_end(year),
    ensures
        1 <= month_containing(year, n) <= 12,
        month_start(year, month_containing(year, n)) <= n <= month_end(
            year,
            month_containing(year, n),
        ),
{
}

/// A later day of the year lies in the same or a later month, and less than
/// a month later in the same month or the next.
pub proof fn lemma_month_containing_ordered(year: int, n1: int, n2: int)
    requires
        year_start(year) <= n1 <= n2 <= year_end(year),
    ensures
        month_containing(year, n1) <= month_containing(year, n2),
        n2 - n1 < 28 ==> month_containing(year, n2) <= month_containing(year, n1) + 1,
{
}

/// The windows of a year: the first holds the first of January, the last the
/// 31st of December, and there are at most 54 of them.
pub proof fn lemma_windows(year: int)
    ensures
        1 <= window_count(year) <= 54,
        window_start(year, 0) <= year_start(year) <= window_start(year, 0) + 6,
        window_start(year, window_count(year) - 1) <= year_end(year) <= window_start(
            year,
            window_count(year) - 1,
        ) + 6,
        window_first_day(year, 0) == year_start(year),
        window_last_day(year, window_count(year) - 1) == year_end(year),
        year_end(year) - year_start(year) == if is_leap_year(year) {
            365int
        } else {
            364int
        },
{
    lemma_month_length(year, 12);
}

/// What holds of each window of a year: it has days in the year, and its
/// Sunday is a multiple of seven.
pub proof fn lemma_window(year: int, index: int)
    requires
        0 <= index < window_count(year),
    ensures
        window_start(year, index) % 7 == 0,
        year_start(year) <= window_first_day(year, index) <= window_last_day(year, index)
            <= year_end(year),
        window_start(year, index) <= window_first_day(year, index),
        window_last_day(year, index) <= window_start(year, index) + 6,
        index > 0 ==> window_first_day(year, index) == window_start(year, index),
        index < window_count(year) - 1 ==> window_last_day(year, index) == window_start(
            year,
            index,
        ) + 6,
        index > 0 ==> window_first_day(year, index) == window_last_day(year, index - 1) + 1,
{
    lemma_windows(year);
}

/// The dates of a segment: they exist, lie in the segment's month, and are
/// the first and the last day that window and month share.
pub proof fn lemma_segment(year: int, index: int, month: int)
    requires
        MIN_YEAR <= year <= MAX_YEAR,
        1 <= month <= 12,
        window_meets_month(year, index, month),
        0 <= index < window_count(year),
    ensures
        segment(year, index, month).week_start.wf(),
        segment(year, index, month).week_end.wf(),
        segment(year, index, month).week_start.day_number() == segment_start(year, index, month),
        segment(year, index, month).week_end.day_number() == segment_end(year, index, month),
        segment_start(year, index, month) <= segment_end(year, index, month),
        segment(year, index, month).month == month,
        segment(year, index, month).week_number == index + 1,
        is_segment_of(year, segment(year, index, month)),
{
    lemma_month_length(year, month);
    lemma_windows(year);
}

/// The segments of one window follow one another from the window's first
/// day in the year to its last.
pub proof fn lemma_window_segments(year: int, index: int)
    requires
        MIN_YEAR <= year <= MAX_YEAR,
        0 <= index < window_count(year),
    ensures
        consecutive(
            year,
            window_segments(year, index),
            window_first_day(year, index),
            window_last_day(year, index),
        ),
{
    let first = window_first_day(year, index);
    let last = window_last_day(year, index);
    let m1 = month_containing(year, first);
    let m2 = month_containing(year, last);
    lemma_window(year, index);
    lemma_month_containing(year, first);
    lemma_month_containing(year, last);
    lemma_month_containing_ordered(year, first, last);
    lemma_segment(year, index, m1);
    lemma_segment(year, index, m2);
    lemma_month_length(year, m1);
    lemma_month_length(year, m2);
    let weeks = window_segments(year, index);
    if m1 != m2 {
        assert(m2 == m1 + 1);
        assert(weeks[0] == segment(year, index, m1));
        assert(weeks[1] == segment(year, index, m2));
        assert(month_end(year, m1) + 1 == month_start(year, m2));
    } else {
        assert(weeks[0] == segment(year, index, m1));
    }
}

/// Segments that follow one another, and segments that follow them, follow
/// one another.
proof fn lemma_consecutive_append(
    year: int,
    a: Seq<MonthWeek>,
    b: Seq<MonthWeek>,
    first: int,
    middle: int,
    last: int,
)
    requires
        consecutive(year, a, first, middle),
        consecutive(year, b, middle + 1, last),
    ensures
        consecutive(year, a + b, first, last),
{
    let joined = a + b;
    assert forall|i: int| 0 <= i < joined.len() implies {
        &&& is_segment_of(year, #[trigger] joined[i])
        &&& joined[i].week_start.wf()
        &&& joined[i].week_end.wf()
        &&& joined[i].week_start.day_number() <= joined[i].week_end.day_number()
    } by {
        if i < a.len() {
            assert(joined[i] == a[i]);
        } else {
            assert(joined[i] == b[i - a.len()]);
        }
    }
    assert forall|i: int, j: int| 0 <= i && j == i + 1 && j < joined.len() implies (
    #[trigger] joined[j]).week_start.day_number() == (#[trigger] joined[i]).week_end.day_number()
        + 1 by {
        if j < a.len() {
            assert(joined[i] == a[i] && joined[j] == a[j]);
        } else if i < a.len() {
            assert(joined[i] == a.last() && joined[j] == b[0]);
        } else {
            assert(joined[i] == b[i - a.len()] && joined[j] == b[j - a.len()]);
        }
    }
    assert(joined[0] == a[0]);
    assert(joined.last() == b.last());
}

/// The segments of the first windows of a year follow one another from the
/// first of January to the last day that the last of these windows has in
/// the year.
pub proof fn lemma_partition_windows(year: int, count: nat)
    requires
        MIN_YEAR <= year <= MAX_YEAR,
        1 <= count <= window_count(year),
    ensures
        consecutive(
            year,
            partition_windows(year, count),
            year_start(year),
            window_last_day(year, count - 1),
        ),
    decreases count,
{
    lemma_windows(year);
    lemma_window(year, count - 1);
    lemma_window_segments(year, count - 1);
    if count == 1 {
        assert(partition_windows(year, 0) =~= Seq::empty());
        assert(partition_windows(year, 1) =~= window_segments(year, 0));
    } else {
        lemma_partition_windows(year, (count - 1) as nat);
        lemma_consecutive_append(
            year,
            partition_windows(year, (count - 1) as nat),
            window_segments(year, count - 1),
            year_start(year),
            window_last_day(year, count - 2),
            window_last_day(year, count - 1),
        );
    }
}

/// The segments of a partition follow one another from the first of January
/// to the 31st of December.
pub proof fn lemma_partition_consecutive(year: int)
    requires
        MIN_YEAR <= year <= MAX_YEAR,
    ensures
        consecutive(year, partition(year), year_start(year), year_end(year)),
{
    lemma_windows(year);
    lemma_partition_windows(year, window_count(year) as nat);
}

/// Of segments that follow one another, an earlier one ends before a later
/// one starts.
proof fn lemma_consecutive_ordered(
    year: int,
    weeks: Seq<MonthWeek>,
    first: int,
    last: int,
    i: int,
    j: int,
)
    requires
        consecutive(year, weeks, first, last),
        0 <= i < j < weeks.len(),
    ensures
        weeks[i].week_end.day_number() < weeks[j].week_start.day_number(),
    decreases j - i,
{
    if i + 1 < j {
        lemma_consecutive_ordered(year, weeks, first, last, i, j - 1);
        assert(weeks[j].week_start.day_number() == weeks[j - 1].week_end.day_number() + 1);
    } else {
        assert(weeks[j].week_start.day_number() == weeks[i].week_end.day_number() + 1);
    }
}

/// Of segments that follow one another, one holds each day from the start
/// of any of them to the end of the last; the lemma gives its place.
proof fn lemma_consecutive_covers(
    year: int,
    weeks: Seq<MonthWeek>,
    first: int,
    last: int,
    n: int,
    from: int,
) -> (i: int)
    requires
        consecutive(year, weeks, first, last),
        0 <= from < weeks.len(),
        weeks[from].week_start.day_number() <= n <= last,
    ensures
        from <= i < weeks.len(),
        weeks[i].week_start.day_number() <= n <= weeks[i].week_end.day_number(),
    decreases weeks.len() - from,
{
    if n <= weeks[from].week_end.day_number() {
        from
    } else {
        assert(from + 1 < weeks.len());
        assert(weeks[from + 1].week_start.day_number() == weeks[from].week_end.day_number() + 1);
        lemma_consecutive_covers(year, weeks, first, last, n, from + 1)
    }
}

/// Every day of a year lies in exactly one segment of the year's partition,
/// and no segment holds a day of another year.
pub proof fn lemma_partition_covers_year(year: int, day: Date)
    requires
        supported_year(year),
        day.wf(),
    ensures
        day.year == year <==> exists|i: int|
            0 <= i < partition(year).len() && (#[trigger] partition(year)[i]).contains(day),
        forall|i: int, j: int|
            0 <= i < partition(year).len() && 0 <= j < partition(year).len() && (
            #[trigger] partition(year)[i]).contains(day) && (#[trigger] partition(year)[j]).contains(
                day,
            ) ==> i == j,
{
    let weeks = partition(year);
    let n = day.day_number();
    lemma_partition_consecutive(year);
    lemma_year_of_date(day, year);
    assert forall|i: int| 0 <= i < weeks.len() implies ((#[trigger] weeks[i]).contains(day) <==> (
    weeks[i].week_start.day_number() <= n <= weeks[i].week_end.day_number())) by {
        lemma_day_number_order(weeks[i].week_start, day);
        lemma_day_number_order(day, weeks[i].week_end);
    }
    if day.year == year {
        let i = lemma_consecutive_covers(year, weeks, year_start(year), year_end(year), n, 0);
        assert(weeks[i].contains(day));
    }
    assert forall|i: int| 0 <= i < weeks.len() && (#[trigger] weeks[i]).contains(day) implies day.year
        == year by {
        if 0 < i {
            lemma_consecutive_ordered(year, weeks, year_start(year), year_end(year), 0, i);
        }
        if i < weeks.len() - 1 {
            lemma_consecutive_ordered(
                year,
                weeks,
                year_start(year),
                year_end(year),
                i,
                weeks.len() - 1,
            );
        }
    }
    assert forall|i: int, j: int|
        0 <= i < weeks.len() && 0 <= j < weeks.len() && (#[trigger] weeks[i]).contains(day) && (
        #[trigger] weeks[j]).contains(day) implies i == j by {
        if i < j {
            lemma_consecutive_ordered(year, weeks, year_start(year), year_end(year), i, j);
        } else if j < i {
            lemma_consecutive_ordered(year, weeks, year_start(year), year_end(year), j, i);
        }
    }
}

/// Every segment lies in one month of the year. It starts on a Sunday or on
/// the first day of its month, and ends on a Saturday or on the last day of
/// its month; it starts on a Sunday or ends on a Saturday.
pub proof fn lemma_segment_boundaries(year: int, i: int)
    requires
        supported_year(year),
        0 <= i < partition(year).len(),
    ensures
        ({
            let week = partition(year)[i];
            &&& week.week_start.wf() && week.week_end.wf()
            &&& week.week_start.on_or_before(week.week_end)
            &&& 1 <= week.month <= 12
            &&& week.week_start.year == year && week.week_start.month == week.month
            &&& week.week_end.year == year && week.week_end.month == week.month
            &&& week.week_start.days_from_sunday() == 0 || week.week_start.is_month_start()
            &&& week.week_end.days_from_sunday() == 6 || week.week_end.is_month_end()
            &&& week.week_start.days_from_sunday() == 0 || week.week_end.days_from_sunday() == 6
        }),
{
    let week = partition(year)[i];
    let index = week.week_number - 1;
    let month = week.month as int;
    lemma_partition_consecutive(year);
    assert(is_segment_of(year, week));
    lemma_segment(year, index, month);
    lemma_window(year, index);
    lemma_month_length(year, month);
    lemma_day_number_order(week.week_start, week.week_end);
}

/// Week numbers never fall along the partition, and each is one more than
/// the number of whole weeks between the Sunday on or before the first of
/// January and the Sunday on or before the segment's first day.
pub proof fn lemma_week_numbers(year: int, i: int, j: int)
    requires
        supported_year(year),
        0 <= i <= j < partition(year).len(),
    ensures
        partition(year)[i].week_number <= partition(year)[j].week_number,
        partition(year)[i].week_number == (sunday_on_or_before(
            partition(year)[i].week_start.day_number(),
        ) - sunday_on_or_before(year_start(year))) / 7 + 1,
{
    let weeks = partition(year);
    lemma_partition_consecutive(year);
    lemma_week_number_of(year, weeks[i]);
    lemma_week_number_of(year, weeks[j]);
    if i < j {
        lemma_consecutive_ordered(year, weeks, year_start(year), year_end(year), i, j);
    }
}

/// The Sunday on or before the first day of a segment starts the window of
/// the segment, which the week number counts.
proof fn lemma_week_number_of(year: int, week: MonthWeek)
    requires
        MIN_YEAR <= year <= MAX_YEAR,
        is_segment_of(year, week),
    ensures
        sunday_on_or_before(week.week_start.day_number()) == window_start(
            year,
            week.week_number - 1,
        ),
        week.week_number == (sunday_on_or_before(week.week_start.day_number())
            - sunday_on_or_before(year_start(year))) / 7 + 1,
        week.week_start.day_number() <= week.week_end.day_number(),
{
    let index = week.week_number - 1;
    lemma_segment(year, index, week.month as int);
    lemma_window(year, index);
}

/// The months that the split of a window's days gives: the month of the
/// window's first day in the year and, where the window runs into the next
/// month, that month.
pub(crate) proof fn lemma_months_of_window(
    year: int,
    index: int,
    week: Seq<Date>,
    in_year: Seq<Date>,
    months: Seq<u32>,
)
    requires
        MIN_YEAR <= year <= MAX_YEAR,
        0 <= index < window_count(year),
        week.len() == 7,
        forall|i: int|
            0 <= i < 7 ==> (#[trigger] week[i]).wf() && week[i].day_number() == window_start(
                year,
                index,
            ) + i,
        forall|j: int|
            0 <= j < in_year.len() ==> (#[trigger] in_year[j]).year == year && week.contains(
                in_year[j],
            ),
        forall|i: int| 0 <= i < 7 && (#[trigger] week[i]).year == year ==> in_year.contains(week[i]),
        strictly_increasing(months),
        forall|m: u32|
            months.contains(m) <==> exists|j: int|
                0 <= j < in_year.len() && (#[trigger] in_year[j]).month == m,
    ensures
        months.len() == window_segments(year, index).len(),
        forall|t: int|
            0 <= t < months.len() ==> {
                &&& 1 <= #[trigger] months[t] <= 12
                &&& window_meets_month(year, index, months[t] as int)
                &&& window_segments(year, index)[t] == segment(year, index, months[t] as int)
            },
{
    let start = window_start(year, index);
    let first = window_first_day(year, index);
    let last = window_last_day(year, index);
    let m1 = month_containing(year, first);
    let m2 = month_containing(year, last);
    lemma_window(year, index);
    lemma_month_containing(year, first);
    lemma_month_containing(year, last);
    lemma_month_containing_ordered(year, first, last);
    assert forall|j: int| 0 <= j < in_year.len() implies m1 <= (#[trigger] in_year[j]).month
        <= m2 by {
        let day = in_year[j];
        let i = choose|i: int| 0 <= i < week.len() && week[i] == day;
        assert(week[i].wf());
        lemma_year_of_date(day, year);
        lemma_date_in_month(day);
        lemma_month_containing_ordered(year, first, day.day_number());
        lemma_month_containing_ordered(year, day.day_number(), last);
    }
    let first_date = week[first - start];
    let last_date = week[last - start];
    assert(first_date.wf() && last_date.wf());
    lemma_year_of_date(first_date, year);
    lemma_year_of_date(last_date, year);
    lemma_date_in_month(first_date);
    lemma_date_in_month(last_date);
    assert(in_year.contains(first_date));
    assert(in_year.contains(last_date));
    let j1 = choose|j: int| 0 <= j < in_year.len() && in_year[j] == first_date;
    let j2 = choose|j: int| 0 <= j < in_year.len() && in_year[j] == last_date;
    assert(in_year[j1].month == m1);
    assert(in_year[j2].month == m2);
    assert(months.contains(m1 as u32));
    assert(months.contains(m2 as u32));
    assert forall|t: int| 0 <= t < months.len() implies m1 <= #[trigger] months[t] <= m2 by {
        assert(months.contains(months[t]));
        let j = choose|j: int| 0 <= j < in_year.len() && (#[trigger] in_year[j]).month == months[t];
        assert(m1 <= in_year[j].month <= m2);
    }
    let t1 = choose|t: int| 0 <= t < months.len() && months[t] == m1 as u32;
    let t2 = choose|t: int| 0 <= t < months.len() && months[t] == m2 as u32;
    if months.len() >= 2 {
        assert(months[0] < months[1]);
    }
    if months.len() >= 3 {
        assert(months[1] < months[2]);
    }
    if m1 == m2 {
        assert(months.len() == 1);
    } else {
        assert(months.len() == 2);
        assert(months[0] == m1 && months[1] == m2);
    }
}

/// A window cut at the bounds of a month that it meets is the segment that
/// the window has in that month.
pub(crate) proof fn lemma_clipped_is_segment(
    year: int,
    index: int,
    month: int,
    week_start: Date,
    week_end: Date,
)
    requires
        MIN_YEAR <= year <= MAX_YEAR,
        0 <= index < window_count(year),
        1 <= month <= 12,
        window_meets_month(year, index, month),
        week_start.wf(),
        week_end.wf(),
        week_start.day_number() == window_start(year, index),
        week_end.day_number() == window_start(year, index) + 6,
    ensures
        clipped_to_month(year, month, week_start, week_end, (index + 1) as usize) == segment(
            year,
            index,
            month,
        ),
{
    let month_first = Date { year: year as i32, month: month as u32, day: 1 };
    let month_last = Date {
        year: year as i32,
        month: month as u32,
        day: days_in_month(year, month) as u32,
    };
    lemma_segment(year, index, month);
    lemma_day_number_order(week_start, month_first);
    lemma_day_number_order(week_end, month_last);
    lemma_day_number_order(week_start, segment(year, index, month).week_start);
    lemma_day_number_order(week_end, segment(year, index, month).week_end);
}

/// A month week of a month names the month and stands in the partition.
pub(crate) proof fn lemma_month_partition_members(year: int, month: int, i: int)
    requires
        0 <= i < month_partition(year, month).len(),
    ensures
        month_partition(year, month)[i].month == month,
        partition(year).contains(month_partition(year, month)[i]),
{
    let in_month = |week: MonthWeek| week.month == month;
    lemma_filter_members(partition(year), in_month, i);
}

} // verus!
