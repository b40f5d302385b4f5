use chrono::{Datelike, NaiveDate, Weekday};
use crustynab::calendar_weeks::{
    month_week_for_date, month_weeks, partition_year_into_month_weeks, MonthWeek,
};
use crustynab::date::{drop_day_zero, format_short_date, Date};

fn date(year: i32, month: u32, day: u32) -> Date {
    Date::from_ymd_opt(year, month, day).expect("valid date")
}

fn naive(day: &Date) -> NaiveDate {
    NaiveDate::from_ymd_opt(day.year, day.month, day.day).expect("valid date")
}

fn show(day: &Date) -> String {
    format!("{:04}-{:02}-{:02}", day.year, day.month, day.day)
}

fn all_dates(weeks: &[MonthWeek]) -> Vec<Date> {
    weeks.iter().flat_map(|w| w.dates()).collect()
}

#[test]
fn partition_2024_first_week_starts_jan_1() {
    let weeks = partition_year_into_month_weeks(2024);
    let first = &weeks[0];
    assert_eq!(
        format!(
            "month={} start={} end={} week_number={}",
            first.month,
            show(&first.week_start),
            show(&first.week_end),
            first.week_number
        ),
        "month=1 start=2024-01-01 end=2024-01-06 week_number=1"
    );
}

#[test]
fn partition_2024_covers_all_days() {
    let weeks = partition_year_into_month_weeks(2024);
    let mut all_dates: Vec<Date> = all_dates(&weeks);
    all_dates.sort();
    all_dates.dedup();
    let first = NaiveDate::from_ymd_opt(2024, 1, 1).unwrap();
    let last = NaiveDate::from_ymd_opt(2024, 12, 31).unwrap();
    let expected_count = (last - first).num_days() + 1;
    assert_eq!(
        format!(
            "count={} first={} last={}",
            all_dates.len(),
            show(all_dates.first().unwrap()),
            show(all_dates.last().unwrap())
        ),
        "count=366 first=2024-01-01 last=2024-12-31"
    );
    assert_eq!(all_dates.len() as i64, expected_count);
}

#[test]
fn partition_2024_no_duplicate_dates() {
    let weeks = partition_year_into_month_weeks(2024);
    let all_dates: Vec<Date> = all_dates(&weeks);
    let mut sorted = all_dates.clone();
    sorted.sort();
    sorted.dedup();
    assert_eq!(
        format!("total={} unique={}", all_dates.len(), sorted.len()),
        "total=366 unique=366"
    );
    assert_eq!(all_dates.len(), sorted.len());
}

#[test]
fn partition_2024_week_boundaries() {
    let weeks = partition_year_into_month_weeks(2024);
    let mut issues = Vec::new();
    for w in &weeks {
        let start_dow = naive(&w.week_start).weekday();
        let end_dow = naive(&w.week_end).weekday();
        let month_first = NaiveDate::from_ymd_opt(2024, w.month, 1).unwrap();
        let start_ok = start_dow == Weekday::Sun || naive(&w.week_start) == month_first;
        let month_last_day = if w.month == 12 {
            NaiveDate::from_ymd_opt(2025, 1, 1)
        } else {
            NaiveDate::from_ymd_opt(2024, w.month + 1, 1)
        }
        .unwrap()
        .pred_opt()
        .unwrap();
        let end_ok = end_dow == Weekday::Sat || naive(&w.week_end) == month_last_day;
        if !start_ok || !end_ok {
            issues.push(format!(
                "week {} month {} start={} ({:?}) end={} ({:?})",
                w.week_number,
                w.month,
                show(&w.week_start),
                start_dow,
                show(&w.week_end),
                end_dow
            ));
        }
    }
    assert_eq!(format!("issues_count={}", issues.len()), "issues_count=0");
    assert!(issues.is_empty(), "boundary violations: {issues:?}");
}

#[test]
fn month_weeks_march_2024() {
    let weeks = month_weeks(2024, 3);
    let summary: Vec<String> = weeks
        .iter()
        .map(|w| {
            format!(
                "week {} {}-{}",
                w.week_number,
                show(&w.week_start),
                show(&w.week_end)
            )
        })
        .collect();
    assert_eq!(
        summary.join("\n"),
        "week 9 2024-03-01-2024-03-02\n\
         week 10 2024-03-03-2024-03-09\n\
         week 11 2024-03-10-2024-03-16\n\
         week 12 2024-03-17-2024-03-23\n\
         week 13 2024-03-24-2024-03-30\n\
         week 14 2024-03-31-2024-03-31"
    );
}

#[test]
fn month_week_for_date_2024_03_13() {
    let day = date(2024, 3, 13);
    let w = month_week_for_date(day).unwrap();
    assert_eq!(
        format!(
            "month={} start={} end={} week_number={}",
            w.month,
            show(&w.week_start),
            show(&w.week_end),
            w.week_number
        ),
        "month=3 start=2024-03-10 end=2024-03-16 week_number=11"
    );
}

#[test]
fn month_week_for_date_contains_date() {
    let test_dates = vec![
        date(2024, 1, 1),
        date(2024, 2, 29),
        date(2024, 6, 15),
        date(2024, 12, 31),
        date(2026, 2, 14),
    ];
    let results: Vec<String> = test_dates
        .iter()
        .map(|&d| {
            let w = month_week_for_date(d).unwrap();
            let contains = w.week_start <= d && d <= w.week_end;
            format!(
                "{} contained={contains} week={}-{}",
                show(&d),
                show(&w.week_start),
                show(&w.week_end)
            )
        })
        .collect();
    assert_eq!(
        results.join("\n"),
        "2024-01-01 contained=true week=2024-01-01-2024-01-06\n\
         2024-02-29 contained=true week=2024-02-25-2024-02-29\n\
         2024-06-15 contained=true week=2024-06-09-2024-06-15\n\
         2024-12-31 contained=true week=2024-12-29-2024-12-31\n\
         2026-02-14 contained=true week=2026-02-08-2026-02-14"
    );
}

#[test]
fn week_number_matches_partition_order() {
    let weeks = partition_year_into_month_weeks(2024);
    let week_numbers: Vec<usize> = weeks.iter().map(|w| w.week_number).collect();
    let is_monotonic = week_numbers.windows(2).all(|pair| pair[0] <= pair[1]);
    assert_eq!(
        format!(
            "monotonic={} first={} last={}",
            is_monotonic,
            week_numbers.first().unwrap(),
            week_numbers.last().unwrap()
        ),
        "monotonic=true first=1 last=53"
    );
    assert!(is_monotonic);
}

#[test]
fn month_weeks_february_2024_ends_on_leap_day() {
    let weeks = month_weeks(2024, 2);
    let expected = MonthWeek {
        month: 2,
        week_start: date(2024, 2, 25),
        week_end: date(2024, 2, 29),
        week_number: 9,
    };
    assert!(weeks.contains(&expected));
    let march = month_weeks(2024, 3);
    assert_eq!(march[0].week_number, 9);
    assert_eq!(march[0].week_start, date(2024, 3, 1));
}

#[test]
fn partition_covers_every_year_exactly_once() {
    for year in 1900..=2100 {
        let weeks = partition_year_into_month_weeks(year);
        let days = all_dates(&weeks);
        let mut dedup = days.clone();
        dedup.sort_unstable();
        dedup.dedup();
        let year_start = NaiveDate::from_ymd_opt(year, 1, 1).unwrap();
        let year_end = NaiveDate::from_ymd_opt(year, 12, 31).unwrap();
        let expected_count = (year_end - year_start).num_days() + 1;
        assert_eq!(days.len(), dedup.len());
        assert_eq!(dedup.len() as i64, expected_count);
        assert_eq!(dedup.first().map(naive), Some(year_start));
        assert_eq!(dedup.last().map(naive), Some(year_end));
        assert_eq!(days, dedup);
    }
}

#[test]
fn month_weeks_cover_every_month_exactly_once() {
    for year in [1900, 1999, 2000, 2023, 2024, 2100] {
        for month in 1..=12u32 {
            let weeks = month_weeks(year, month);
            let days = all_dates(&weeks);
            let first = NaiveDate::from_ymd_opt(year, month, 1).unwrap();
            let last = if month == 12 {
                NaiveDate::from_ymd_opt(year + 1, 1, 1)
            } else {
                NaiveDate::from_ymd_opt(year, month + 1, 1)
            }
            .unwrap()
            .pred_opt()
            .unwrap();
            assert_eq!(days.len() as i64, (last - first).num_days() + 1);
            assert_eq!(days.first().map(naive), Some(first));
            assert_eq!(days.last().map(naive), Some(last));
            for pair in days.windows(2) {
                assert_eq!(naive(&pair[0]).succ_opt(), Some(naive(&pair[1])));
            }
        }
    }
}

#[test]
fn month_weeks_of_no_month_is_empty() {
    assert!(month_weeks(2024, 0).is_empty());
    assert!(month_weeks(2024, 13).is_empty());
}

#[test]
fn every_segment_keeps_the_boundary_rules() {
    for year in 1900..=2100 {
        for week in partition_year_into_month_weeks(year) {
            let start = naive(&week.week_start);
            let end = naive(&week.week_end);
            let start_is_sunday = start.weekday() == Weekday::Sun;
            let end_is_saturday = end.weekday() == Weekday::Sat;
            assert!(start_is_sunday || start.day() == 1);
            assert!(end_is_saturday || end.succ_opt().unwrap().day() == 1);
            assert!(start_is_sunday || end_is_saturday);
            assert!(start <= end);
            assert_eq!((start.year(), start.month()), (year, week.month));
            assert_eq!((end.year(), end.month()), (year, week.month));
            let days = week.dates();
            assert!(!days.is_empty());
            assert_eq!((end - start).num_days(), days.len() as i64 - 1);
        }
    }
}

#[test]
fn week_numbers_count_sundays_from_the_anchor() {
    for year in 1900..=2100 {
        let jan_first = NaiveDate::from_ymd_opt(year, 1, 1).unwrap();
        let anchor =
            jan_first - chrono::Duration::days(jan_first.weekday().num_days_from_sunday() as i64);
        let mut previous = 1;
        for week in partition_year_into_month_weeks(year) {
            let start = naive(&week.week_start);
            let sunday =
                start - chrono::Duration::days(start.weekday().num_days_from_sunday() as i64);
            let expected = ((sunday - anchor).num_days() / 7) as usize + 1;
            assert_eq!(week.week_number, expected);
            assert!(previous <= week.week_number);
            previous = week.week_number;
        }
    }
}

#[test]
fn every_date_resolves_to_its_month_week() {
    let mut day = NaiveDate::from_ymd_opt(2019, 12, 25).unwrap();
    let end = NaiveDate::from_ymd_opt(2021, 1, 7).unwrap();
    while day <= end {
        let d = date(day.year(), day.month(), day.day());
        let week = month_week_for_date(d).expect("date must resolve to month week");
        assert_eq!(week.month, day.month());
        assert!(week.week_start <= d && d <= week.week_end);
        assert!(month_weeks(day.year(), day.month()).contains(&week));
        day = day.succ_opt().unwrap();
    }
}

#[test]
fn dates_are_made_only_for_days_that_exist() {
    assert_eq!(
        Date::from_ymd_opt(2015, 3, 14),
        Some(Date { year: 2015, month: 3, day: 14 })
    );
    assert_eq!(Date::from_ymd_opt(2015, 0, 14), None);
    assert_eq!(Date::from_ymd_opt(2015, 2, 29), None);
    assert!(Date::from_ymd_opt(2024, 2, 29).is_some());
    assert!(Date::from_ymd_opt(1900, 2, 29).is_none());
    assert!(Date::from_ymd_opt(2000, 2, 29).is_some());
    assert!(Date::from_ymd_opt(2023, 4, 31).is_none());
    assert!(Date::from_ymd_opt(262142, 12, 31).is_some());
    assert!(Date::from_ymd_opt(262143, 1, 1).is_none());
    assert!(Date::from_ymd_opt(-262143, 1, 1).is_some());
    assert!(Date::from_ymd_opt(-262144, 12, 31).is_none());
}

#[test]
fn date_order_follows_the_calendar() {
    let a = date(2023, 12, 31);
    let b = date(2024, 1, 1);
    assert!(a.is_on_or_before(&b));
    assert!(!b.is_on_or_before(&a));
    assert!(a.is_on_or_before(&a));
    assert_eq!(a.later_of(b), b);
    assert_eq!(b.later_of(a), b);
    assert_eq!(a.earlier_of(b), a);
    assert_eq!(b.earlier_of(a), a);
    assert!(date(2024, 2, 29).is_on_or_before(&date(2024, 3, 1)));
    assert!(!date(2024, 3, 1).is_on_or_before(&date(2024, 2, 29)));
}

#[test]
fn segment_dates_run_from_start_to_end() {
    let week = MonthWeek {
        month: 2,
        week_start: date(2024, 2, 25),
        week_end: date(2024, 2, 29),
        week_number: 9,
    };
    assert_eq!(
        week.dates(),
        vec![
            date(2024, 2, 25),
            date(2024, 2, 26),
            date(2024, 2, 27),
            date(2024, 2, 28),
            date(2024, 2, 29),
        ]
    );
    let across = MonthWeek {
        month: 12,
        week_start: date(2023, 12, 30),
        week_end: date(2024, 1, 2),
        week_number: 1,
    };
    assert_eq!(
        across.dates(),
        vec![date(2023, 12, 30), date(2023, 12, 31), date(2024, 1, 1), date(2024, 1, 2)]
    );
    let empty = MonthWeek {
        month: 1,
        week_start: date(2024, 1, 2),
        week_end: date(2024, 1, 1),
        week_number: 1,
    };
    assert!(empty.dates().is_empty());
}

#[test]
fn partition_of_a_year_that_starts_on_sunday() {
    // 2023-01-01 is a Sunday and 2023-12-31 is a Sunday.
    let weeks = partition_year_into_month_weeks(2023);
    assert_eq!(weeks[0].week_start, date(2023, 1, 1));
    assert_eq!(weeks[0].week_end, date(2023, 1, 7));
    assert_eq!(weeks[0].week_number, 1);
    let last = weeks.last().unwrap();
    assert_eq!(last.week_start, date(2023, 12, 31));
    assert_eq!(last.week_end, date(2023, 12, 31));
    assert_eq!(last.week_number, 53);
}

#[test]
fn day_numbers_count_the_days_from_the_first_of_january_of_year_one() {
    assert_eq!(date(1, 1, 1).num_days_from_ce(), 1);
    assert_eq!(date(2024, 1, 1).num_days_from_ce(), 738_886);
    assert_eq!(date(0, 12, 31).num_days_from_ce(), 0);
    assert_eq!(date(-4, 2, 29).num_days_from_ce(), -1767);
    for year in [-262143, -401, -400, -100, -5, -4, -1, 0, 1, 4, 100, 400, 1900, 2000, 262142] {
        let mut day = NaiveDate::from_ymd_opt(year, 1, 1).unwrap();
        while day.year() == year {
            let d = date(day.year(), day.month(), day.day());
            assert_eq!(d.num_days_from_ce(), day.num_days_from_ce() as i64);
            assert_eq!(
                d.num_days_from_ce().rem_euclid(7),
                day.weekday().num_days_from_sunday() as i64
            );
            match day.succ_opt() {
                Some(next) => day = next,
                None => break,
            }
        }
    }
}

#[test]
fn short_date_labels_name_month_and_day() {
    assert_eq!(format_short_date(date(2024, 3, 9)), "Mar 9");
    assert_eq!(format_short_date(date(2024, 3, 10)), "Mar 10");
    assert_eq!(format_short_date(date(2024, 12, 31)), "Dec 31");
    assert_eq!(format_short_date(date(2023, 1, 1)), "Jan 1");
    let mut day = NaiveDate::from_ymd_opt(2024, 1, 1).unwrap();
    while day.year() == 2024 {
        let expected = format!("{} {}", day.format("%b"), day.day());
        assert_eq!(format_short_date(date(2024, day.month(), day.day())), expected);
        day = day.succ_opt().unwrap();
    }
    assert_eq!(drop_day_zero("Mar 09"), "Mar 9");
    assert_eq!(drop_day_zero("Mar 19"), "Mar 19");
    assert_eq!(drop_day_zero("Mar 0"), "Mar ");
    assert_eq!(drop_day_zero("a 01 02"), "a 01 2");
    assert_eq!(drop_day_zero("0 1"), "0 1");
    assert_eq!(drop_day_zero("01"), "01");
    assert_eq!(drop_day_zero("Mar "), "Mar ");
    assert_eq!(drop_day_zero(""), "");
    assert_eq!(drop_day_zero("m\u{e4}r 07"), "m\u{e4}r 7");
}
