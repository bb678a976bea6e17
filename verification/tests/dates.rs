use school_graphql::calendar::{both_ends, canteen_week, events_window, month_range, sheet};
use school_graphql::date::{Date, DateInputError, MAX_YEAR, MIN_YEAR};
use school_graphql::error::QueryError;

fn date(year: i32, month: u32, day: u32) -> Date {
    Date::from_ymd_opt(year, month, day).unwrap()
}

#[test]
fn from_ymd_opt_knows_the_calendar() {
    assert!(Date::from_ymd_opt(2015, 3, 14).is_some());
    assert!(Date::from_ymd_opt(2015, 0, 14).is_none());
    assert!(Date::from_ymd_opt(2015, 13, 1).is_none());
    assert!(Date::from_ymd_opt(2015, 1, 0).is_none());
    assert!(Date::from_ymd_opt(2015, 2, 29).is_none());
    assert!(Date::from_ymd_opt(2016, 2, 29).is_some());
    assert!(Date::from_ymd_opt(1900, 2, 29).is_none());
    assert!(Date::from_ymd_opt(2000, 2, 29).is_some());
    assert!(Date::from_ymd_opt(-4, 2, 29).is_some());
    assert!(Date::from_ymd_opt(2023, 4, 31).is_none());
    assert!(Date::from_ymd_opt(2023, 4, 30).is_some());
    assert!(Date::from_ymd_opt(2023, 12, 31).is_some());
    assert!(Date::from_ymd_opt(2023, 12, 32).is_none());
    assert!(Date::from_ymd_opt(400000, 1, 1).is_none());
    assert!(Date::from_ymd_opt(-400000, 1, 1).is_none());
    assert!(Date::from_ymd_opt(MAX_YEAR, 12, 31).is_some());
    assert!(Date::from_ymd_opt(MAX_YEAR + 1, 1, 1).is_none());
    assert!(Date::from_ymd_opt(MIN_YEAR, 1, 1).is_some());
    assert!(Date::from_ymd_opt(MIN_YEAR - 1, 12, 31).is_none());
}

#[test]
fn from_ymd_opt_agrees_with_chrono() {
    for year in [-262144, -262143, -401, -400, -100, -4, -1, 0, 1, 4, 100, 1900, 2000, 2023, 2024, 262142, 262143] {
        for month in 0..14u32 {
            for day in 0..33u32 {
                let ours = Date::from_ymd_opt(year, month, day);
                let theirs = chrono::NaiveDate::from_ymd_opt(year, month, day);
                assert_eq!(ours.is_some(), theirs.is_some(), "{}-{}-{}", year, month, day);
            }
        }
    }
}

#[test]
fn parts_come_back() {
    let d = date(2024, 2, 29);
    assert_eq!((d.year(), d.month(), d.day()), (2024, 2, 29));
}

#[test]
fn dates_compare_chronologically() {
    let days = [date(-1, 12, 31), date(2023, 12, 31), date(2024, 1, 1), date(2024, 1, 2), date(2024, 2, 1)];
    for (i, a) in days.iter().enumerate() {
        for (j, b) in days.iter().enumerate() {
            assert_eq!(a.lt(b), i < j);
            assert_eq!(a.le(b), i <= j);
            assert_eq!(a < b, i < j);
        }
    }
}

#[test]
fn to_value_writes_calendar_text() {
    assert_eq!(date(2015, 9, 5).to_value(), "2015-09-05");
    assert_eq!(date(0, 1, 1).to_value(), "0000-01-01");
    assert_eq!(date(9999, 12, 31).to_value(), "9999-12-31");
    assert_eq!(date(-1, 1, 1).to_value(), "-0001-01-01");
    assert_eq!(date(10000, 12, 31).to_value(), "+10000-12-31");
    assert_eq!(date(-262143, 1, 1).to_value(), "-262143-01-01");
}

#[test]
fn parse_from_str_reads_calendar_text() {
    assert_eq!(Date::parse_from_str("2015-09-05"), Some(date(2015, 9, 5)));
    assert_eq!(Date::parse_from_str("-0001-01-01"), Some(date(-1, 1, 1)));
    assert_eq!(Date::parse_from_str("+10000-12-31"), Some(date(10000, 12, 31)));
    assert_eq!(Date::parse_from_str("2015-02-29"), None);
    assert_eq!(Date::parse_from_str("2015-09"), None);
    assert_eq!(Date::parse_from_str("2015-09-05x"), None);
    assert_eq!(Date::parse_from_str(""), None);
}

#[test]
fn from_str_reads_calendar_text() {
    assert_eq!(Date::from_str("2015-09-18"), Some(date(2015, 9, 18)));
    assert_eq!(Date::from_str("+12345-6-7"), Some(date(12345, 6, 7)));
    assert_eq!(Date::from_str("foo"), None);
}

#[test]
fn parse_tells_text_that_is_no_date_from_what_is_no_text() {
    assert_eq!(Date::parse(Some("2024-01-31")), Ok(date(2024, 1, 31)));
    assert_eq!(Date::parse(Some("31.01.2024")), Err(DateInputError::WrongFormat));
    assert_eq!(Date::parse(None), Err(DateInputError::NotText));
}

#[test]
fn default_is_the_first_day_of_1970() {
    assert_eq!(Date::default(), date(1970, 1, 1));
}

#[test]
fn text_round_trips_through_both_readers() {
    for d in [date(2024, 2, 29), date(1, 1, 1), date(-262143, 1, 1), date(262142, 12, 31), date(999, 10, 9)] {
        assert_eq!(Date::parse_from_str(&d.to_value()), Some(d));
        assert_eq!(Date::from_str(&d.to_value()), Some(d));
    }
}

#[test]
fn weekdays_count_from_monday() {
    assert_eq!(date(2024, 4, 29).days_from_monday(), 0);
    assert_eq!(date(2024, 5, 1).days_from_monday(), 2);
    assert_eq!(date(2024, 6, 1).days_from_monday(), 5);
    assert_eq!(date(2024, 6, 2).days_from_monday(), 6);
}

#[test]
fn days_are_added_and_taken_away() {
    assert_eq!(date(2022, 2, 20).add_days(9), Some(date(2022, 3, 1)));
    assert_eq!(date(2022, 7, 31).add_days(2), Some(date(2022, 8, 2)));
    assert_eq!(date(2022, 2, 20).sub_days(6), Some(date(2022, 2, 14)));
    assert_eq!(date(2024, 3, 1).sub_days(1), Some(date(2024, 2, 29)));
    assert_eq!(date(2022, 2, 20).add_days(0), Some(date(2022, 2, 20)));
    assert_eq!(date(2022, 7, 31).add_days(1000000000000), None);
    assert_eq!(date(2022, 2, 20).sub_days(1000000000000), None);
    assert_eq!(date(MIN_YEAR, 1, 1).sub_days(1), None);
    assert_eq!(date(MAX_YEAR, 12, 31).add_days(1), None);
}

#[test]
fn iso_weeks() {
    assert_eq!(Date::from_isoywd(2015, 30, 0), Some(date(2015, 7, 20)));
    assert_eq!(Date::from_isoywd(2015, 60, 0), None);
    assert_eq!(Date::from_isoywd(2015, 0, 0), None);
    assert_eq!(Date::from_isoywd(2014, 52, 6), Some(date(2014, 12, 28)));
    assert_eq!(Date::from_isoywd(2014, 53, 0), None);
    assert_eq!(Date::from_isoywd(2015, 1, 0), Some(date(2014, 12, 29)));
    assert_eq!(Date::from_isoywd(2015, 53, 6), Some(date(2016, 1, 3)));
    assert_eq!(Date::from_isoywd(2015, 1, 7), None);
    assert_eq!(Date::from_isoywd(400000, 10, 4), None);
    assert_eq!(Date::from_isoywd(-400000, 10, 5), None);
    assert_eq!(Date::from_isoywd(i32::MIN, 1, 0), None);
    assert_eq!(Date::from_isoywd(i32::MAX, 1, 0), None);
}

#[test]
fn month_range_runs_to_the_first_of_the_next_month() {
    assert_eq!(month_range(2024, 5), Ok((date(2024, 5, 1), date(2024, 6, 1))));
    assert_eq!(month_range(2024, 12), Ok((date(2024, 12, 1), date(2025, 1, 1))));
    assert_eq!(month_range(2024, 2), Ok((date(2024, 2, 1), date(2024, 3, 1))));
}

#[test]
fn month_range_rejects_what_is_no_month() {
    assert_eq!(month_range(2024, 0), Err(QueryError::InvalidDate));
    assert_eq!(month_range(2024, 13), Err(QueryError::InvalidDate));
    assert_eq!(month_range(MAX_YEAR, 12), Err(QueryError::InvalidDate));
    assert_eq!(month_range(MAX_YEAR + 1, 1), Err(QueryError::InvalidDate));
    assert_eq!(month_range(i32::MAX, 12), Err(QueryError::InvalidDate));
    assert_eq!(month_range(MAX_YEAR, 11), Ok((date(MAX_YEAR, 11, 1), date(MAX_YEAR, 12, 1))));
}

#[test]
fn events_window_covers_the_calendar_sheet() {
    // 1 May 2024 is a Wednesday, 1 June 2024 a Saturday.
    assert_eq!(events_window(2024, 5), Ok((date(2024, 4, 29), date(2024, 6, 2))));
    // 1 April 2024 is a Monday, 1 May 2024 a Wednesday.
    assert_eq!(events_window(2024, 4), Ok((date(2024, 4, 1), date(2024, 5, 5))));
    // 1 December 2024 is a Sunday, 1 January 2025 a Wednesday.
    assert_eq!(events_window(2024, 12), Ok((date(2024, 11, 25), date(2025, 1, 5))));
}

#[test]
fn events_window_rejects_what_is_no_month_or_leaves_the_calendar() {
    assert_eq!(events_window(2024, 13), Err(QueryError::InvalidDate));
    assert_eq!(events_window(2024, 0), Err(QueryError::InvalidDate));
    assert_eq!(events_window(MAX_YEAR, 12), Err(QueryError::InvalidDate));
    let first = date(MIN_YEAR, 1, 1);
    let expected = if first.days_from_monday() == 0 {
        events_window(MIN_YEAR, 1).is_ok()
    } else {
        events_window(MIN_YEAR, 1) == Err(QueryError::InvalidDate)
    };
    assert!(expected);
}

#[test]
fn sheet_needs_both_ends() {
    let a = date(2024, 4, 29);
    let b = date(2024, 6, 2);
    assert_eq!(sheet(Some(a), Some(b)), Ok((a, b)));
    assert_eq!(sheet(None, Some(b)), Err(QueryError::InvalidDate));
    assert_eq!(sheet(Some(a), None), Err(QueryError::InvalidDate));
    assert_eq!(both_ends(Some(a), Some(b)), Some((a, b)));
    assert_eq!(both_ends(Some(a), None), None);
    assert_eq!(both_ends(None, None), None);
}

#[test]
fn canteen_week_runs_from_monday_to_sunday() {
    assert_eq!(canteen_week(2015, 1), Some((date(2014, 12, 29), date(2015, 1, 4))));
    assert_eq!(canteen_week(2015, 53), Some((date(2015, 12, 28), date(2016, 1, 3))));
    assert_eq!(canteen_week(2024, 20), Some((date(2024, 5, 13), date(2024, 5, 19))));
    assert_eq!(canteen_week(2014, 53), None);
    assert_eq!(canteen_week(2015, 0), None);
    assert_eq!(canteen_week(2015, -1), None);
    assert_eq!(canteen_week(i32::MIN, 1), None);
}

#[test]
fn read_judges_how_input_was_read() {
    assert_eq!(Date::read(None), Err(DateInputError::NotText));
    assert_eq!(Date::read(Some(None)), Err(DateInputError::WrongFormat));
    assert_eq!(Date::read(Some(Some(date(2024, 1, 31)))), Ok(date(2024, 1, 31)));
}

#[test]
fn sunday_is_six_days_after_monday() {
    assert_eq!(school_graphql::calendar::days_until_sunday(0), 6);
    assert_eq!(school_graphql::calendar::days_until_sunday(5), 1);
    assert_eq!(school_graphql::calendar::days_until_sunday(6), 0);
    assert_eq!(school_graphql::calendar::days_until_sunday(7), 0);
}
