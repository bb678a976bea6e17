//! The stretches of days that the archive, the events and the canteen ask
//! the store for.

use crate::date::{days_after, days_before, is_calendar_date, iso_week_date, weekday_of, Date, MAX_YEAR, MIN_YEAR};
use crate::error::QueryError;
use vstd::prelude::*;

verus! {

/// The year and month that follow the given month, with the day 1.
pub open spec fn next_month(year: int, month: int) -> (int, int, int) {
    if month < 12 {
        (year, month + 1, 1)
    } else {
        (year + 1, 1, 1)
    }
}

/// Whether a month has a first day and is followed by a month that has one.
pub open spec fn is_month(year: int, month: int) -> bool {
    is_calendar_date(year, month, 1) && is_calendar_date(
        next_month(year, month).0,
        next_month(year, month).1,
        1,
    )
}

/// The stretch of a month: its first day, and the first day of the month
/// after it, which is the first day beyond the stretch.
pub open spec fn month_stretch(year: int, month: int) -> (Date, Date) {
    (
        Date::of(year, month, 1),
        Date::of(next_month(year, month).0, next_month(year, month).1, 1),
    )
}

/// The stretch of a month.
///
/// `InvalidDate` where either end does not exist: the month is no month, or
/// one of the years lies outside the calendar.
pub fn month_range(year: i32, month: u32) -> (range: Result<(Date, Date), QueryError>)
    ensures
        range == (if is_month(year as int, month as int) {
            Ok::<(Date, Date), QueryError>(month_stretch(year as int, month as int))
        } else {
            Err(QueryError::InvalidDate)
        }),
        range matches Ok((start, end)) ==> start.valid() && end.valid(),
{
    let start = match Date::from_ymd_opt(year, month, 1) {
        Some(start) => start,
        None => {
            return Err(QueryError::InvalidDate);
        },
    };
    let end = if month < 12 {
        Date::from_ymd_opt(year, month + 1, 1)
    } else {
        Date::from_ymd_opt(year + 1, 1, 1)
    };
    match end {
        Some(end) => Ok((start, end)),
        None => Err(QueryError::InvalidDate),
    }
}

/// The two ends of a stretch, where both are there.
pub fn both_ends(start: Option<Date>, end: Option<Date>) -> (ends: Option<(Date, Date)>)
    ensures
        ends == (match (start, end) {
            (Some(start), Some(end)) => Some((start, end)),
            _ => None,
        }),
{
    match (start, end) {
        (Some(start), Some(end)) => Some((start, end)),
        _ => None,
    }
}

/// The stretch of the calendar sheet of a month: from the Monday of the
/// week in which the month begins to the Sunday of the week in which the
/// next month begins, the latter being the first day beyond the stretch.
///
/// `InvalidDate` where the month is no month or an end of the stretch lies
/// outside the calendar.
pub fn events_window(year: i32, month: u32) -> (window: Result<(Date, Date), QueryError>)
    ensures
        window == (if is_month(year as int, month as int) {
            sheet_of(
                month_stretch(year as int, month as int).0,
                month_stretch(year as int, month as int).1,
            )
        } else {
            Err(QueryError::InvalidDate)
        }),
        window matches Err(error) ==> error == QueryError::InvalidDate,
        window matches Ok((start, end)) ==> start.valid() && end.valid(),
{
    match month_range(year, month) {
        Err(error) => Err(error),
        Ok((first, next)) => {
            let start = first.sub_days(first.days_from_monday() as u64);
            let end = next.add_days(days_until_sunday(next.days_from_monday()));
            sheet(start, end)
        },
    }
}

/// The number of days from a day to the Sunday of its week, given the
/// number of days from the Monday of its week to the day.
pub fn days_until_sunday(days_from_monday: u32) -> (days: u64)
    ensures
        days == (if days_from_monday <= 6 {
            6 - days_from_monday
        } else {
            0
        }),
{
    if days_from_monday <= 6 {
        (6 - days_from_monday) as u64
    } else {
        0
    }
}

/// The calendar sheet between the first days of a month and of the next.
pub open spec fn sheet_of(first: Date, next: Date) -> Result<(Date, Date), QueryError> {
    match (
        days_before(first, weekday_of(first) as nat),
        days_after(next, (6 - weekday_of(next)) as nat),
    ) {
        (Some(start), Some(end)) => Ok((start, end)),
        _ => Err(QueryError::InvalidDate),
    }
}

/// The calendar sheet with the given ends, where both are within the
/// calendar.
pub fn sheet(start: Option<Date>, end: Option<Date>) -> (window: Result<(Date, Date), QueryError>)
    ensures
        window == (match (start, end) {
            (Some(start), Some(end)) => Ok::<(Date, Date), QueryError>((start, end)),
            _ => Err(QueryError::InvalidDate),
        }),
{
    match both_ends(start, end) {
        Some(ends) => Ok(ends),
        None => Err(QueryError::InvalidDate),
    }
}

/// The week of the canteen: the Monday and the Sunday of the ISO week
/// `week` of the ISO year `year`, or `None` where there is no such week.
pub fn canteen_week(year: i32, week: i32) -> (days: Option<(Date, Date)>)
    ensures
        days == (if week >= 0 && MIN_YEAR - 1 <= year <= MAX_YEAR + 1 {
            match (iso_week_date(year as int, week as int, 0), iso_week_date(year as int, week as int, 6)) {
                (Some(monday), Some(sunday)) => Some((monday, sunday)),
                _ => None,
            }
        } else {
            None
        }),
{
    if week < 0 {
        return None;
    }
    let monday = Date::from_isoywd(year, week as u32, 0);
    let sunday = Date::from_isoywd(year, week as u32, 6);
    both_ends(monday, sunday)
}

} // verus!
