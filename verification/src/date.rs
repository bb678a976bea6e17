//! Calendar dates of the proleptic Gregorian calendar.
//!
//! A [`Date`] is a year, a month and a day that together name a day that
//! exists, within the years that `chrono::NaiveDate` can hold.  Dates are
//! ordered chronologically: by year, then month, then day.

use crate::text::{all_digits, decimal_digits, is_digit, lemma_decimal_digits_are_digits, zero_padded};
use chrono::{Datelike, Days, NaiveDate, Weekday};
use vstd::prelude::*;

verus! {

/// The earliest year a [`Date`] may lie in.
pub const MIN_YEAR: i32 = -262143;

/// The latest year a [`Date`] may lie in.
pub const MAX_YEAR: i32 = 262142;

/// Whether `year` is a leap year of the Gregorian calendar.
pub open spec fn is_leap_year(year: int) -> bool {
    year % 4 == 0 && (year % 100 != 0 || year % 400 == 0)
}

/// The number of days of `month` in `year`; 0 where `month` is no month.
pub open spec fn days_in_month(year: int, month: int) -> int {
    if month == 2 {
        if is_leap_year(year) {
            29
        } else {
            28
        }
    } else if month == 4 || month == 6 || month == 9 || month == 11 {
        30
    } else if 1 <= month <= 12 {
        31
    } else {
        0
    }
}

/// Whether the day `day` of month `month` of year `year` exists and lies
/// within the supported years.
pub open spec fn is_calendar_date(year: int, month: int, day: int) -> bool {
    &&& MIN_YEAR <= year <= MAX_YEAR
    &&& 1 <= month <= 12
    &&& 1 <= day <= days_in_month(year, month)
}

/// Whether the day `a` comes before the day `b`, both given as
/// `(year, month, day)`.
pub open spec fn ymd_before(a: (int, int, int), b: (int, int, int)) -> bool {
    a.0 < b.0 || (a.0 == b.0 && (a.1 < b.1 || (a.1 == b.1 && a.2 < b.2)))
}

/// Why what a caller sent is no date.
#[derive(Clone, Copy, Debug, PartialEq, Eq, Structural)]
pub enum DateInputError {
    /// What was sent is text, but not a date.
    WrongFormat,
    /// What was sent is not text.
    NotText,
}

/// A day of the calendar.
#[derive(Clone, Copy, Debug, PartialEq, Eq, Structural, PartialOrd, Ord, Hash)]
pub struct Date {
    year: i32,
    month: u32,
    day: u32,
}

impl View for Date {
    type V = (int, int, int);

    /// The date as `(year, month, day)`.
    closed spec fn view(&self) -> (int, int, int) {
        (self.year as int, self.month as int, self.day as int)
    }
}

impl Date {
    /// Every `Date` that executable code holds names an existing day.
    #[verifier::type_invariant]
    pub closed spec fn valid(self) -> bool {
        is_calendar_date(self.year as int, self.month as int, self.day as int)
    }

    /// Whether `self` is an earlier day than `other`.
    pub open spec fn before(self, other: Date) -> bool {
        ymd_before(self@, other@)
    }

    /// Whether `self` is the same day as `other` or an earlier one.
    pub open spec fn not_after(self, other: Date) -> bool {
        !ymd_before(other@, self@)
    }

    /// The date of the given year, month and day; meant for days that
    /// exist.
    pub closed spec fn of(year: int, month: int, day: int) -> Date {
        Date { year: year as i32, month: month as u32, day: day as u32 }
    }

    /// The date of a day that exists is valid and has that year, month and
    /// day.
    pub broadcast proof fn lemma_of(year: int, month: int, day: int)
        requires
            is_calendar_date(year, month, day),
        ensures
            (#[trigger] Date::of(year, month, day)).valid(),
            Date::of(year, month, day)@ == (year, month, day),
    {
    }

    /// The date of the given year, month and day, if that day exists.
    pub fn from_ymd_opt(year: i32, month: u32, day: u32) -> (date: Option<Date>)
        ensures
            date is Some <==> is_calendar_date(year as int, month as int, day as int),
            date matches Some(d) ==> d.valid() && d@ == (year as int, month as int, day as int) && d
                == Date::of(year as int, month as int, day as int),
    {
        if year < MIN_YEAR || year > MAX_YEAR || month < 1 || month > 12 || day < 1 {
            return None;
        }
        if day > month_length(year, month) {
            return None;
        }
        Some(Date { year, month, day })
    }

    /// The year.
    pub fn year(&self) -> (year: i32)
        ensures
            year == self@.0,
    {
        self.year
    }

    /// The month, from 1 to 12.
    pub fn month(&self) -> (month: u32)
        ensures
            month == self@.1,
    {
        self.month
    }

    /// The day of the month, from 1.
    pub fn day(&self) -> (day: u32)
        ensures
            day == self@.2,
    {
        self.day
    }

    /// Whether `self` is the same day as `other` or an earlier one.
    pub fn le(&self, other: &Date) -> (b: bool)
        ensures
            b == self.not_after(*other),
    {
        proof {
            use_type_invariant(self);
            use_type_invariant(other);
        }
        if self.year != other.year {
            self.year < other.year
        } else if self.month != other.month {
            self.month < other.month
        } else {
            self.day <= other.day
        }
    }

    /// Whether `self` is an earlier day than `other`.
    pub fn lt(&self, other: &Date) -> (b: bool)
        ensures
            b == self.before(*other),
    {
        proof {
            use_type_invariant(self);
            use_type_invariant(other);
        }
        if self.year != other.year {
            self.year < other.year
        } else if self.month != other.month {
            self.month < other.month
        } else {
            self.day < other.day
        }
    }

    /// A `Date` is exactly its year, month and day: equal views mean equal
    /// dates.
    pub broadcast proof fn lemma_view_injective(a: Date, b: Date)
        requires
            #[trigger] a@ == #[trigger] b@,
        ensures
            a == b,
    {
    }

    /// The view of a valid `Date` is a calendar date.
    pub broadcast proof fn lemma_valid_view(self)
        requires
            #[trigger] self.valid(),
        ensures
            is_calendar_date(self@.0, self@.1, self@.2),
            i32::MIN <= self@.0 <= i32::MAX,
    {
    }
}

impl Default for Date {
    /// The first day of 1970.
    fn default() -> (date: Date)
        ensures
            date.valid(),
            date@ == (1970int, 1int, 1int),
    {
        Date { year: 1970, month: 1, day: 1 }
    }
}

/// Whether `year` is a leap year.
fn leap_year(year: i32) -> (leap: bool)
    requires
        MIN_YEAR <= year <= MAX_YEAR,
    ensures
        leap == is_leap_year(year as int),
{
    // Shifting by a multiple of 400 keeps the remainders and makes the year
    // positive.
    let shifted: u32 = (year + 400000) as u32;
    proof {
        vstd::arithmetic::div_mod::lemma_mod_multiples_vanish(100000, year as int, 4);
        vstd::arithmetic::div_mod::lemma_mod_multiples_vanish(4000, year as int, 100);
        vstd::arithmetic::div_mod::lemma_mod_multiples_vanish(1000, year as int, 400);
        assert(shifted as int == 4 * 100000 + year);
        assert(shifted as int == 100 * 4000 + year);
        assert(shifted as int == 400 * 1000 + year);
    }
    shifted % 4 == 0 && (shifted % 100 != 0 || shifted % 400 == 0)
}

/// The number of days of `month` in `year`.
fn month_length(year: i32, month: u32) -> (days: u32)
    requires
        MIN_YEAR <= year <= MAX_YEAR,
        1 <= month <= 12,
    ensures
        days == days_in_month(year as int, month as int),
{
    if month == 2 {
        if leap_year(year) {
            29
        } else {
            28
        }
    } else if month == 4 || month == 6 || month == 9 || month == 11 {
        30
    } else {
        31
    }
}

/// The year as the calendar text writes it: four digits from 0000 to 9999,
/// and a sign followed by at least four digits for any other year.
pub open spec fn year_text(year: int) -> Seq<char> {
    if 0 <= year <= 9999 {
        zero_padded(decimal_digits(year as nat), 4)
    } else if year < 0 {
        seq!['-'] + zero_padded(decimal_digits((-year) as nat), 4)
    } else {
        seq!['+'] + zero_padded(decimal_digits(year as nat), 4)
    }
}

/// The calendar text of a date: the year, the month in two digits and the
/// day in two digits, with `-` between them, as in `2024-01-31`.
pub open spec fn iso_text(ymd: (int, int, int)) -> Seq<char> {
    year_text(ymd.0) + seq!['-'] + zero_padded(decimal_digits(ymd.1 as nat), 2) + seq!['-']
        + zero_padded(decimal_digits(ymd.2 as nat), 2)
}

/// What chrono's `NaiveDate::parse_from_str` reads from `text` under the
/// format `%Y-%m-%d`: the date, or `None` where it reports an error.
pub uninterp spec fn parsed_date(text: Seq<char>) -> Option<Date>;

/// What chrono's `FromStr` for `NaiveDate` reads from `text`: the date, or
/// `None` where it reports an error.
pub uninterp spec fn scanned_date(text: Seq<char>) -> Option<Date>;

/// Whether `read`, the outcome of reading `text` as a date, does justice to
/// calendar text: where `text` is the calendar text of an existing date,
/// `read` is that date.
pub open spec fn reads_calendar_text(text: Seq<char>, read: Result<Date, chrono::ParseError>) -> bool {
    forall|date: Date| date.valid() && text == #[trigger] date.text() ==> read == Ok::<Date, chrono::ParseError>(date)
}

/// The error that chrono reports for text that it cannot read as a date.
#[verifier::external_type_specification]
#[verifier::external_body]
pub struct ExParseError(chrono::ParseError);

/// Calls `chrono::NaiveDate::parse_from_str` with the format `%Y-%m-%d`.
///
/// Trusted: the outcome is a function of the text alone, named
/// [`parsed_date`]; a date that comes back exists; and the calendar text of
/// an existing date is read back as that date.
#[verifier::external_body]
fn parse_ymd(text: &str) -> (parsed: Result<Date, chrono::ParseError>)
    ensures
        parsed_date(text@) == (match parsed {
            Ok(date) => Some(date),
            Err(_) => None,
        }),
        parsed matches Ok(date) ==> date.valid(),
        reads_calendar_text(text@, parsed),
{
    match NaiveDate::parse_from_str(text, "%Y-%m-%d") {
        Ok(date) => Ok(Date { year: date.year(), month: date.month(), day: date.day() }),
        Err(error) => Err(error),
    }
}

/// Calls `str::parse::<chrono::NaiveDate>`, chrono's `FromStr` for dates.
///
/// Trusted: the outcome is a function of the text alone, named
/// [`scanned_date`]; a date that comes back exists; and the calendar text of
/// an existing date is read back as that date.
#[verifier::external_body]
fn scan_ymd(text: &str) -> (scanned: Result<Date, chrono::ParseError>)
    ensures
        scanned_date(text@) == (match scanned {
            Ok(date) => Some(date),
            Err(_) => None,
        }),
        scanned matches Ok(date) ==> date.valid(),
        reads_calendar_text(text@, scanned),
{
    match text.parse::<NaiveDate>() {
        Ok(date) => Ok(Date { year: date.year(), month: date.month(), day: date.day() }),
        Err(error) => Err(error),
    }
}

/// Calls `chrono::NaiveDate::format` with the format `%Y-%m-%d`.
///
/// Trusted: the text is the calendar text of the date, [`iso_text`].
#[verifier::external_body]
fn format_ymd(date: &Date) -> (text: String)
    requires
        date.valid(),
    ensures
        text@ == iso_text(date@),
{
    NaiveDate::from_ymd_opt(date.year, date.month, date.day).unwrap().format("%Y-%m-%d").to_string()
}

/// The day of the week of a date as chrono's `Datelike::weekday` gives it,
/// counted in days from Monday: 0 for a Monday, 6 for a Sunday.
pub uninterp spec fn weekday_of(date: Date) -> int;

/// The date that chrono's `NaiveDate::checked_sub_days` gives: `days` days
/// before `date`, or `None` where that is out of range.
pub uninterp spec fn days_before(date: Date, days: nat) -> Option<Date>;

/// The date that chrono's `NaiveDate::checked_add_days` gives: `days` days
/// after `date`, or `None` where that is out of range.
pub uninterp spec fn days_after(date: Date, days: nat) -> Option<Date>;

/// The date that chrono's `NaiveDate::from_isoywd_opt` gives: the day of
/// the ISO week `week` of the ISO year `year` that lies `weekday` days after
/// its Monday, or `None` where there is no such day.
pub uninterp spec fn iso_week_date(year: int, week: int, weekday: int) -> Option<Date>;

/// Calls `chrono::Datelike::weekday` and `Weekday::num_days_from_monday`.
///
/// Trusted: the number depends on the date alone, named [`weekday_of`], and
/// is at most 6.
#[verifier::external_body]
fn num_days_from_monday(date: &Date) -> (days: u32)
    requires
        date.valid(),
    ensures
        days == weekday_of(*date),
        days <= 6,
{
    NaiveDate::from_ymd_opt(date.year, date.month, date.day).unwrap().weekday().num_days_from_monday()
}

/// Calls `chrono::NaiveDate::checked_sub_days`.
///
/// Trusted: the outcome depends on the date and the number of days alone,
/// named [`days_before`], and a date that comes back exists.
#[verifier::external_body]
fn checked_sub_days(date: &Date, days: u64) -> (earlier: Option<Date>)
    requires
        date.valid(),
    ensures
        earlier == days_before(*date, days as nat),
        earlier matches Some(d) ==> d.valid(),
{
    match NaiveDate::from_ymd_opt(date.year, date.month, date.day).unwrap().checked_sub_days(
        Days::new(days),
    ) {
        Some(d) => Some(Date { year: d.year(), month: d.month(), day: d.day() }),
        None => None,
    }
}

/// Calls `chrono::NaiveDate::checked_add_days`.
///
/// Trusted: the outcome depends on the date and the number of days alone,
/// named [`days_after`], and a date that comes back exists.
#[verifier::external_body]
fn checked_add_days(date: &Date, days: u64) -> (later: Option<Date>)
    requires
        date.valid(),
    ensures
        later == days_after(*date, days as nat),
        later matches Some(d) ==> d.valid(),
{
    match NaiveDate::from_ymd_opt(date.year, date.month, date.day).unwrap().checked_add_days(
        Days::new(days),
    ) {
        Some(d) => Some(Date { year: d.year(), month: d.month(), day: d.day() }),
        None => None,
    }
}

/// Calls `chrono::NaiveDate::from_isoywd_opt`, with the weekday that lies
/// `weekday` days after Monday.
///
/// Trusted: the outcome depends on the three numbers alone, named
/// [`iso_week_date`], and a date that comes back exists.  Years far outside
/// the calendar are kept away from chrono, whose arithmetic on them may
/// overflow.
#[verifier::external_body]
fn from_isoywd_opt(year: i32, week: u32, weekday: u8) -> (date: Option<Date>)
    requires
        MIN_YEAR - 1 <= year <= MAX_YEAR + 1,
        weekday <= 6,
    ensures
        date == iso_week_date(year as int, week as int, weekday as int),
        date matches Some(d) ==> d.valid(),
{
    match NaiveDate::from_isoywd_opt(year, week, Weekday::try_from(weekday).unwrap()) {
        Some(d) => Some(Date { year: d.year(), month: d.month(), day: d.day() }),
        None => None,
    }
}

impl Date {
    /// The calendar text of the date.
    pub open spec fn text(self) -> Seq<char> {
        iso_text(self@)
    }

    /// Reads a date from text in the form `%Y-%m-%d`, as chrono's parser
    /// understands it.  The calendar text of a date is always read back as
    /// that date; what else is accepted is chrono's to say.
    pub fn parse_from_str(text: &str) -> (date: Option<Date>)
        ensures
            date == parsed_date(text@),
            date matches Some(d) ==> d.valid(),
            forall|d: Date| d.valid() && text@ == #[trigger] d.text() ==> date == Some(d),
    {
        match parse_ymd(text) {
            Ok(date) => Some(date),
            Err(_) => None,
        }
    }

    /// Reads a date from text as chrono's `FromStr` understands it: like
    /// [`Date::parse_from_str`], but with white space allowed around the
    /// numbers.
    pub fn from_str(text: &str) -> (date: Option<Date>)
        ensures
            date == scanned_date(text@),
            date matches Some(d) ==> d.valid(),
            forall|d: Date| d.valid() && text@ == #[trigger] d.text() ==> date == Some(d),
    {
        match scan_ymd(text) {
            Ok(date) => Some(date),
            Err(_) => None,
        }
    }

    /// The number of days from the Monday of the date's week to the date.
    pub fn days_from_monday(&self) -> (days: u32)
        ensures
            days == weekday_of(*self),
            days <= 6,
    {
        proof {
            use_type_invariant(self);
        }
        num_days_from_monday(self)
    }

    /// The date `days` days before this one, if it is within range.
    pub fn sub_days(&self, days: u64) -> (earlier: Option<Date>)
        ensures
            earlier == days_before(*self, days as nat),
            earlier matches Some(d) ==> d.valid(),
    {
        proof {
            use_type_invariant(self);
        }
        checked_sub_days(self, days)
    }

    /// The date `days` days after this one, if it is within range.
    pub fn add_days(&self, days: u64) -> (later: Option<Date>)
        ensures
            later == days_after(*self, days as nat),
            later matches Some(d) ==> d.valid(),
    {
        proof {
            use_type_invariant(self);
        }
        checked_add_days(self, days)
    }

    /// The day of an ISO week: the one that lies `weekday` days after the
    /// Monday of week `week` of the ISO year `year`.  `None` where there is
    /// no such week or day, which includes every year that lies more than
    /// one year outside the calendar, and every `weekday` above 6.
    pub fn from_isoywd(year: i32, week: u32, weekday: u8) -> (date: Option<Date>)
        ensures
            date == (if MIN_YEAR - 1 <= year <= MAX_YEAR + 1 && weekday <= 6 {
                iso_week_date(year as int, week as int, weekday as int)
            } else {
                None
            }),
            date matches Some(d) ==> d.valid(),
    {
        if year < MIN_YEAR - 1 || year > MAX_YEAR + 1 || weekday > 6 {
            None
        } else {
            from_isoywd_opt(year, week, weekday)
        }
    }

    /// Reads a date that a caller sent.  `text` is the text that was sent, or
    /// `None` where something else than text was sent.
    pub fn parse(text: Option<&str>) -> (date: Result<Date, DateInputError>)
        ensures
            date == Self::input(
                match text {
                    Some(text) => Some(scanned_date(text@)),
                    None => None,
                },
            ),
            date matches Ok(d) ==> d.valid(),
    {
        match text {
            None => Self::read(None),
            Some(text) => Self::read(Some(Date::from_str(text))),
        }
    }

    /// What a caller's input amounts to, given how it was read: `None` where
    /// it was not text, `Some(None)` where it was text but no date.
    pub open spec fn input(scanned: Option<Option<Date>>) -> Result<Date, DateInputError> {
        match scanned {
            None => Err(DateInputError::NotText),
            Some(None) => Err(DateInputError::WrongFormat),
            Some(Some(date)) => Ok(date),
        }
    }

    /// Judges a caller's input from how it was read.
    pub fn read(scanned: Option<Option<Date>>) -> (date: Result<Date, DateInputError>)
        ensures
            date == Self::input(scanned),
    {
        match scanned {
            None => Err(DateInputError::NotText),
            Some(None) => Err(DateInputError::WrongFormat),
            Some(Some(date)) => Ok(date),
        }
    }

    /// Writes the calendar text of the date.
    pub fn to_value(&self) -> (text: String)
        ensures
            text@ == self.text(),
    {
        proof {
            use_type_invariant(self);
        }
        format_ymd(self)
    }
}

/// A zero-padded sequence of digits consists of digits.
pub proof fn lemma_zero_padded_digits(s: Seq<char>, width: nat)
    requires
        all_digits(s),
    ensures
        all_digits(zero_padded(s, width)),
        zero_padded(s, width).len() >= s.len(),
    decreases width - s.len(),
{
    if s.len() < width {
        let t = seq!['0'] + s;
        assert forall|i: int| 0 <= i < t.len() implies is_digit(#[trigger] t[i]) by {
            if i > 0 {
                assert(t[i] == s[i - 1]);
            }
        }
        lemma_zero_padded_digits(t, width);
    }
}

/// The calendar text of a date holds digits, `-` and `+` and nothing else.
pub proof fn lemma_iso_text_alphabet(ymd: (int, int, int))
    requires
        is_calendar_date(ymd.0, ymd.1, ymd.2),
    ensures
        forall|i: int|
            0 <= i < iso_text(ymd).len() ==> {
                let c = #[trigger] iso_text(ymd)[i];
                is_digit(c) || c == '-' || c == '+'
            },
{
    let abs_year: nat = if ymd.0 < 0 {
        (-ymd.0) as nat
    } else {
        ymd.0 as nat
    };
    lemma_decimal_digits_are_digits(abs_year);
    lemma_decimal_digits_are_digits(ymd.1 as nat);
    lemma_decimal_digits_are_digits(ymd.2 as nat);
    lemma_zero_padded_digits(decimal_digits(abs_year), 4);
    lemma_zero_padded_digits(decimal_digits(ymd.1 as nat), 2);
    lemma_zero_padded_digits(decimal_digits(ymd.2 as nat), 2);
    let y = year_text(ymd.0);
    let m = zero_padded(decimal_digits(ymd.1 as nat), 2);
    let d = zero_padded(decimal_digits(ymd.2 as nat), 2);
    assert forall|i: int| 0 <= i < y.len() implies {
        let c = #[trigger] y[i];
        is_digit(c) || c == '-' || c == '+'
    } by {
        if !(0 <= ymd.0 <= 9999) && i > 0 {
            assert(y[i] == zero_padded(decimal_digits(abs_year), 4)[i - 1]);
        }
    }
    let t = iso_text(ymd);
    assert forall|i: int| 0 <= i < t.len() implies {
        let c = #[trigger] t[i];
        is_digit(c) || c == '-' || c == '+'
    } by {
        if i < y.len() {
            assert(t[i] == y[i]);
        } else if i == y.len() {
            assert(t[i] == '-');
        } else if i < y.len() + 1 + m.len() {
            assert(t[i] == m[i - y.len() - 1]);
        } else if i == y.len() + 1 + m.len() {
            assert(t[i] == '-');
        } else {
            assert(t[i] == d[i - y.len() - m.len() - 2]);
        }
    }
}

} // verus!
