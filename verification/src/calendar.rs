//! Calendar dates and the calendar logic of the date pickers.
//!
//! Dates are held as plain year/month/day values; every computation on
//! dates that the pickers need (validity, the next and previous day, the
//! weekday, month arithmetic, month names, text form and parsing) is done
//! by `chrono`, through the small trusted wrappers of this module.

use chrono::{Datelike, Month, Months, NaiveDate};
use num_traits::FromPrimitive;
use vstd::prelude::*;

verus! {

/// The first year that a date can have.
pub const MIN_YEAR: i32 = -262143;

/// The last year that a date can have.
pub const MAX_YEAR: i32 = 262142;

/// A day of the proleptic Gregorian calendar, as year, month (1 to 12)
/// and day of the month (from 1).
#[derive(Clone, Copy, Debug, PartialEq, Eq, Structural)]
pub struct CalendarDate {
    pub year: i32,
    pub month: u32,
    pub day: u32,
}

/// Leap years of the proleptic Gregorian calendar (year 0 is 1 BCE).
pub open spec fn is_leap_year(year: int) -> bool {
    year % 4 == 0 && (year % 100 != 0 || year % 400 == 0)
}

/// The number of days of a month (1 to 12) of a year.
pub open spec fn days_in_month(year: int, month: int) -> int {
    if month == 2 {
        if is_leap_year(year) {
            29
        } else {
            28
        }
    } else if month == 4 || month == 6 || month == 9 || month == 11 {
        30
    } else {
        31
    }
}

/// A year, month and day that name a day the calendar can hold.
pub open spec fn is_valid_ymd(year: int, month: int, day: int) -> bool {
    &&& MIN_YEAR <= year <= MAX_YEAR
    &&& 1 <= month <= 12
    &&& 1 <= day <= days_in_month(year, month)
}

impl CalendarDate {
    /// The date names a day that exists.
    pub open spec fn is_valid(self) -> bool {
        is_valid_ymd(self.year as int, self.month as int, self.day as int)
    }
}

/// The first day of the calendar.
pub open spec fn first_date() -> CalendarDate {
    CalendarDate { year: MIN_YEAR, month: 1, day: 1 }
}

/// The day after `d`, if the calendar holds one.
pub open spec fn next_day_of(d: CalendarDate) -> Option<CalendarDate> {
    if (d.day as int) < days_in_month(d.year as int, d.month as int) {
        Some(CalendarDate { year: d.year, month: d.month, day: (d.day + 1) as u32 })
    } else if d.month < 12 {
        Some(CalendarDate { year: d.year, month: (d.month + 1) as u32, day: 1 })
    } else if d.year < MAX_YEAR {
        Some(CalendarDate { year: (d.year + 1) as i32, month: 1, day: 1 })
    } else {
        None
    }
}

/// The day before `d`, if the calendar holds one.
pub open spec fn previous_day_of(d: CalendarDate) -> Option<CalendarDate> {
    if d.day > 1 {
        Some(CalendarDate { year: d.year, month: d.month, day: (d.day - 1) as u32 })
    } else if d.month > 1 {
        Some(
            CalendarDate {
                year: d.year,
                month: (d.month - 1) as u32,
                day: days_in_month(d.year as int, d.month - 1) as u32,
            },
        )
    } else if d.year > MIN_YEAR {
        Some(CalendarDate { year: (d.year - 1) as i32, month: 12, day: 31 })
    } else {
        None
    }
}

/// The month index (months since January of year 0) of `d` moved by `k`
/// months.
pub open spec fn shifted_month_index(d: CalendarDate, k: int) -> int {
    d.year * 12 + (d.month - 1) + k
}

/// `d` moved by `k` months; the day is kept, or the last day of the new
/// month where that month is shorter.
pub open spec fn shift_months(d: CalendarDate, k: int) -> CalendarDate {
    let index = shifted_month_index(d, k);
    let year = index / 12;
    let month = index % 12 + 1;
    let last = days_in_month(year, month);
    CalendarDate {
        year: year as i32,
        month: month as u32,
        day: (if d.day <= last {
            d.day as int
        } else {
            last
        }) as u32,
    }
}

/// Moving `d` by `k` months stays within the calendar.
pub open spec fn shift_in_range(d: CalendarDate, k: int) -> bool {
    &&& i32::MIN <= shifted_month_index(d, k) <= i32::MAX
    &&& MIN_YEAR <= shifted_month_index(d, k) / 12 <= MAX_YEAR
}

/// The English name of a month (1 to 12).
pub open spec fn month_name_of(month: int) -> Seq<char> {
    if month == 1 {
        "January"@
    } else if month == 2 {
        "February"@
    } else if month == 3 {
        "March"@
    } else if month == 4 {
        "April"@
    } else if month == 5 {
        "May"@
    } else if month == 6 {
        "June"@
    } else if month == 7 {
        "July"@
    } else if month == 8 {
        "August"@
    } else if month == 9 {
        "September"@
    } else if month == 10 {
        "October"@
    } else if month == 11 {
        "November"@
    } else {
        "December"@
    }
}

/// The decimal digit for `n` (below 10).
pub open spec fn digit_char(n: nat) -> char {
    (n + 48) as char
}

/// The decimal digits of `n`, without leading zeros.
pub open spec fn decimal_digits(n: nat) -> Seq<char>
    decreases n,
{
    if n < 10 {
        seq![digit_char(n)]
    } else {
        decimal_digits(n / 10) + seq![digit_char(n % 10)]
    }
}

/// The decimal digits of `n`, with leading zeros up to `width` digits.
pub open spec fn zero_padded(n: nat, width: nat) -> Seq<char> {
    let digits = decimal_digits(n);
    if digits.len() < width {
        Seq::new((width - digits.len()) as nat, |i: int| '0') + digits
    } else {
        digits
    }
}

/// The ISO 8601 text of a date, `YYYY-MM-DD`; a year before 0 or after
/// 9999 is written with its sign and at least four digits.
pub open spec fn iso_date_text(d: CalendarDate) -> Seq<char> {
    let year = if 0 <= d.year <= 9999 {
        zero_padded(d.year as nat, 4)
    } else if d.year < 0 {
        seq!['-'] + zero_padded((-d.year) as nat, 4)
    } else {
        seq!['+'] + zero_padded(d.year as nat, 4)
    };
    year + seq!['-'] + zero_padded(d.month as nat, 2) + seq!['-'] + zero_padded(d.day as nat, 2)
}

/// The date that `chrono` reads from `text` (its `FromStr` for `NaiveDate`).
pub uninterp spec fn parsed_date(text: Seq<char>) -> Option<CalendarDate>;

/// The offset of a month in the weekday count below (years counted from
/// March, so that a leap day ends its year).
pub open spec fn month_offset(month: int) -> int {
    if month == 1 {
        0
    } else if month == 2 {
        3
    } else if month == 3 {
        2
    } else if month == 4 {
        5
    } else if month == 5 {
        0
    } else if month == 6 {
        3
    } else if month == 7 {
        5
    } else if month == 8 {
        1
    } else if month == 9 {
        4
    } else if month == 10 {
        6
    } else if month == 11 {
        2
    } else {
        4
    }
}

/// The weekday of a day of the proleptic Gregorian calendar, counted in
/// days from Sunday (0 for Sunday to 6 for Saturday): the days up to it,
/// leap days included, modulo 7 (divisions round down).
pub open spec fn weekday_from_sunday(year: int, month: int, day: int) -> int {
    let y = if month < 3 {
        year - 1
    } else {
        year
    };
    (y + y / 4 - y / 100 + y / 400 + month_offset(month) + day) % 7
}

/// Calls `chrono::NaiveDate::from_ymd_opt`, which gives a date exactly when
/// the year is within chrono's range, the month within 1 to 12 and the day
/// within the days of that month (proleptic Gregorian calendar).
#[verifier::external_body]
pub(crate) fn chrono_from_ymd(year: i32, month: u32, day: u32) -> (res: Option<CalendarDate>)
    ensures
        res == (if is_valid_ymd(year as int, month as int, day as int) {
            Some(CalendarDate { year, month, day })
        } else {
            None
        }),
{
    match NaiveDate::from_ymd_opt(year, month, day) {
        Some(d) => Some(CalendarDate { year: d.year(), month: d.month(), day: d.day() }),
        None => None,
    }
}

/// Calls `chrono::NaiveDate::succ_opt`: the next calendar day, or none
/// after the last day chrono can hold.
#[verifier::external_body]
pub(crate) fn chrono_succ(d: &CalendarDate) -> (res: Option<CalendarDate>)
    requires
        d.is_valid(),
    ensures
        res == next_day_of(*d),
{
    match NaiveDate::from_ymd_opt(d.year, d.month, d.day).unwrap().succ_opt() {
        Some(n) => Some(CalendarDate { year: n.year(), month: n.month(), day: n.day() }),
        None => None,
    }
}

/// Calls `chrono::NaiveDate::pred_opt`: the previous calendar day, or none
/// before the first day chrono can hold.
#[verifier::external_body]
pub(crate) fn chrono_pred(d: &CalendarDate) -> (res: Option<CalendarDate>)
    requires
        d.is_valid(),
    ensures
        res == previous_day_of(*d),
{
    match NaiveDate::from_ymd_opt(d.year, d.month, d.day).unwrap().pred_opt() {
        Some(p) => Some(CalendarDate { year: p.year(), month: p.month(), day: p.day() }),
        None => None,
    }
}

/// Calls `chrono::Datelike::weekday` and `Weekday::num_days_from_sunday`:
/// the weekday of the date, in days from Sunday.
#[verifier::external_body]
pub(crate) fn chrono_weekday_from_sunday(d: &CalendarDate) -> (res: u32)
    requires
        d.is_valid(),
    ensures
        res == weekday_from_sunday(d.year as int, d.month as int, d.day as int),
{
    NaiveDate::from_ymd_opt(d.year, d.month, d.day).unwrap().weekday().num_days_from_sunday()
}

/// Calls `NaiveDate + Months` (chrono's `checked_add_months`): the month
/// moves forward by `n`, the day is clamped to the new month's last day;
/// it panics out of range, which `requires` leaves out.
#[verifier::external_body]
pub(crate) fn chrono_add_months(d: &CalendarDate, n: u32) -> (res: CalendarDate)
    requires
        d.is_valid(),
        n <= i32::MAX,
        shift_in_range(*d, n as int),
    ensures
        res == shift_months(*d, n as int),
{
    let moved = NaiveDate::from_ymd_opt(d.year, d.month, d.day).unwrap() + Months::new(n);
    CalendarDate { year: moved.year(), month: moved.month(), day: moved.day() }
}

/// Calls `NaiveDate - Months` (chrono's `checked_sub_months`): the month
/// moves back by `n`, the day is clamped to the new month's last day;
/// it panics out of range, which `requires` leaves out.
#[verifier::external_body]
pub(crate) fn chrono_sub_months(d: &CalendarDate, n: u32) -> (res: CalendarDate)
    requires
        d.is_valid(),
        n <= i32::MAX,
        shift_in_range(*d, -(n as int)),
    ensures
        res == shift_months(*d, -(n as int)),
{
    let moved = NaiveDate::from_ymd_opt(d.year, d.month, d.day).unwrap() - Months::new(n);
    CalendarDate { year: moved.year(), month: moved.month(), day: moved.day() }
}

/// Calls `chrono::Month::from_u32` (num-traits' `FromPrimitive`) and
/// `Month::name`: the English name of the month.
#[verifier::external_body]
pub(crate) fn chrono_month_name(month: u32) -> (res: String)
    requires
        1 <= month <= 12,
    ensures
        res@ == month_name_of(month as int),
{
    Month::from_u32(month).unwrap().name().to_string()
}

/// Calls `ToString` on a `chrono::NaiveDate` (its `Display`, `%Y-%m-%d`).
#[verifier::external_body]
pub(crate) fn chrono_date_text(d: &CalendarDate) -> (res: String)
    requires
        d.is_valid(),
    ensures
        res@ == iso_date_text(*d),
{
    NaiveDate::from_ymd_opt(d.year, d.month, d.day).unwrap().to_string()
}

/// Calls `str::parse::<chrono::NaiveDate>`. What it accepts is named; what
/// it gives is a valid date, and the text of a valid date reads back as
/// that date (chrono documents that its `Display` output is read back by
/// `parse`).
#[verifier::external_body]
pub(crate) fn chrono_parse_date(text: &str) -> (res: Option<CalendarDate>)
    ensures
        res == parsed_date(text@),
        res matches Some(d) ==> d.is_valid(),
        forall|d: CalendarDate|
            d.is_valid() && text@ == #[trigger] iso_date_text(d) ==> res == Some(d),
{
    match text.parse::<NaiveDate>() {
        Ok(d) => Some(CalendarDate { year: d.year(), month: d.month(), day: d.day() }),
        Err(_) => None,
    }
}

impl CalendarDate {
    /// The date of a year, month and day; none where that day does not
    /// exist.
    pub fn from_ymd(year: i32, month: u32, day: u32) -> (res: Option<CalendarDate>)
        ensures
            res is Some <==> is_valid_ymd(year as int, month as int, day as int),
            res matches Some(d) ==> d == (CalendarDate { year, month, day }),
    {
        chrono_from_ymd(year, month, day)
    }

    /// The first day of the calendar (`NaiveDate::MIN`).
    pub fn first() -> (res: CalendarDate)
        ensures
            res == first_date(),
            res.is_valid(),
    {
        CalendarDate { year: MIN_YEAR, month: 1, day: 1 }
    }

    /// The date as text, `YYYY-MM-DD`.
    pub fn to_iso_string(&self) -> (res: String)
        requires
            self.is_valid(),
        ensures
            res@ == iso_date_text(*self),
    {
        chrono_date_text(self)
    }
}

} // verus!
