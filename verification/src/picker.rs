//! The logic of the two date pickers: the month calendar (its grid of
//! days, its title and the month arrows), the dropdown of recent days,
//! the day read from the page's path, and the path of a day's bets.

use crate::calendar::{
    chrono_add_months, chrono_from_ymd, chrono_month_name, chrono_parse_date, chrono_pred,
    chrono_sub_months, chrono_succ, chrono_weekday_from_sunday, days_in_month, decimal_digits,
    digit_char, iso_date_text, month_name_of, next_day_of, parsed_date, previous_day_of,
    shift_in_range, shift_months, weekday_from_sunday, CalendarDate, MAX_YEAR, MIN_YEAR,
};
use vstd::prelude::*;

verus! {

/// One day of the month calendar: its date, the grid column it starts at
/// (only the first day of the month has one, the others flow on), and
/// whether it is the selected day.
#[derive(Clone, Copy, Debug, PartialEq, Eq)]
pub struct CalendarCell {
    pub date: CalendarDate,
    pub column_start: Option<u32>,
    pub selected: bool,
}

/// The text of one decimal digit.
fn digit_text(digit: u32) -> (res: &'static str)
    requires
        digit < 10,
    ensures
        res@ == seq![digit_char(digit as nat)],
{
    proof {
        reveal_strlit("0");
        reveal_strlit("1");
        reveal_strlit("2");
        reveal_strlit("3");
        reveal_strlit("4");
        reveal_strlit("5");
        reveal_strlit("6");
        reveal_strlit("7");
        reveal_strlit("8");
        reveal_strlit("9");
    }
    let res = match digit {
        0 => "0",
        1 => "1",
        2 => "2",
        3 => "3",
        4 => "4",
        5 => "5",
        6 => "6",
        7 => "7",
        8 => "8",
        _ => "9",
    };
    assert(res@ =~= seq![digit_char(digit as nat)]);
    res
}

/// The decimal digits of `n`, without leading zeros.
pub fn decimal_text(n: u32) -> (res: String)
    ensures
        res@ == decimal_digits(n as nat),
    decreases n,
{
    if n < 10 {
        String::from_str(digit_text(n))
    } else {
        let mut res = decimal_text(n / 10);
        res.append(digit_text(n % 10));
        res
    }
}

impl CalendarCell {
    /// The value of the cell's `grid-column-start` style: its column, or
    /// `auto`.
    pub fn column_style(&self) -> (res: String)
        ensures
            res@ == (match self.column_start {
                Some(column) => decimal_digits(column as nat),
                None => "auto"@,
            }),
    {
        match self.column_start {
            Some(column) => decimal_text(column),
            None => String::from_str("auto"),
        }
    }
}

/// The number of days of a month that the calendar shows: all of them,
/// but for the very last day of the calendar, which chrono's day iterator
/// never yields.
pub open spec fn shown_days(year: int, month: int) -> int {
    if year == MAX_YEAR && month == 12 {
        30
    } else {
        days_in_month(year, month)
    }
}

/// The cell of the `i`-th day (from 0) of the month of `view`.
pub open spec fn expected_cell(view: CalendarDate, selection: CalendarDate, i: int) -> CalendarCell {
    let date = CalendarDate { year: view.year, month: view.month, day: (i + 1) as u32 };
    CalendarCell {
        date,
        column_start: if i == 0 {
            Some((weekday_from_sunday(view.year as int, view.month as int, 1) + 1) as u32)
        } else {
            None
        },
        selected: date == selection,
    }
}

/// The days from `d` back, at most `n` of them, without `excluded`; a day
/// is only listed where the day before it exists (chrono's reversed day
/// iterator never yields the first day of the calendar).
pub open spec fn recent_dates(d: CalendarDate, n: nat, excluded: CalendarDate) -> Seq<CalendarDate>
    decreases n,
{
    if n == 0 {
        Seq::empty()
    } else {
        match previous_day_of(d) {
            None => Seq::empty(),
            Some(p) => (if d == excluded {
                Seq::empty()
            } else {
                seq![d]
            }) + recent_dates(p, (n - 1) as nat, excluded),
        }
    }
}

/// The day `k` days before `d`, where the calendar holds it.
pub open spec fn days_back(d: CalendarDate, k: nat) -> Option<CalendarDate>
    decreases k,
{
    if k == 0 {
        Some(d)
    } else {
        match previous_day_of(d) {
            None => None,
            Some(p) => days_back(p, (k - 1) as nat),
        }
    }
}

/// Where the calendar holds the day `k + 1` days back, it holds the day
/// `k` days back.
pub proof fn lemma_days_back_shorter(d: CalendarDate, k: nat)
    requires
        days_back(d, k + 1) is Some,
    ensures
        days_back(d, k) is Some,
    decreases k,
{
    if k > 0 {
        let p = previous_day_of(d)->0;
        lemma_days_back_shorter(p, (k - 1) as nat);
    }
}

/// Of the `n` days from `d` back, the day `k` days back (where the day
/// before it exists, so that the reversed day iterator yields it) is
/// listed exactly when it is not the excluded day.
pub proof fn lemma_recent_dates_window(d: CalendarDate, n: nat, excluded: CalendarDate, k: nat)
    requires
        k < n,
        days_back(d, k + 1) is Some,
    ensures
        days_back(d, k) is Some,
        recent_dates(d, n, excluded).contains(days_back(d, k)->0) <==> days_back(d, k)->0
            != excluded,
    decreases k,
{
    lemma_days_back_shorter(d, k);
    lemma_recent_dates_bounds(d, n, excluded);
    let p = previous_day_of(d)->0;
    let head: Seq<CalendarDate> = if d == excluded {
        Seq::empty()
    } else {
        seq![d]
    };
    let rest = recent_dates(p, (n - 1) as nat, excluded);
    assert(recent_dates(d, n, excluded) == head + rest);
    let x = days_back(d, k)->0;
    if k == 0 {
        if d != excluded {
            assert((head + rest)[0] == d);
        }
    } else {
        lemma_recent_dates_window(p, (n - 1) as nat, excluded, (k - 1) as nat);
        if x != excluded {
            let i = choose|i: int| 0 <= i < rest.len() && rest[i] == x;
            assert((head + rest)[head.len() + i] == x);
        }
    }
}

/// A cell of the month calendar is selected exactly when it is the
/// selected day: same year, same month, and its day.
pub proof fn lemma_calendar_cell_selected(view: CalendarDate, selection: CalendarDate, i: int)
    requires
        0 <= i < 31,
    ensures
        expected_cell(view, selection, i).selected <==> (view.year == selection.year
            && view.month == selection.month && i + 1 == selection.day),
        expected_cell(view, selection, i).date.day == i + 1,
{
}

/// The day before and the day after a valid date are valid.
pub proof fn lemma_neighbours_valid(d: CalendarDate)
    requires
        d.is_valid(),
    ensures
        next_day_of(d) matches Some(n) ==> n.is_valid(),
        previous_day_of(d) matches Some(p) ==> p.is_valid(),
{
}

/// A date moved by some months within the calendar is valid.
pub proof fn lemma_shift_valid(d: CalendarDate, k: int)
    requires
        d.is_valid(),
        shift_in_range(d, k),
    ensures
        shift_months(d, k).is_valid(),
{
}

/// The list of recent days is at most `n` long and never holds the
/// excluded day.
pub proof fn lemma_recent_dates_bounds(d: CalendarDate, n: nat, excluded: CalendarDate)
    ensures
        recent_dates(d, n, excluded).len() <= n,
        !recent_dates(d, n, excluded).contains(excluded),
    decreases n,
{
    if n > 0 {
        if let Some(p) = previous_day_of(d) {
            lemma_recent_dates_bounds(p, (n - 1) as nat, excluded);
            let head: Seq<CalendarDate> = if d == excluded {
                Seq::empty()
            } else {
                seq![d]
            };
            let rest = recent_dates(p, (n - 1) as nat, excluded);
            assert(recent_dates(d, n, excluded) == head + rest);
            if (head + rest).contains(excluded) {
                let i = choose|i: int| 0 <= i < (head + rest).len() && (head + rest)[i] == excluded;
                if i >= head.len() {
                    assert(rest[i - head.len()] == excluded);
                }
            }
        }
    }
}

/// Going a month forward and then a month back gives the same month of
/// the same year, and the same day where the month in between has it.
pub proof fn lemma_month_round_trip(d: CalendarDate)
    requires
        d.is_valid(),
        shift_in_range(d, 1),
        shift_in_range(shift_months(d, 1), -1),
    ensures
        shift_months(shift_months(d, 1), -1).year == d.year,
        shift_months(shift_months(d, 1), -1).month == d.month,
        d.day <= days_in_month(shift_months(d, 1).year as int, shift_months(d, 1).month as int)
            ==> shift_months(shift_months(d, 1), -1) == d,
{
}

/// The English name of the month of `date`.
pub fn date_to_month_str(date: &CalendarDate) -> (res: String)
    requires
        date.is_valid(),
    ensures
        res@ == month_name_of(date.month as int),
{
    chrono_month_name(date.month)
}

/// Whether moving `view` by `k` months stays within the calendar (the
/// month arrows panic where it does not).
pub fn month_shift_fits(view: &CalendarDate, k: i32) -> (res: bool)
    requires
        view.is_valid(),
    ensures
        res == shift_in_range(*view, k as int),
{
    let index: i64 = view.year as i64 * 12 + (view.month as i64 - 1) + k as i64;
    if index < i32::MIN as i64 || index > i32::MAX as i64 {
        return false;
    }
    let year = if index >= 0 {
        index / 12
    } else {
        -((-index + 11) / 12)
    };
    assert(year == index as int / 12) by (nonlinear_arith)
        requires
            year == (if index >= 0 {
                index / 12
            } else {
                -((-index + 11) / 12)
            }),
    ;
    MIN_YEAR as i64 <= year && year <= MAX_YEAR as i64
}

/// The month before the one shown, on the same day where it has it (or
/// its last day).
pub fn previous_month(view: &CalendarDate) -> (res: CalendarDate)
    requires
        view.is_valid(),
        shift_in_range(*view, -1),
    ensures
        res == shift_months(*view, -1),
        res.is_valid(),
{
    proof {
        lemma_shift_valid(*view, -1);
    }
    chrono_sub_months(view, 1)
}

/// The month after the one shown, on the same day where it has it (or
/// its last day).
pub fn next_month(view: &CalendarDate) -> (res: CalendarDate)
    requires
        view.is_valid(),
        shift_in_range(*view, 1),
    ensures
        res == shift_months(*view, 1),
        res.is_valid(),
{
    proof {
        lemma_shift_valid(*view, 1);
    }
    chrono_add_months(view, 1)
}

/// The cells of the month calendar of the month of `view`: its days in
/// order, the first one placed in the grid column of its weekday (Sunday
/// first), the selected day marked. The days are those of chrono's day
/// iterator from the first of the month, 31 of them taken, those of
/// other months left out.
pub fn calendar_cells(view: &CalendarDate, selection: &CalendarDate) -> (res: Vec<CalendarCell>)
    requires
        view.is_valid(),
    ensures
        res@.len() == shown_days(view.year as int, view.month as int),
        forall|i: int| 0 <= i < res@.len() ==> #[trigger] res@[i] == expected_cell(*view, *selection, i),
        res@.len() > 0 ==> (res@[0].column_start matches Some(column) && 1 <= column <= 7),
        forall|i: int|
            0 <= i < res@.len() ==> {
                &&& #[trigger] res@[i].date == CalendarDate {
                    year: view.year,
                    month: view.month,
                    day: (i + 1) as u32,
                }
                &&& res@[i].selected <==> res@[i].date == *selection
                &&& i > 0 ==> res@[i].column_start is None
            },
        selection.year != view.year || selection.month != view.month ==> forall|i: int|
            0 <= i < res@.len() ==> !#[trigger] res@[i].selected,
{
    let first = match chrono_from_ymd(view.year, view.month, 1) {
        Some(first) => first,
        None => {
            return Vec::new();
        },
    };
    let pad = chrono_weekday_from_sunday(&first);
    let ghost dim = days_in_month(view.year as int, view.month as int);
    let mut cells: Vec<CalendarCell> = Vec::new();
    let mut cur = first;
    let mut taken: u32 = 0;
    while taken < 31
        invariant
            taken <= 31,
            view.is_valid(),
            cur.is_valid(),
            dim == days_in_month(view.year as int, view.month as int),
            pad == weekday_from_sunday(view.year as int, view.month as int, 1),
            pad < 7,
            taken >= dim ==> !(view.year == MAX_YEAR && view.month == 12),
            taken < dim ==> cur == (CalendarDate {
                year: view.year,
                month: view.month,
                day: (taken + 1) as u32,
            }) && cells@.len() == taken,
            taken >= dim ==> cur.month != view.month && cur.day == taken - dim + 1
                && cells@.len() == dim,
            forall|i: int|
                0 <= i < cells@.len() ==> #[trigger] cells@[i] == expected_cell(*view, *selection, i),
        ensures
            cells@.len() == shown_days(view.year as int, view.month as int),
            forall|i: int|
                0 <= i < cells@.len() ==> #[trigger] cells@[i] == expected_cell(*view, *selection, i),
        decreases 31 - taken,
    {
        proof {
            lemma_neighbours_valid(cur);
        }
        let next = match chrono_succ(&cur) {
            Some(next) => next,
            None => {
                break;
            },
        };
        if cur.month == view.month {
            let column_start = if cur.day == 1 {
                Some(pad + 1)
            } else {
                None
            };
            cells.push(CalendarCell { date: cur, column_start, selected: cur == *selection });
        }
        cur = next;
        taken = taken + 1;
    }
    cells
}

/// The days of the dropdown: from `today` back, ten of them, without the
/// selected one (chrono's day iterator, reversed, ten taken).
pub fn recent_days(today: &CalendarDate, selection: &CalendarDate) -> (res: Vec<CalendarDate>)
    requires
        today.is_valid(),
    ensures
        res@ == recent_dates(*today, 10, *selection),
        res@.len() <= 10,
        !res@.contains(*selection),
        forall|k: nat|
            k < 10 && #[trigger] days_back(*today, k + 1) is Some ==> (res@.contains(
                days_back(*today, k)->0,
            ) <==> days_back(*today, k)->0 != *selection),
{
    let mut res: Vec<CalendarDate> = Vec::new();
    let mut cur = *today;
    let mut k: u32 = 0;
    loop
        invariant
            k <= 10,
            cur.is_valid(),
            res@ + recent_dates(cur, (10 - k) as nat, *selection) == recent_dates(
                *today,
                10,
                *selection,
            ),
        ensures
            res@ == recent_dates(*today, 10, *selection),
        decreases 10 - k,
    {
        if k >= 10 {
            assert(res@ + Seq::<CalendarDate>::empty() =~= res@);
            break;
        }
        proof {
            lemma_neighbours_valid(cur);
        }
        let previous = match chrono_pred(&cur) {
            Some(previous) => previous,
            None => {
                assert(recent_dates(cur, (10 - k) as nat, *selection) =~= Seq::empty());
                assert(res@ + Seq::<CalendarDate>::empty() =~= res@);
                break;
            },
        };
        let ghost before = res@;
        if cur != *selection {
            res.push(cur);
            assert(res@ + recent_dates(previous, (10 - k - 1) as nat, *selection) =~= before
                + recent_dates(cur, (10 - k) as nat, *selection));
        } else {
            assert(res@ + recent_dates(previous, (10 - k - 1) as nat, *selection) =~= before
                + recent_dates(cur, (10 - k) as nat, *selection));
        }
        cur = previous;
        k = k + 1;
    }
    proof {
        lemma_recent_dates_bounds(*today, 10, *selection);
        assert forall|k: nat|
            k < 10 && #[trigger] days_back(*today, k + 1) is Some implies (res@.contains(
                days_back(*today, k)->0,
            ) <==> days_back(*today, k)->0 != *selection) by {
            lemma_recent_dates_window(*today, 10, *selection, k);
        }
    }
    res
}

/// The date that `text` names, read as chrono reads a `NaiveDate`; the
/// text of a valid date reads back as that date.
pub fn parse_date_text(text: &str) -> (res: Option<CalendarDate>)
    ensures
        res == parsed_date(text@),
        res matches Some(d) ==> d.is_valid(),
        forall|d: CalendarDate|
            d.is_valid() && text@ == #[trigger] iso_date_text(d) ==> res == Some(d),
{
    chrono_parse_date(text)
}

/// The selected day after reading the page's path: the day its date
/// parameter names, today where it names none; unchanged where the path
/// has no date parameter.
pub fn selection_from_param(
    param: Option<&str>,
    current: &CalendarDate,
    today: &CalendarDate,
) -> (res: CalendarDate)
    ensures
        res == (match param {
            Some(text) => match parsed_date(text@) {
                Some(d) => d,
                None => *today,
            },
            None => *current,
        }),
        forall|d: CalendarDate|
            d.is_valid() && param is Some && param->0@ == #[trigger] iso_date_text(d) ==> res == d,
{
    match param {
        Some(text) => match parse_date_text(text) {
            Some(d) => d,
            None => *today,
        },
        None => *current,
    }
}

/// The path of the page of a day's bets, `/bets/YYYY-MM-DD`.
pub fn bets_path(date: &CalendarDate) -> (res: String)
    requires
        date.is_valid(),
    ensures
        res@ == "/bets/"@ + iso_date_text(*date),
{
    let mut path = String::from_str("/bets/");
    let text = date.to_iso_string();
    path.append(text.as_str());
    path
}

} // verus!
