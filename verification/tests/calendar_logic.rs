use chrono::{Datelike, NaiveDate};
use website::calendar::CalendarDate;
use website::picker::{
    bets_path, calendar_cells, date_to_month_str, decimal_text, month_shift_fits, next_month, parse_date_text, previous_month,
    recent_days, selection_from_param,
};

fn date(year: i32, month: u32, day: u32) -> CalendarDate {
    CalendarDate { year, month, day }
}

#[test]
fn only_existing_days_are_dates() {
    assert_eq!(CalendarDate::from_ymd(2015, 3, 14), Some(date(2015, 3, 14)));
    assert_eq!(CalendarDate::from_ymd(2015, 0, 14), None);
    assert_eq!(CalendarDate::from_ymd(2015, 2, 29), None);
    assert_eq!(CalendarDate::from_ymd(2016, 2, 29), Some(date(2016, 2, 29)));
    assert_eq!(CalendarDate::from_ymd(1900, 2, 29), None);
    assert_eq!(CalendarDate::from_ymd(2000, 2, 29), Some(date(2000, 2, 29)));
    assert_eq!(CalendarDate::from_ymd(-4, 2, 29), Some(date(-4, 2, 29)));
    assert_eq!(CalendarDate::from_ymd(2023, 4, 31), None);
    assert_eq!(CalendarDate::from_ymd(400000, 1, 1), None);
    assert_eq!(CalendarDate::from_ymd(-400000, 1, 1), None);
    assert_eq!(CalendarDate::from_ymd(262142, 12, 31), Some(date(262142, 12, 31)));
    assert_eq!(CalendarDate::from_ymd(262143, 1, 1), None);
    assert_eq!(CalendarDate::first(), date(-262143, 1, 1));
}

#[test]
fn dates_are_written_in_iso_form() {
    assert_eq!(date(2015, 9, 5).to_iso_string(), "2015-09-05");
    assert_eq!(date(0, 1, 1).to_iso_string(), "0000-01-01");
    assert_eq!(date(9999, 12, 31).to_iso_string(), "9999-12-31");
    assert_eq!(date(-1, 1, 1).to_iso_string(), "-0001-01-01");
    assert_eq!(date(10000, 12, 31).to_iso_string(), "+10000-12-31");
}

#[test]
fn date_text_reads_back() {
    assert_eq!(parse_date_text("2015-09-18"), Some(date(2015, 9, 18)));
    assert_eq!(parse_date_text("foo"), None);
    assert_eq!(parse_date_text("2015-02-30"), None);
    for d in [date(2023, 9, 1), date(-1, 1, 1), date(10000, 12, 31), date(0, 2, 29)] {
        assert_eq!(parse_date_text(&d.to_iso_string()), Some(d));
    }
}

#[test]
fn month_names() {
    assert_eq!(date_to_month_str(&date(2023, 1, 5)), "January");
    assert_eq!(date_to_month_str(&date(2023, 9, 18)), "September");
    assert_eq!(date_to_month_str(&date(2023, 12, 31)), "December");
}

#[test]
fn month_arrows_keep_the_day_or_clamp_it() {
    assert_eq!(next_month(&date(2023, 1, 31)), date(2023, 2, 28));
    assert_eq!(next_month(&date(2024, 1, 31)), date(2024, 2, 29));
    assert_eq!(next_month(&date(2023, 12, 15)), date(2024, 1, 15));
    assert_eq!(previous_month(&date(2014, 1, 1)), date(2013, 12, 1));
    assert_eq!(previous_month(&date(2023, 3, 31)), date(2023, 2, 28));
    assert_eq!(previous_month(&next_month(&date(2023, 5, 20))), date(2023, 5, 20));
}

#[test]
fn calendar_of_september_2023() {
    // 2023-09-01 was a Friday: five days after Sunday, so grid column 6.
    let cells = calendar_cells(&date(2023, 9, 18), &date(2023, 9, 18));
    assert_eq!(cells.len(), 30);
    for (i, cell) in cells.iter().enumerate() {
        assert_eq!(cell.date, date(2023, 9, i as u32 + 1));
        assert_eq!(cell.selected, i == 17);
        if i == 0 {
            assert_eq!(cell.column_start, Some(6));
            assert_eq!(cell.column_style(), "6");
        } else {
            assert_eq!(cell.column_start, None);
            assert_eq!(cell.column_style(), "auto");
        }
    }
}

#[test]
fn calendar_of_february_in_a_leap_year() {
    // 2024-02-01 was a Thursday: column 5.
    let cells = calendar_cells(&date(2024, 2, 10), &date(2023, 9, 18));
    assert_eq!(cells.len(), 29);
    assert_eq!(cells[0].column_start, Some(5));
    assert_eq!(cells[28].date, date(2024, 2, 29));
    assert!(cells.iter().all(|c| !c.selected));
}

#[test]
fn calendar_month_starting_on_sunday() {
    // 2023-10-01 was a Sunday: column 1.
    let cells = calendar_cells(&date(2023, 10, 3), &date(2023, 10, 1));
    assert_eq!(cells.len(), 31);
    assert_eq!(cells[0].column_style(), "1");
    assert!(cells[0].selected);
}

#[test]
fn calendar_of_the_last_month_lacks_its_last_day() {
    let cells = calendar_cells(&date(262142, 12, 1), &date(2023, 1, 1));
    assert_eq!(cells.len(), 30);
    assert_eq!(cells[29].date, date(262142, 12, 30));
}

#[test]
fn recent_days_go_back_ten_days_without_the_selection() {
    let today = date(2023, 3, 3);
    let all = recent_days(&today, &date(2000, 1, 1));
    assert_eq!(
        all,
        vec![
            date(2023, 3, 3),
            date(2023, 3, 2),
            date(2023, 3, 1),
            date(2023, 2, 28),
            date(2023, 2, 27),
            date(2023, 2, 26),
            date(2023, 2, 25),
            date(2023, 2, 24),
            date(2023, 2, 23),
            date(2023, 2, 22),
        ]
    );
    let without = recent_days(&today, &date(2023, 3, 1));
    assert_eq!(without.len(), 9);
    assert!(!without.contains(&date(2023, 3, 1)));
    assert_eq!(without[2], date(2023, 2, 28));
}

#[test]
fn recent_days_stop_at_the_first_day() {
    let days = recent_days(&date(-262143, 1, 3), &date(2000, 1, 1));
    assert_eq!(days, vec![date(-262143, 1, 3), date(-262143, 1, 2)]);
}

#[test]
fn selection_follows_the_path() {
    let current = date(2023, 1, 1);
    let today = date(2023, 9, 18);
    assert_eq!(selection_from_param(Some("2023-05-04"), &current, &today), date(2023, 5, 4));
    assert_eq!(selection_from_param(Some("not a date"), &current, &today), today);
    assert_eq!(selection_from_param(None, &current, &today), current);
}

#[test]
fn path_of_a_day() {
    assert_eq!(bets_path(&date(2023, 9, 18)), "/bets/2023-09-18");
    assert_eq!(bets_path(&date(812, 1, 2)), "/bets/0812-01-02");
}

#[test]
fn month_shifts_fit_except_past_the_calendar_ends() {
    assert!(month_shift_fits(&date(2023, 9, 18), 1));
    assert!(month_shift_fits(&date(2023, 9, 18), -1));
    assert!(!month_shift_fits(&date(262142, 12, 1), 1));
    assert!(month_shift_fits(&date(262142, 11, 1), 1));
    assert!(!month_shift_fits(&date(-262143, 1, 1), -1));
    assert!(month_shift_fits(&date(-262143, 2, 1), -1));
}

/// The weekday count the calendar states, in days from Sunday.
fn stated_weekday(year: i64, month: i64, day: i64) -> i64 {
    let offsets = [0, 3, 2, 5, 0, 3, 5, 1, 4, 6, 2, 4];
    let y = if month < 3 { year - 1 } else { year };
    (y + y.div_euclid(4) - y.div_euclid(100) + y.div_euclid(400) + offsets[(month - 1) as usize] + day)
        .rem_euclid(7)
}

#[test]
fn stated_weekday_is_chronos() {
    let mut years: Vec<i32> = (-1200..2800).collect();
    years.extend([-262143, -262142, -100001, 99999, 262141, 262142]);
    for year in years {
        for month in 1..=12u32 {
            for day in [1u32, 2, 15, 28] {
                let d = NaiveDate::from_ymd_opt(year, month, day).unwrap();
                assert_eq!(
                    d.weekday().num_days_from_sunday() as i64,
                    stated_weekday(year as i64, month as i64, day as i64),
                    "{}",
                    d
                );
            }
        }
        if let Some(d) = NaiveDate::from_ymd_opt(year, 2, 29) {
            assert_eq!(d.weekday().num_days_from_sunday() as i64, stated_weekday(year as i64, 2, 29));
        }
    }
}

#[test]
fn first_column_follows_the_weekday() {
    for (year, month) in [(-4, 3), (0, 1), (1, 1), (1600, 2), (2000, 3), (2024, 12)] {
        let first = NaiveDate::from_ymd_opt(year, month, 1).unwrap();
        let cells = calendar_cells(&date(year, month, 5), &date(year, month, 5));
        assert_eq!(cells[0].column_start, Some(first.weekday().num_days_from_sunday() + 1));
    }
}

#[test]
fn decimal_text_of_numbers() {
    assert_eq!(decimal_text(0), "0");
    assert_eq!(decimal_text(7), "7");
    assert_eq!(decimal_text(10), "10");
    assert_eq!(decimal_text(4294967295), "4294967295");
    for n in [1u32, 9, 99, 100, 12345, 1000000] {
        assert_eq!(decimal_text(n), n.to_string());
    }
}

#[test]
fn iso_text_in_the_path_selects_its_day() {
    let current = date(2023, 1, 1);
    let today = date(2023, 9, 18);
    for d in [date(2023, 2, 28), date(-1, 12, 31), date(10000, 1, 1)] {
        let text = d.to_iso_string();
        assert_eq!(selection_from_param(Some(&text), &current, &today), d);
    }
}
