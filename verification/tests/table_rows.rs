use std::collections::VecDeque;
use website::calendar::CalendarDate;
use website::order::{compare_column, compare_rows, compare_text, odds_is_nan, Bet, BetColumnName, BetTime};
use website::provider::{get_vec_range_clamped, sort_rows, BetDataProvider, RowsStep};
use website::tailwind::ColumnSort;

fn time(day: u32, secs: u32) -> BetTime {
    BetTime { date: CalendarDate { year: 2023, month: 9, day }, secs, nanos: 0 }
}

fn bet(rowid: i64, blue: &str, red: &str, blue_odds: f64, red_odds: f64) -> Bet {
    Bet {
        rowid,
        dt: time(18, rowid as u32 * 60),
        blue_team: blue.to_string(),
        red_team: red.to_string(),
        blue_odds: blue_odds.to_bits(),
        red_odds: red_odds.to_bits(),
    }
}

fn ids(rows: &[Bet]) -> Vec<i64> {
    rows.iter().map(|b| b.rowid).collect()
}

fn sorting(entries: &[(BetColumnName, ColumnSort)]) -> VecDeque<(BetColumnName, ColumnSort)> {
    entries.iter().copied().collect()
}

#[test]
fn text_order_is_by_code_point() {
    assert_eq!(compare_text("abc", "abd"), -1);
    assert_eq!(compare_text("abc", "abc"), 0);
    assert_eq!(compare_text("ab", "abc"), -1);
    assert_eq!(compare_text("b", "abc"), 1);
    assert_eq!(compare_text("Zeta", "alpha"), -1);
    assert_eq!(compare_text("é", "z"), 1);
    assert_eq!(compare_text("", ""), 0);
}

#[test]
fn odds_order_as_numbers() {
    let a = bet(1, "a", "b", -2.5, 0.0);
    let b = bet(2, "a", "b", -1.0, -0.0);
    let c = bet(3, "a", "b", 1.75, 3.0);
    assert_eq!(compare_column(&a, &b, BetColumnName::BlueOdds), -1);
    assert_eq!(compare_column(&b, &c, BetColumnName::BlueOdds), -1);
    assert_eq!(compare_column(&c, &a, BetColumnName::BlueOdds), 1);
    assert_eq!(compare_column(&a, &b, BetColumnName::RedOdds), 0);
    assert_eq!(compare_column(&c, &c, BetColumnName::BlueOdds), 0);
    assert!(odds_is_nan(f64::NAN.to_bits()));
    assert!(!odds_is_nan(f64::INFINITY.to_bits()));
    assert!(!odds_is_nan((-1.5f64).to_bits()));
}

#[test]
fn times_order_by_day_then_second() {
    let mut a = bet(1, "a", "b", 1.0, 1.0);
    let mut b = bet(2, "a", "b", 1.0, 1.0);
    a.dt = time(17, 80000);
    b.dt = time(18, 10);
    assert_eq!(compare_column(&a, &b, BetColumnName::Dt), -1);
    b.dt = time(17, 80000);
    b.dt.nanos = 5;
    assert_eq!(compare_column(&a, &b, BetColumnName::Dt), -1);
    assert_eq!(compare_column(&b, &a, BetColumnName::Dt), 1);
}

#[test]
fn first_sorting_entry_decides_first() {
    let a = bet(1, "Alpha", "X", 1.5, 2.0);
    let b = bet(2, "Alpha", "Y", 1.2, 2.0);
    let s = sorting(&[
        (BetColumnName::BlueTeam, ColumnSort::Ascending),
        (BetColumnName::BlueOdds, ColumnSort::Descending),
    ]);
    assert_eq!(compare_rows(&a, &b, &s), -1);
    let s = sorting(&[
        (BetColumnName::BlueOdds, ColumnSort::Unsorted),
        (BetColumnName::RedOdds, ColumnSort::Ascending),
    ]);
    assert_eq!(compare_rows(&a, &b, &s), 0);
}

#[test]
fn sort_is_stable_and_multi_column() {
    let rows = vec![
        bet(1, "B", "x", 2.0, 1.0),
        bet(2, "A", "x", 1.0, 1.0),
        bet(3, "B", "x", 1.0, 1.0),
        bet(4, "A", "x", 2.0, 1.0),
        bet(5, "B", "x", 2.0, 1.0),
    ];
    let by_team = sorting(&[(BetColumnName::BlueTeam, ColumnSort::Ascending)]);
    assert_eq!(ids(&sort_rows(rows.clone(), &by_team)), vec![2, 4, 1, 3, 5]);
    let by_team_then_odds = sorting(&[
        (BetColumnName::BlueTeam, ColumnSort::Descending),
        (BetColumnName::BlueOdds, ColumnSort::Ascending),
    ]);
    assert_eq!(ids(&sort_rows(rows.clone(), &by_team_then_odds)), vec![3, 1, 5, 2, 4]);
    let by_id_desc = sorting(&[(BetColumnName::Rowid, ColumnSort::Descending)]);
    assert_eq!(ids(&sort_rows(rows.clone(), &by_id_desc)), vec![5, 4, 3, 2, 1]);
    let nothing = sorting(&[(BetColumnName::Rowid, ColumnSort::Unsorted)]);
    assert_eq!(ids(&sort_rows(rows.clone(), &nothing)), vec![1, 2, 3, 4, 5]);
}

#[test]
fn sort_matches_successive_stable_sorts() {
    let rows = vec![
        bet(1, "C", "q", 2.0, 1.0),
        bet(2, "A", "p", 1.0, 3.0),
        bet(3, "B", "q", 1.0, 1.0),
        bet(4, "A", "q", 2.0, 2.0),
        bet(5, "C", "p", 2.0, 1.0),
        bet(6, "B", "p", 1.0, 2.0),
    ];
    let s = sorting(&[
        (BetColumnName::RedTeam, ColumnSort::Descending),
        (BetColumnName::RedOdds, ColumnSort::Ascending),
        (BetColumnName::BlueTeam, ColumnSort::Ascending),
    ]);
    let mut expected = rows.clone();
    for (column, sort) in s.iter().rev() {
        match sort {
            ColumnSort::Ascending => expected.sort_by(|a, b| compare_column(a, b, *column).cmp(&0)),
            ColumnSort::Descending => expected.sort_by(|a, b| compare_column(b, a, *column).cmp(&0)),
            ColumnSort::Unsorted => {}
        }
    }
    let sorted = sort_rows(rows, &s);
    assert_eq!(ids(&sorted), ids(&expected));
    assert_eq!(ids(&sort_rows(sorted.clone(), &s)), ids(&sorted));
}

#[test]
fn range_is_clamped_to_the_rows() {
    let rows: Vec<Bet> = (1..=5).map(|i| bet(i, "a", "b", 1.0, 1.0)).collect();
    assert_eq!(ids(&get_vec_range_clamped(&rows, 1..3)), vec![2, 3]);
    assert_eq!(ids(&get_vec_range_clamped(&rows, 3..100)), vec![4, 5]);
    assert_eq!(ids(&get_vec_range_clamped(&rows, 9..100)), vec![5]);
    assert_eq!(ids(&get_vec_range_clamped(&rows, 0..0)), Vec::<i64>::new());
    assert_eq!(ids(&get_vec_range_clamped(&Vec::new(), 4..2)), Vec::<i64>::new());
}

#[test]
fn new_provider_sorts_by_id_descending_and_has_fetched_nothing() {
    let day = CalendarDate { year: 2023, month: 9, day: 18 };
    let provider = BetDataProvider::new(day);
    assert_eq!(provider.date, day);
    assert_eq!(provider.last_date, CalendarDate::first());
    assert!(provider.bets.is_empty());
    assert_eq!(
        provider.sorting,
        sorting(&[(BetColumnName::Rowid, ColumnSort::Descending)])
    );
}

#[test]
fn empty_sorting_falls_back_to_id_descending() {
    let mut provider = BetDataProvider::new(CalendarDate { year: 2023, month: 9, day: 18 });
    let s = sorting(&[(BetColumnName::BlueTeam, ColumnSort::Ascending)]);
    provider.set_sorting(&s);
    assert_eq!(provider.sorting, s);
    provider.set_sorting(&VecDeque::new());
    assert_eq!(
        provider.sorting,
        sorting(&[(BetColumnName::Rowid, ColumnSort::Descending)])
    );
}

#[test]
fn providers_are_equal_when_they_show_the_same_day() {
    let a = BetDataProvider::new(CalendarDate { year: 2023, month: 9, day: 18 });
    let mut b = BetDataProvider::new(CalendarDate { year: 2023, month: 9, day: 18 });
    assert!(a.eq(&b));
    b.date = CalendarDate { year: 2023, month: 9, day: 17 };
    assert!(!a.eq(&b));
}

#[test]
fn rows_are_fetched_once_per_day_then_served_from_the_cache() {
    let day = CalendarDate { year: 2023, month: 9, day: 18 };
    let mut provider = BetDataProvider::new(day);
    match provider.get_rows_start() {
        RowsStep::Fetch(text) => assert_eq!(text, "2023-09-18"),
        RowsStep::Ready(_) => panic!("a new provider must fetch"),
    }
    let fetched: Vec<Bet> = (1..=6).map(|i| bet(i, "a", "b", 1.0, 1.0)).collect();
    let rows = provider.get_rows_fetched(day, Some(fetched), 1..4);
    assert_eq!(ids(&rows), vec![4, 3, 2]);
    assert_eq!(provider.last_date, day);
    match provider.get_rows_start() {
        RowsStep::Ready(again) => assert_eq!(ids(&again), vec![4, 3, 2]),
        RowsStep::Fetch(_) => panic!("the same day must come from the cache"),
    }
    provider.set_sorting(&sorting(&[(BetColumnName::Rowid, ColumnSort::Ascending)]));
    match provider.get_rows_start() {
        RowsStep::Ready(resorted) => assert_eq!(ids(&resorted), vec![2, 3, 4]),
        RowsStep::Fetch(_) => panic!("a new sorting does not fetch again"),
    }
    provider.date = CalendarDate { year: 2023, month: 9, day: 19 };
    assert!(matches!(provider.get_rows_start(), RowsStep::Fetch(_)));
}

#[test]
fn failed_fetch_gives_no_rows() {
    let day = CalendarDate { year: 2023, month: 9, day: 18 };
    let mut provider = BetDataProvider::new(day);
    let rows = provider.get_rows_fetched(day, None, 0..10);
    assert!(rows.is_empty());
    assert_eq!(provider.last_date, day);
}

#[test]
fn row_order_is_antisymmetric_and_transitive() {
    let rows = vec![
        bet(1, "B", "x", 2.0, 1.0),
        bet(2, "A", "y", 1.0, 1.0),
        bet(3, "B", "x", 1.0, -1.0),
        bet(4, "A", "x", -0.0, 1.0),
    ];
    let s = sorting(&[
        (BetColumnName::RedTeam, ColumnSort::Ascending),
        (BetColumnName::BlueOdds, ColumnSort::Descending),
    ]);
    for a in &rows {
        for b in &rows {
            assert_eq!(compare_rows(a, b, &s), -compare_rows(b, a, &s));
            for c in &rows {
                if compare_rows(a, b, &s) <= 0 && compare_rows(b, c, &s) <= 0 {
                    assert!(compare_rows(a, c, &s) <= 0);
                }
            }
        }
    }
}

#[test]
fn nan_odds_are_found_only_where_sorted() {
    let rows = vec![bet(1, "a", "b", f64::NAN, 1.0), bet(2, "a", "b", 1.0, 1.0)];
    let by_blue = sorting(&[(BetColumnName::BlueOdds, ColumnSort::Ascending)]);
    let by_red = sorting(&[(BetColumnName::RedOdds, ColumnSort::Ascending)]);
    let blue_unsorted = sorting(&[(BetColumnName::BlueOdds, ColumnSort::Unsorted)]);
    assert!(website::provider::sorting_meets_nan(&rows, &by_blue));
    assert!(!website::provider::sorting_meets_nan(&rows, &by_red));
    assert!(!website::provider::sorting_meets_nan(&rows, &blue_unsorted));
    assert!(!website::provider::sorting_meets_nan(&rows[..1].to_vec(), &by_blue));
}

#[test]
fn inverted_ranges_are_found() {
    assert!(website::provider::range_is_inverted(5, &(4..2)));
    assert!(!website::provider::range_is_inverted(5, &(9..100)));
    assert!(!website::provider::range_is_inverted(0, &(4..2)));
    assert!(website::provider::range_is_inverted(5, &(3..1)));
}
