//! Bets, the order of their columns, and the comparison that the table's
//! sorting uses: a list of columns, the first the most important one.

use crate::calendar::CalendarDate;
use crate::tailwind::ColumnSort;
use std::collections::VecDeque;
use vstd::prelude::*;

verus! {

/// The columns of the bets table.
#[derive(Clone, Copy, Debug, PartialEq, Eq, Structural)]
pub enum BetColumnName {
    Rowid,
    Dt,
    BlueTeam,
    RedTeam,
    BlueOdds,
    RedOdds,
}

/// When a bet was placed: its day, the seconds since midnight and the
/// nanoseconds within that second (up to 1_999_999_999 in a leap second).
#[derive(Clone, Copy, Debug, PartialEq, Eq, Structural)]
pub struct BetTime {
    pub date: CalendarDate,
    pub secs: u32,
    pub nanos: u32,
}

/// A bet of the table. The odds are the bits of an IEEE 754 double
/// (`f64::to_bits`), by which they are ordered as the numbers are.
#[derive(Clone, Debug, PartialEq)]
pub struct Bet {
    pub rowid: i64,
    pub dt: BetTime,
    pub blue_team: String,
    pub red_team: String,
    pub blue_odds: u64,
    pub red_odds: u64,
}

impl Bet {
    /// A copy of the bet, equal to it in every field.
    pub fn duplicate(&self) -> (res: Bet)
        ensures
            res == *self,
    {
        Bet {
            rowid: self.rowid,
            dt: self.dt,
            blue_team: self.blue_team.clone(),
            red_team: self.red_team.clone(),
            blue_odds: self.blue_odds,
            red_odds: self.red_odds,
        }
    }
}

/// The sign bit of a double.
pub open spec fn sign_bit() -> int {
    0x8000_0000_0000_0000
}

/// The bits of a double that is not a number.
pub open spec fn is_nan_bits(bits: u64) -> bool {
    let magnitude = if bits < sign_bit() {
        bits as int
    } else {
        bits - sign_bit()
    };
    magnitude > 0x7FF0_0000_0000_0000
}

/// An integer that orders the doubles (other than NaN) as the numbers
/// they stand for: positive doubles by their bits, negative ones by their
/// magnitude reversed; both zeros are equal.
pub open spec fn odds_order_key(bits: u64) -> int {
    if bits < sign_bit() {
        bits as int
    } else {
        -(bits - sign_bit())
    }
}

/// -1, 0 or 1 as `a` is below, equal to or above `b`.
pub open spec fn int_order(a: int, b: int) -> int {
    if a < b {
        -1
    } else if a == b {
        0
    } else {
        1
    }
}

/// Lexicographic order of the characters of `a` and `b` from index `i`
/// on, by code point (the order of Rust's `String`).
pub open spec fn text_order_from(a: Seq<char>, b: Seq<char>, i: int) -> int
    decreases a.len() - i,
{
    if i >= a.len() {
        if i >= b.len() {
            0
        } else {
            -1
        }
    } else if i >= b.len() {
        1
    } else if a[i] as int != b[i] as int {
        int_order(a[i] as int, b[i] as int)
    } else {
        text_order_from(a, b, i + 1)
    }
}

/// Lexicographic order of two texts, by code point.
pub open spec fn text_order(a: Seq<char>, b: Seq<char>) -> int {
    text_order_from(a, b, 0)
}

/// The order of bet times: day, then second, then nanosecond.
pub open spec fn time_order(a: BetTime, b: BetTime) -> int {
    if a.date.year != b.date.year {
        int_order(a.date.year as int, b.date.year as int)
    } else if a.date.month != b.date.month {
        int_order(a.date.month as int, b.date.month as int)
    } else if a.date.day != b.date.day {
        int_order(a.date.day as int, b.date.day as int)
    } else if a.secs != b.secs {
        int_order(a.secs as int, b.secs as int)
    } else {
        int_order(a.nanos as int, b.nanos as int)
    }
}

/// The ascending order of two bets by one column.
pub open spec fn column_order(a: Bet, b: Bet, column: BetColumnName) -> int {
    match column {
        BetColumnName::Rowid => int_order(a.rowid as int, b.rowid as int),
        BetColumnName::Dt => time_order(a.dt, b.dt),
        BetColumnName::BlueTeam => text_order(a.blue_team@, b.blue_team@),
        BetColumnName::RedTeam => text_order(a.red_team@, b.red_team@),
        BetColumnName::BlueOdds => int_order(
            odds_order_key(a.blue_odds),
            odds_order_key(b.blue_odds),
        ),
        BetColumnName::RedOdds => int_order(odds_order_key(a.red_odds), odds_order_key(b.red_odds)),
    }
}

/// The order of two bets by one column in one direction; an unsorted
/// column orders nothing.
pub open spec fn directed_order(a: Bet, b: Bet, column: BetColumnName, sort: ColumnSort) -> int {
    match sort {
        ColumnSort::Ascending => column_order(a, b, column),
        ColumnSort::Descending => column_order(b, a, column),
        ColumnSort::Unsorted => 0,
    }
}

/// The order of two bets by the entries of `sorting` from index `i` on:
/// the first entry that tells them apart decides.
pub open spec fn rows_order_from(
    a: Bet,
    b: Bet,
    sorting: Seq<(BetColumnName, ColumnSort)>,
    i: int,
) -> int
    decreases sorting.len() - i,
{
    if i < 0 || i >= sorting.len() {
        0
    } else if directed_order(a, b, sorting[i].0, sorting[i].1) != 0 {
        directed_order(a, b, sorting[i].0, sorting[i].1)
    } else {
        rows_order_from(a, b, sorting, i + 1)
    }
}

/// The order of two bets by a sorting, its first entry the most important.
pub open spec fn rows_order(a: Bet, b: Bet, sorting: Seq<(BetColumnName, ColumnSort)>) -> int {
    rows_order_from(a, b, sorting, 0)
}

/// The three facts of a total preorder given as a comparison, on one
/// triple of values.
pub open spec fn preorder_on(ab: int, ba: int, bc: int, cb: int, ac: int, ca: int) -> bool {
    &&& ab == -ba
    &&& bc == -cb
    &&& ac == -ca
    &&& (ab <= 0 && bc <= 0 ==> ac <= 0)
}

proof fn lemma_text_order_antisymmetric(a: Seq<char>, b: Seq<char>, i: int)
    requires
        0 <= i,
    ensures
        text_order_from(a, b, i) == -text_order_from(b, a, i),
    decreases a.len() - i,
{
    if i < a.len() && i < b.len() && a[i] as int == b[i] as int {
        lemma_text_order_antisymmetric(a, b, i + 1);
    }
}

proof fn lemma_text_order_transitive(a: Seq<char>, b: Seq<char>, c: Seq<char>, i: int)
    requires
        0 <= i,
        text_order_from(a, b, i) <= 0,
        text_order_from(b, c, i) <= 0,
    ensures
        text_order_from(a, c, i) <= 0,
    decreases a.len() - i,
{
    if i < a.len() && i < b.len() && i < c.len() && a[i] as int == b[i] as int && b[i] as int
        == c[i] as int {
        lemma_text_order_transitive(a, b, c, i + 1);
    }
}

proof fn lemma_text_order_from(a: Seq<char>, b: Seq<char>, c: Seq<char>, i: int)
    requires
        0 <= i,
    ensures
        preorder_on(
            text_order_from(a, b, i),
            text_order_from(b, a, i),
            text_order_from(b, c, i),
            text_order_from(c, b, i),
            text_order_from(a, c, i),
            text_order_from(c, a, i),
        ),
{
    lemma_text_order_antisymmetric(a, b, i);
    lemma_text_order_antisymmetric(b, c, i);
    lemma_text_order_antisymmetric(a, c, i);
    if text_order_from(a, b, i) <= 0 && text_order_from(b, c, i) <= 0 {
        lemma_text_order_transitive(a, b, c, i);
    }
}

proof fn lemma_time_order(a: BetTime, b: BetTime, c: BetTime)
    ensures
        preorder_on(
            time_order(a, b),
            time_order(b, a),
            time_order(b, c),
            time_order(c, b),
            time_order(a, c),
            time_order(c, a),
        ),
{
}

proof fn lemma_column_order(a: Bet, b: Bet, c: Bet, column: BetColumnName)
    ensures
        preorder_on(
            column_order(a, b, column),
            column_order(b, a, column),
            column_order(b, c, column),
            column_order(c, b, column),
            column_order(a, c, column),
            column_order(c, a, column),
        ),
{
    match column {
        BetColumnName::Dt => lemma_time_order(a.dt, b.dt, c.dt),
        BetColumnName::BlueTeam => lemma_text_order_from(a.blue_team@, b.blue_team@, c.blue_team@, 0),
        BetColumnName::RedTeam => lemma_text_order_from(a.red_team@, b.red_team@, c.red_team@, 0),
        _ => {},
    }
}

proof fn lemma_directed_order(a: Bet, b: Bet, c: Bet, column: BetColumnName, sort: ColumnSort)
    ensures
        preorder_on(
            directed_order(a, b, column, sort),
            directed_order(b, a, column, sort),
            directed_order(b, c, column, sort),
            directed_order(c, b, column, sort),
            directed_order(a, c, column, sort),
            directed_order(c, a, column, sort),
        ),
{
    lemma_column_order(a, b, c, column);
    lemma_column_order(c, b, a, column);
}

proof fn lemma_rows_order_from(
    a: Bet,
    b: Bet,
    c: Bet,
    sorting: Seq<(BetColumnName, ColumnSort)>,
    i: int,
)
    ensures
        preorder_on(
            rows_order_from(a, b, sorting, i),
            rows_order_from(b, a, sorting, i),
            rows_order_from(b, c, sorting, i),
            rows_order_from(c, b, sorting, i),
            rows_order_from(a, c, sorting, i),
            rows_order_from(c, a, sorting, i),
        ),
    decreases sorting.len() - i,
{
    if 0 <= i < sorting.len() {
        let (column, sort) = sorting[i];
        lemma_directed_order(a, b, c, column, sort);
        lemma_directed_order(a, c, b, column, sort);
        lemma_directed_order(b, a, c, column, sort);
        lemma_directed_order(b, c, a, column, sort);
        lemma_directed_order(c, a, b, column, sort);
        lemma_directed_order(c, b, a, column, sort);
        lemma_rows_order_from(a, b, c, sorting, i + 1);
    }
}

/// The order of rows by a sorting is a total preorder: comparing the
/// other way round negates it, and it is transitive.
pub proof fn lemma_rows_order_preorder(
    a: Bet,
    b: Bet,
    c: Bet,
    sorting: Seq<(BetColumnName, ColumnSort)>,
)
    ensures
        rows_order(a, b, sorting) == -rows_order(b, a, sorting),
        rows_order(a, b, sorting) <= 0 && rows_order(b, c, sorting) <= 0 ==> rows_order(a, c, sorting)
            <= 0,
        rows_order(a, b, sorting) < 0 && rows_order(b, c, sorting) <= 0 ==> rows_order(a, c, sorting)
            < 0,
        rows_order(a, b, sorting) <= 0 && rows_order(b, c, sorting) < 0 ==> rows_order(a, c, sorting)
            < 0,
{
    lemma_rows_order_from(a, b, c, sorting, 0);
    lemma_rows_order_from(b, c, a, sorting, 0);
    lemma_rows_order_from(c, a, b, sorting, 0);
}

proof fn lemma_rows_order_from_shift(
    a: Bet,
    b: Bet,
    entry: (BetColumnName, ColumnSort),
    rest: Seq<(BetColumnName, ColumnSort)>,
    i: int,
)
    requires
        1 <= i,
    ensures
        rows_order_from(a, b, seq![entry] + rest, i) == rows_order_from(a, b, rest, i - 1),
    decreases rest.len() + 1 - i,
{
    let s = seq![entry] + rest;
    if i < s.len() {
        assert(s[i] == rest[i - 1]);
        lemma_rows_order_from_shift(a, b, entry, rest, i + 1);
    }
}

/// The order by a sorting whose first entry is `entry`: that entry
/// decides, and where it does not, the rest of the sorting does.
pub proof fn lemma_rows_order_first_entry(
    a: Bet,
    b: Bet,
    entry: (BetColumnName, ColumnSort),
    rest: Seq<(BetColumnName, ColumnSort)>,
)
    ensures
        rows_order(a, b, seq![entry] + rest) == (if rows_order(a, b, seq![entry]) != 0 {
            rows_order(a, b, seq![entry])
        } else {
            rows_order(a, b, rest)
        }),
{
    let s = seq![entry] + rest;
    assert(s[0] == entry);
    lemma_rows_order_from_shift(a, b, entry, rest, 1);
    assert(rows_order_from(a, b, seq![entry], 1) == 0);
}

proof fn lemma_text_order_skips_common_prefix(x: Seq<char>, y: Seq<char>, i: int, k: int)
    requires
        0 <= i <= k,
        k <= x.len(),
        k <= y.len(),
        forall|j: int| 0 <= j < k ==> x[j] == y[j],
    ensures
        text_order_from(x, y, i) == text_order_from(x, y, k),
    decreases k - i,
{
    if i < k {
        assert(x[i] == y[i]);
        lemma_text_order_skips_common_prefix(x, y, i + 1, k);
    }
}

/// Texts are ordered by their first difference: after a common prefix of
/// `k` characters, the text that ends there comes first, else the text
/// whose next character has the lower code point; equal texts are equal.
pub proof fn lemma_text_order_first_difference(x: Seq<char>, y: Seq<char>, k: int)
    requires
        0 <= k <= x.len(),
        k <= y.len(),
        forall|j: int| 0 <= j < k ==> x[j] == y[j],
    ensures
        k == x.len() && k == y.len() ==> text_order(x, y) == 0,
        k == x.len() && k < y.len() ==> text_order(x, y) < 0,
        k < x.len() && k == y.len() ==> text_order(x, y) > 0,
        k < x.len() && k < y.len() && (x[k] as int) < (y[k] as int) ==> text_order(x, y) < 0,
        k < x.len() && k < y.len() && (x[k] as int) > (y[k] as int) ==> text_order(x, y) > 0,
{
    lemma_text_order_skips_common_prefix(x, y, 0, k);
}

/// The Red Team column orders bets by their red team names alone: by the
/// first character where the names differ (by code point), a name before
/// any longer name it begins; bets whose red teams are equal are equal on
/// it, whatever their other fields.
pub proof fn lemma_red_team_column(a: Bet, b: Bet, c: Bet, d: Bet, k: int)
    requires
        0 <= k <= a.red_team@.len(),
        k <= b.red_team@.len(),
        forall|j: int| 0 <= j < k ==> a.red_team@[j] == b.red_team@[j],
    ensures
        k == a.red_team@.len() && k == b.red_team@.len() ==> column_order(
            a,
            b,
            BetColumnName::RedTeam,
        ) == 0,
        k == a.red_team@.len() && k < b.red_team@.len() ==> column_order(
            a,
            b,
            BetColumnName::RedTeam,
        ) < 0,
        k < a.red_team@.len() && k < b.red_team@.len() && (a.red_team@[k] as int) < (
        b.red_team@[k] as int) ==> column_order(a, b, BetColumnName::RedTeam) < 0,
        c.red_team@ == a.red_team@ && d.red_team@ == b.red_team@ ==> column_order(
            c,
            d,
            BetColumnName::RedTeam,
        ) == column_order(a, b, BetColumnName::RedTeam),
{
    lemma_text_order_first_difference(a.red_team@, b.red_team@, k);
}

/// The Blue Team column orders bets by their blue team names alone: by
/// the first character where the names differ (by code point), a name
/// before any longer name it begins; bets whose blue teams are equal are
/// equal on it, whatever their other fields.
pub proof fn lemma_blue_team_column(a: Bet, b: Bet, c: Bet, d: Bet, k: int)
    requires
        0 <= k <= a.blue_team@.len(),
        k <= b.blue_team@.len(),
        forall|j: int| 0 <= j < k ==> a.blue_team@[j] == b.blue_team@[j],
    ensures
        k == a.blue_team@.len() && k == b.blue_team@.len() ==> column_order(
            a,
            b,
            BetColumnName::BlueTeam,
        ) == 0,
        k == a.blue_team@.len() && k < b.blue_team@.len() ==> column_order(
            a,
            b,
            BetColumnName::BlueTeam,
        ) < 0,
        k < a.blue_team@.len() && k < b.blue_team@.len() && (a.blue_team@[k] as int) < (
        b.blue_team@[k] as int) ==> column_order(a, b, BetColumnName::BlueTeam) < 0,
        c.blue_team@ == a.blue_team@ && d.blue_team@ == b.blue_team@ ==> column_order(
            c,
            d,
            BetColumnName::BlueTeam,
        ) == column_order(a, b, BetColumnName::BlueTeam),
{
    lemma_text_order_first_difference(a.blue_team@, b.blue_team@, k);
}

/// The Time column orders bets by when they were placed: an earlier year,
/// month or day comes first; on one day, the earlier second, then the
/// earlier nanosecond; the same moment is equal.
pub proof fn lemma_time_column(a: Bet, b: Bet)
    ensures
        a.dt.date.year < b.dt.date.year ==> column_order(a, b, BetColumnName::Dt) < 0,
        a.dt.date.year == b.dt.date.year && a.dt.date.month < b.dt.date.month ==> column_order(
            a,
            b,
            BetColumnName::Dt,
        ) < 0,
        a.dt.date.year == b.dt.date.year && a.dt.date.month == b.dt.date.month && a.dt.date.day
            < b.dt.date.day ==> column_order(a, b, BetColumnName::Dt) < 0,
        a.dt.date == b.dt.date && a.dt.secs < b.dt.secs ==> column_order(a, b, BetColumnName::Dt)
            < 0,
        a.dt.date == b.dt.date && a.dt.secs == b.dt.secs && a.dt.nanos < b.dt.nanos
            ==> column_order(a, b, BetColumnName::Dt) < 0,
        a.dt == b.dt ==> column_order(a, b, BetColumnName::Dt) == 0,
        column_order(a, b, BetColumnName::Dt) == -column_order(b, a, BetColumnName::Dt),
{
    lemma_time_order(a.dt, b.dt, b.dt);
}

/// The Row id column orders bets by row id.
pub proof fn lemma_rowid_column(a: Bet, b: Bet)
    ensures
        column_order(a, b, BetColumnName::Rowid) < 0 <==> a.rowid < b.rowid,
        column_order(a, b, BetColumnName::Rowid) == 0 <==> a.rowid == b.rowid,
{
}

/// The odds columns order the odds as the numbers they stand for: among
/// positive doubles the larger bits are the larger number, any negative
/// number other than -0 is below every positive one, the two zeros are
/// equal, and the same bits are equal.
pub proof fn lemma_odds_columns(a: Bet, b: Bet)
    ensures
        a.blue_odds < sign_bit() && b.blue_odds < sign_bit() ==> (column_order(
            a,
            b,
            BetColumnName::BlueOdds,
        ) < 0 <==> a.blue_odds < b.blue_odds),
        a.blue_odds > sign_bit() && b.blue_odds < sign_bit() ==> column_order(
            a,
            b,
            BetColumnName::BlueOdds,
        ) < 0,
        a.blue_odds == sign_bit() && b.blue_odds == 0 ==> column_order(
            a,
            b,
            BetColumnName::BlueOdds,
        ) == 0,
        a.blue_odds == b.blue_odds ==> column_order(a, b, BetColumnName::BlueOdds) == 0,
        a.red_odds < sign_bit() && b.red_odds < sign_bit() ==> (column_order(
            a,
            b,
            BetColumnName::RedOdds,
        ) < 0 <==> a.red_odds < b.red_odds),
        a.red_odds > sign_bit() && b.red_odds < sign_bit() ==> column_order(
            a,
            b,
            BetColumnName::RedOdds,
        ) < 0,
        a.red_odds == sign_bit() && b.red_odds == 0 ==> column_order(
            a,
            b,
            BetColumnName::RedOdds,
        ) == 0,
        a.red_odds == b.red_odds ==> column_order(a, b, BetColumnName::RedOdds) == 0,
{
}

/// -1, 0 or 1 as `a` is below, equal to or above `b`.
fn compare_ints(a: i128, b: i128) -> (res: i8)
    ensures
        res as int == int_order(a as int, b as int),
{
    if a < b {
        -1
    } else if a == b {
        0
    } else {
        1
    }
}

/// The order key of the odds with these bits.
fn odds_key(bits: u64) -> (res: i128)
    ensures
        res as int == odds_order_key(bits),
{
    if bits < 0x8000_0000_0000_0000u64 {
        bits as i128
    } else {
        -((bits - 0x8000_0000_0000_0000u64) as i128)
    }
}

/// Whether these are the bits of a NaN.
pub fn odds_is_nan(bits: u64) -> (res: bool)
    ensures
        res == is_nan_bits(bits),
{
    let magnitude = if bits < 0x8000_0000_0000_0000u64 {
        bits
    } else {
        bits - 0x8000_0000_0000_0000u64
    };
    magnitude > 0x7FF0_0000_0000_0000u64
}

/// Lexicographic comparison of two texts by code point.
pub fn compare_text(a: &str, b: &str) -> (res: i8)
    ensures
        res as int == text_order(a@, b@),
{
    let len_a = a.unicode_len();
    let len_b = b.unicode_len();
    let mut i: usize = 0;
    while i < len_a && i < len_b
        invariant
            len_a == a@.len(),
            len_b == b@.len(),
            i <= len_a,
            i <= len_b,
            text_order(a@, b@) == text_order_from(a@, b@, i as int),
        decreases len_a - i,
    {
        let ca = a.get_char(i) as u32;
        let cb = b.get_char(i) as u32;
        if ca < cb {
            return -1;
        }
        if ca > cb {
            return 1;
        }
        i = i + 1;
    }
    if i < len_b {
        -1
    } else if i < len_a {
        1
    } else {
        0
    }
}

/// The order of two bet times.
fn compare_times(a: &BetTime, b: &BetTime) -> (res: i8)
    ensures
        res as int == time_order(*a, *b),
{
    if a.date.year != b.date.year {
        compare_ints(a.date.year as i128, b.date.year as i128)
    } else if a.date.month != b.date.month {
        compare_ints(a.date.month as i128, b.date.month as i128)
    } else if a.date.day != b.date.day {
        compare_ints(a.date.day as i128, b.date.day as i128)
    } else if a.secs != b.secs {
        compare_ints(a.secs as i128, b.secs as i128)
    } else {
        compare_ints(a.nanos as i128, b.nanos as i128)
    }
}

/// The ascending order of two bets by one column.
pub fn compare_column(a: &Bet, b: &Bet, column: BetColumnName) -> (res: i8)
    ensures
        res as int == column_order(*a, *b, column),
{
    match column {
        BetColumnName::Rowid => compare_ints(a.rowid as i128, b.rowid as i128),
        BetColumnName::Dt => compare_times(&a.dt, &b.dt),
        BetColumnName::BlueTeam => compare_text(a.blue_team.as_str(), b.blue_team.as_str()),
        BetColumnName::RedTeam => compare_text(a.red_team.as_str(), b.red_team.as_str()),
        BetColumnName::BlueOdds => compare_ints(odds_key(a.blue_odds), odds_key(b.blue_odds)),
        BetColumnName::RedOdds => compare_ints(odds_key(a.red_odds), odds_key(b.red_odds)),
    }
}

/// The order of two bets by a sorting, its first entry the most
/// important; -1, 0 or 1.
pub fn compare_rows(a: &Bet, b: &Bet, sorting: &VecDeque<(BetColumnName, ColumnSort)>) -> (res: i8)
    ensures
        res as int == rows_order(*a, *b, sorting@),
{
    let n = sorting.len();
    let mut i: usize = 0;
    while i < n
        invariant
            n == sorting@.len(),
            i <= n,
            rows_order(*a, *b, sorting@) == rows_order_from(*a, *b, sorting@, i as int),
        decreases n - i,
    {
        let (column, sort) = sorting[i];
        let r = match sort {
            ColumnSort::Ascending => compare_column(a, b, column),
            ColumnSort::Descending => compare_column(b, a, column),
            ColumnSort::Unsorted => 0,
        };
        if r != 0 {
            return r;
        }
        i = i + 1;
    }
    0
}

} // verus!
