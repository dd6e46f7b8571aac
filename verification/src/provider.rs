//! The data provider of the bets table: the stable multi-column sort of
//! its rows, the clamping of a requested range of rows, and the cache of
//! the rows of the day last fetched.

use crate::calendar::{first_date, iso_date_text, CalendarDate};
use crate::order::{
    compare_rows, is_nan_bits, lemma_rows_order_first_entry, lemma_rows_order_preorder, odds_is_nan,
    rows_order, Bet, BetColumnName,
};
use crate::tailwind::ColumnSort;
use std::collections::VecDeque;
use vstd::prelude::*;

verus! {

/// `a` (at input index `ia`) comes before `b` (at input index `ib`) in a
/// stable sort: it is ordered below `b`, or equal to it and earlier.
pub open spec fn sorted_before(
    a: Bet,
    ia: int,
    b: Bet,
    ib: int,
    sorting: Seq<(BetColumnName, ColumnSort)>,
) -> bool {
    rows_order(a, b, sorting) < 0 || (rows_order(a, b, sorting) == 0 && ia < ib)
}

/// Some entry of `perm` is `k`.
pub open spec fn index_used(perm: Seq<int>, k: int) -> bool {
    exists|i: int| 0 <= i < perm.len() && perm[i] == k
}

/// `perm` shows that `out` is `inp` stably sorted by `sorting`: `out[i]`
/// is `inp[perm[i]]`, every input index is used once, and the rows come in
/// order, equal rows in their input order.
pub open spec fn is_stable_sort_witness(
    out: Seq<Bet>,
    inp: Seq<Bet>,
    sorting: Seq<(BetColumnName, ColumnSort)>,
    perm: Seq<int>,
) -> bool {
    &&& out.len() == inp.len()
    &&& perm.len() == inp.len()
    &&& forall|i: int|
        0 <= i < perm.len() ==> 0 <= #[trigger] perm[i] < inp.len() && out[i] == inp[perm[i]]
    &&& forall|i: int, j: int| 0 <= i < j < perm.len() ==> perm[i] != perm[j]
    &&& forall|k: int| 0 <= k < inp.len() ==> #[trigger] index_used(perm, k)
    &&& forall|i: int, j: int|
        0 <= i < j < out.len() ==> sorted_before(out[i], perm[i], out[j], perm[j], sorting)
}

/// `out` is `inp` stably sorted by `sorting`.
pub open spec fn is_stable_sort_of(
    out: Seq<Bet>,
    inp: Seq<Bet>,
    sorting: Seq<(BetColumnName, ColumnSort)>,
) -> bool {
    exists|perm: Seq<int>| is_stable_sort_witness(out, inp, sorting, perm)
}

/// No two rows of `rows` are out of order by `sorting`.
pub open spec fn is_sorted_by(rows: Seq<Bet>, sorting: Seq<(BetColumnName, ColumnSort)>) -> bool {
    forall|i: int, j: int| 0 <= i < j < rows.len() ==> rows_order(rows[i], rows[j], sorting) <= 0
}

proof fn lemma_witnesses_agree(
    out1: Seq<Bet>,
    out2: Seq<Bet>,
    inp: Seq<Bet>,
    sorting: Seq<(BetColumnName, ColumnSort)>,
    p1: Seq<int>,
    p2: Seq<int>,
    n: int,
)
    requires
        is_stable_sort_witness(out1, inp, sorting, p1),
        is_stable_sort_witness(out2, inp, sorting, p2),
        0 <= n <= inp.len(),
    ensures
        forall|i: int| 0 <= i < n ==> p1[i] == p2[i],
    decreases n,
{
    if n > 0 {
        lemma_witnesses_agree(out1, out2, inp, sorting, p1, p2, n - 1);
        let i = n - 1;
        let a = p1[i];
        let b = p2[i];
        if a != b {
            assert(index_used(p1, b));
            let u = choose|u: int| 0 <= u < p1.len() && p1[u] == b;
            assert(index_used(p2, a));
            let v = choose|v: int| 0 <= v < p2.len() && p2[v] == a;
            if u < i {
                assert(p2[u] == b);
            }
            if v < i {
                assert(p1[v] == a);
            }
            assert(sorted_before(out1[i], p1[i], out1[u], p1[u], sorting));
            assert(sorted_before(out2[i], p2[i], out2[v], p2[v], sorting));
            lemma_rows_order_preorder(inp[a], inp[b], inp[a], sorting);
        }
    }
}

/// A stable sort has one result: two stable sorts of the same rows by the
/// same sorting are the same rows in the same order.
pub proof fn lemma_stable_sort_unique(
    out1: Seq<Bet>,
    out2: Seq<Bet>,
    inp: Seq<Bet>,
    sorting: Seq<(BetColumnName, ColumnSort)>,
)
    requires
        is_stable_sort_of(out1, inp, sorting),
        is_stable_sort_of(out2, inp, sorting),
    ensures
        out1 == out2,
{
    let p1 = choose|p: Seq<int>| is_stable_sort_witness(out1, inp, sorting, p);
    let p2 = choose|p: Seq<int>| is_stable_sort_witness(out2, inp, sorting, p);
    lemma_witnesses_agree(out1, out2, inp, sorting, p1, p2, inp.len() as int);
    assert forall|i: int| 0 <= i < out1.len() implies out1[i] == out2[i] by {
        assert(p1[i] == p2[i]);
    }
    assert(out1 =~= out2);
}

/// Sorting rows that a stable sort gave, by the same sorting, changes
/// nothing: the sort is idempotent.
pub proof fn lemma_resorting_changes_nothing(
    once: Seq<Bet>,
    twice: Seq<Bet>,
    rows: Seq<Bet>,
    sorting: Seq<(BetColumnName, ColumnSort)>,
)
    requires
        is_stable_sort_of(once, rows, sorting),
        is_stable_sort_of(twice, once, sorting),
    ensures
        twice == once,
{
    let p = choose|p: Seq<int>| is_stable_sort_witness(once, rows, sorting, p);
    let id = Seq::new(once.len(), |i: int| i);
    assert forall|i: int, j: int| 0 <= i < j < once.len() implies sorted_before(
        once[i],
        id[i],
        once[j],
        id[j],
        sorting,
    ) by {
        assert(sorted_before(once[i], p[i], once[j], p[j], sorting));
    }
    assert forall|k: int| 0 <= k < once.len() implies #[trigger] index_used(id, k) by {
        assert(id[k] == k);
    }
    assert(is_stable_sort_witness(once, once, sorting, id));
    lemma_stable_sort_unique(twice, once, once, sorting);
}

/// Rows already in order are their own stable sort: any stable sort of
/// them gives them back unchanged.
pub proof fn lemma_sorted_rows_stay(
    out: Seq<Bet>,
    rows: Seq<Bet>,
    sorting: Seq<(BetColumnName, ColumnSort)>,
)
    requires
        is_sorted_by(rows, sorting),
        is_stable_sort_of(out, rows, sorting),
    ensures
        out == rows,
{
    let id = Seq::new(rows.len(), |i: int| i);
    assert forall|k: int| 0 <= k < rows.len() implies #[trigger] index_used(id, k) by {
        assert(id[k] == k);
    }
    assert forall|i: int, j: int| 0 <= i < j < rows.len() implies sorted_before(
        rows[i],
        id[i],
        rows[j],
        id[j],
        sorting,
    ) by {}
    assert(is_stable_sort_witness(rows, rows, sorting, id));
    lemma_stable_sort_unique(out, rows, rows, sorting);
}

/// Sorting stably by the rest of a sorting, then stably by its first
/// entry, sorts stably by the whole sorting: sorting by each entry in turn,
/// from the last to the first, is one stable sort by the list, its first
/// entry the most important.
pub proof fn lemma_sort_by_entries_in_turn(
    rows: Seq<Bet>,
    by_rest: Seq<Bet>,
    by_all: Seq<Bet>,
    entry: (BetColumnName, ColumnSort),
    rest: Seq<(BetColumnName, ColumnSort)>,
)
    requires
        is_stable_sort_of(by_rest, rows, rest),
        is_stable_sort_of(by_all, by_rest, seq![entry]),
    ensures
        is_stable_sort_of(by_all, rows, seq![entry] + rest),
{
    let first = seq![entry];
    let s = first + rest;
    let p = choose|p: Seq<int>| is_stable_sort_witness(by_rest, rows, rest, p);
    let q = choose|q: Seq<int>| is_stable_sort_witness(by_all, by_rest, first, q);
    let pq = Seq::new(q.len(), |i: int| p[q[i]]);
    assert forall|i: int| 0 <= i < pq.len() implies 0 <= #[trigger] pq[i] < rows.len()
        && by_all[i] == rows[pq[i]] by {
        assert(0 <= q[i] < by_rest.len());
        assert(0 <= p[q[i]] < rows.len());
    }
    assert forall|i: int, j: int| 0 <= i < j < pq.len() implies pq[i] != pq[j] by {
        assert(0 <= q[i] < p.len() && 0 <= q[j] < p.len());
        assert(q[i] != q[j]);
        if q[i] < q[j] {
            assert(p[q[i]] != p[q[j]]);
        } else {
            assert(p[q[j]] != p[q[i]]);
        }
    }
    assert forall|k: int| 0 <= k < rows.len() implies #[trigger] index_used(pq, k) by {
        assert(index_used(p, k));
        let m = choose|m: int| 0 <= m < p.len() && p[m] == k;
        assert(index_used(q, m));
        let i = choose|i: int| 0 <= i < q.len() && q[i] == m;
        assert(pq[i] == k);
    }
    assert forall|i: int, j: int| 0 <= i < j < by_all.len() implies sorted_before(
        by_all[i],
        pq[i],
        by_all[j],
        pq[j],
        s,
    ) by {
        assert(sorted_before(by_all[i], q[i], by_all[j], q[j], first));
        lemma_rows_order_first_entry(by_all[i], by_all[j], entry, rest);
        if rows_order(by_all[i], by_all[j], first) == 0 {
            assert(0 <= q[i] < by_rest.len() && 0 <= q[j] < by_rest.len());
            assert(q[i] < q[j]);
            assert(by_all[i] == by_rest[q[i]] && by_all[j] == by_rest[q[j]]);
            assert(sorted_before(by_rest[q[i]], p[q[i]], by_rest[q[j]], p[q[j]], rest));
        }
    }
    assert(is_stable_sort_witness(by_all, rows, s, pq));
}

/// The rows stably sorted by `sorting`, its first entry the most
/// important one: the order of sorting the rows by each entry in turn,
/// from the last entry to the first, each sort stable.
pub fn sort_rows(rows: Vec<Bet>, sorting: &VecDeque<(BetColumnName, ColumnSort)>) -> (res: Vec<
    Bet,
>)
    ensures
        is_stable_sort_of(res@, rows@, sorting@),
        is_sorted_by(res@, sorting@),
        is_sorted_by(rows@, sorting@) ==> res@ == rows@,
{
    let ghost orig = rows@;
    let ghost s = sorting@;
    let mut input = rows;
    let mut out: Vec<Bet> = Vec::new();
    let ghost mut perm: Seq<int> = Seq::empty();
    while input.len() > 0
        invariant
            input@ == orig.subrange(0, input@.len() as int),
            out@.len() + input@.len() == orig.len(),
            perm.len() == out@.len(),
            s == sorting@,
            forall|i: int|
                0 <= i < perm.len() ==> input@.len() <= #[trigger] perm[i] < orig.len() && out@[i]
                    == orig[perm[i]],
            forall|i: int, j: int| 0 <= i < j < perm.len() ==> perm[i] != perm[j],
            forall|q: int| input@.len() <= q < orig.len() ==> #[trigger] index_used(perm, q),
            forall|i: int, j: int|
                0 <= i < j < out@.len() ==> sorted_before(out@[i], perm[i], out@[j], perm[j], s),
            is_sorted_by(orig, s) ==> out@ == orig.subrange(input@.len() as int, orig.len() as int),
        decreases input@.len(),
    {
        let k = input.len() - 1;
        let x = match input.pop() {
            Some(x) => x,
            None => { return out; },
        };
        assert(x == orig[k as int]);
        let mut j: usize = 0;
        while j < out.len()
            invariant
                j <= out@.len(),
                s == sorting@,
                forall|t: int| 0 <= t < j ==> rows_order(out@[t], x, s) < 0,
            ensures
                j <= out@.len(),
                forall|t: int| 0 <= t < j ==> rows_order(out@[t], x, s) < 0,
                j < out@.len() ==> rows_order(out@[j as int], x, s) >= 0,
            decreases out@.len() - j,
        {
            if compare_rows(&out[j], &x, sorting) >= 0 {
                break;
            }
            j = j + 1;
        }
        proof {
            if j < out@.len() {
                assert(rows_order(out@[j as int], x, s) >= 0);
            }
            assert forall|b: int| j <= b < out@.len() implies rows_order(x, out@[b], s) <= 0 by {
                lemma_rows_order_preorder(x, out@[j as int], out@[b], s);
                lemma_rows_order_preorder(out@[j as int], x, out@[b], s);
                if b > j {
                    assert(sorted_before(out@[j as int], perm[j as int], out@[b], perm[b], s));
                }
            }
            if is_sorted_by(orig, s) && out@.len() > 0 {
                assert(out@[0] == orig[k + 1]);
                lemma_rows_order_preorder(x, out@[0], out@[0], s);
                assert(j == 0);
            }
        }
        let ghost old_out = out@;
        let ghost old_perm = perm;
        out.insert(j, x);
        proof {
            perm = old_perm.insert(j as int, k as int);
            assert forall|i: int, t: int| 0 <= i < t < out@.len() implies sorted_before(
                out@[i],
                perm[i],
                out@[t],
                perm[t],
                s,
            ) by {
                if t < j {
                } else if t == j {
                } else if i < j {
                    assert(out@[t] == old_out[t - 1]);
                    assert(perm[t] == old_perm[t - 1]);
                    assert(sorted_before(old_out[i], old_perm[i], old_out[t - 1], old_perm[t - 1], s));
                } else if i == j {
                    assert(out@[t] == old_out[t - 1]);
                    assert(rows_order(x, old_out[t - 1], s) <= 0);
                } else {
                    assert(sorted_before(old_out[i - 1], old_perm[i - 1], old_out[t - 1], old_perm[t - 1], s));
                }
            }
            assert forall|i: int, t: int| 0 <= i < t < perm.len() implies perm[i] != perm[t] by {
                if i != j && t != j {
                    let i0 = if i < j { i } else { i - 1 };
                    let t0 = if t < j { t } else { t - 1 };
                    assert(old_perm[i0] != old_perm[t0]);
                }
            }
            assert forall|q: int| k <= q < orig.len() implies #[trigger] index_used(perm, q) by {
                if q == k {
                    assert(perm[j as int] == q);
                } else {
                    assert(index_used(old_perm, q));
                    let i0 = choose|i: int| 0 <= i < old_perm.len() && old_perm[i] == q;
                    if i0 < j {
                        assert(perm[i0] == q);
                    } else {
                        assert(perm[i0 + 1] == q);
                    }
                }
            }
            if is_sorted_by(orig, s) {
                assert(out@ =~= orig.subrange(k as int, orig.len() as int));
            }
        }
    }
    proof {
        assert(is_stable_sort_witness(out@, orig, s, perm));
        assert forall|i: int, j: int| 0 <= i < j < out@.len() implies rows_order(
            out@[i],
            out@[j],
            s,
        ) <= 0 by {
            assert(sorted_before(out@[i], perm[i], out@[j], perm[j], s));
        }
        if is_sorted_by(orig, s) {
            assert(out@ =~= orig);
        }
    }
    out
}

/// A copy of the rows, equal to them one by one.
pub fn copy_rows(rows: &Vec<Bet>) -> (res: Vec<Bet>)
    ensures
        res@ == rows@,
{
    let mut res: Vec<Bet> = Vec::new();
    let mut i: usize = 0;
    while i < rows.len()
        invariant
            i <= rows@.len(),
            res@ == rows@.subrange(0, i as int),
        decreases rows@.len() - i,
    {
        res.push(rows[i].duplicate());
        i = i + 1;
    }
    assert(res@ =~= rows@);
    res
}

/// The smaller of two integers.
pub open spec fn min_int(a: int, b: int) -> int {
    if a <= b {
        a
    } else {
        b
    }
}

/// The rows of `rows` from `start` (moved back to the last row where it
/// lies beyond it) up to `end` (moved back to the length where it lies
/// beyond it); no rows where there are none.
pub open spec fn clamped_rows(rows: Seq<Bet>, start: int, end: int) -> Seq<Bet> {
    if rows.len() == 0 {
        Seq::empty()
    } else {
        rows.subrange(min_int(start, rows.len() - 1), min_int(end, rows.len() as int))
    }
}

/// Clamping these bounds to `len` rows leaves a start beyond the end
/// (slicing with them panics).
pub open spec fn clamp_is_inverted(len: int, start: int, end: int) -> bool {
    len > 0 && min_int(start, len - 1) > min_int(end, len)
}

/// The rows of `vec` within `range`, clamped to the rows there are (the
/// `get_vec_range_clamped` of leptos-struct-table).
pub fn get_vec_range_clamped(vec: &Vec<Bet>, range: core::ops::Range<usize>) -> (res: Vec<Bet>)
    requires
        !clamp_is_inverted(vec@.len() as int, range.start as int, range.end as int),
    ensures
        res@ == clamped_rows(vec@, range.start as int, range.end as int),
        vec@.len() == 0 ==> res@.len() == 0,
        vec@.len() > 0 ==> res@.len() == min_int(range.end as int, vec@.len() as int) - min_int(
            range.start as int,
            vec@.len() - 1,
        ),
        forall|i: int|
            0 <= i < res@.len() ==> #[trigger] res@[i] == vec@[min_int(
                range.start as int,
                vec@.len() - 1,
            ) + i],
{
    if vec.len() == 0 {
        return Vec::new();
    }
    let start = if range.start < vec.len() - 1 {
        range.start
    } else {
        vec.len() - 1
    };
    let end = if range.end < vec.len() {
        range.end
    } else {
        vec.len()
    };
    let mut res: Vec<Bet> = Vec::new();
    let mut i: usize = start;
    while i < end
        invariant
            start <= i <= end <= vec@.len(),
            res@ == vec@.subrange(start as int, i as int),
        decreases end - i,
    {
        res.push(vec[i].duplicate());
        i = i + 1;
    }
    assert(res@ =~= vec@.subrange(start as int, end as int));
    res
}

/// The sorting of a new table: by row id, descending.
pub open spec fn default_sorting() -> Seq<(BetColumnName, ColumnSort)> {
    seq![(BetColumnName::Rowid, ColumnSort::Descending)]
}

/// Sorting by `entry` compares the NaN odds of `row`.
pub open spec fn meets_nan(entry: (BetColumnName, ColumnSort), row: Bet) -> bool {
    &&& entry.1 != ColumnSort::Unsorted
    &&& (entry.0 == BetColumnName::BlueOdds && is_nan_bits(row.blue_odds)) || (entry.0
        == BetColumnName::RedOdds && is_nan_bits(row.red_odds))
}

/// Sorting `rows` by `sorting` compares a NaN odds, which has no order
/// (the comparison's `unwrap` panics): there are two rows or more, and an
/// odds column that is sorted holds a NaN in some row.
pub open spec fn sort_meets_nan(rows: Seq<Bet>, sorting: Seq<(BetColumnName, ColumnSort)>) -> bool {
    &&& rows.len() >= 2
    &&& exists|i: int, r: int|
        0 <= i < sorting.len() && 0 <= r < rows.len() && #[trigger] meets_nan(sorting[i], rows[r])
}

/// What the table asks for next.
pub enum RowsStep {
    /// Fetch the bets of the day with this date text, then hand them to
    /// `get_rows_fetched`.
    Fetch(String),
    /// These are the rows.
    Ready(Vec<Bet>),
}

/// The table's data provider: the day whose bets are shown, the sorting,
/// and the rows of the day last fetched.
pub struct BetDataProvider {
    pub date: CalendarDate,
    pub sorting: VecDeque<(BetColumnName, ColumnSort)>,
    pub last_date: CalendarDate,
    pub bets: Vec<Bet>,
}

/// A copy of a sorting.
fn copy_sorting(sorting: &VecDeque<(BetColumnName, ColumnSort)>) -> (res: VecDeque<
    (BetColumnName, ColumnSort),
>)
    ensures
        res@ == sorting@,
{
    let mut res: VecDeque<(BetColumnName, ColumnSort)> = VecDeque::new();
    let mut i: usize = 0;
    while i < sorting.len()
        invariant
            i <= sorting@.len(),
            res@ == sorting@.subrange(0, i as int),
        decreases sorting@.len() - i,
    {
        res.push_back(sorting[i]);
        i = i + 1;
    }
    assert(res@ =~= sorting@);
    res
}

impl BetDataProvider {
    /// A provider for the day `date`, sorted by row id descending, that
    /// has fetched nothing yet (its last day is the first of the calendar).
    pub fn new(date: CalendarDate) -> (res: BetDataProvider)
        ensures
            res.date == date,
            res.sorting@ == default_sorting(),
            res.last_date == first_date(),
            res.bets@ == Seq::<Bet>::empty(),
    {
        let mut sorting: VecDeque<(BetColumnName, ColumnSort)> = VecDeque::new();
        sorting.push_back((BetColumnName::Rowid, ColumnSort::Descending));
        assert(sorting@ =~= default_sorting());
        BetDataProvider { date, sorting, last_date: CalendarDate::first(), bets: Vec::new() }
    }

    /// Two providers are equal when they show the same day.
    pub fn eq(&self, other: &BetDataProvider) -> (res: bool)
        ensures
            res == (self.date == other.date),
    {
        self.date == other.date
    }

    /// Takes a new sorting; an empty one falls back to row id descending.
    pub fn set_sorting(&mut self, sorting: &VecDeque<(BetColumnName, ColumnSort)>)
        ensures
            final(self).sorting@ == (if sorting@.len() == 0 {
                default_sorting()
            } else {
                sorting@
            }),
            final(self).sorting@.len() > 0,
            final(self).date == old(self).date,
            final(self).last_date == old(self).last_date,
            final(self).bets@ == old(self).bets@,
    {
        if sorting.len() == 0 {
            let mut fallback: VecDeque<(BetColumnName, ColumnSort)> = VecDeque::new();
            fallback.push_back((BetColumnName::Rowid, ColumnSort::Descending));
            assert(fallback@ =~= default_sorting());
            self.sorting = fallback;
        } else {
            self.sorting = copy_sorting(sorting);
        }
    }

    /// The first half of getting the rows: when the day shown is not the
    /// day last fetched, the bets of the day must be fetched (by its date
    /// text) and nothing changes; otherwise the cached rows are sorted
    /// anew and returned.
    pub fn get_rows_start(&mut self) -> (res: RowsStep)
        requires
            old(self).date.is_valid(),
            old(self).date == old(self).last_date ==> !sort_meets_nan(
                old(self).bets@,
                old(self).sorting@,
            ),
        ensures
            old(self).date != old(self).last_date ==> {
                &&& res matches RowsStep::Fetch(text) && text@ == iso_date_text(old(self).date)
                &&& final(self).bets@ == old(self).bets@
            },
            old(self).date == old(self).last_date ==> {
                &&& res matches RowsStep::Ready(rows) && rows@ == final(self).bets@
                &&& is_stable_sort_of(final(self).bets@, old(self).bets@, old(self).sorting@)
                &&& is_sorted_by(final(self).bets@, old(self).sorting@)
                &&& is_sorted_by(old(self).bets@, old(self).sorting@) ==> final(self).bets@ == old(
                    self,
                ).bets@
            },
            final(self).date == old(self).date,
            final(self).last_date == old(self).last_date,
            final(self).sorting@ == old(self).sorting@,
    {
        if self.date != self.last_date {
            return RowsStep::Fetch(self.date.to_iso_string());
        }
        let mut cached: Vec<Bet> = Vec::new();
        core::mem::swap(&mut cached, &mut self.bets);
        self.bets = sort_rows(cached, &self.sorting);
        RowsStep::Ready(copy_rows(&self.bets))
    }

    /// The second half of getting the rows, once the bets of `date` were
    /// fetched (`None` where the fetch failed, which counts as no bets):
    /// the rows within `range` are kept, sorted, and returned; `date` is
    /// now the day last fetched.
    pub fn get_rows_fetched(
        &mut self,
        date: CalendarDate,
        fetched: Option<Vec<Bet>>,
        range: core::ops::Range<usize>,
    ) -> (res: Vec<Bet>)
        requires
            !clamp_is_inverted(
                fetched_rows(fetched).len() as int,
                range.start as int,
                range.end as int,
            ),
            !sort_meets_nan(
                clamped_rows(fetched_rows(fetched), range.start as int, range.end as int),
                old(self).sorting@,
            ),
        ensures
            final(self).date == date,
            final(self).last_date == date,
            final(self).sorting@ == old(self).sorting@,
            is_stable_sort_of(
                final(self).bets@,
                clamped_rows(fetched_rows(fetched), range.start as int, range.end as int),
                old(self).sorting@,
            ),
            is_sorted_by(final(self).bets@, old(self).sorting@),
            res@ == final(self).bets@,
    {
        let rows = match fetched {
            Some(rows) => rows,
            None => Vec::new(),
        };
        self.date = date;
        self.last_date = date;
        let kept = get_vec_range_clamped(&rows, range);
        self.bets = sort_rows(kept, &self.sorting);
        copy_rows(&self.bets)
    }
}

/// The fetched rows; none where the fetch failed.
pub open spec fn fetched_rows(fetched: Option<Vec<Bet>>) -> Seq<Bet> {
    match fetched {
        Some(rows) => rows@,
        None => Seq::empty(),
    }
}

/// The clamped rows of a range: none of no rows; otherwise they run from
/// the range's start (or the last row, where the start lies beyond it) to
/// its end (or the last row), one after the other as in `rows`: a range
/// starting at 0 keeps the first row.
pub proof fn lemma_clamped_rows(rows: Seq<Bet>, start: int, end: int)
    requires
        !clamp_is_inverted(rows.len() as int, start, end),
        0 <= start,
        0 <= end,
    ensures
        rows.len() == 0 ==> clamped_rows(rows, start, end).len() == 0,
        rows.len() > 0 ==> clamped_rows(rows, start, end).len() == min_int(end, rows.len() as int)
            - min_int(start, rows.len() - 1),
        forall|i: int|
            0 <= i < clamped_rows(rows, start, end).len() ==> #[trigger] clamped_rows(
                rows,
                start,
                end,
            )[i] == rows[min_int(start, rows.len() - 1) + i],
        rows.len() > 0 && start < rows.len() && start < end ==> clamped_rows(rows, start, end)[0]
            == rows[start],
{
}

/// Whether clamping `range` to `len` rows leaves its start beyond its end
/// (taking the rows then panics).
pub fn range_is_inverted(len: usize, range: &core::ops::Range<usize>) -> (res: bool)
    ensures
        res == clamp_is_inverted(len as int, range.start as int, range.end as int),
{
    if len == 0 {
        return false;
    }
    let start = if range.start < len - 1 {
        range.start
    } else {
        len - 1
    };
    let end = if range.end < len {
        range.end
    } else {
        len
    };
    start > end
}

/// Whether sorting by `entry` compares the NaN odds of `row`.
fn entry_meets_nan(entry: (BetColumnName, ColumnSort), row: &Bet) -> (res: bool)
    ensures
        res == meets_nan(entry, *row),
{
    let (column, sort) = entry;
    if sort == ColumnSort::Unsorted {
        return false;
    }
    match column {
        BetColumnName::BlueOdds => odds_is_nan(row.blue_odds),
        BetColumnName::RedOdds => odds_is_nan(row.red_odds),
        _ => false,
    }
}

/// Whether sorting `rows` by `sorting` would compare a NaN odds (which
/// panics).
pub fn sorting_meets_nan(rows: &Vec<Bet>, sorting: &VecDeque<(BetColumnName, ColumnSort)>) -> (res:
    bool)
    ensures
        res == sort_meets_nan(rows@, sorting@),
{
    if rows.len() < 2 {
        return false;
    }
    let mut i: usize = 0;
    while i < sorting.len()
        invariant
            rows@.len() >= 2,
            i <= sorting@.len(),
            forall|a: int, r: int|
                0 <= a < i && 0 <= r < rows@.len() ==> !#[trigger] meets_nan(sorting@[a], rows@[r]),
        decreases sorting@.len() - i,
    {
        let mut r: usize = 0;
        while r < rows.len()
            invariant
                rows@.len() >= 2,
                i < sorting@.len(),
                r <= rows@.len(),
                forall|q: int| 0 <= q < r ==> !#[trigger] meets_nan(sorting@[i as int], rows@[q]),
            decreases rows@.len() - r,
        {
            if entry_meets_nan(sorting[i], &rows[r]) {
                assert(meets_nan(sorting@[i as int], rows@[r as int]));
                return true;
            }
            r = r + 1;
        }
        i = i + 1;
    }
    false
}

} // verus!
