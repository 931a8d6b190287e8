use crate::candidates::{
    cand_views, rows_valid, CandidateView, Selector, SelectorView, SplitCandidate,
};
use crate::table::{ColumnValues, Table, MAX_ROWS};
use vstd::prelude::*;
use vstd::relations::{sorted_by, total_ordering};
use vstd::seq_lib::lemma_sorted_unique;

verus! {

/// The sentinel category that pruning substitutes for values too rare to
/// keep.  The sentinel never becomes a split candidate of its own, though
/// rows holding it still count on the non-matching side of every split.
pub const REDUNDANT_STRING_VALUE: &'static str = "FILLER_STRING";

/// View of the sentinel category.
pub open spec fn filler_view() -> Seq<char> {
    "FILLER_STRING"@
}

/// The fixed list of quantile fractions (as percents) from which ordinal
/// thresholds are drawn, spanning the 10th to the 90th percentile.
pub open spec fn default_percents() -> Seq<u64> {
    seq![10u64, 20u64, 30u64, 40u64, 50u64, 60u64, 70u64, 90u64]
}

/// A quantile list is valid when each entry is a percentage.
pub open spec fn percents_wf(ps: Seq<u64>) -> bool {
    forall|i: int| 0 <= i < ps.len() ==> (#[trigger] ps[i]) <= 100
}

/// The default quantile fractions, as percents.
pub fn default_quantile_percents() -> (r: Vec<u64>)
    ensures
        r@ == default_percents(),
        percents_wf(r@),
{
    let mut v: Vec<u64> = Vec::new();
    v.push(10);
    v.push(20);
    v.push(30);
    v.push(40);
    v.push(50);
    v.push(60);
    v.push(70);
    v.push(90);
    proof {
        assert(v@ =~= default_percents());
    }
    v
}

/// The views of a sequence of strings.
pub open spec fn str_views(s: Seq<String>) -> Seq<Seq<char>> {
    s.map_values(|x: String| x@)
}

/// Whether some string of `s` has view `v`.
pub open spec fn views_contain(s: Seq<Seq<char>>, v: Seq<char>) -> bool {
    exists|j: int| 0 <= j < s.len() && s[j] == v
}

/// The distinct category views among the first `i` partition rows of a
/// categorical column, in order of first occurrence, with the sentinel
/// excluded.
pub open spec fn distinct_prefix(
    vals: Seq<String>,
    rows: Seq<usize>,
    excl: Seq<char>,
    i: int,
) -> Seq<Seq<char>>
    decreases i,
{
    if i <= 0 {
        Seq::empty()
    } else {
        let prev = distinct_prefix(vals, rows, excl, i - 1);
        let v = vals[rows[i - 1] as int]@;
        if v == excl || views_contain(prev, v) {
            prev
        } else {
            prev.push(v)
        }
    }
}

/// The distinct category views of a categorical column over a partition,
/// in order of first occurrence, with the sentinel excluded.
pub open spec fn distinct_categories(
    vals: Seq<String>,
    rows: Seq<usize>,
    excl: Seq<char>,
) -> Seq<Seq<char>> {
    distinct_prefix(vals, rows, excl, rows.len() as int)
}

/// The split candidates of a categorical column: one equality test per
/// distinct non-sentinel category present in the partition.
pub open spec fn cat_candidates(
    name: Seq<char>,
    vals: Seq<String>,
    rows: Seq<usize>,
) -> Seq<CandidateView> {
    distinct_categories(vals, rows, filler_view()).map_values(
        |v: Seq<char>| CandidateView { feature: name, selector: SelectorView::Category(v) },
    )
}

/// The ordering by which ordinal column values are sorted.
pub open spec fn i64_leq() -> spec_fn(i64, i64) -> bool {
    |a: i64, b: i64| a <= b
}

/// The values of the first `i` partition rows of an ordinal column, in
/// row order.
pub open spec fn selected_prefix(vals: Seq<i64>, rows: Seq<usize>, i: int) -> Seq<i64>
    decreases i,
{
    if i <= 0 {
        Seq::empty()
    } else {
        selected_prefix(vals, rows, i - 1).push(vals[rows[i - 1] as int])
    }
}

/// The values of an ordinal column over a partition, in row order.
pub open spec fn selected_values(vals: Seq<i64>, rows: Seq<usize>) -> Seq<i64> {
    selected_prefix(vals, rows, rows.len() as int)
}

/// The partition's ordinal values in ascending order.
pub open spec fn sorted_values(vals: Seq<i64>, rows: Seq<usize>) -> Seq<i64> {
    selected_values(vals, rows).sort_by(i64_leq())
}

/// The index of the `p`-th percentile in a sorted list of `n` values:
/// the floor of `(n - 1) * p / 100`.
pub open spec fn threshold_index(n: int, p: int) -> int {
    (n - 1) * p / 100
}

/// The split candidates of an ordinal column: one greater-or-equal test
/// per quantile fraction, with the threshold read off the sorted
/// partition values.  An empty partition yields no candidates.
pub open spec fn ord_candidates(
    name: Seq<char>,
    vals: Seq<i64>,
    rows: Seq<usize>,
    percents: Seq<u64>,
) -> Seq<CandidateView> {
    if rows.len() == 0 {
        Seq::empty()
    } else {
        percents.map_values(
            |p: u64|
                CandidateView {
                    feature: name,
                    selector: SelectorView::Threshold(
                        sorted_values(vals, rows)[threshold_index(rows.len() as int, p as int)],
                    ),
                },
        )
    }
}

/// All split candidates of one column of the table over a partition.
pub open spec fn column_candidates(
    tbl: Table,
    ci: int,
    rows: Seq<usize>,
    percents: Seq<u64>,
) -> Seq<CandidateView> {
    let col = tbl.columns@[ci];
    match col.values {
        ColumnValues::Ordinal(v) => ord_candidates(col.name@, v@, rows, percents),
        ColumnValues::Categorical(v) => cat_candidates(col.name@, v@, rows),
    }
}

/// Whether a vector of strings holds one with the given view.
pub(crate) fn contains_string(v: &Vec<String>, x: &String) -> (b: bool)
    ensures
        b == views_contain(str_views(v@), x@),
{
    let mut j: usize = 0;
    while j < v.len()
        invariant
            0 <= j <= v@.len(),
            forall|k: int| 0 <= k < j ==> str_views(v@)[k] != x@,
        decreases v@.len() - j,
    {
        if v[j] == *x {
            proof {
                assert(str_views(v@)[j as int] == x@);
            }
            return true;
        }
        proof {
            assert(str_views(v@)[j as int] == v@[j as int]@);
        }
        j = j + 1;
    }
    false
}

/// Enumerates the equality split candidates of one categorical column
/// over a partition: one candidate per distinct non-sentinel category, in
/// order of first occurrence.
pub fn get_equality_expression_categories(tbl: &Table, ci: usize, rows: &Vec<usize>) -> (cs: Vec<
    SplitCandidate,
>)
    requires
        tbl.wf(),
        ci < tbl.columns@.len(),
        tbl.columns@[ci as int].spec_kind() == crate::sort_type::SortType::Categorical,
        rows_valid(*tbl, rows@),
    ensures
        cand_views(cs@) == column_candidates(*tbl, ci as int, rows@, Seq::<u64>::empty()),
{
    let ghost col = tbl.columns@[ci as int];
    let vals = match &tbl.columns[ci].values {
        ColumnValues::Categorical(v) => v,
        ColumnValues::Ordinal(_) => {
            proof {
                assert(false);
            }
            return Vec::new();
        },
    };
    let filler = REDUNDANT_STRING_VALUE.to_owned();
    let mut distinct: Vec<String> = Vec::new();
    let mut i: usize = 0;
    while i < rows.len()
        invariant
            tbl.wf(),
            ci < tbl.columns@.len(),
            col == tbl.columns@[ci as int],
            col.values matches ColumnValues::Categorical(vv) && vv == *vals,
            rows_valid(*tbl, rows@),
            vals@.len() == tbl.spec_num_rows(),
            filler@ == filler_view(),
            0 <= i <= rows@.len(),
            str_views(distinct@) == distinct_prefix(vals@, rows@, filler_view(), i as int),
        decreases rows@.len() - i,
    {
        let row = rows[i];
        let value = &vals[row];
        let is_filler = *value == filler;
        if !is_filler && !contains_string(&distinct, value) {
            distinct.push(value.clone());
            proof {
                assert(str_views(distinct@) =~= distinct_prefix(
                    vals@,
                    rows@,
                    filler_view(),
                    i + 1,
                ));
            }
        }
        i = i + 1;
    }
    let mut cs: Vec<SplitCandidate> = Vec::new();
    let mut j: usize = 0;
    while j < distinct.len()
        invariant
            tbl.wf(),
            ci < tbl.columns@.len(),
            0 <= j <= distinct@.len(),
            cs@.len() == j,
            col == tbl.columns@[ci as int],
            str_views(distinct@) == distinct_categories(vals@, rows@, filler_view()),
            col.values matches ColumnValues::Categorical(vv) && vv == *vals,
            forall|k: int|
                0 <= k < j ==> cand_views(cs@)[k] == (CandidateView {
                    feature: col.name@,
                    selector: SelectorView::Category(str_views(distinct@)[k]),
                }),
        decreases distinct@.len() - j,
    {
        let name = tbl.columns[ci].name.clone();
        let ghost prev_cs = cs@;
        cs.push(SplitCandidate { feature: name, selector: Selector::Category(distinct[j].clone()) });
        proof {
            assert forall|k: int| 0 <= k < j + 1 implies cand_views(cs@)[k] == (CandidateView {
                feature: col.name@,
                selector: SelectorView::Category(str_views(distinct@)[k]),
            }) by {
                assert(cand_views(cs@)[k] == cs@[k]@);
                if k < j {
                    assert(cs@[k] == prev_cs[k]);
                    assert(cand_views(prev_cs)[k] == prev_cs[k]@);
                } else {
                    assert(str_views(distinct@)[k] == distinct@[k]@);
                }
            }
        }
        j = j + 1;
    }
    proof {
        assert(cand_views(cs@) =~= cat_candidates(col.name@, vals@, rows@));
    }
    cs
}

/// Copies the partition's values out of an ordinal column, in row order.
fn collect_selected(vals: &Vec<i64>, rows: &Vec<usize>) -> (out: Vec<i64>)
    requires
        forall|i: int| 0 <= i < rows@.len() ==> (#[trigger] rows@[i]) < vals@.len(),
    ensures
        out@ == selected_values(vals@, rows@),
        out@.len() == rows@.len(),
{
    let mut out: Vec<i64> = Vec::new();
    let mut i: usize = 0;
    while i < rows.len()
        invariant
            forall|k: int| 0 <= k < rows@.len() ==> (#[trigger] rows@[k]) < vals@.len(),
            0 <= i <= rows@.len(),
            out@.len() == i,
            out@ == selected_prefix(vals@, rows@, i as int),
        decreases rows@.len() - i,
    {
        out.push(vals[rows[i]]);
        i = i + 1;
    }
    out
}

/// The comparison used for sorting is a total order on `i64`.
proof fn lemma_i64_leq_total()
    ensures
        total_ordering(i64_leq()),
{
    let leq = i64_leq();
    assert forall|x: i64| #[trigger] leq(x, x) by {}
    assert forall|x: i64, y: i64| #[trigger] leq(x, y) && #[trigger] leq(y, x) implies x == y by {}
    assert forall|x: i64, y: i64, z: i64| #[trigger] leq(x, y) && #[trigger] leq(y, z) implies leq(
        x,
        z,
    ) by {}
    assert forall|x: i64, y: i64| true implies #[trigger] leq(x, y) || #[trigger] leq(y, x) by {}
}

/// Sorts a vector of ordinal values ascending; the result is exactly the
/// mathematical sorted permutation of the input.
fn sort_ordinal(input: Vec<i64>) -> (out: Vec<i64>)
    ensures
        out@ == input@.sort_by(i64_leq()),
        out@.len() == input@.len(),
{
    broadcast use vstd::seq_lib::group_to_multiset_ensures;
    broadcast use vstd::multiset::group_multiset_axioms;

    let ghost leq = i64_leq();
    let mut work = input;
    let mut out: Vec<i64> = Vec::new();
    proof {
        assert(out@.to_multiset().add(work@.to_multiset()) =~= input@.to_multiset());
    }
    while work.len() > 0
        invariant
            out@.to_multiset().add(work@.to_multiset()) == input@.to_multiset(),
            out@.len() + work@.len() == input@.len(),
            sorted_by(out@, i64_leq()),
            forall|a: int, b: int|
                0 <= a < out@.len() && 0 <= b < work@.len() ==> out@[a] <= work@[b],
        decreases work@.len(),
    {
        let mut mi: usize = 0;
        let mut j: usize = 1;
        while j < work.len()
            invariant
                0 < work@.len(),
                0 <= mi < j <= work@.len(),
                forall|k: int| 0 <= k < j ==> work@[mi as int] <= (#[trigger] work@[k]),
            decreases work@.len() - j,
        {
            if work[j] < work[mi] {
                mi = j;
            }
            j = j + 1;
        }
        let ghost prev_work = work@;
        let ghost prev_out = out@;
        let m = work.remove(mi);
        out.push(m);
        proof {
            prev_work.remove_ensures(mi as int);
            assert(work@.to_multiset() == prev_work.remove(mi as int).to_multiset());
            assert(out@.to_multiset() == prev_out.push(m).to_multiset());
            assert(prev_work[mi as int] == m);
            assert(sorted_by(out@, i64_leq())) by {
                assert forall|a: int, b: int| 0 <= a < b < out@.len() implies i64_leq()(
                    out@[a],
                    out@[b],
                ) by {
                    if b == out@.len() - 1 {
                        assert(out@[b] == m);
                    }
                }
            }
            assert(prev_work.contains(prev_work[mi as int]));
            vstd::seq_lib::to_multiset_contains(prev_work, m);
            vstd::seq_lib::to_multiset_build(prev_out, m);
            vstd::seq_lib::to_multiset_remove(prev_work, mi as int);
            assert(prev_work.to_multiset().count(m) > 0);
            assert(out@.to_multiset() =~= prev_out.to_multiset().insert(m));
            assert(work@.to_multiset() =~= prev_work.to_multiset().remove(m));
            assert(out@.to_multiset().add(work@.to_multiset()) =~= input@.to_multiset());
        }
    }
    proof {
        assert(out@.to_multiset() =~= input@.to_multiset());
        input@.lemma_sort_by_ensures(leq);
        lemma_i64_leq_total();
        lemma_sorted_unique(out@, input@.sort_by(leq), leq);
        assert(out@ =~= input@.sort_by(leq));
    }
    out
}

/// Enumerates the threshold split candidates of one ordinal column over a
/// partition: one greater-or-equal test per quantile fraction.
pub fn get_quantile_expressions(
    tbl: &Table,
    ci: usize,
    rows: &Vec<usize>,
    percents: &Vec<u64>,
) -> (cs: Vec<SplitCandidate>)
    requires
        tbl.wf(),
        ci < tbl.columns@.len(),
        tbl.columns@[ci as int].spec_kind() == crate::sort_type::SortType::Ordinal,
        rows_valid(*tbl, rows@),
        rows@.len() <= MAX_ROWS,
        percents_wf(percents@),
    ensures
        cand_views(cs@) == column_candidates(*tbl, ci as int, rows@, percents@),
{
    let ghost col = tbl.columns@[ci as int];
    let vals = match &tbl.columns[ci].values {
        ColumnValues::Ordinal(v) => v,
        ColumnValues::Categorical(_) => {
            proof {
                assert(false);
            }
            return Vec::new();
        },
    };
    let n = rows.len();
    if n == 0 {
        proof {
            assert(cand_views(Seq::<SplitCandidate>::empty()) =~= Seq::<CandidateView>::empty());
        }
        return Vec::new();
    }
    let selected = collect_selected(vals, rows);
    let sorted = sort_ordinal(selected);
    let ghost sorted_view = sorted_values(vals@, rows@);
    let mut cs: Vec<SplitCandidate> = Vec::new();
    let mut j: usize = 0;
    while j < percents.len()
        invariant
            tbl.wf(),
            ci < tbl.columns@.len(),
            col == tbl.columns@[ci as int],
            col.values matches ColumnValues::Ordinal(vv) && vv == *vals,
            percents_wf(percents@),
            n == rows@.len(),
            0 < n,
            n <= MAX_ROWS,
            sorted@ == sorted_view,
            sorted@.len() == n,
            sorted_view == sorted_values(vals@, rows@),
            0 <= j <= percents@.len(),
            cs@.len() == j,
            forall|k: int|
                0 <= k < j ==> cand_views(cs@)[k] == (CandidateView {
                    feature: col.name@,
                    selector: SelectorView::Threshold(
                        sorted_values(vals@, rows@)[threshold_index(
                            rows@.len() as int,
                            percents@[k] as int,
                        )],
                    ),
                }),
        decreases percents@.len() - j,
    {
        let p = percents[j];
        proof {
            assert(percents@[j as int] <= 100);
            assert((n - 1) as u64 * p <= (MAX_ROWS - 1) as u64 * 100) by (nonlinear_arith)
                requires
                    0 < n <= MAX_ROWS,
                    p <= 100,
            ;
        }
        let idx64 = ((n - 1) as u64 * p) / 100;
        proof {
            assert((n - 1) * (p as int) / 100 <= n - 1) by (nonlinear_arith)
                requires
                    0 <= p <= 100,
                    1 <= n,
            ;
            assert((n - 1) * (p as int) / 100 >= 0) by (nonlinear_arith)
                requires
                    0 <= p,
                    1 <= n,
            ;
        }
        let idx = idx64 as usize;
        let name = tbl.columns[ci].name.clone();
        let ghost prev_cs = cs@;
        cs.push(SplitCandidate { feature: name, selector: Selector::Threshold(sorted[idx]) });
        proof {
            assert forall|k: int| 0 <= k < j + 1 implies cand_views(cs@)[k] == (CandidateView {
                feature: col.name@,
                selector: SelectorView::Threshold(
                    sorted_values(vals@, rows@)[threshold_index(
                        rows@.len() as int,
                        percents@[k] as int,
                    )],
                ),
            }) by {
                assert(cand_views(cs@)[k] == cs@[k]@);
                if k < j {
                    assert(cs@[k] == prev_cs[k]);
                    assert(cand_views(prev_cs)[k] == prev_cs[k]@);
                } else {
                    assert(cs@[k].selector@ == SelectorView::Threshold(
                        sorted@[threshold_index(n as int, p as int)],
                    ));
                }
            }
        }
        j = j + 1;
    }
    proof {
        assert(cand_views(cs@) =~= ord_candidates(col.name@, vals@, rows@, percents@));
    }
    cs
}

/// Enumerates every split candidate of one column of the table over a
/// partition, dispatching on the column's kind.
pub fn get_split_expressions(tbl: &Table, ci: usize, rows: &Vec<usize>, percents: &Vec<u64>) -> (cs:
    Vec<SplitCandidate>)
    requires
        tbl.wf(),
        ci < tbl.columns@.len(),
        rows_valid(*tbl, rows@),
        rows@.len() <= MAX_ROWS,
        percents_wf(percents@),
    ensures
        cand_views(cs@) == column_candidates(*tbl, ci as int, rows@, percents@),
{
    match &tbl.columns[ci].values {
        ColumnValues::Ordinal(_) => get_quantile_expressions(tbl, ci, rows, percents),
        ColumnValues::Categorical(_) => {
            let cs = get_equality_expression_categories(tbl, ci, rows);
            proof {
                assert(column_candidates(*tbl, ci as int, rows@, percents@) == column_candidates(
                    *tbl,
                    ci as int,
                    rows@,
                    Seq::<u64>::empty(),
                ));
            }
            cs
        },
    }
}

} // verus!
