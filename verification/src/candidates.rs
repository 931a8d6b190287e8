use crate::sort_type::SortType;
use crate::table::{ColumnValues, Table};
use vstd::prelude::*;

verus! {

/// The concrete test of a split candidate: either a greater-or-equal
/// comparison against a threshold (ordinal columns) or an equality test
/// against one category (categorical columns).
#[derive(Clone, Debug, PartialEq, Eq)]
pub enum Selector {
    Threshold(i64),
    Category(String),
}

/// One admissible binary test over a single feature column.
///
/// A row matches the candidate when its value in the `feature` column is
/// at least the threshold (ordinal) or equal to the category
/// (categorical).
#[derive(Clone, Debug, PartialEq, Eq)]
pub struct SplitCandidate {
    pub feature: String,
    pub selector: Selector,
}

/// Mathematical image of a [`Selector`].
pub enum SelectorView {
    Threshold(i64),
    Category(Seq<char>),
}

/// Mathematical image of a [`SplitCandidate`].
pub struct CandidateView {
    pub feature: Seq<char>,
    pub selector: SelectorView,
}

impl View for Selector {
    type V = SelectorView;

    open spec fn view(&self) -> SelectorView {
        match self {
            Selector::Threshold(t) => SelectorView::Threshold(*t),
            Selector::Category(c) => SelectorView::Category(c@),
        }
    }
}

impl View for SplitCandidate {
    type V = CandidateView;

    open spec fn view(&self) -> CandidateView {
        CandidateView { feature: self.feature@, selector: self.selector@ }
    }
}

impl CandidateView {
    /// The column kind this candidate's test applies to.
    pub open spec fn kind(&self) -> SortType {
        match self.selector {
            SelectorView::Threshold(_) => SortType::Ordinal,
            SelectorView::Category(_) => SortType::Categorical,
        }
    }
}

impl SplitCandidate {
    /// The column kind this candidate's test applies to.
    pub fn kind(&self) -> (k: SortType)
        ensures
            k == self@.kind(),
    {
        match &self.selector {
            Selector::Threshold(_) => SortType::Ordinal,
            Selector::Category(_) => SortType::Categorical,
        }
    }
}

/// The views of a sequence of candidates.
pub open spec fn cand_views(s: Seq<SplitCandidate>) -> Seq<CandidateView> {
    s.map_values(|c: SplitCandidate| c@)
}

/// Every row index in `rows` addresses a row of `tbl`.
pub open spec fn rows_valid(tbl: Table, rows: Seq<usize>) -> bool {
    forall|i: int| 0 <= i < rows.len() ==> (#[trigger] rows[i]) < tbl.spec_num_rows()
}

/// Whether the candidate can be evaluated against `tbl`: its feature
/// column exists and has the kind that the selector tests.
pub open spec fn applicable(tbl: Table, cand: CandidateView) -> bool {
    let ci = tbl.spec_col_index(cand.feature);
    ci >= 0 && tbl.columns@[ci].spec_kind() == cand.kind()
}

/// Whether row `row` of `tbl` matches the candidate's test.
pub open spec fn row_matches(tbl: Table, cand: CandidateView, row: int) -> bool {
    let col = tbl.columns@[tbl.spec_col_index(cand.feature)];
    match col.values {
        ColumnValues::Ordinal(v) => match cand.selector {
            SelectorView::Threshold(t) => v@[row] >= t,
            SelectorView::Category(_) => false,
        },
        ColumnValues::Categorical(v) => match cand.selector {
            SelectorView::Category(c) => v@[row]@ == c,
            SelectorView::Threshold(_) => false,
        },
    }
}

/// Resolves the candidate's feature column in `tbl`, confirming its kind.
pub fn candidate_column_index(tbl: &Table, cand: &SplitCandidate) -> (r: Option<usize>)
    ensures
        r is Some <==> applicable(*tbl, cand@),
        r matches Some(ci) ==> ci == tbl.spec_col_index(cand@.feature),
{
    match tbl.find_column(&cand.feature) {
        None => None,
        Some(ci) => {
            let kind_matches = match (&tbl.columns[ci].values, &cand.selector) {
                (ColumnValues::Ordinal(_), Selector::Threshold(_)) => true,
                (ColumnValues::Categorical(_), Selector::Category(_)) => true,
                _ => false,
            };
            if kind_matches {
                Some(ci)
            } else {
                None
            }
        },
    }
}

/// Evaluates the candidate's test on one row.
pub fn candidate_matches_row(tbl: &Table, ci: usize, cand: &SplitCandidate, row: usize) -> (b:
    bool)
    requires
        tbl.wf(),
        applicable(*tbl, cand@),
        ci == tbl.spec_col_index(cand@.feature),
        row < tbl.spec_num_rows(),
    ensures
        b == row_matches(*tbl, cand@, row as int),
{
    proof {
        crate::table::lemma_col_index_bounds(tbl.columns@, cand@.feature, 0);
    }
    match (&tbl.columns[ci].values, &cand.selector) {
        (ColumnValues::Ordinal(v), Selector::Threshold(t)) => v[row] >= *t,
        (ColumnValues::Categorical(v), Selector::Category(c)) => v[row] == *c,
        _ => {
            proof {
                assert(false);
            }
            false
        },
    }
}

/// The subsequence of the first `i` entries of `rows` whose rows match
/// (`want == true`) or do not match (`want == false`) the candidate.
pub open spec fn matching_prefix(
    tbl: Table,
    cand: CandidateView,
    rows: Seq<usize>,
    want: bool,
    i: int,
) -> Seq<usize>
    decreases i,
{
    if i <= 0 {
        Seq::empty()
    } else {
        let prev = matching_prefix(tbl, cand, rows, want, i - 1);
        if row_matches(tbl, cand, rows[i - 1] as int) == want {
            prev.push(rows[i - 1])
        } else {
            prev
        }
    }
}

/// The subsequence of `rows` on the chosen side of the candidate's test,
/// in their original order.
pub open spec fn matching_rows(
    tbl: Table,
    cand: CandidateView,
    rows: Seq<usize>,
    want: bool,
) -> Seq<usize> {
    matching_prefix(tbl, cand, rows, want, rows.len() as int)
}

/// Splits a partition into the rows matching the candidate (left) and the
/// rows not matching it (right), keeping the original row order on both
/// sides.
pub fn partition_rows(tbl: &Table, ci: usize, cand: &SplitCandidate, rows: &Vec<usize>) -> (p: (
    Vec<usize>,
    Vec<usize>,
))
    requires
        tbl.wf(),
        applicable(*tbl, cand@),
        ci == tbl.spec_col_index(cand@.feature),
        rows_valid(*tbl, rows@),
    ensures
        p.0@ == matching_rows(*tbl, cand@, rows@, true),
        p.1@ == matching_rows(*tbl, cand@, rows@, false),
        p.0@.len() + p.1@.len() == rows@.len(),
        rows_valid(*tbl, p.0@),
        rows_valid(*tbl, p.1@),
{
    let mut left: Vec<usize> = Vec::new();
    let mut right: Vec<usize> = Vec::new();
    let mut i: usize = 0;
    while i < rows.len()
        invariant
            tbl.wf(),
            applicable(*tbl, cand@),
            ci == tbl.spec_col_index(cand@.feature),
            rows_valid(*tbl, rows@),
            0 <= i <= rows@.len(),
            left@ == matching_prefix(*tbl, cand@, rows@, true, i as int),
            right@ == matching_prefix(*tbl, cand@, rows@, false, i as int),
            left@.len() + right@.len() == i,
            rows_valid(*tbl, left@),
            rows_valid(*tbl, right@),
        decreases rows@.len() - i,
    {
        let row = rows[i];
        if candidate_matches_row(tbl, ci, cand, row) {
            left.push(row);
        } else {
            right.push(row);
        }
        i = i + 1;
    }
    (left, right)
}

/// How many of the first `i` entries of `rows` fall on side `side` of the
/// candidate's test (`true` = matching) and carry target label `label`.
pub open spec fn count_side_label_prefix(
    tbl: Table,
    cand: CandidateView,
    rows: Seq<usize>,
    side: bool,
    label: bool,
    i: int,
) -> nat
    decreases i,
{
    if i <= 0 {
        0
    } else {
        count_side_label_prefix(tbl, cand, rows, side, label, i - 1) + if row_matches(
            tbl,
            cand,
            rows[i - 1] as int,
        ) == side && tbl.target@[rows[i - 1] as int] == label {
            1nat
        } else {
            0nat
        }
    }
}

/// How many rows of the partition fall on side `side` of the candidate's
/// test and carry target label `label`.
///
/// Every side-by-class pair is defined, with value zero when no row shows
/// that combination: absent combinations count as zero rather than being
/// skipped, which the impurity computation depends on.
pub open spec fn count_side_label(
    tbl: Table,
    cand: CandidateView,
    rows: Seq<usize>,
    side: bool,
    label: bool,
) -> nat {
    count_side_label_prefix(tbl, cand, rows, side, label, rows.len() as int)
}

/// The four side-by-class counts partition the rows: they always sum to
/// the partition's row count.
pub proof fn lemma_counts_total(tbl: Table, cand: CandidateView, rows: Seq<usize>, i: int)
    requires
        0 <= i <= rows.len(),
    ensures
        count_side_label_prefix(tbl, cand, rows, true, true, i) + count_side_label_prefix(
            tbl,
            cand,
            rows,
            true,
            false,
            i,
        ) + count_side_label_prefix(tbl, cand, rows, false, true, i)
            + count_side_label_prefix(tbl, cand, rows, false, false, i) == i,
    decreases i,
{
    if i > 0 {
        lemma_counts_total(tbl, cand, rows, i - 1);
    }
}

/// The rows on one side of a split are exactly as many as the two
/// side-by-class counts of that side say.
pub proof fn lemma_matching_len(
    tbl: Table,
    cand: CandidateView,
    rows: Seq<usize>,
    want: bool,
    i: int,
)
    requires
        0 <= i <= rows.len(),
    ensures
        matching_prefix(tbl, cand, rows, want, i).len() == count_side_label_prefix(
            tbl,
            cand,
            rows,
            want,
            true,
            i,
        ) + count_side_label_prefix(tbl, cand, rows, want, false, i),
    decreases i,
{
    if i > 0 {
        lemma_matching_len(tbl, cand, rows, want, i - 1);
    }
}

/// Counts all four side-by-class combinations of a candidate over a
/// partition in one pass, materialising zero counts for combinations that
/// no row shows.
pub fn split_class_counts(tbl: &Table, ci: usize, cand: &SplitCandidate, rows: &Vec<usize>) -> (c:
    (usize, usize, usize, usize))
    requires
        tbl.wf(),
        applicable(*tbl, cand@),
        ci == tbl.spec_col_index(cand@.feature),
        rows_valid(*tbl, rows@),
    ensures
        c.0 == count_side_label(*tbl, cand@, rows@, true, true),
        c.1 == count_side_label(*tbl, cand@, rows@, true, false),
        c.2 == count_side_label(*tbl, cand@, rows@, false, true),
        c.3 == count_side_label(*tbl, cand@, rows@, false, false),
        c.0 + c.1 + c.2 + c.3 == rows@.len(),
{
    let mut lt: usize = 0;
    let mut lf: usize = 0;
    let mut rt: usize = 0;
    let mut rf: usize = 0;
    let mut i: usize = 0;
    proof {
        lemma_counts_total(*tbl, cand@, rows@, rows@.len() as int);
    }
    while i < rows.len()
        invariant
            tbl.wf(),
            applicable(*tbl, cand@),
            ci == tbl.spec_col_index(cand@.feature),
            rows_valid(*tbl, rows@),
            0 <= i <= rows@.len(),
            lt == count_side_label_prefix(*tbl, cand@, rows@, true, true, i as int),
            lf == count_side_label_prefix(*tbl, cand@, rows@, true, false, i as int),
            rt == count_side_label_prefix(*tbl, cand@, rows@, false, true, i as int),
            rf == count_side_label_prefix(*tbl, cand@, rows@, false, false, i as int),
            lt + lf + rt + rf == i,
        decreases rows@.len() - i,
    {
        let row = rows[i];
        let matches = candidate_matches_row(tbl, ci, cand, row);
        let label = tbl.target[row];
        if matches {
            if label {
                lt = lt + 1;
            } else {
                lf = lf + 1;
            }
        } else {
            if label {
                rt = rt + 1;
            } else {
                rf = rf + 1;
            }
        }
        i = i + 1;
    }
    (lt, lf, rt, rf)
}

} // verus!
