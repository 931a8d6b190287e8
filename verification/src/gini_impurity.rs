use crate::candidates::{
    applicable, cand_views, candidate_column_index, count_side_label, lemma_counts_total,
    lemma_matching_len, matching_rows, rows_valid, CandidateView, Selector, SplitCandidate,
    split_class_counts,
};
use crate::gini::{
    lemma_frac_lt_trans, lemma_weighted_gini_bounds, weighted_gini, weighted_gini_den,
    weighted_gini_num, Ratio, SCORE_BOUND,
};
use crate::splitting_columns::{
    column_candidates, get_split_expressions, percents_wf,
};
use crate::table::{lemma_col_index_of_own, ColumnValues, Table, MAX_ROWS};
use vstd::prelude::*;

verus! {

/// Numerator of the weighted Gini score that the candidate earns over the
/// partition: the weighted child impurity of the split it induces.
pub open spec fn score_num(tbl: Table, rows: Seq<usize>, cand: CandidateView) -> int {
    weighted_gini_num(
        count_side_label(tbl, cand, rows, true, true) as int,
        count_side_label(tbl, cand, rows, true, false) as int,
        count_side_label(tbl, cand, rows, false, true) as int,
        count_side_label(tbl, cand, rows, false, false) as int,
    )
}

/// Denominator of the candidate's weighted Gini score.
pub open spec fn score_den(tbl: Table, rows: Seq<usize>, cand: CandidateView) -> int {
    weighted_gini_den(
        count_side_label(tbl, cand, rows, true, true) as int,
        count_side_label(tbl, cand, rows, true, false) as int,
        count_side_label(tbl, cand, rows, false, true) as int,
        count_side_label(tbl, cand, rows, false, false) as int,
    )
}

/// Exact comparison of two candidates' scores over one partition: lower
/// weighted impurity is better.
pub open spec fn score_lt(tbl: Table, rows: Seq<usize>, c1: CandidateView, c2: CandidateView) -> bool {
    score_num(tbl, rows, c1) * score_den(tbl, rows, c2) < score_num(tbl, rows, c2) * score_den(
        tbl,
        rows,
        c1,
    )
}

/// A candidate's score is a well-formed fraction in `[0, 1]`.
pub proof fn lemma_score_bounds(tbl: Table, rows: Seq<usize>, cand: CandidateView)
    requires
        rows.len() <= MAX_ROWS,
    ensures
        0 < score_den(tbl, rows, cand) <= SCORE_BOUND,
        0 <= score_num(tbl, rows, cand) <= score_den(tbl, rows, cand),
{
    lemma_counts_total(tbl, cand, rows, rows.len() as int);
    lemma_weighted_gini_bounds(
        count_side_label(tbl, cand, rows, true, true) as int,
        count_side_label(tbl, cand, rows, true, false) as int,
        count_side_label(tbl, cand, rows, false, true) as int,
        count_side_label(tbl, cand, rows, false, false) as int,
    );
}

/// All split candidates of the first `i` columns, in column order.
pub open spec fn all_candidates_upto(
    tbl: Table,
    rows: Seq<usize>,
    percents: Seq<u64>,
    i: int,
) -> Seq<CandidateView>
    decreases i,
{
    if i <= 0 {
        Seq::empty()
    } else {
        all_candidates_upto(tbl, rows, percents, i - 1) + column_candidates(
            tbl,
            i - 1,
            rows,
            percents,
        )
    }
}

/// Every split candidate of the table over the partition, in
/// column-then-candidate order.
pub open spec fn all_candidates(tbl: Table, rows: Seq<usize>, percents: Seq<u64>) -> Seq<
    CandidateView,
> {
    all_candidates_upto(tbl, rows, percents, tbl.columns@.len() as int)
}

/// The index of the best candidate among the first `i`, ranking by exact
/// weighted Gini score with the earlier candidate winning ties.
pub open spec fn best_upto(tbl: Table, rows: Seq<usize>, cands: Seq<CandidateView>, i: int) -> int
    decreases i,
{
    if i <= 1 {
        0
    } else {
        let b = best_upto(tbl, rows, cands, i - 1);
        if score_lt(tbl, rows, cands[i - 1], cands[b]) {
            i - 1
        } else {
            b
        }
    }
}

/// The globally best split candidate of the table over the partition, or
/// `None` when no column yields any candidate.
pub open spec fn best_candidate(tbl: Table, rows: Seq<usize>, percents: Seq<u64>) -> Option<
    CandidateView,
> {
    let cands = all_candidates(tbl, rows, percents);
    if cands.len() == 0 {
        None
    } else {
        Some(cands[best_upto(tbl, rows, cands, cands.len() as int)])
    }
}

/// The best (column, predicate) pair over a partition together with its
/// exact score and the two side sizes of the split it induces.
#[derive(Clone, Debug)]
pub struct SplitResult {
    pub candidate: SplitCandidate,
    pub score: Ratio,
    pub left_count: usize,
    pub right_count: usize,
}

/// What the best-split search promises of its result: the candidate is
/// the globally best one, the score is its exact weighted Gini score, and
/// the two side sizes add up to the partition's row count exactly.
pub open spec fn split_result_ok(
    tbl: Table,
    rows: Seq<usize>,
    percents: Seq<u64>,
    sr: SplitResult,
) -> bool {
    &&& best_candidate(tbl, rows, percents) == Some(sr.candidate@)
    &&& sr.score.num == score_num(tbl, rows, sr.candidate@)
    &&& sr.score.den == score_den(tbl, rows, sr.candidate@)
    &&& sr.left_count == count_side_label(tbl, sr.candidate@, rows, true, true) + count_side_label(
        tbl,
        sr.candidate@,
        rows,
        true,
        false,
    )
    &&& sr.right_count == count_side_label(tbl, sr.candidate@, rows, false, true)
        + count_side_label(tbl, sr.candidate@, rows, false, false)
    &&& sr.left_count == matching_rows(tbl, sr.candidate@, rows, true).len()
    &&& sr.right_count == matching_rows(tbl, sr.candidate@, rows, false).len()
    &&& sr.left_count + sr.right_count == rows.len()
}

/// Every candidate generated from a column can be evaluated against the
/// generating table, and its feature name resolves back to that column.
proof fn lemma_column_candidates_applicable(
    tbl: Table,
    rows: Seq<usize>,
    percents: Seq<u64>,
    ci: int,
)
    requires
        tbl.wf(),
        0 <= ci < tbl.columns@.len(),
    ensures
        forall|k: int|
            0 <= k < column_candidates(tbl, ci, rows, percents).len() ==> applicable(
                tbl,
                #[trigger] column_candidates(tbl, ci, rows, percents)[k],
            ),
{
    let cs = column_candidates(tbl, ci, rows, percents);
    lemma_col_index_of_own(tbl.columns@, ci);
    assert forall|k: int| 0 <= k < cs.len() implies applicable(tbl, #[trigger] cs[k]) by {
        let col = tbl.columns@[ci];
        match col.values {
            ColumnValues::Ordinal(v) => {
                assert(cs[k].feature == col.name@);
                assert(cs[k].kind() == crate::sort_type::SortType::Ordinal);
            },
            ColumnValues::Categorical(v) => {
                assert(cs[k].feature == col.name@);
                assert(cs[k].kind() == crate::sort_type::SortType::Categorical);
            },
        }
    }
}

/// Every candidate in the global candidate list can be evaluated against
/// the table it was generated from.
pub proof fn lemma_all_candidates_applicable(tbl: Table, rows: Seq<usize>, percents: Seq<u64>, i: int)
    requires
        tbl.wf(),
        0 <= i <= tbl.columns@.len(),
    ensures
        forall|k: int|
            0 <= k < all_candidates_upto(tbl, rows, percents, i).len() ==> applicable(
                tbl,
                #[trigger] all_candidates_upto(tbl, rows, percents, i)[k],
            ),
    decreases i,
{
    if i > 0 {
        lemma_all_candidates_applicable(tbl, rows, percents, i - 1);
        lemma_column_candidates_applicable(tbl, rows, percents, i - 1);
        let prev = all_candidates_upto(tbl, rows, percents, i - 1);
        let cur = column_candidates(tbl, i - 1, rows, percents);
        assert forall|k: int|
            0 <= k < all_candidates_upto(tbl, rows, percents, i).len() implies applicable(
            tbl,
            #[trigger] all_candidates_upto(tbl, rows, percents, i)[k],
        ) by {
            if k < prev.len() {
                assert(all_candidates_upto(tbl, rows, percents, i)[k] == prev[k]);
            } else {
                assert(all_candidates_upto(tbl, rows, percents, i)[k] == cur[k - prev.len()]);
            }
        }
    }
}

/// The selected candidate's index lies among the candidates considered.
pub proof fn lemma_best_upto_in_range(tbl: Table, rows: Seq<usize>, cands: Seq<CandidateView>, i: int)
    requires
        1 <= i,
    ensures
        0 <= best_upto(tbl, rows, cands, i) < i,
    decreases i,
{
    if i > 1 {
        lemma_best_upto_in_range(tbl, rows, cands, i - 1);
    }
}

/// The selected candidate scores no worse than any candidate, and
/// strictly better than every candidate before it: the search returns the
/// first candidate attaining the minimal weighted Gini score.
pub proof fn lemma_best_upto_minimal(tbl: Table, rows: Seq<usize>, cands: Seq<CandidateView>, i: int)
    requires
        rows.len() <= MAX_ROWS,
        1 <= i <= cands.len(),
    ensures
        0 <= best_upto(tbl, rows, cands, i) < i,
        forall|j: int|
            0 <= j < i ==> !score_lt(
                tbl,
                rows,
                #[trigger] cands[j],
                cands[best_upto(tbl, rows, cands, i)],
            ),
        forall|j: int|
            0 <= j < best_upto(tbl, rows, cands, i) ==> score_lt(
                tbl,
                rows,
                cands[best_upto(tbl, rows, cands, i)],
                #[trigger] cands[j],
            ),
    decreases i,
{
    if i > 1 {
        lemma_best_upto_minimal(tbl, rows, cands, i - 1);
        let b = best_upto(tbl, rows, cands, i - 1);
        let bi = best_upto(tbl, rows, cands, i);
        if score_lt(tbl, rows, cands[i - 1], cands[b]) {
            assert forall|j: int| 0 <= j < i implies !score_lt(
                tbl,
                rows,
                #[trigger] cands[j],
                cands[bi],
            ) by {
                if j < i - 1 {
                    lemma_score_lt_step(tbl, rows, cands[i - 1], cands[b], cands[j]);
                }
            }
            assert forall|j: int| 0 <= j < bi implies score_lt(
                tbl,
                rows,
                cands[bi],
                #[trigger] cands[j],
            ) by {
                lemma_score_lt_step(tbl, rows, cands[i - 1], cands[b], cands[j]);
            }
        }
    }
}

/// From `c1` scoring strictly below `c2` and `c2` scoring no worse than
/// `c3`, `c1` scores strictly below `c3`.
proof fn lemma_score_lt_step(
    tbl: Table,
    rows: Seq<usize>,
    c1: CandidateView,
    c2: CandidateView,
    c3: CandidateView,
)
    requires
        rows.len() <= MAX_ROWS,
        score_lt(tbl, rows, c1, c2),
        !score_lt(tbl, rows, c3, c2),
    ensures
        score_lt(tbl, rows, c1, c3),
{
    lemma_score_bounds(tbl, rows, c1);
    lemma_score_bounds(tbl, rows, c2);
    lemma_score_bounds(tbl, rows, c3);
    lemma_frac_lt_trans(
        score_num(tbl, rows, c1),
        score_den(tbl, rows, c1),
        score_num(tbl, rows, c2),
        score_den(tbl, rows, c2),
        score_num(tbl, rows, c3),
        score_den(tbl, rows, c3),
    );
}

impl SplitCandidate {
    /// An owned copy of the candidate with the same mathematical value.
    pub fn duplicate(&self) -> (c: SplitCandidate)
        ensures
            c@ == self@,
    {
        let selector = match &self.selector {
            Selector::Threshold(t) => Selector::Threshold(*t),
            Selector::Category(c) => Selector::Category(c.clone()),
        };
        SplitCandidate { feature: self.feature.clone(), selector }
    }
}

/// Searches every column and every candidate for the single best split of
/// the partition, ranking candidates by exact weighted Gini score (lower
/// is better, the first candidate in column-then-candidate order wins
/// ties).  Returns `None` exactly when no column yields a candidate.
pub fn get_best_column_to_split_on(tbl: &Table, rows: &Vec<usize>, percents: &Vec<u64>) -> (r:
    Option<SplitResult>)
    requires
        tbl.wf(),
        rows_valid(*tbl, rows@),
        rows@.len() <= MAX_ROWS,
        percents_wf(percents@),
    ensures
        r is Some <==> all_candidates(*tbl, rows@, percents@).len() > 0,
        r matches Some(sr) ==> split_result_ok(*tbl, rows@, percents@, sr) && applicable(
            *tbl,
            sr.candidate@,
        ),
{
    let mut cands: Vec<SplitCandidate> = Vec::new();
    let mut ci: usize = 0;
    proof {
        assert(cand_views(cands@) =~= all_candidates_upto(*tbl, rows@, percents@, 0));
    }
    while ci < tbl.num_columns()
        invariant
            tbl.wf(),
            rows_valid(*tbl, rows@),
            rows@.len() <= MAX_ROWS,
            percents_wf(percents@),
            0 <= ci <= tbl.columns@.len(),
            cand_views(cands@) == all_candidates_upto(*tbl, rows@, percents@, ci as int),
        decreases tbl.columns@.len() - ci,
    {
        let ghost prev = cands@;
        let mut cs = get_split_expressions(tbl, ci, rows, percents);
        let ghost csv = cs@;
        cands.append(&mut cs);
        proof {
            assert forall|k: int| 0 <= k < cands@.len() implies #[trigger] cand_views(cands@)[k]
                == all_candidates_upto(*tbl, rows@, percents@, ci + 1)[k] by {
                assert(cand_views(cands@)[k] == cands@[k]@);
                if k < prev.len() {
                    assert(cands@[k] == prev[k]);
                    assert(cand_views(prev)[k] == prev[k]@);
                } else {
                    assert(cands@[k] == csv[k - prev.len()]);
                    assert(cand_views(csv)[k - prev.len()] == csv[k - prev.len()]@);
                }
            }
            assert(cand_views(cands@) =~= all_candidates_upto(*tbl, rows@, percents@, ci + 1));
        }
        ci = ci + 1;
    }
    let ghost gcands = cand_views(cands@);
    proof {
        lemma_all_candidates_applicable(*tbl, rows@, percents@, tbl.columns@.len() as int);
    }
    if cands.len() == 0 {
        return None;
    }
    let mut best_idx: usize = 0;
    proof {
        assert(gcands[0] == cands@[0]@);
    }
    let (mut b_lt, mut b_lf, mut b_rt, mut b_rf) = score_candidate(tbl, &cands, 0, rows);
    let mut best_score = weighted_gini(b_lt, b_lf, b_rt, b_rf);
    let mut k: usize = 1;
    while k < cands.len()
        invariant
            tbl.wf(),
            rows_valid(*tbl, rows@),
            rows@.len() <= MAX_ROWS,
            gcands == cand_views(cands@),
            gcands == all_candidates(*tbl, rows@, percents@),
            gcands.len() == cands@.len(),
            forall|j: int| 0 <= j < gcands.len() ==> applicable(*tbl, #[trigger] gcands[j]),
            1 <= k <= cands@.len(),
            0 <= best_idx < k,
            best_idx == best_upto(*tbl, rows@, gcands, k as int),
            b_lt == count_side_label(*tbl, gcands[best_idx as int], rows@, true, true),
            b_lf == count_side_label(*tbl, gcands[best_idx as int], rows@, true, false),
            b_rt == count_side_label(*tbl, gcands[best_idx as int], rows@, false, true),
            b_rf == count_side_label(*tbl, gcands[best_idx as int], rows@, false, false),
            b_lt + b_lf + b_rt + b_rf == rows@.len(),
            best_score.num == score_num(*tbl, rows@, gcands[best_idx as int]),
            best_score.den == score_den(*tbl, rows@, gcands[best_idx as int]),
            best_score.wf(),
        decreases cands@.len() - k,
    {
        proof {
            assert(gcands[k as int] == cands@[k as int]@);
        }
        let (lt, lf, rt, rf) = score_candidate(tbl, &cands, k, rows);
        let score = weighted_gini(lt, lf, rt, rf);
        if score.lt(&best_score) {
            best_idx = k;
            b_lt = lt;
            b_lf = lf;
            b_rt = rt;
            b_rf = rf;
            best_score = score;
        }
        k = k + 1;
    }
    let left_count = b_lt + b_lf;
    let right_count = b_rt + b_rf;
    proof {
        lemma_matching_len(*tbl, gcands[best_idx as int], rows@, true, rows@.len() as int);
        lemma_matching_len(*tbl, gcands[best_idx as int], rows@, false, rows@.len() as int);
    }
    Some(
        SplitResult {
            candidate: cands[best_idx].duplicate(),
            score: best_score,
            left_count,
            right_count,
        },
    )
}

/// Counts the four side-by-class combinations of one gathered candidate.
fn score_candidate(tbl: &Table, cands: &Vec<SplitCandidate>, k: usize, rows: &Vec<usize>) -> (c: (
    usize,
    usize,
    usize,
    usize,
))
    requires
        tbl.wf(),
        rows_valid(*tbl, rows@),
        k < cands@.len(),
        applicable(*tbl, cands@[k as int]@),
    ensures
        c.0 == count_side_label(*tbl, cands@[k as int]@, rows@, true, true),
        c.1 == count_side_label(*tbl, cands@[k as int]@, rows@, true, false),
        c.2 == count_side_label(*tbl, cands@[k as int]@, rows@, false, true),
        c.3 == count_side_label(*tbl, cands@[k as int]@, rows@, false, false),
        c.0 + c.1 + c.2 + c.3 == rows@.len(),
{
    let cand = &cands[k];
    let ci = match candidate_column_index(tbl, cand) {
        Some(ci) => ci,
        None => {
            proof {
                assert(false);
            }
            0
        },
    };
    split_class_counts(tbl, ci, cand, rows)
}

} // verus!
