use crate::candidates::{
    applicable, candidate_column_index, candidate_matches_row, matching_rows, partition_rows,
    row_matches, rows_valid, SplitCandidate,
};
use crate::error::TreeError;
use crate::gini_impurity::{
    all_candidates, best_candidate, get_best_column_to_split_on, lemma_all_candidates_applicable,
    lemma_best_upto_in_range,
};
use crate::settings::Settings;
use crate::splitting_columns::{default_percents, default_quantile_percents, percents_wf};
use crate::table::{Table, MAX_ROWS};
use vstd::prelude::*;

verus! {

/// Which side a freshly spawned child hangs on.
pub enum NodePosition {
    Left,
    Right,
}

/// One node of a binary classification tree.
///
/// A tree starts as a single unfitted root; `fit` grows it over a table,
/// after which every leaf carries the majority label of its partition and
/// every internal node carries the best split predicate of its partition.
/// A fitted tree routes rows to leaves with `predict`.
pub struct ClassificationTree {
    pub left_node: Option<Box<ClassificationTree>>,
    pub right_node: Option<Box<ClassificationTree>>,
    pub depth: u8,
    pub is_final: bool,
    pub split_candidate: Option<SplitCandidate>,
    pub label: Option<bool>,
    pub settings: Settings,
}

/// How many of the first `i` partition rows carry target label `label`.
pub open spec fn count_label_prefix(tbl: Table, rows: Seq<usize>, label: bool, i: int) -> nat
    decreases i,
{
    if i <= 0 {
        0
    } else {
        count_label_prefix(tbl, rows, label, i - 1) + if tbl.target@[rows[i - 1] as int] == label {
            1nat
        } else {
            0nat
        }
    }
}

/// How many partition rows carry target label `label`.
pub open spec fn count_label(tbl: Table, rows: Seq<usize>, label: bool) -> nat {
    count_label_prefix(tbl, rows, label, rows.len() as int)
}

/// The majority target label of a partition; a tie (or an empty
/// partition) yields `false`.
pub open spec fn majority_label(tbl: Table, rows: Seq<usize>) -> bool {
    count_label(tbl, rows, true) > count_label(tbl, rows, false)
}

/// Computes the majority target label of a partition.
pub fn get_most_common_label(tbl: &Table, rows: &Vec<usize>) -> (label: bool)
    requires
        rows_valid(*tbl, rows@),
    ensures
        label == majority_label(*tbl, rows@),
{
    let mut trues: usize = 0;
    let mut falses: usize = 0;
    let mut i: usize = 0;
    while i < rows.len()
        invariant
            rows_valid(*tbl, rows@),
            0 <= i <= rows@.len(),
            trues == count_label_prefix(*tbl, rows@, true, i as int),
            falses == count_label_prefix(*tbl, rows@, false, i as int),
            trues + falses == i,
        decreases rows@.len() - i,
    {
        if tbl.target[rows[i]] {
            trues = trues + 1;
        } else {
            falses = falses + 1;
        }
        i = i + 1;
    }
    trues > falses
}

/// The row indices `0, 1, ..., n - 1` of a whole table.
pub open spec fn all_rows(n: nat) -> Seq<usize> {
    Seq::new(n, |i: int| i as usize)
}

/// Collects the row indices of the whole table, in order.
pub fn all_row_indices(tbl: &Table) -> (rows: Vec<usize>)
    ensures
        rows@ == all_rows(tbl.spec_num_rows()),
        rows_valid(*tbl, rows@),
        rows@.len() == tbl.spec_num_rows(),
{
    let n = tbl.num_rows();
    let mut rows: Vec<usize> = Vec::new();
    let mut i: usize = 0;
    while i < n
        invariant
            0 <= i <= n,
            n == tbl.spec_num_rows(),
            rows@.len() == i,
            forall|k: int| 0 <= k < i ==> (#[trigger] rows@[k]) == k,
        decreases n - i,
    {
        rows.push(i);
        i = i + 1;
    }
    proof {
        assert(rows@ =~= all_rows(tbl.spec_num_rows()));
    }
    rows
}

/// What `fit` establishes, node by node.
///
/// A final node is a leaf labelled with the majority class of its
/// partition.  Any other node stores the globally best split candidate of
/// its partition and two children one level deeper, fitted over the rows
/// matching and not matching the predicate; a child is final exactly when
/// the depth bound is reached, its side is smaller than the minimum leaf
/// size, or its partition admits no further split.
pub open spec fn fitted_ok(
    node: ClassificationTree,
    tbl: Table,
    rows: Seq<usize>,
    percents: Seq<u64>,
) -> bool
    decreases node,
{
    if node.is_final {
        &&& node.label == Some(majority_label(tbl, rows))
        &&& node.left_node is None
        &&& node.right_node is None
        &&& node.split_candidate is None
    } else {
        &&& node.label is None
        &&& node.depth < node.settings.max_depth
        &&& node.split_candidate matches Some(sc) && best_candidate(tbl, rows, percents) == Some(
            sc@,
        ) && (node.left_node matches Some(l) && node.right_node matches Some(r) && {
            let left_rows = matching_rows(tbl, sc@, rows, true);
            let right_rows = matching_rows(tbl, sc@, rows, false);
            &&& l.depth == node.depth + 1
            &&& r.depth == node.depth + 1
            &&& l.settings == node.settings
            &&& r.settings == node.settings
            &&& l.is_final == (l.depth >= node.settings.max_depth || (left_rows.len() as u128)
                < node.settings.min_leave_size || best_candidate(tbl, left_rows, percents) is None)
            &&& r.is_final == (r.depth >= node.settings.max_depth || (right_rows.len() as u128)
                < node.settings.min_leave_size || best_candidate(tbl, right_rows, percents) is None)
            &&& fitted_ok(*l, tbl, left_rows, percents)
            &&& fitted_ok(*r, tbl, right_rows, percents)
        })
    }
}

/// Grows one node over its partition, depth first.
fn fit_node(
    tbl: &Table,
    rows: &Vec<usize>,
    depth: u8,
    forced_final: bool,
    settings: Settings,
    percents: &Vec<u64>,
) -> (node: ClassificationTree)
    requires
        tbl.wf(),
        rows_valid(*tbl, rows@),
        rows@.len() <= MAX_ROWS,
        percents_wf(percents@),
    ensures
        node.depth == depth,
        node.settings == settings,
        node.is_final == (forced_final || depth >= settings.max_depth || best_candidate(
            *tbl,
            rows@,
            percents@,
        ) is None),
        fitted_ok(node, *tbl, rows@, percents@),
    decreases settings.max_depth - depth,
{
    if forced_final || depth >= settings.get_max_depth() {
        let label = get_most_common_label(tbl, rows);
        return ClassificationTree {
            left_node: None,
            right_node: None,
            depth,
            is_final: true,
            split_candidate: None,
            label: Some(label),
            settings,
        };
    }
    match get_best_column_to_split_on(tbl, rows, percents) {
        None => {
            let label = get_most_common_label(tbl, rows);
            ClassificationTree {
                left_node: None,
                right_node: None,
                depth,
                is_final: true,
                split_candidate: None,
                label: Some(label),
                settings,
            }
        },
        Some(sr) => {
            let ci = match candidate_column_index(tbl, &sr.candidate) {
                Some(ci) => ci,
                None => {
                    proof {
                        assert(false);
                    }
                    0
                },
            };
            let (left_rows, right_rows) = partition_rows(tbl, ci, &sr.candidate, rows);
            let left_small = (left_rows.len() as u128) < settings.get_min_leave_size();
            let right_small = (right_rows.len() as u128) < settings.get_min_leave_size();
            let left = fit_node(tbl, &left_rows, depth + 1, left_small, settings, percents);
            let right = fit_node(tbl, &right_rows, depth + 1, right_small, settings, percents);
            ClassificationTree {
                left_node: Some(Box::new(left)),
                right_node: Some(Box::new(right)),
                depth,
                is_final: false,
                split_candidate: Some(sr.candidate),
                label: None,
                settings,
            }
        },
    }
}

/// A structurally complete fitted tree: every final node carries a label
/// and every other node carries a predicate and both children.
pub open spec fn tree_ready(node: ClassificationTree) -> bool
    decreases node,
{
    if node.is_final {
        node.label is Some
    } else {
        &&& node.split_candidate is Some
        &&& node.left_node matches Some(l) && tree_ready(*l)
        &&& node.right_node matches Some(r) && tree_ready(*r)
    }
}

/// Every predicate stored in the tree can be evaluated against `tbl`: the
/// named feature column exists with the kind the predicate tests.
pub open spec fn tree_compatible(node: ClassificationTree, tbl: Table) -> bool
    decreases node,
{
    if node.is_final {
        true
    } else {
        &&& node.split_candidate matches Some(sc) && applicable(tbl, sc@)
        &&& node.left_node matches Some(l) && tree_compatible(*l, tbl)
        &&& node.right_node matches Some(r) && tree_compatible(*r, tbl)
    }
}

/// The label a row of `tbl` is routed to: internal nodes send matching
/// rows left and the rest right; leaves stamp their label.
pub open spec fn route_label(node: ClassificationTree, tbl: Table, row: int) -> bool
    decreases node,
{
    if node.is_final {
        node.label->0
    } else {
        match (node.left_node, node.right_node, node.split_candidate) {
            (Some(l), Some(r), Some(sc)) => if row_matches(tbl, sc@, row) {
                route_label(*l, tbl, row)
            } else {
                route_label(*r, tbl, row)
            },
            _ => false,
        }
    }
}

impl ClassificationTree {
    /// A fresh, unfitted root with default settings.
    pub fn default() -> (t: Self)
        ensures
            t.left_node is None,
            t.right_node is None,
            t.split_candidate is None,
            t.label is None,
            t.depth == 0,
            t.is_final == false,
            t.settings == (Settings { max_depth: 4, min_leave_size: 32, max_cardinality: 6 }),
    {
        Self {
            left_node: None,
            right_node: None,
            split_candidate: None,
            depth: 0,
            is_final: false,
            settings: Settings::default(),
            label: None,
        }
    }

    /// Whether this tree has been fitted (or partially populated): a
    /// fitted root carries either a label or a split predicate.
    pub open spec fn spec_is_fitted(&self) -> bool {
        self.label is Some || self.split_candidate is Some
    }

    /// Whether this tree has been fitted.
    pub fn is_fitted(&self) -> (b: bool)
        ensures
            b == self.spec_is_fitted(),
    {
        self.label.is_some() || self.split_candidate.is_some()
    }

    /// Whether this node can take no further split: its depth bound is
    /// reached or it was marked final.
    pub fn is_final(&self) -> (b: bool)
        ensures
            b == (self.depth >= self.settings.max_depth || self.is_final),
    {
        self.depth >= self.settings.get_max_depth() || self.is_final
    }

    /// Hangs a fresh unfitted child one level deeper on the chosen side,
    /// marking it final when it sits at the depth bound.
    pub fn spawn_child(&mut self, node_position: NodePosition)
        requires
            old(self).depth <= old(self).settings.max_depth,
            old(self).depth < 255,
        ensures
            final(self).depth == old(self).depth,
            final(self).settings == old(self).settings,
            final(self).split_candidate == old(self).split_candidate,
            final(self).label == old(self).label,
            final(self).is_final == old(self).is_final,
            node_position matches NodePosition::Left ==> (final(self).left_node matches Some(c)
                && final(self).right_node == old(self).right_node && c.depth == old(self).depth + 1
                && c.settings == old(self).settings && c.is_final == (c.depth >= old(
                self,
            ).settings.max_depth) && c.label is None && c.split_candidate is None
                && c.left_node is None && c.right_node is None),
            node_position matches NodePosition::Right ==> (final(self).right_node matches Some(c)
                && final(self).left_node == old(self).left_node && c.depth == old(self).depth + 1
                && c.settings == old(self).settings && c.is_final == (c.depth >= old(
                self,
            ).settings.max_depth) && c.label is None && c.split_candidate is None
                && c.left_node is None && c.right_node is None),
    {
        let depth = self.depth + 1;
        let mut tree = ClassificationTree {
            left_node: None,
            right_node: None,
            split_candidate: None,
            depth,
            is_final: false,
            settings: self.settings,
            label: None,
        };
        tree.is_final = tree.depth >= tree.settings.get_max_depth();
        match node_position {
            NodePosition::Left => {
                self.left_node = Some(Box::new(tree));
            },
            NodePosition::Right => {
                self.right_node = Some(Box::new(tree));
            },
        }
    }

    /// Grows the tree over the table: the root's partition is every row,
    /// and the stored default quantile fractions drive the ordinal
    /// candidates.  Fitting an already-fitted tree is rejected; on
    /// success the whole structure satisfies [`fitted_ok`].
    pub fn fit(&mut self, tbl: &Table) -> (r: Result<(), TreeError>)
        requires
            tbl.wf(),
            tbl.spec_num_rows() > 0,
        ensures
            old(self).spec_is_fitted() ==> r == Err::<(), TreeError>(TreeError::AlreadyFitted)
                && *final(self) == *old(self),
            !old(self).spec_is_fitted() ==> (r matches Ok(_) && fitted_ok(
                *final(self),
                *tbl,
                all_rows(tbl.spec_num_rows()),
                default_percents(),
            ) && final(self).depth == old(self).depth && final(self).settings == old(
                self,
            ).settings && final(self).is_final == (old(self).is_final || old(self).depth >= old(
                self,
            ).settings.max_depth || best_candidate(
                *tbl,
                all_rows(tbl.spec_num_rows()),
                default_percents(),
            ) is None)),
    {
        if self.is_fitted() {
            return Err(TreeError::AlreadyFitted);
        }
        let rows = all_row_indices(tbl);
        let percents = default_quantile_percents();
        let fitted = fit_node(tbl, &rows, self.depth, self.is_final, self.settings, &percents);
        *self = fitted;
        Ok(())
    }

    /// Whether the tree is structurally ready to predict.
    pub fn is_ready(&self) -> (b: bool)
        ensures
            b == tree_ready(*self),
        decreases *self,
    {
        if self.is_final {
            self.label.is_some()
        } else {
            if self.split_candidate.is_none() {
                return false;
            }
            let l = match &self.left_node {
                Some(l) => l,
                None => {
                    return false;
                },
            };
            let r = match &self.right_node {
                Some(r) => r,
                None => {
                    return false;
                },
            };
            l.is_ready() && r.is_ready()
        }
    }

    /// Whether every predicate stored in the tree can be evaluated
    /// against the table.
    fn is_compatible(&self, tbl: &Table) -> (b: bool)
        requires
            tree_ready(*self),
        ensures
            b == tree_compatible(*self, *tbl),
        decreases *self,
    {
        if self.is_final {
            true
        } else {
            let sc = match &self.split_candidate {
                Some(sc) => sc,
                None => {
                    proof {
                        assert(false);
                    }
                    return false;
                },
            };
            if candidate_column_index(tbl, sc).is_none() {
                return false;
            }
            let l = match &self.left_node {
                Some(l) => l,
                None => {
                    proof {
                        assert(false);
                    }
                    return false;
                },
            };
            let r = match &self.right_node {
                Some(r) => r,
                None => {
                    proof {
                        assert(false);
                    }
                    return false;
                },
            };
            l.is_compatible(tbl) && r.is_compatible(tbl)
        }
    }

    /// Routes one row to its leaf and returns the leaf's label.
    fn route_one(&self, tbl: &Table, row: usize) -> (label: bool)
        requires
            tbl.wf(),
            tree_ready(*self),
            tree_compatible(*self, *tbl),
            row < tbl.spec_num_rows(),
        ensures
            label == route_label(*self, *tbl, row as int),
        decreases *self,
    {
        if self.is_final {
            match &self.label {
                Some(label) => *label,
                None => {
                    proof {
                        assert(false);
                    }
                    false
                },
            }
        } else {
            let sc = match &self.split_candidate {
                Some(sc) => sc,
                None => {
                    proof {
                        assert(false);
                    }
                    return false;
                },
            };
            let ci = match candidate_column_index(tbl, sc) {
                Some(ci) => ci,
                None => {
                    proof {
                        assert(false);
                    }
                    return false;
                },
            };
            let go_left = candidate_matches_row(tbl, ci, sc, row);
            if go_left {
                match &self.left_node {
                    Some(l) => l.route_one(tbl, row),
                    None => {
                        proof {
                            assert(false);
                        }
                        false
                    },
                }
            } else {
                match &self.right_node {
                    Some(r) => r.route_one(tbl, row),
                    None => {
                        proof {
                            assert(false);
                        }
                        false
                    },
                }
            }
        }
    }

    /// Labels every row of the table by routing it through the fitted
    /// predicates, returning exactly one label per input row, in input
    /// row order.  Predicting with an unfitted or structurally incomplete
    /// tree fails fast, as does a table lacking a fitted feature column.
    pub fn predict(&self, tbl: &Table) -> (r: Result<Vec<bool>, TreeError>)
        requires
            tbl.wf(),
        ensures
            !tree_ready(*self) ==> r == Err::<Vec<bool>, TreeError>(TreeError::NotFitted),
            tree_ready(*self) && !tree_compatible(*self, *tbl) ==> r == Err::<Vec<bool>, TreeError>(
                TreeError::MissingFeature,
            ),
            tree_ready(*self) && tree_compatible(*self, *tbl) ==> (r matches Ok(out)
                && out@.len() == tbl.spec_num_rows() && forall|i: int|
                0 <= i < tbl.spec_num_rows() ==> out@[i] == route_label(*self, *tbl, i)),
    {
        if !self.is_ready() {
            return Err(TreeError::NotFitted);
        }
        if !self.is_compatible(tbl) {
            return Err(TreeError::MissingFeature);
        }
        let n = tbl.num_rows();
        let mut out: Vec<bool> = Vec::new();
        let mut i: usize = 0;
        while i < n
            invariant
                tbl.wf(),
                tree_ready(*self),
                tree_compatible(*self, *tbl),
                n == tbl.spec_num_rows(),
                0 <= i <= n,
                out@.len() == i,
                forall|k: int| 0 <= k < i ==> out@[k] == route_label(*self, *tbl, k),
            decreases n - i,
        {
            let label = self.route_one(tbl, i);
            out.push(label);
            i = i + 1;
        }
        Ok(out)
    }
}

/// Routing is a function of the fitted tree and the table alone, so two
/// predictions over the same tree and table return identical labels.
pub proof fn lemma_predict_deterministic(
    node: ClassificationTree,
    tbl: Table,
    out1: Seq<bool>,
    out2: Seq<bool>,
)
    requires
        out1.len() == tbl.spec_num_rows(),
        out2.len() == tbl.spec_num_rows(),
        forall|i: int| 0 <= i < tbl.spec_num_rows() ==> out1[i] == route_label(node, tbl, i),
        forall|i: int| 0 <= i < tbl.spec_num_rows() ==> out2[i] == route_label(node, tbl, i),
    ensures
        out1 == out2,
{
    assert(out1 =~= out2);
}

/// A fitted tree is structurally complete and every predicate it stores
/// can be evaluated against the table it was fitted over: predicting on
/// the training table is owed success.
pub proof fn lemma_fitted_tree_predicts(
    node: ClassificationTree,
    tbl: Table,
    rows: Seq<usize>,
    percents: Seq<u64>,
)
    requires
        tbl.wf(),
        fitted_ok(node, tbl, rows, percents),
    ensures
        tree_ready(node),
        tree_compatible(node, tbl),
    decreases node,
{
    if !node.is_final {
        let sc = node.split_candidate->0;
        let cands = all_candidates(tbl, rows, percents);
        lemma_all_candidates_applicable(tbl, rows, percents, tbl.columns@.len() as int);
        lemma_best_upto_in_range(tbl, rows, cands, cands.len() as int);
        assert(applicable(tbl, sc@));
        let left_rows = matching_rows(tbl, sc@, rows, true);
        let right_rows = matching_rows(tbl, sc@, rows, false);
        match (node.left_node, node.right_node) {
            (Some(l), Some(r)) => {
                lemma_fitted_tree_predicts(*l, tbl, left_rows, percents);
                lemma_fitted_tree_predicts(*r, tbl, right_rows, percents);
            },
            _ => {},
        }
    }
}

/// Every node of the tree sits at depth at most `bound`.
pub open spec fn depths_bounded(node: ClassificationTree, bound: int) -> bool
    decreases node,
{
    &&& node.depth <= bound
    &&& (node.left_node matches Some(l) ==> depths_bounded(*l, bound))
    &&& (node.right_node matches Some(r) ==> depths_bounded(*r, bound))
}

/// Depth bound: no node of a fitted tree, leaves included, sits deeper
/// than the configured maximum depth.
pub proof fn lemma_fitted_depth_bound(
    node: ClassificationTree,
    tbl: Table,
    rows: Seq<usize>,
    percents: Seq<u64>,
)
    requires
        fitted_ok(node, tbl, rows, percents),
        node.depth <= node.settings.max_depth,
    ensures
        depths_bounded(node, node.settings.max_depth as int),
    decreases node,
{
    if !node.is_final {
        let sc = node.split_candidate->0;
        let left_rows = matching_rows(tbl, sc@, rows, true);
        let right_rows = matching_rows(tbl, sc@, rows, false);
        match (node.left_node, node.right_node) {
            (Some(l), Some(r)) => {
                lemma_fitted_depth_bound(*l, tbl, left_rows, percents);
                lemma_fitted_depth_bound(*r, tbl, right_rows, percents);
            },
            _ => {},
        }
    }
}

/// Every split of the tree respects the minimum leaf size: a child whose
/// side holds fewer rows than the minimum is a leaf, while its sibling
/// may still have been split.
pub open spec fn min_leaf_respected(
    node: ClassificationTree,
    tbl: Table,
    rows: Seq<usize>,
    percents: Seq<u64>,
) -> bool
    decreases node,
{
    if node.is_final {
        true
    } else {
        node.split_candidate matches Some(sc) && (node.left_node matches Some(l)
            && node.right_node matches Some(r) && {
            let left_rows = matching_rows(tbl, sc@, rows, true);
            let right_rows = matching_rows(tbl, sc@, rows, false);
            &&& (left_rows.len() as u128) < node.settings.min_leave_size ==> l.is_final
            &&& (right_rows.len() as u128) < node.settings.min_leave_size ==> r.is_final
            &&& min_leaf_respected(*l, tbl, left_rows, percents)
            &&& min_leaf_respected(*r, tbl, right_rows, percents)
        })
    }
}

/// Minimum-leaf bound: a fitted tree never splits a side that is smaller
/// than the configured minimum leaf size.
pub proof fn lemma_fitted_min_leaf(
    node: ClassificationTree,
    tbl: Table,
    rows: Seq<usize>,
    percents: Seq<u64>,
)
    requires
        fitted_ok(node, tbl, rows, percents),
    ensures
        min_leaf_respected(node, tbl, rows, percents),
    decreases node,
{
    if !node.is_final {
        let sc = node.split_candidate->0;
        let left_rows = matching_rows(tbl, sc@, rows, true);
        let right_rows = matching_rows(tbl, sc@, rows, false);
        match (node.left_node, node.right_node) {
            (Some(l), Some(r)) => {
                lemma_fitted_min_leaf(*l, tbl, left_rows, percents);
                lemma_fitted_min_leaf(*r, tbl, right_rows, percents);
            },
            _ => {},
        }
    }
}

/// A depth bound of zero collapses the fit to a single leaf carrying the
/// table's majority target label, whatever the table holds.
pub proof fn lemma_depth_zero_single_leaf(
    node: ClassificationTree,
    tbl: Table,
    rows: Seq<usize>,
    percents: Seq<u64>,
)
    requires
        fitted_ok(node, tbl, rows, percents),
        node.settings.max_depth == 0,
    ensures
        node.is_final,
        node.label == Some(majority_label(tbl, rows)),
        node.left_node is None,
        node.right_node is None,
{
}

} // verus!
