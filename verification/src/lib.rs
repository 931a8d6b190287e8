//! A verified binary decision-tree learner for tabular data.
//!
//! The library grows a classification tree over a columnar table whose
//! feature columns are either categorical (string valued, split by equality
//! against one category) or ordinal (integer valued, split by a
//! greater-or-equal threshold), with a single boolean target column.
//! Candidate splits are ranked by exact weighted Gini impurity, computed in
//! integer arithmetic so that every score is an exact rational number.

mod candidates;
mod classification_tree;
mod display_tree;
mod empty_tree;
mod error;
mod gini;
mod gini_impurity;
mod preprocessing;
mod settings;
mod sort_type;
mod splitting_columns;
mod table;
mod testing_trees;

pub use candidates::{Selector, SplitCandidate, SelectorView, CandidateView, cand_views, rows_valid, applicable, row_matches, matching_rows, count_side_label, candidate_column_index, candidate_matches_row, partition_rows, split_class_counts};
pub use classification_tree::{ClassificationTree, NodePosition, fitted_ok, tree_ready, tree_compatible, route_label, majority_label, count_label, all_rows, get_most_common_label, all_row_indices, depths_bounded, min_leaf_respected, lemma_predict_deterministic, lemma_fitted_tree_predicts, lemma_fitted_depth_bound, lemma_fitted_min_leaf, lemma_depth_zero_single_leaf};
pub use display_tree::{BinaryTree, candidate_description, node_description, digits_of, signed_digits_of};
pub use empty_tree::EmptyTree;
pub use error::TreeError;
pub use gini::{gini_impurity, weighted_gini, gini_num, gini_den, weighted_gini_num, weighted_gini_den, lemma_gini_impurity_bounds, lemma_gini_even_split, lemma_weighted_gini_bounds, Ratio, SCORE_BOUND};
pub use gini_impurity::{score_num, score_den, score_lt, all_candidates, best_candidate, best_upto, split_result_ok, lemma_score_bounds, lemma_best_upto_minimal, get_best_column_to_split_on, SplitResult};
pub use preprocessing::{col_view, cols_view, count_view, top_values, frequent_values, pruned_vals, pruned_cols, get_most_common_string_values_as_vector, get_string_type_columns, prune_single_string_column, pre_process_dataframe, ColumnView, ColumnValuesView};
pub use settings::Settings;
pub use sort_type::SortType;
pub use splitting_columns::{default_quantile_percents, default_percents, percents_wf, distinct_categories, cat_candidates, ord_candidates, column_candidates, sorted_values, threshold_index, get_equality_expression_categories, get_quantile_expressions, get_split_expressions, REDUNDANT_STRING_VALUE};
pub use table::{Column, ColumnValues, Table, MAX_ROWS};
pub use testing_trees::TestTree;
