use trees::{ClassificationTree, NodePosition, Selector, Settings, Table, TreeError};

fn four_row_table() -> Table {
    let mut tbl = Table::new(vec![true, true, false, false]).unwrap();
    tbl.add_categorical_column(
        "feature".to_string(),
        vec!["A".to_string(), "A".to_string(), "B".to_string(), "B".to_string()],
    )
    .unwrap();
    tbl
}

#[test]
fn test_spawn_child_node() {
    let mut tree = ClassificationTree::default();
    assert_eq!(tree.depth, 0);
    assert!(tree.settings.get_max_depth() > 0);
    tree.spawn_child(NodePosition::Right);
    assert!(tree.right_node.is_some());
    assert_eq!(tree.right_node.unwrap().depth, 1);
}

#[test]
fn splitting_dataframes_test_spawn_child_node() {
    let mut tree = ClassificationTree::default();
    assert_eq!(tree.depth, 0);
    assert!(tree.settings.get_max_depth() > 0);
    tree.spawn_child(NodePosition::Left);
    assert!(tree.left_node.is_some());
    assert_eq!(tree.left_node.unwrap().depth, 1);
    assert!(tree.right_node.is_none());
}

#[test]
fn spawn_child_at_max_depth_is_final() {
    let mut tree = ClassificationTree::default();
    tree.settings = Settings::new(1, 0, 6);
    tree.spawn_child(NodePosition::Left);
    let child = tree.left_node.unwrap();
    assert_eq!(child.depth, 1);
    assert!(child.is_final);
}

#[test]
fn test_fit_four_rows_depth_one() {
    // Target [true, true, false, false] over one categorical feature
    // [A, A, B, B] with max_depth 1 and min_leaf_size 0: the tree splits
    // on feature == A, the left leaf is true and the right leaf false.
    let tbl = four_row_table();
    let mut tree = ClassificationTree::default();
    tree.settings = Settings::new(1, 0, 6);
    tree.fit(&tbl).unwrap();

    assert!(!tree.is_final);
    let candidate = tree.split_candidate.as_ref().unwrap();
    assert_eq!(candidate.feature, "feature");
    assert_eq!(candidate.selector, Selector::Category("A".to_string()));

    let left = tree.left_node.as_ref().unwrap();
    let right = tree.right_node.as_ref().unwrap();
    assert!(left.is_final);
    assert!(right.is_final);
    assert_eq!(left.label, Some(true));
    assert_eq!(right.label, Some(false));

    let labels = tree.predict(&tbl).unwrap();
    assert_eq!(labels, vec![true, true, false, false]);
}

#[test]
fn test_fit_tree_with_depth_0() {
    // max_depth 0 on a non-empty table: a single leaf labelled with the
    // majority target class.
    let tbl = four_row_table();
    let mut tree = ClassificationTree::default();
    tree.settings.set_max_depth(0);
    tree.fit(&tbl).unwrap();
    assert!(tree.is_final);
    assert!(tree.left_node.is_none());
    assert!(tree.right_node.is_none());
    // Two true and two false labels: the tie goes to false.
    assert_eq!(tree.label, Some(false));
}

#[test]
fn fit_depth_zero_majority_true() {
    let mut tbl = Table::new(vec![true, true, false]).unwrap();
    tbl.add_ordinal_column("x".to_string(), vec![1, 2, 3]).unwrap();
    let mut tree = ClassificationTree::default();
    tree.settings.set_max_depth(0);
    tree.fit(&tbl).unwrap();
    assert!(tree.is_final);
    assert_eq!(tree.label, Some(true));
}

#[test]
fn fit_twice_is_rejected() {
    let tbl = four_row_table();
    let mut tree = ClassificationTree::default();
    tree.fit(&tbl).unwrap();
    assert_eq!(tree.fit(&tbl), Err(TreeError::AlreadyFitted));
}

#[test]
fn predict_before_fit_fails_fast() {
    let tbl = four_row_table();
    let tree = ClassificationTree::default();
    assert_eq!(tree.predict(&tbl), Err(TreeError::NotFitted));
}

#[test]
fn predict_missing_feature_column() {
    let tbl = four_row_table();
    let mut tree = ClassificationTree::default();
    tree.settings = Settings::new(1, 0, 6);
    tree.fit(&tbl).unwrap();

    let mut other = Table::new(vec![false, false]).unwrap();
    other
        .add_categorical_column("something_else".to_string(), vec![
            "A".to_string(),
            "B".to_string(),
        ])
        .unwrap();
    assert_eq!(tree.predict(&other), Err(TreeError::MissingFeature));
}

#[test]
fn predict_wrong_column_kind() {
    let tbl = four_row_table();
    let mut tree = ClassificationTree::default();
    tree.settings = Settings::new(1, 0, 6);
    tree.fit(&tbl).unwrap();

    // Same column name, but ordinal instead of categorical.
    let mut other = Table::new(vec![false, false]).unwrap();
    other.add_ordinal_column("feature".to_string(), vec![1, 2]).unwrap();
    assert_eq!(tree.predict(&other), Err(TreeError::MissingFeature));
}

#[test]
fn predict_returns_one_label_per_row_in_order() {
    let tbl = four_row_table();
    let mut tree = ClassificationTree::default();
    tree.settings = Settings::new(1, 0, 6);
    tree.fit(&tbl).unwrap();

    // A fresh table with the same feature column, in a new row order.
    let mut probe = Table::new(vec![false, false, false, false, false]).unwrap();
    probe
        .add_categorical_column("feature".to_string(), vec![
            "B".to_string(),
            "A".to_string(),
            "B".to_string(),
            "A".to_string(),
            "C".to_string(),
        ])
        .unwrap();
    let labels = tree.predict(&probe).unwrap();
    assert_eq!(labels.len(), 5);
    assert_eq!(labels, vec![false, true, false, true, false]);
}

#[test]
fn predict_empty_table_returns_no_labels() {
    let tbl = four_row_table();
    let mut tree = ClassificationTree::default();
    tree.settings = Settings::new(1, 0, 6);
    tree.fit(&tbl).unwrap();

    let mut empty = Table::new(vec![]).unwrap();
    empty.add_categorical_column("feature".to_string(), vec![]).unwrap();
    let labels = tree.predict(&empty).unwrap();
    assert_eq!(labels.len(), 0);
}

#[test]
fn predict_twice_is_identical() {
    let tbl = four_row_table();
    let mut tree = ClassificationTree::default();
    tree.settings = Settings::new(1, 0, 6);
    tree.fit(&tbl).unwrap();
    let first = tree.predict(&tbl).unwrap();
    let second = tree.predict(&tbl).unwrap();
    assert_eq!(first, second);
}

#[test]
fn min_leaf_size_stops_splitting() {
    // With min_leaf_size larger than any side, the children of the root
    // split become leaves even though the depth bound is not reached.
    let tbl = four_row_table();
    let mut tree = ClassificationTree::default();
    tree.settings = Settings::new(4, 400, 6);
    tree.fit(&tbl).unwrap();
    if !tree.is_final {
        assert!(tree.left_node.as_ref().unwrap().is_final);
        assert!(tree.right_node.as_ref().unwrap().is_final);
    }
}

#[test]
fn search_exhaustion_becomes_a_leaf() {
    // Every categorical value is the pruning sentinel, so no candidate
    // exists; the fit must terminate gracefully in a single leaf.
    let mut tbl = Table::new(vec![true, false, false]).unwrap();
    tbl.add_categorical_column("c".to_string(), vec![
        "FILLER_STRING".to_string(),
        "FILLER_STRING".to_string(),
        "FILLER_STRING".to_string(),
    ])
    .unwrap();
    let mut tree = ClassificationTree::default();
    tree.settings = Settings::new(4, 0, 6);
    tree.fit(&tbl).unwrap();
    assert!(tree.is_final);
    assert_eq!(tree.label, Some(false));
}

#[test]
fn deeper_tree_separates_two_features() {
    // Two binary features whose conjunction determines the target: the
    // tree needs depth two to separate all four groups.
    let target = vec![true, true, false, false, false, false, true, true];
    let f1 = vec!["x", "x", "x", "x", "y", "y", "y", "y"];
    let f2 = vec!["p", "p", "q", "q", "p", "p", "q", "q"];
    let mut tbl = Table::new(target.clone()).unwrap();
    tbl.add_categorical_column("first".to_string(), f1.iter().map(|s| s.to_string()).collect())
        .unwrap();
    tbl.add_categorical_column("second".to_string(), f2.iter().map(|s| s.to_string()).collect())
        .unwrap();
    let mut tree = ClassificationTree::default();
    tree.settings = Settings::new(3, 0, 6);
    tree.fit(&tbl).unwrap();
    let labels = tree.predict(&tbl).unwrap();
    assert_eq!(labels, target);
}

#[test]
fn ordinal_threshold_split() {
    // An ordinal feature separating the classes at a threshold.
    let mut tbl = Table::new(vec![false, false, false, true, true, true]).unwrap();
    tbl.add_ordinal_column("age".to_string(), vec![1, 2, 3, 10, 11, 12]).unwrap();
    let mut tree = ClassificationTree::default();
    tree.settings = Settings::new(2, 0, 6);
    tree.fit(&tbl).unwrap();
    let labels = tree.predict(&tbl).unwrap();
    assert_eq!(labels, vec![false, false, false, true, true, true]);
}
