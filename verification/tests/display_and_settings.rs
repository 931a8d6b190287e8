use trees::{
    all_row_indices, get_most_common_label, BinaryTree, ClassificationTree, EmptyTree, Selector,
    Settings, SortType, SplitCandidate, Table, TestTree, TreeError,
};

#[test]
fn display_tree_test_create_a_test_tree() {
    let tree = EmptyTree::new("Hello".to_string());
    println!("{}", tree.display_string());
}

#[test]
fn testing_trees_test_create_a_test_tree() {
    let tree = TestTree::new("Hello".to_string());
    println!("{}", tree.display_string());
}

#[test]
fn test_tree_displays_its_string() {
    let tree = TestTree::new("Hello".to_string());
    assert_eq!(tree.display_string(), "Hello");
    assert!(tree.get_left().is_none());
    assert!(tree.get_right().is_none());
}

#[test]
fn empty_tree_displays_its_string() {
    let tree = EmptyTree::new("World".to_string());
    assert_eq!(tree.display_string(), "World");
    assert!(tree.get_left().is_none());
    assert!(tree.get_right().is_none());
}

#[test]
fn test_tree_children_are_reachable() {
    let mut tree = TestTree::new("Hello".to_string());
    tree.left_node = Some(Box::new(TestTree::new("World".to_string())));
    tree.right_node = Some(Box::new(TestTree::new("Goodbye".to_string())));
    assert_eq!(tree.get_left().unwrap().display_string(), "World");
    assert_eq!(tree.get_right().unwrap().display_string(), "Goodbye");
}

#[test]
fn classification_tree_display_leaf_and_split() {
    let mut tbl = Table::new(vec![true, true, false, false]).unwrap();
    tbl.add_categorical_column(
        "feature".to_string(),
        vec!["A".to_string(), "A".to_string(), "B".to_string(), "B".to_string()],
    )
    .unwrap();
    let mut tree = ClassificationTree::default();
    tree.settings = Settings::new(1, 0, 6);
    tree.fit(&tbl).unwrap();
    assert_eq!(tree.display(), "feature == A");
    assert_eq!(tree.left_node.as_ref().unwrap().display(), "true");
    assert_eq!(tree.right_node.as_ref().unwrap().display(), "false");
}

#[test]
fn classification_tree_display_threshold() {
    let mut tree = ClassificationTree::default();
    tree.split_candidate = Some(SplitCandidate {
        feature: "age".to_string(),
        selector: Selector::Threshold(-35),
    });
    assert_eq!(tree.display(), "age >= -35");
    let mut tree = ClassificationTree::default();
    tree.split_candidate = Some(SplitCandidate {
        feature: "age".to_string(),
        selector: Selector::Threshold(120),
    });
    assert_eq!(tree.display(), "age >= 120");
}

#[test]
fn unfitted_tree_displays_nothing() {
    let tree = ClassificationTree::default();
    assert_eq!(tree.display(), "");
}

#[test]
fn settings_defaults() {
    let s = Settings::default();
    assert_eq!(s.get_max_depth(), 4);
    assert_eq!(s.get_min_leave_size(), 32);
    assert_eq!(s.get_max_cardinality(), 6);
}

#[test]
fn settings_new_and_set_max_depth() {
    let mut s = Settings::new(2, 10, 3);
    assert_eq!(s.get_max_depth(), 2);
    assert_eq!(s.get_min_leave_size(), 10);
    assert_eq!(s.get_max_cardinality(), 3);
    s.set_max_depth(7);
    assert_eq!(s.get_max_depth(), 7);
}

#[test]
fn test_zero_depth_is_final() {
    let mut tree = ClassificationTree::default();
    tree.settings.set_max_depth(0);
    assert!(tree.is_final());
}

#[test]
fn test_one_depth_is_not_final() {
    let mut tree = ClassificationTree::default();
    tree.settings.set_max_depth(1);
    assert!(!tree.is_final());
}

#[test]
fn sort_type_round_trip() {
    assert_eq!(SortType::from_str("ordinal"), Ok(SortType::Ordinal));
    assert_eq!(SortType::from_str("categorical"), Ok(SortType::Categorical));
    assert_eq!(SortType::Ordinal.as_str(), "ordinal");
    assert_eq!(SortType::Categorical.as_str(), "categorical");
}

#[test]
fn sort_type_rejects_corrupt_descriptor() {
    assert_eq!(SortType::from_str("sideways"), Err(TreeError::CorruptSortType));
    assert_eq!(SortType::from_str(""), Err(TreeError::CorruptSortType));
}

#[test]
fn test_get_most_common_label_return_false() {
    let tbl = Table::new(vec![true, false, false]).unwrap();
    let rows = all_row_indices(&tbl);
    assert_eq!(get_most_common_label(&tbl, &rows), false);
}

#[test]
fn most_common_label_true_majority() {
    let tbl = Table::new(vec![true, true, false]).unwrap();
    let rows = all_row_indices(&tbl);
    assert_eq!(get_most_common_label(&tbl, &rows), true);
}

#[test]
fn table_rejects_mismatched_column_length() {
    let mut tbl = Table::new(vec![true, false]).unwrap();
    assert_eq!(
        tbl.add_ordinal_column("age".to_string(), vec![1, 2, 3]),
        Err(TreeError::MalformedTable)
    );
}

#[test]
fn table_rejects_duplicate_column_name() {
    let mut tbl = Table::new(vec![true, false]).unwrap();
    tbl.add_ordinal_column("age".to_string(), vec![1, 2]).unwrap();
    assert_eq!(
        tbl.add_categorical_column("age".to_string(), vec!["a".to_string(), "b".to_string()]),
        Err(TreeError::MalformedTable)
    );
}

#[test]
fn table_wf_check() {
    let mut tbl = Table::new(vec![true, false]).unwrap();
    tbl.add_ordinal_column("age".to_string(), vec![1, 2]).unwrap();
    assert!(tbl.check_wf());
}

#[test]
fn display_zero_threshold() {
    let mut tree = ClassificationTree::default();
    tree.split_candidate = Some(SplitCandidate {
        feature: "n".to_string(),
        selector: Selector::Threshold(0),
    });
    assert_eq!(tree.display(), "n >= 0");
}
