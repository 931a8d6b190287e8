use trees::{
    get_best_column_to_split_on, get_split_expressions, gini_impurity, weighted_gini,
    default_quantile_percents, all_row_indices, Selector, Settings, Table,
};

fn p_table(target: Vec<bool>, cats: Vec<&str>) -> Table {
    let mut tbl = Table::new(target).unwrap();
    tbl.add_categorical_column(
        "feature".to_string(),
        cats.iter().map(|s| s.to_string()).collect(),
    )
    .unwrap();
    tbl
}

#[test]
fn gini_impurity_pure_partition_is_zero() {
    let r = gini_impurity(5, 0);
    assert_eq!(r.num, 0);
    let r = gini_impurity(0, 7);
    assert_eq!(r.num, 0);
}

#[test]
fn gini_impurity_even_split_is_exactly_half() {
    // 50/50 partitions of several sizes: impurity is exactly 1/2.
    for t in [1usize, 2, 3, 10, 1000] {
        let r = gini_impurity(t, t);
        assert_eq!(2 * r.num, r.den);
    }
}

#[test]
fn gini_impurity_stays_within_unit_interval() {
    for t in 0usize..6 {
        for f in 0usize..6 {
            let r = gini_impurity(t, f);
            assert!(r.den > 0);
            assert!(r.num <= r.den);
        }
    }
}

#[test]
fn gini_impurity_exact_value() {
    // One true and three false rows: 1 - (1/4)^2 - (3/4)^2 = 6/16.
    let r = gini_impurity(1, 3);
    assert_eq!(r.num, 6);
    assert_eq!(r.den, 16);
}

#[test]
fn gini_impurity_empty_partition_is_zero() {
    let r = gini_impurity(0, 0);
    assert_eq!(r.num, 0);
    assert_eq!(r.den, 1);
}

#[test]
fn weighted_gini_perfect_split_is_zero() {
    // Both sides pure: the weighted child impurity is exactly zero.
    let r = weighted_gini(2, 0, 0, 2);
    assert_eq!(r.num, 0);
}

#[test]
fn weighted_gini_empty_side_is_other_side_impurity() {
    // An empty left side contributes no disorder: the score equals the
    // right side's own impurity.
    let r = weighted_gini(0, 0, 1, 1);
    assert_eq!(2 * r.num, r.den);
}

#[test]
fn weighted_gini_exact_value() {
    // Left side (1 true, 1 false), right side (2 true, 0 false):
    // (2/4) * 1/2 + (2/4) * 0 = 1/4.
    let r = weighted_gini(1, 1, 2, 0);
    assert_eq!(4 * r.num, r.den);
}

#[test]
fn best_split_counts_add_up_to_row_count() {
    let tbl = p_table(
        vec![true, true, false, false, true],
        vec!["A", "A", "B", "B", "C"],
    );
    let rows = all_row_indices(&tbl);
    let percents = default_quantile_percents();
    let sr = get_best_column_to_split_on(&tbl, &rows, &percents).unwrap();
    assert_eq!(sr.left_count + sr.right_count, 5);
}

#[test]
fn best_split_on_separating_category() {
    let tbl = p_table(vec![true, true, false, false], vec!["A", "A", "B", "B"]);
    let rows = all_row_indices(&tbl);
    let percents = default_quantile_percents();
    let sr = get_best_column_to_split_on(&tbl, &rows, &percents).unwrap();
    assert_eq!(sr.candidate.feature, "feature");
    assert_eq!(sr.candidate.selector, Selector::Category("A".to_string()));
    assert_eq!(sr.left_count, 2);
    assert_eq!(sr.right_count, 2);
    // A perfect separation scores exactly zero.
    assert_eq!(sr.score.num, 0);
}

#[test]
fn best_split_none_without_candidates() {
    // A table with no feature columns yields no split.
    let tbl = Table::new(vec![true, false]).unwrap();
    let rows = all_row_indices(&tbl);
    let percents = default_quantile_percents();
    assert!(get_best_column_to_split_on(&tbl, &rows, &percents).is_none());
}

#[test]
fn candidates_for_categorical_column_skip_sentinel() {
    let tbl = p_table(
        vec![true, false, true, false],
        vec!["A", "FILLER_STRING", "B", "A"],
    );
    let rows = all_row_indices(&tbl);
    let percents = default_quantile_percents();
    let cs = get_split_expressions(&tbl, 0, &rows, &percents);
    let cats: Vec<String> = cs
        .iter()
        .map(|c| match &c.selector {
            Selector::Category(v) => v.clone(),
            Selector::Threshold(_) => panic!("unexpected threshold candidate"),
        })
        .collect();
    assert_eq!(cats, vec!["A".to_string(), "B".to_string()]);
}

#[test]
fn candidates_for_ordinal_column_use_quantiles() {
    let mut tbl = Table::new(vec![true, false, true, false, true]).unwrap();
    // Values deliberately out of order: thresholds come from the sorted
    // column at the default percent indices.
    tbl.add_ordinal_column("age".to_string(), vec![50, 10, 40, 20, 30]).unwrap();
    let rows = all_row_indices(&tbl);
    let percents = default_quantile_percents();
    let cs = get_split_expressions(&tbl, 0, &rows, &percents);
    let thresholds: Vec<i64> = cs
        .iter()
        .map(|c| match &c.selector {
            Selector::Threshold(t) => *t,
            Selector::Category(_) => panic!("unexpected category candidate"),
        })
        .collect();
    // n = 5: index of percent p is (4 * p) / 100.
    assert_eq!(thresholds, vec![10, 10, 20, 20, 30, 30, 30, 40]);
}

#[test]
fn candidates_of_empty_partition_are_empty() {
    let mut tbl = Table::new(vec![]).unwrap();
    tbl.add_ordinal_column("age".to_string(), vec![]).unwrap();
    let rows: Vec<usize> = vec![];
    let percents = default_quantile_percents();
    let cs = get_split_expressions(&tbl, 0, &rows, &percents);
    assert!(cs.is_empty());
}

#[test]
fn first_candidate_wins_ties() {
    // Both categories split the table equally well; the earlier one (the
    // first seen in the column) is chosen.
    let tbl = p_table(vec![true, false], vec!["A", "B"]);
    let rows = all_row_indices(&tbl);
    let percents = default_quantile_percents();
    let sr = get_best_column_to_split_on(&tbl, &rows, &percents).unwrap();
    assert_eq!(sr.candidate.selector, Selector::Category("A".to_string()));
}

#[test]
fn ratio_comparison_is_exact() {
    let third = trees::Ratio { num: 1, den: 3 };
    let half = trees::Ratio { num: 1, den: 2 };
    assert!(third.lt(&half));
    assert!(!half.lt(&third));
    let same = trees::Ratio { num: 2, den: 6 };
    assert!(!third.lt(&same));
    assert!(!same.lt(&third));
}
