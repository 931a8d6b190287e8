use trees::{
    get_most_common_string_values_as_vector, get_string_type_columns, pre_process_dataframe,
    prune_single_string_column, Settings, Table,
};

fn strings(vals: &[&str]) -> Vec<String> {
    vals.iter().map(|s| s.to_string()).collect()
}

#[test]
fn test_most_common_values() {
    // Counts: a = 3, b = 2, c = 1.  Keeping at most two values that
    // occur at least twice selects a then b.
    let values = strings(&["a", "b", "a", "c", "b", "a"]);
    let keep = get_most_common_string_values_as_vector(&values, Settings::new(4, 2, 2));
    assert_eq!(keep, strings(&["a", "b"]));
}

#[test]
fn most_common_values_respect_cardinality_cap() {
    let values = strings(&["a", "a", "b", "b", "c", "c"]);
    let keep = get_most_common_string_values_as_vector(&values, Settings::new(4, 1, 2));
    assert_eq!(keep.len(), 2);
    // Equal counts: earlier first occurrence wins.
    assert_eq!(keep, strings(&["a", "b"]));
}

#[test]
fn most_common_values_empty_when_nothing_frequent() {
    let values = strings(&["a", "b", "c"]);
    let keep = get_most_common_string_values_as_vector(&values, Settings::new(4, 2, 6));
    assert!(keep.is_empty());
}

#[test]
fn test_prune_name_column() {
    let values = strings(&["male", "female", "male", "other"]);
    let keep = strings(&["male"]);
    let pruned = prune_single_string_column(&values, &keep);
    assert_eq!(
        pruned,
        strings(&["male", "FILLER_STRING", "male", "FILLER_STRING"])
    );
}

#[test]
fn test_get_string_type_columns() {
    let mut tbl = Table::new(vec![true, false]).unwrap();
    tbl.add_ordinal_column("age".to_string(), vec![1, 2]).unwrap();
    tbl.add_categorical_column("sex".to_string(), strings(&["m", "f"])).unwrap();
    tbl.add_categorical_column("port".to_string(), strings(&["x", "y"])).unwrap();
    let names = get_string_type_columns(&tbl);
    assert_eq!(names, strings(&["sex", "port"]));
}

#[test]
fn test_prune_dataframe() {
    let mut tbl = Table::new(vec![true, false, true, false]).unwrap();
    tbl.add_ordinal_column("age".to_string(), vec![1, 2, 3, 4]).unwrap();
    // "m" occurs three times and is kept; "f" becomes the sentinel.
    tbl.add_categorical_column("sex".to_string(), strings(&["m", "m", "m", "f"])).unwrap();
    // No value of "name" repeats, so the whole column is dropped.
    tbl.add_categorical_column("name".to_string(), strings(&["w", "x", "y", "z"])).unwrap();

    let out = pre_process_dataframe(tbl, Settings::new(4, 2, 6));
    assert_eq!(out.num_rows(), 4);
    assert_eq!(out.num_columns(), 2);
    assert_eq!(out.columns[0].name, "age");
    assert_eq!(out.columns[1].name, "sex");
    match &out.columns[1].values {
        trees::ColumnValues::Categorical(v) => {
            assert_eq!(*v, strings(&["m", "m", "m", "FILLER_STRING"]));
        },
        trees::ColumnValues::Ordinal(_) => panic!("sex column must stay categorical"),
    }
}

#[test]
fn prune_keeps_ordinal_columns_untouched() {
    let mut tbl = Table::new(vec![true, false]).unwrap();
    tbl.add_ordinal_column("age".to_string(), vec![7, 9]).unwrap();
    let out = pre_process_dataframe(tbl, Settings::new(4, 32, 6));
    assert_eq!(out.num_columns(), 1);
    match &out.columns[0].values {
        trees::ColumnValues::Ordinal(v) => assert_eq!(*v, vec![7, 9]),
        trees::ColumnValues::Categorical(_) => panic!("age column must stay ordinal"),
    }
}
