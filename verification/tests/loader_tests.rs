use termray::loader::{map_as_vec_of_floors, separate_map};

#[test]
fn separate_map_splits_on_sep_lines() {
    let out = separate_map("XX\nX.\nsep\n.X\n");
    assert_eq!(out, vec!["XX\nX.\n".to_string(), ".X\n".to_string()]);
}

#[test]
fn separate_map_without_separator_is_one_segment() {
    let out = separate_map("ab\ncd");
    assert_eq!(out, vec!["ab\ncd\n".to_string()]);
}

#[test]
fn separate_map_trims_separator_lines() {
    let out = separate_map("aa\n  sep \t\nbb\n");
    assert_eq!(out, vec!["aa\n".to_string(), "bb\n".to_string()]);
}

#[test]
fn separate_map_strips_carriage_returns() {
    let out = separate_map("aa\r\nsep\r\nbb\r\n");
    assert_eq!(out, vec!["aa\n".to_string(), "bb\n".to_string()]);
}

#[test]
fn separate_map_trailing_separator_leaves_empty_segment() {
    let out = separate_map("aa\nsep\n");
    assert_eq!(out, vec!["aa\n".to_string(), "".to_string()]);
}

#[test]
fn separate_map_of_empty_text() {
    let out = separate_map("");
    assert_eq!(out, vec!["".to_string()]);
}

#[test]
fn floors_split_into_rows() {
    let out = map_as_vec_of_floors("ab\ncd\nsep\nef");
    assert_eq!(out, vec![vec!["ab", "cd", ""], vec!["ef"]]);
}

#[test]
fn floors_of_single_floor_map() {
    let out = map_as_vec_of_floors("XX\nX.");
    assert_eq!(out, vec![vec!["XX", "X."]]);
}

#[test]
fn floors_split_on_the_separator_substring() {
    // the split is textual: a `sep` plus newline splits even mid-row
    let out = map_as_vec_of_floors("absep\ncd");
    assert_eq!(out, vec![vec!["ab"], vec!["cd"]]);
}

#[test]
fn floors_separator_without_newline_is_row_text() {
    let out = map_as_vec_of_floors("ab\nsep");
    assert_eq!(out, vec![vec!["ab", "sep"]]);
}
