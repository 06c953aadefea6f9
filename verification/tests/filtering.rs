use pickline::options::{Options, PageSizeOption};
use pickline::picker::Picker;

fn plain_opts() -> Options {
    Options {
        page_size: PageSizeOption::Value(4),
        hint_alphabet: "ab".to_string(),
        delimiter: None,
        display_columns: None,
        output_columns: None,
        selection_column: None,
        selection_regex: None,
    }
}

fn store(records: &[&str]) -> Picker {
    let lines: Vec<String> = records.iter().map(|r| r.to_string()).collect();
    Picker::new(&lines, plain_opts())
}

#[test]
fn filter_x_keeps_matching_records_in_order() {
    let picker = store(&["axb", "yyy", "xzz"]);
    let visible = picker.apply_filter(&"x".to_string());
    assert_eq!(visible, vec![0, 2]);
}

#[test]
fn filter_is_case_sensitive() {
    let picker = store(&["axb", "yyy", "xzz"]);
    let visible = picker.apply_filter(&"X".to_string());
    assert!(visible.is_empty());
}

#[test]
fn empty_filter_after_nonempty_restores_all_indices() {
    let picker = store(&["axb", "yyy", "xzz"]);
    let narrowed = picker.apply_filter(&"x".to_string());
    assert_eq!(narrowed, vec![0, 2]);
    let restored = picker.apply_filter(&"".to_string());
    assert_eq!(restored, vec![0, 1, 2]);
}

#[test]
fn toggle_twice_restores_membership() {
    let mut picker = store(&["a", "b", "c"]);
    assert!(!picker.is_selected(1));
    picker.toggle_selection(1);
    assert!(picker.is_selected(1));
    picker.toggle_selection(1);
    assert!(!picker.is_selected(1));
}

#[test]
fn selection_survives_filtering_out() {
    let mut picker = store(&["axb", "yyy", "xzz"]);
    picker.toggle_selection(1);
    let visible = picker.apply_filter(&"x".to_string());
    assert_eq!(visible, vec![0, 2]);
    assert!(picker.is_selected(1));
}

#[test]
fn result_is_none_without_selection() {
    let picker = store(&["a", "b"]);
    assert!(picker.result().is_none());
}

#[test]
fn result_lists_selected_outputs_in_ground_order() {
    let mut picker = store(&["a", "b", "c"]);
    picker.toggle_selection(2);
    picker.toggle_selection(0);
    let out = picker.result().unwrap();
    assert_eq!(out, vec!["a".to_string(), "c".to_string()]);
}

#[test]
fn selected_returns_selected_records() {
    let mut picker = store(&["a", "b", "c"]);
    picker.toggle_selection(1);
    let sel = picker.selected();
    assert_eq!(sel.len(), 1);
    assert_eq!(sel[0].display(&None), vec!["b".to_string()]);
}

#[test]
fn persist_filter_sets_filter_text() {
    let mut picker = store(&["a"]);
    assert_eq!(picker.filter_text(), "".to_string());
    picker.persist_filter("abc".to_string());
    assert_eq!(picker.filter_text(), "abc".to_string());
}

#[test]
fn filter_matches_display_projected_fields_only() {
    let mut opts = plain_opts();
    opts.delimiter = Some(",".to_string());
    opts.display_columns = Some(pickline::options::ColumnRange::Closed(vec![0]));
    let lines: Vec<String> = vec!["aa,zz".to_string(), "bb,aa".to_string()];
    let picker = Picker::new(&lines, opts);
    // "aa" appears in the displayed column only for record 0
    let visible = picker.apply_filter(&"aa".to_string());
    assert_eq!(visible, vec![0]);
}
