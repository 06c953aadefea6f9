use pickline::options::ColumnRange;
use pickline::picker::Line;

fn record(text: &str, delim: Option<&str>) -> Line {
    Line::new(&text.to_string(), &delim.map(|d| d.to_string()))
}

#[test]
fn open_range_takes_tail_from_largest_listed() {
    // five fields; Open([2]) keeps field 2 and everything after it
    let line = record("f0,f1,f2,f3,f4", Some(","));
    let cols = line.display(&Some(ColumnRange::Open(vec![2])));
    assert_eq!(cols, vec!["f2".to_string(), "f3".to_string(), "f4".to_string()]);
}

#[test]
fn closed_range_keeps_listed_order() {
    let line = record("f0,f1,f2,f3,f4", Some(","));
    let cols = line.display(&Some(ColumnRange::Closed(vec![0, 2])));
    assert_eq!(cols, vec!["f0".to_string(), "f2".to_string()]);
}

#[test]
fn closed_range_respects_unsorted_duplicated_positions() {
    let line = record("f0,f1,f2", Some(","));
    let cols = line.display(&Some(ColumnRange::Closed(vec![2, 0, 2])));
    assert_eq!(cols, vec!["f2".to_string(), "f0".to_string(), "f2".to_string()]);
}

#[test]
fn closed_range_skips_out_of_range_positions() {
    let line = record("f0,f1", Some(","));
    let cols = line.display(&Some(ColumnRange::Closed(vec![0, 7, 1])));
    assert_eq!(cols, vec!["f0".to_string(), "f1".to_string()]);
}

#[test]
fn open_range_with_no_position_selects_nothing() {
    let line = record("f0,f1", Some(","));
    let cols = line.display(&Some(ColumnRange::Open(vec![])));
    assert!(cols.is_empty());
}

#[test]
fn output_joins_fields_with_delimiter() {
    let line = record("a,b", Some(","));
    let out = line.output(&None, &Some(",".to_string()));
    assert_eq!(out, "a,b".to_string());
}

#[test]
fn output_without_delimiter_concatenates() {
    let line = record("a,b", Some(","));
    let out = line.output(&None, &None);
    assert_eq!(out, "ab".to_string());
}

#[test]
fn no_delimiter_keeps_whole_text_as_one_field() {
    let line = record("a,b", None);
    assert_eq!(line.display(&None), vec!["a,b".to_string()]);
}

#[test]
fn split_keeps_trailing_empty_field() {
    let line = record("a:", Some(":"));
    assert_eq!(line.display(&None), vec!["a".to_string(), "".to_string()]);
}

#[test]
fn split_on_multichar_delimiter() {
    let line = record("a::b::c", Some("::"));
    assert_eq!(
        line.display(&None),
        vec!["a".to_string(), "b".to_string(), "c".to_string()]
    );
}

#[test]
fn matches_is_case_sensitive_substring() {
    let line = record("Hello,world", Some(","));
    assert!(line.matches(&"wor".to_string()));
    assert!(line.matches(&"Hel".to_string()));
    assert!(!line.matches(&"hel".to_string()));
    assert!(line.matches(&"".to_string()));
}
