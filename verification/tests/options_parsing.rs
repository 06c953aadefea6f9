use pickline::options::{check_options, ColumnRange, Options, PageSizeOption};

#[test]
fn mixed_list_of_numbers_and_ranges() {
    match Options::parse_column_ranges(&"1,3..5,7..=9".to_string()) {
        Some(ColumnRange::Closed(v)) => assert_eq!(v, vec![1, 3, 4, 7, 8, 9]),
        _ => panic!("expected a closed range"),
    }
}

#[test]
fn trailing_dots_make_an_open_range() {
    match Options::parse_column_ranges(&"2..".to_string()) {
        Some(ColumnRange::Open(v)) => assert_eq!(v, vec![2]),
        _ => panic!("expected an open range"),
    }
}

#[test]
fn open_range_keeps_earlier_positions() {
    match Options::parse_column_ranges(&"0,5..".to_string()) {
        Some(ColumnRange::Open(v)) => assert_eq!(v, vec![0, 5]),
        _ => panic!("expected an open range"),
    }
}

#[test]
fn exclusive_range_excludes_its_end() {
    match Options::parse_column_ranges(&"0..3".to_string()) {
        Some(ColumnRange::Closed(v)) => assert_eq!(v, vec![0, 1, 2]),
        _ => panic!("expected a closed range"),
    }
}

#[test]
fn range_with_missing_start_begins_at_zero() {
    match Options::parse_column_ranges(&"..2".to_string()) {
        Some(ColumnRange::Closed(v)) => assert_eq!(v, vec![0, 1]),
        _ => panic!("expected a closed range"),
    }
}

#[test]
fn empty_exclusive_range_is_allowed_and_empty() {
    match Options::parse_column_ranges(&"3..3".to_string()) {
        Some(ColumnRange::Closed(v)) => assert!(v.is_empty()),
        _ => panic!("expected a closed range"),
    }
}

#[test]
fn malformed_segment_is_rejected() {
    assert!(Options::parse_column_ranges(&"abc".to_string()).is_none());
    assert!(Options::parse_column_ranges(&"".to_string()).is_none());
    assert!(Options::parse_column_ranges(&"1,,2".to_string()).is_none());
    assert!(Options::parse_column_ranges(&"1..=x".to_string()).is_none());
    assert!(Options::parse_column_ranges(&"1..=".to_string()).is_none());
}

#[test]
fn page_size_parses_auto_in_any_case() {
    assert!(matches!(
        PageSizeOption::parse(&"auto".to_string()),
        Some(PageSizeOption::Auto)
    ));
    assert!(matches!(
        PageSizeOption::parse(&"AUTO".to_string()),
        Some(PageSizeOption::Auto)
    ));
    assert!(matches!(
        PageSizeOption::parse(&"Auto".to_string()),
        Some(PageSizeOption::Auto)
    ));
}

#[test]
fn page_size_parses_positive_numbers_only() {
    assert!(matches!(
        PageSizeOption::parse(&"12".to_string()),
        Some(PageSizeOption::Value(12))
    ));
    assert!(PageSizeOption::parse(&"0".to_string()).is_none());
    assert!(PageSizeOption::parse(&"-3".to_string()).is_none());
    assert!(PageSizeOption::parse(&"four".to_string()).is_none());
    assert!(PageSizeOption::parse(&"".to_string()).is_none());
}

fn opts_with(alphabet: &str, delimiter: Option<&str>) -> Options {
    Options {
        page_size: PageSizeOption::Value(4),
        hint_alphabet: alphabet.to_string(),
        delimiter: delimiter.map(|d| d.to_string()),
        display_columns: None,
        output_columns: None,
        selection_column: None,
        selection_regex: None,
    }
}

#[test]
fn options_need_two_distinct_hint_symbols() {
    assert!(check_options(&opts_with("ab", None)));
    assert!(check_options(&opts_with("asdfhjkl", Some(","))));
    assert!(!check_options(&opts_with("a", None)));
    assert!(!check_options(&opts_with("aa", None)));
    assert!(!check_options(&opts_with("aba", None)));
    assert!(!check_options(&opts_with("", None)));
}

#[test]
fn options_reject_an_empty_delimiter() {
    assert!(!check_options(&opts_with("ab", Some(""))));
}
