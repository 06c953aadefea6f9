use pickline::options::{Options, PageSizeOption};
use pickline::picker::{Line, Picker};
use pickline::seed::SeedMatcher;
use pickline::ui::Ui;

fn seed_opts() -> Options {
    Options {
        page_size: PageSizeOption::Value(2),
        hint_alphabet: "ab".to_string(),
        delimiter: Some(",".to_string()),
        display_columns: None,
        output_columns: None,
        selection_column: Some(0),
        selection_regex: Some("^ba".to_string()),
    }
}

#[test]
fn invalid_pattern_is_rejected_at_compile_time() {
    assert!(SeedMatcher::compile(&"(".to_string()).is_none());
    assert!(SeedMatcher::compile(&"^ba".to_string()).is_some());
}

#[test]
fn regex_match_is_anchored_by_the_pattern_itself() {
    let matcher = SeedMatcher::compile(&"^x".to_string()).unwrap();
    let hit = Line::new(&"xzz,other".to_string(), &Some(",".to_string()));
    let miss = Line::new(&"axb,other".to_string(), &Some(",".to_string()));
    assert!(hit.matches_regex(&matcher, 0));
    assert!(!miss.matches_regex(&matcher, 0));
}

#[test]
fn regex_only_sees_the_seed_column() {
    let matcher = SeedMatcher::compile(&"zzz".to_string()).unwrap();
    let line = Line::new(&"aaa,zzz".to_string(), &Some(",".to_string()));
    assert!(!line.matches_regex(&matcher, 0));
    assert!(line.matches_regex(&matcher, 1));
    // a column past the record never matches
    assert!(!line.matches_regex(&matcher, 5));
}

#[test]
fn seed_places_cursor_on_first_matching_record() {
    let lines: Vec<String> = vec![
        "foo,1".to_string(),
        "bar,2".to_string(),
        "baz,3".to_string(),
    ];
    let picker = Picker::new(&lines, seed_opts());
    let mut ui = Ui::new(&picker, seed_opts(), 2);
    let matcher = SeedMatcher::compile(&"^ba".to_string()).unwrap();
    ui.seed_cursor(&picker, &matcher, 0);
    // ground index 1 sits on page 0, slot 1
    assert_eq!(ui.current_page(), 0);
    assert_eq!(ui.cursor(), 1);
    assert_eq!(ui.line_under_cursor(), Some(1));
}

#[test]
fn seed_beyond_the_first_page_moves_the_page() {
    let lines: Vec<String> = vec![
        "foo,1".to_string(),
        "bar,2".to_string(),
        "baz,3".to_string(),
    ];
    let picker = Picker::new(&lines, seed_opts());
    let mut ui = Ui::new(&picker, seed_opts(), 2);
    let matcher = SeedMatcher::compile(&"^baz".to_string()).unwrap();
    ui.seed_cursor(&picker, &matcher, 0);
    assert_eq!(ui.current_page(), 1);
    assert_eq!(ui.cursor(), 0);
    assert_eq!(ui.line_under_cursor(), Some(2));
}

#[test]
fn seed_without_a_match_leaves_the_viewport_alone() {
    let lines: Vec<String> = vec!["foo,1".to_string(), "bar,2".to_string()];
    let picker = Picker::new(&lines, seed_opts());
    let mut ui = Ui::new(&picker, seed_opts(), 2);
    let matcher = SeedMatcher::compile(&"^qqq".to_string()).unwrap();
    ui.seed_cursor(&picker, &matcher, 0);
    assert_eq!(ui.current_page(), 0);
    assert_eq!(ui.cursor(), 0);
}
