use pickline::options::{Options, PageSizeOption};
use pickline::picker::Picker;
use pickline::ui::Ui;

fn page_opts() -> Options {
    Options {
        page_size: PageSizeOption::Value(3),
        hint_alphabet: "ab".to_string(),
        delimiter: None,
        display_columns: None,
        output_columns: None,
        selection_column: None,
        selection_regex: None,
    }
}

fn viewport(records: &[&str], page_size: usize) -> (Picker, Ui) {
    let lines: Vec<String> = records.iter().map(|r| r.to_string()).collect();
    let picker = Picker::new(&lines, page_opts());
    let ui = Ui::new(&picker, page_opts(), page_size);
    (picker, ui)
}

#[test]
fn chunks_cover_the_index_list_exactly() {
    let pages = Ui::calc_pages(vec![0, 1, 2, 3, 4, 5, 6], 3);
    assert_eq!(pages.len(), 3);
    assert_eq!(pages[0], vec![0, 1, 2]);
    assert_eq!(pages[1], vec![3, 4, 5]);
    assert_eq!(pages[2], vec![6]);
    let flat: Vec<usize> = pages.into_iter().flatten().collect();
    assert_eq!(flat, vec![0, 1, 2, 3, 4, 5, 6]);
}

#[test]
fn chunks_of_empty_list_make_no_page() {
    let pages = Ui::calc_pages(Vec::new(), 3);
    assert!(pages.is_empty());
}

#[test]
fn next_page_saturates_at_last_page() {
    let (_picker, mut ui) = viewport(&["a", "b", "c", "d", "e"], 2);
    assert_eq!(ui.num_pages(), 3);
    ui.next_page();
    ui.next_page();
    ui.next_page();
    ui.next_page();
    assert_eq!(ui.current_page(), 2);
}

#[test]
fn previous_page_saturates_at_zero() {
    let (_picker, mut ui) = viewport(&["a", "b", "c"], 2);
    ui.previous_page();
    ui.previous_page();
    assert_eq!(ui.current_page(), 0);
}

#[test]
fn cursor_moves_saturate_within_page() {
    let (_picker, mut ui) = viewport(&["a", "b", "c"], 2);
    assert_eq!(ui.cursor(), 0);
    ui.move_cursor_up();
    assert_eq!(ui.cursor(), 0);
    ui.move_cursor_down();
    assert_eq!(ui.cursor(), 1);
    ui.move_cursor_down();
    assert_eq!(ui.cursor(), 1);
}

#[test]
fn cursor_realigns_when_page_shrinks() {
    let (picker, mut ui) = viewport(&["axb", "ayb", "zzz"], 3);
    ui.move_cursor_down();
    ui.move_cursor_down();
    assert_eq!(ui.cursor(), 2);
    // narrowing to two visible records pulls the cursor back in range
    let visible = picker.apply_filter(&"a".to_string());
    ui.paginate(visible);
    assert_eq!(ui.cursor(), 1);
    let len = ui.page().map(|p| p.len()).unwrap_or(0);
    assert!(ui.cursor() < len.max(1));
}

#[test]
fn cursor_stays_in_bounds_over_a_command_storm() {
    let (picker, mut ui) = viewport(&["a1", "b2", "a3", "b4", "a5"], 2);
    let len0 = ui.page().map(|p| p.len()).unwrap_or(0);
    assert!(ui.cursor() < len0.max(1));
    ui.move_cursor_down();
    ui.next_page();
    ui.move_cursor_down();
    ui.next_page();
    ui.move_cursor_down();
    ui.previous_page();
    ui.paginate(picker.apply_filter(&"a".to_string()));
    ui.move_cursor_down();
    ui.paginate(picker.apply_filter(&"zzz".to_string()));
    let len = ui.page().map(|p| p.len()).unwrap_or(0);
    assert!(ui.cursor() < len.max(1));
    assert_eq!(ui.cursor(), 0);
}

#[test]
fn empty_store_has_no_page_and_no_line_under_cursor() {
    let (_picker, mut ui) = viewport(&[], 2);
    assert_eq!(ui.num_pages(), 0);
    assert!(ui.page().is_none());
    assert!(ui.line_under_cursor().is_none());
    ui.move_cursor_down();
    ui.move_cursor_up();
    ui.next_page();
    assert_eq!(ui.cursor(), 0);
    assert_eq!(ui.current_page(), 0);
}

#[test]
fn line_under_cursor_resolves_ground_index_across_pages() {
    let (_picker, mut ui) = viewport(&["a", "b", "c", "d", "e"], 2);
    assert_eq!(ui.line_under_cursor(), Some(0));
    ui.next_page();
    ui.move_cursor_down();
    assert_eq!(ui.line_under_cursor(), Some(3));
}

#[test]
fn paginate_returns_to_first_page() {
    let (picker, mut ui) = viewport(&["a", "b", "c", "d", "e"], 2);
    ui.next_page();
    ui.next_page();
    assert_eq!(ui.current_page(), 2);
    ui.paginate(picker.apply_filter(&"".to_string()));
    assert_eq!(ui.current_page(), 0);
    assert_eq!(ui.num_pages(), 3);
}
