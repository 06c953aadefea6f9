use pickline::modes::{Mode, SelectAction};
use pickline::options::{Options, PageSizeOption};
use pickline::picker::Picker;
use pickline::ui::Ui;

fn hint_opts(alphabet: &str, page_size: usize) -> Options {
    Options {
        page_size: PageSizeOption::Value(page_size),
        hint_alphabet: alphabet.to_string(),
        delimiter: None,
        display_columns: None,
        output_columns: None,
        selection_column: None,
        selection_regex: None,
    }
}

fn hinting(records: usize, alphabet: &str, page_size: usize) -> (Picker, Ui) {
    let lines: Vec<String> = (0..records).map(|i| format!("record{}", i)).collect();
    let picker = Picker::new(&lines, hint_opts(alphabet, page_size));
    let mut ui = Ui::new(&picker, hint_opts(alphabet, page_size), page_size);
    ui.change_mode(Mode::Hint(SelectAction::Stay));
    (picker, ui)
}

#[test]
fn four_slots_over_two_symbols_get_length_two_codes() {
    let (_picker, ui) = hinting(10, "ab", 4);
    assert_eq!(ui.get_hint(0), Some("aa".to_string()));
    assert_eq!(ui.get_hint(1), Some("ab".to_string()));
    assert_eq!(ui.get_hint(2), Some("ba".to_string()));
    assert_eq!(ui.get_hint(3), Some("bb".to_string()));
    assert_eq!(ui.get_hint(4), None);
}

#[test]
fn codes_are_unique_and_equally_long() {
    let (_picker, ui) = hinting(7, "asd", 7);
    let codes: Vec<String> = (0..7).map(|i| ui.get_hint(i).unwrap()).collect();
    let len = codes[0].chars().count();
    assert!(len >= 1);
    for (i, a) in codes.iter().enumerate() {
        assert_eq!(a.chars().count(), len);
        for b in codes.iter().skip(i + 1) {
            assert_ne!(a, b);
        }
    }
}

#[test]
fn single_slot_still_gets_a_code_of_length_one() {
    let (_picker, ui) = hinting(1, "ab", 4);
    assert_eq!(ui.get_hint(0), Some("a".to_string()));
}

#[test]
fn wide_alphabet_spaces_codes_through_the_space() {
    // two slots over eight symbols: spacing 4 puts the codes far apart
    let (_picker, ui) = hinting(2, "asdfhjkl", 4);
    assert_eq!(ui.get_hint(0), Some("a".to_string()));
    assert_eq!(ui.get_hint(1), Some("h".to_string()));
}

#[test]
fn leaving_hint_mode_discards_codes() {
    let (_picker, mut ui) = hinting(4, "ab", 4);
    assert!(ui.get_hint(0).is_some());
    ui.change_mode(Mode::Normal);
    assert!(ui.get_hint(0).is_none());
    assert_eq!(ui.input_buffer(), &"".to_string());
}

#[test]
fn full_code_matches_exactly_one_slot() {
    let (_picker, mut ui) = hinting(10, "ab", 4);
    ui.push_to_input_buffer('b');
    ui.push_to_input_buffer('a');
    let (hit, valid) = ui.match_hint();
    assert_eq!(hit, Some(2));
    assert!(valid);
}

#[test]
fn shared_prefix_matches_no_slot_but_stays_valid() {
    let (_picker, mut ui) = hinting(10, "ab", 4);
    ui.push_to_input_buffer('a');
    let (hit, valid) = ui.match_hint();
    assert_eq!(hit, None);
    assert!(valid);
}

#[test]
fn foreign_character_is_invalid() {
    let (_picker, mut ui) = hinting(10, "ab", 4);
    ui.push_to_input_buffer('z');
    let (hit, valid) = ui.match_hint();
    assert_eq!(hit, None);
    assert!(!valid);
}

#[test]
fn empty_page_gives_no_hints() {
    let (_picker, ui) = hinting(0, "ab", 4);
    assert!(ui.get_hint(0).is_none());
    let (hit, valid) = ui.match_hint();
    assert_eq!(hit, None);
    assert!(!valid);
}
