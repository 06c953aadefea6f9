use pickline::commands::{Command, Key};
use pickline::engine::{dispatch, toggle_selection_for_visible, translate_key};
use pickline::modes::{Mode, SelectAction};
use pickline::options::{Options, PageSizeOption};
use pickline::picker::Picker;
use pickline::ui::Ui;

fn session_opts(alphabet: &str) -> Options {
    Options {
        page_size: PageSizeOption::Value(4),
        hint_alphabet: alphabet.to_string(),
        delimiter: None,
        display_columns: None,
        output_columns: None,
        selection_column: None,
        selection_regex: None,
    }
}

fn session(records: usize, alphabet: &str, page_size: usize) -> (Picker, Ui) {
    let lines: Vec<String> = (0..records).map(|i| format!("record{}", i)).collect();
    let picker = Picker::new(&lines, session_opts(alphabet));
    let ui = Ui::new(&picker, session_opts(alphabet), page_size);
    (picker, ui)
}

#[test]
fn normal_mode_key_bindings() {
    assert_eq!(
        translate_key(Mode::Normal, Key::Enter),
        Some(Command::ToggleSelection(SelectAction::Exit))
    );
    assert_eq!(
        translate_key(Mode::Normal, Key::Char(' ')),
        Some(Command::ToggleSelection(SelectAction::Stay))
    );
    assert_eq!(translate_key(Mode::Normal, Key::Char('j')), Some(Command::MoveDown));
    assert_eq!(translate_key(Mode::Normal, Key::Up), Some(Command::MoveUp));
    assert_eq!(
        translate_key(Mode::Normal, Key::Char('f')),
        Some(Command::EnterMode(Mode::Hint(SelectAction::Exit)))
    );
    assert_eq!(
        translate_key(Mode::Normal, Key::Char('/')),
        Some(Command::EnterMode(Mode::Filter))
    );
    assert_eq!(translate_key(Mode::Normal, Key::Char('q')), Some(Command::Exit));
    assert_eq!(translate_key(Mode::Normal, Key::Char('x')), None);
}

#[test]
fn hint_and_filter_mode_key_bindings() {
    let hint = Mode::Hint(SelectAction::Stay);
    assert_eq!(
        translate_key(hint, Key::Char('a')),
        Some(Command::AddHintChar('a', SelectAction::Stay))
    );
    assert_eq!(translate_key(hint, Key::Backspace), Some(Command::RemoveHintChar));
    assert_eq!(translate_key(hint, Key::Esc), Some(Command::EnterMode(Mode::Normal)));
    assert_eq!(translate_key(Mode::Filter, Key::Enter), Some(Command::SaveFilter));
    assert_eq!(translate_key(Mode::Filter, Key::Esc), Some(Command::DiscardFilter));
    assert_eq!(
        translate_key(Mode::Filter, Key::Char('x')),
        Some(Command::FilterPush('x'))
    );
    assert_eq!(
        translate_key(Mode::DisplaySelection, Key::Esc),
        Some(Command::EnterMode(Mode::Normal))
    );
}

#[test]
fn ten_records_two_symbol_alphabet_end_to_end() {
    // page 0 has 4 slots; codes have length 2; "aa" picks slot 0 and exits
    let (mut picker, mut ui) = session(10, "ab", 4);
    assert_eq!(ui.page().unwrap().len(), 4);
    let entered = dispatch(
        &mut picker,
        &mut ui,
        Command::EnterMode(Mode::Hint(SelectAction::Exit)),
    );
    assert!(!entered);
    assert_eq!(ui.get_hint(0).unwrap().chars().count(), 2);
    let first = dispatch(
        &mut picker,
        &mut ui,
        Command::AddHintChar('a', SelectAction::Exit),
    );
    assert!(!first);
    let second = dispatch(
        &mut picker,
        &mut ui,
        Command::AddHintChar('a', SelectAction::Exit),
    );
    assert!(second);
    let out = picker.result().unwrap();
    assert_eq!(out, vec!["record0".to_string()]);
}

#[test]
fn dead_end_hint_character_reverts_the_buffer() {
    let (mut picker, mut ui) = session(10, "ab", 4);
    dispatch(&mut picker, &mut ui, Command::EnterMode(Mode::Hint(SelectAction::Stay)));
    dispatch(&mut picker, &mut ui, Command::AddHintChar('a', SelectAction::Stay));
    assert_eq!(ui.input_buffer(), &"a".to_string());
    dispatch(&mut picker, &mut ui, Command::AddHintChar('z', SelectAction::Stay));
    assert_eq!(ui.input_buffer(), &"a".to_string());
    assert!(picker.result().is_none());
}

#[test]
fn hint_pick_without_exit_clears_buffer_and_allows_another() {
    let (mut picker, mut ui) = session(10, "ab", 4);
    dispatch(&mut picker, &mut ui, Command::EnterMode(Mode::Hint(SelectAction::Stay)));
    dispatch(&mut picker, &mut ui, Command::AddHintChar('a', SelectAction::Stay));
    dispatch(&mut picker, &mut ui, Command::AddHintChar('b', SelectAction::Stay));
    // "ab" is slot 1
    assert_eq!(ui.input_buffer(), &"".to_string());
    assert_eq!(ui.cursor(), 1);
    assert!(picker.is_selected(1));
    dispatch(&mut picker, &mut ui, Command::AddHintChar('b', SelectAction::Stay));
    dispatch(&mut picker, &mut ui, Command::AddHintChar('a', SelectAction::Stay));
    assert!(picker.is_selected(2));
    let out = picker.result().unwrap();
    assert_eq!(out, vec!["record1".to_string(), "record2".to_string()]);
}

#[test]
fn filter_editing_saves_on_enter() {
    let (mut picker, mut ui) = session(10, "ab", 4);
    dispatch(&mut picker, &mut ui, Command::EnterMode(Mode::Filter));
    assert_eq!(ui.input_buffer(), &"".to_string());
    dispatch(&mut picker, &mut ui, Command::FilterPush('r'));
    dispatch(&mut picker, &mut ui, Command::FilterPush('d'));
    assert_eq!(ui.num_pages(), 3);
    dispatch(&mut picker, &mut ui, Command::FilterPush('z'));
    // "rdz" matches no record; every page is gone
    assert_eq!(ui.num_pages(), 0);
    dispatch(&mut picker, &mut ui, Command::FilterPop);
    assert_eq!(ui.num_pages(), 3);
    dispatch(&mut picker, &mut ui, Command::SaveFilter);
    assert_eq!(picker.filter_text(), "rd".to_string());
    assert!(matches!(ui.mode(), Mode::Normal));
}

#[test]
fn filter_editing_discards_on_escape() {
    let (mut picker, mut ui) = session(10, "ab", 4);
    picker.persist_filter("record1".to_string());
    ui.paginate(picker.apply_filter(&"record1".to_string()));
    assert_eq!(ui.page().unwrap().len(), 1);
    dispatch(&mut picker, &mut ui, Command::EnterMode(Mode::Filter));
    // editing starts from the applied filter text
    assert_eq!(ui.input_buffer(), &"record1".to_string());
    dispatch(&mut picker, &mut ui, Command::FilterPop);
    dispatch(&mut picker, &mut ui, Command::FilterPop);
    assert_eq!(ui.page().unwrap().len(), 4);
    dispatch(&mut picker, &mut ui, Command::DiscardFilter);
    // the previously applied filter is back in force
    assert_eq!(picker.filter_text(), "record1".to_string());
    assert_eq!(ui.page().unwrap().len(), 1);
    assert!(matches!(ui.mode(), Mode::Normal));
}

#[test]
fn toggle_selection_under_cursor_with_exit() {
    let (mut picker, mut ui) = session(3, "ab", 2);
    dispatch(&mut picker, &mut ui, Command::MoveDown);
    let exit = dispatch(
        &mut picker,
        &mut ui,
        Command::ToggleSelection(SelectAction::Exit),
    );
    assert!(exit);
    assert_eq!(picker.result().unwrap(), vec!["record1".to_string()]);
}

#[test]
fn toggle_visible_selects_the_whole_page() {
    let (mut picker, mut ui) = session(6, "ab", 4);
    toggle_selection_for_visible(&mut picker, &ui);
    for i in 0..4 {
        assert!(picker.is_selected(i));
    }
    assert!(!picker.is_selected(4));
    assert!(!picker.is_selected(5));
    // toggling again clears the page
    toggle_selection_for_visible(&mut picker, &ui);
    assert!(picker.result().is_none());
}

#[test]
fn show_selection_is_a_plain_mode_switch() {
    let (mut picker, mut ui) = session(3, "ab", 2);
    dispatch(&mut picker, &mut ui, Command::ShowSelection);
    assert!(matches!(ui.mode(), Mode::DisplaySelection));
    dispatch(&mut picker, &mut ui, Command::EnterMode(Mode::Normal));
    assert!(matches!(ui.mode(), Mode::Normal));
}

#[test]
fn exit_command_ends_the_session() {
    let (mut picker, mut ui) = session(3, "ab", 2);
    assert!(dispatch(&mut picker, &mut ui, Command::Exit));
}
