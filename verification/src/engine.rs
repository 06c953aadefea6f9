//! The selection engine: keys become commands, mode by mode, and commands
//! mutate the record store and the viewport in step, keeping the cursor,
//! pages, hints and selection consistent.
use crate::commands::{Command, Key};
use crate::modes::{Mode, SelectAction};
use crate::picker::{picker_same, toggle_spec, Picker};
use crate::ui::{lemma_chunks_preserve, spec_chunks, Ui};
use vstd::prelude::*;

verus! {

/// Every ground index on any page names a record of the store, and the
/// indices on each page are strictly ascending.
pub open spec fn compat(ui: Ui, picker: Picker) -> bool {
    &&& (forall|p: int, k: int|
        0 <= p < ui.pages_views().len() && 0 <= k < ui.pages_views()[p].len() ==> (
        #[trigger] ui.pages_views()[p][k]) < picker.num_lines())
    &&& (forall|p: int, k1: int, k2: int|
        0 <= p < ui.pages_views().len() && 0 <= k1 < k2 < ui.pages_views()[p].len()
            ==> #[trigger] ui.pages_views()[p][k1] < #[trigger] ui.pages_views()[p][k2])
}

/// Extract the record bound for one page slot from `compat`.
proof fn lemma_compat_bound(ui: Ui, picker: Picker, p: int, k: int)
    requires
        compat(ui, picker),
        0 <= p < ui.pages_views().len(),
        0 <= k < ui.pages_views()[p].len(),
    ensures
        ui.pages_views()[p][k] < picker.num_lines(),
{
    assert(ui.pages_views()[p][k] < picker.num_lines());
}

/// Extract the ascending order of one page from `compat`.
proof fn lemma_compat_sorted(ui: Ui, picker: Picker, p: int, k1: int, k2: int)
    requires
        compat(ui, picker),
        0 <= p < ui.pages_views().len(),
        0 <= k1 < k2 < ui.pages_views()[p].len(),
    ensures
        ui.pages_views()[p][k1] < ui.pages_views()[p][k2],
{
    assert(ui.pages_views()[p][k1] < ui.pages_views()[p][k2]);
}

/// The command a printable character issues in Normal mode.
pub open spec fn spec_normal_char(c: char) -> Option<Command> {
    if c == ' ' {
        Some(Command::ToggleSelection(SelectAction::Stay))
    } else if c == 'j' {
        Some(Command::MoveDown)
    } else if c == 'k' {
        Some(Command::MoveUp)
    } else if c == '[' {
        Some(Command::PreviousPage)
    } else if c == ']' {
        Some(Command::NextPage)
    } else if c == 's' {
        Some(Command::ShowSelection)
    } else if c == 'f' {
        Some(Command::EnterMode(Mode::Hint(SelectAction::Exit)))
    } else if c == 'F' {
        Some(Command::EnterMode(Mode::Hint(SelectAction::Stay)))
    } else if c == '/' {
        Some(Command::EnterMode(Mode::Filter))
    } else if c == 'q' {
        Some(Command::Exit)
    } else {
        None
    }
}

/// The key bindings: which command a key issues in each mode.
pub open spec fn spec_key_command(mode: Mode, key: Key) -> Option<Command> {
    match mode {
        Mode::Normal => match key {
            Key::Enter => Some(Command::ToggleSelection(SelectAction::Exit)),
            Key::Esc => Some(Command::Exit),
            Key::Backspace => None,
            Key::Up => Some(Command::MoveUp),
            Key::Down => Some(Command::MoveDown),
            Key::Char(c) => spec_normal_char(c),
        },
        Mode::Hint(sa) => match key {
            Key::Esc => Some(Command::EnterMode(Mode::Normal)),
            Key::Backspace => Some(Command::RemoveHintChar),
            Key::Char(c) => Some(Command::AddHintChar(c, sa)),
            Key::Enter => Some(Command::Exit),
            _ => None,
        },
        Mode::Filter => match key {
            Key::Enter => Some(Command::SaveFilter),
            Key::Esc => Some(Command::DiscardFilter),
            Key::Backspace => Some(Command::FilterPop),
            Key::Char(c) => Some(Command::FilterPush(c)),
            _ => None,
        },
        Mode::DisplaySelection => match key {
            Key::Enter => Some(Command::EnterMode(Mode::Normal)),
            Key::Esc => Some(Command::EnterMode(Mode::Normal)),
            _ => None,
        },
    }
}

/// A command fits the mode it is issued in: the dispatcher relies on this.
pub open spec fn command_allowed(mode: Mode, cmd: Command) -> bool {
    match cmd {
        Command::EnterMode(m) => Ui::mode_transition_ok(mode, m),
        Command::MoveUp => true,
        Command::MoveDown => true,
        Command::Exit => true,
        Command::PreviousPage => mode is Normal,
        Command::NextPage => mode is Normal,
        Command::ToggleSelection(_) => mode is Normal,
        Command::ToggleVisible => mode is Normal,
        Command::ShowSelection => mode is Normal,
        Command::FilterPush(_) => mode is Filter,
        Command::FilterPop => mode is Filter,
        Command::SaveFilter => mode is Filter,
        Command::DiscardFilter => mode is Filter,
        Command::AddHintChar(_, _) => mode is Hint,
        Command::RemoveHintChar => mode is Hint,
    }
}

/// Translate one key press under the current mode.
pub fn translate_key(mode: Mode, key: Key) -> (r: Option<Command>)
    ensures
        r == spec_key_command(mode, key),
        r is Some ==> command_allowed(mode, r->0),
{
    match mode {
        Mode::Normal => match key {
            Key::Enter => Some(Command::ToggleSelection(SelectAction::Exit)),
            Key::Esc => Some(Command::Exit),
            Key::Backspace => None,
            Key::Up => Some(Command::MoveUp),
            Key::Down => Some(Command::MoveDown),
            Key::Char(c) => {
                if c == ' ' {
                    Some(Command::ToggleSelection(SelectAction::Stay))
                } else if c == 'j' {
                    Some(Command::MoveDown)
                } else if c == 'k' {
                    Some(Command::MoveUp)
                } else if c == '[' {
                    Some(Command::PreviousPage)
                } else if c == ']' {
                    Some(Command::NextPage)
                } else if c == 's' {
                    Some(Command::ShowSelection)
                } else if c == 'f' {
                    Some(Command::EnterMode(Mode::Hint(SelectAction::Exit)))
                } else if c == 'F' {
                    Some(Command::EnterMode(Mode::Hint(SelectAction::Stay)))
                } else if c == '/' {
                    Some(Command::EnterMode(Mode::Filter))
                } else if c == 'q' {
                    Some(Command::Exit)
                } else {
                    None
                }
            },
        },
        Mode::Hint(sa) => match key {
            Key::Esc => Some(Command::EnterMode(Mode::Normal)),
            Key::Backspace => Some(Command::RemoveHintChar),
            Key::Char(c) => Some(Command::AddHintChar(c, sa)),
            Key::Enter => Some(Command::Exit),
            _ => None,
        },
        Mode::Filter => match key {
            Key::Enter => Some(Command::SaveFilter),
            Key::Esc => Some(Command::DiscardFilter),
            Key::Backspace => Some(Command::FilterPop),
            Key::Char(c) => Some(Command::FilterPush(c)),
            _ => None,
        },
        Mode::DisplaySelection => match key {
            Key::Enter => Some(Command::EnterMode(Mode::Normal)),
            Key::Esc => Some(Command::EnterMode(Mode::Normal)),
            _ => None,
        },
    }
}

/// Re-run the filter over the live input buffer and repaginate.
fn refilter(picker: &Picker, ui: &mut Ui)
    requires
        picker.wf(),
        old(ui).wf(),
        old(ui).hints_view() is None,
    ensures
        final(ui).wf(),
        compat(*final(ui), *picker),
        final(ui).pages_views() == spec_chunks(
            picker.visible_indices(old(ui).buffer_view()),
            old(ui).page_size_spec(),
        ),
        final(ui).page_spec() == 0,
        final(ui).cursor_spec() == if final(ui).cur_page_len() == 0 {
            0int
        } else if old(ui).cursor_spec() < final(ui).cur_page_len() {
            old(ui).cursor_spec()
        } else {
            final(ui).cur_page_len() - 1
        },
        final(ui).mode_spec() == old(ui).mode_spec(),
        final(ui).buffer_view() == old(ui).buffer_view(),
        final(ui).hints_view() is None,
        final(ui).page_size_spec() == old(ui).page_size_spec(),
        final(ui).opts_spec() == old(ui).opts_spec(),
{
    let buf = ui.input_buffer().clone();
    let vis = picker.apply_filter(&buf);
    proof {
        Ui::lemma_wf_facts(*ui);
        lemma_chunks_preserve(vis@, ui.page_size_spec(), picker.num_lines() as int);
    }
    ui.paginate(vis);
}

/// Toggle selection membership for every ground index on the current page,
/// independently of the cursor.
pub fn toggle_selection_for_visible(picker: &mut Picker, ui: &Ui)
    requires
        old(picker).wf(),
        ui.wf(),
        compat(*ui, *old(picker)),
    ensures
        final(picker).wf(),
        compat(*ui, *final(picker)),
        final(picker).lines_view() == old(picker).lines_view(),
        final(picker).filter_view() == old(picker).filter_view(),
        final(picker).opts_spec() == old(picker).opts_spec(),
        forall|j: usize|
            final(picker).is_sel(j as int) == if ui.cur_page().contains(j) {
                !old(picker).is_sel(j as int)
            } else {
                old(picker).is_sel(j as int)
            },
{
    let idxs = ui.page_indices();
    let ghost page = ui.cur_page();
    proof {
        Ui::lemma_wf_facts(*ui);
        if ui.cur_page_len() > 0 {
            assert(ui.page_spec() < ui.pages_views().len());
            assert forall|t1: int, t2: int| 0 <= t1 < t2 < page.len() implies page[t1]
                < page[t2] by {
                lemma_compat_sorted(*ui, *old(picker), ui.page_spec(), t1, t2);
            }
            assert forall|t: int| 0 <= t < page.len() implies (#[trigger] page[t])
                < picker.num_lines() by {
                lemma_compat_bound(*ui, *old(picker), ui.page_spec(), t);
            }
        }
    }
    let mut k: usize = 0;
    while k < idxs.len()
        invariant
            k <= idxs.len(),
            idxs@ == page,
            page == ui.cur_page(),
            ui.wf(),
            compat(*ui, *old(picker)),
            picker.wf(),
            picker.num_lines() == old(picker).num_lines(),
            picker.lines_view() == old(picker).lines_view(),
            picker.filter_view() == old(picker).filter_view(),
            picker.opts_spec() == old(picker).opts_spec(),
            forall|t1: int, t2: int| 0 <= t1 < t2 < page.len() ==> page[t1] < page[t2],
            forall|t: int| 0 <= t < page.len() ==> (#[trigger] page[t]) < picker.num_lines(),
            forall|j: int|
                picker.is_sel(j) == if (exists|t: int|
                    0 <= t < k && (#[trigger] page[t]) as int == j) {
                    !old(picker).is_sel(j)
                } else {
                    old(picker).is_sel(j)
                },
        decreases idxs.len() - k,
    {
        let g = idxs[k];
        proof {
            assert(page[k as int] < picker.num_lines());
        }
        picker.toggle_selection(g);
        proof {
            assert forall|j: int|
                picker.is_sel(j) == if (exists|t: int|
                    0 <= t < k + 1 && (#[trigger] page[t]) as int == j) {
                    !old(picker).is_sel(j)
                } else {
                    old(picker).is_sel(j)
                } by {
                if j == g as int {
                    assert forall|t: int| 0 <= t < k implies (#[trigger] page[t]) as int != j by {
                        assert(page[t] < page[k as int]);
                    }
                    assert(page[k as int] as int == j);
                }
            }
        }
        k += 1;
    }
    proof {
        assert forall|j: usize|
            final(picker).is_sel(j as int) == if ui.cur_page().contains(j) {
                !old(picker).is_sel(j as int)
            } else {
                old(picker).is_sel(j as int)
            } by {
            if ui.cur_page().contains(j) {
                let t = choose|t: int| 0 <= t < page.len() && page[t] == j;
                assert(0 <= t < k && page[t] as int == j as int);
            } else {
                assert forall|t: int| 0 <= t < k implies (#[trigger] page[t]) as int != j as int by {
                    if page[t] == j {
                        assert(ui.cur_page().contains(j));
                    }
                }
            }
        }
    }
}

/// What committing one hint character does: a uniquely matched code
/// selects its slot's record and either ends the session or clears the
/// buffer; a dead-end character is reverted; a live prefix is kept.
pub open spec fn hint_commit_post(
    old_picker: Picker,
    new_picker: Picker,
    old_ui: Ui,
    new_ui: Ui,
    c: char,
    select_action: SelectAction,
    exit: bool,
) -> bool {
    let nb = old_ui.buffer_view().push(c);
    match old_ui.hints_view() {
        None => {
            &&& picker_same(old_picker, new_picker)
            &&& new_ui.cursor_spec() == old_ui.cursor_spec()
            &&& new_ui.buffer_view() == old_ui.buffer_view()
            &&& !exit
        },
        Some(codes) => {
            if exists|t: int| 0 <= t < codes.len() && #[trigger] codes[t] == nb {
                &&& (forall|t: int|
                    0 <= t < codes.len() && #[trigger] codes[t] == nb ==> {
                        &&& new_ui.cursor_spec() == t
                        &&& (forall|j: int|
                            new_picker.is_sel(j) == if j == old_ui.cur_page()[t] {
                                !old_picker.is_sel(j)
                            } else {
                                old_picker.is_sel(j)
                            })
                        &&& new_picker.sel_set() == toggle_spec(
                            old_picker.sel_set(),
                            old_ui.cur_page()[t],
                        )
                    })
                &&& exit == (select_action is Exit)
                &&& (select_action is Exit ==> new_ui.buffer_view() == nb)
                &&& (!(select_action is Exit) ==> new_ui.buffer_view().len() == 0)
            } else if exists|t: int|
                0 <= t < codes.len() && nb.is_prefix_of(#[trigger] codes[t]) {
                &&& picker_same(old_picker, new_picker)
                &&& new_ui.cursor_spec() == old_ui.cursor_spec()
                &&& new_ui.buffer_view() == nb
                &&& !exit
            } else {
                &&& picker_same(old_picker, new_picker)
                &&& new_ui.cursor_spec() == old_ui.cursor_spec()
                &&& new_ui.buffer_view() == old_ui.buffer_view()
                &&& !exit
            }
        },
    }
}

/// Append a hint character and act on the match: a uniquely matched code
/// selects its slot's record and either ends the session or clears the
/// buffer for the next pick; a dead-end character is reverted; a live
/// prefix is kept, awaiting more characters.
#[verifier::rlimit(50)]
#[verifier::spinoff_prover]
pub fn commit_hint_char(picker: &mut Picker, ui: &mut Ui, c: char, select_action: SelectAction) -> (exit:
    bool)
    requires
        old(picker).wf(),
        old(ui).wf(),
        compat(*old(ui), *old(picker)),
        old(ui).mode_spec() is Hint,
    ensures
        final(picker).wf(),
        final(ui).wf(),
        compat(*final(ui), *final(picker)),
        final(picker).lines_view() == old(picker).lines_view(),
        final(picker).filter_view() == old(picker).filter_view(),
        final(picker).opts_spec() == old(picker).opts_spec(),
        final(ui).mode_spec() == old(ui).mode_spec(),
        final(ui).pages_views() == old(ui).pages_views(),
        final(ui).page_spec() == old(ui).page_spec(),
        final(ui).page_size_spec() == old(ui).page_size_spec(),
        final(ui).hints_view() == old(ui).hints_view(),
        final(ui).opts_spec() == old(ui).opts_spec(),
        hint_commit_post(
            *old(picker),
            *final(picker),
            *old(ui),
            *final(ui),
            c,
            select_action,
            exit,
        ),
{
    ui.push_to_input_buffer(c);
    let (hit, valid) = ui.match_hint();
    match hit {
        Some(idx) => {
            proof {
                Ui::lemma_wf_facts(*ui);
            }
            ui.set_cursor(idx);
            match ui.line_under_cursor() {
                Some(choice) => {
                    proof {
                        Ui::lemma_wf_facts(*ui);
                        assert(ui.pages_views() == old(ui).pages_views());
                        assert(ui.page_spec() < ui.pages_views().len());
                        lemma_compat_bound(
                            *old(ui),
                            *old(picker),
                            ui.page_spec(),
                            idx as int,
                        );
                    }
                    picker.toggle_selection(choice);
                    proof {
                        let codes = old(ui).hints_view()->0;
                        let nb = old(ui).buffer_view().push(c);
                        assert forall|t: int|
                            0 <= t < codes.len() && #[trigger] codes[t] == nb
                            implies ui.cursor_spec() == t by {
                            if t != idx as int {
                                if t < idx as int {
                                    assert(codes[t] != codes[idx as int]);
                                } else {
                                    assert(codes[idx as int] != codes[t]);
                                }
                            }
                        }
                    }
                    if select_action == SelectAction::Exit {
                        true
                    } else {
                        ui.clear_input_buffer();
                        false
                    }
                },
                None => {
                    proof {
                        assert(false);
                    }
                    false
                },
            }
        },
        None => {
            if !valid {
                ui.pop_from_input_buffer();
                proof {
                    assert(ui.buffer_view() =~= old(ui).buffer_view());
                }
            }
            false
        },
    }
}

/// Execute one command against the store and the viewport, returning
/// whether the session ends.
pub fn dispatch(picker: &mut Picker, ui: &mut Ui, cmd: Command) -> (exit: bool)
    requires
        old(picker).wf(),
        old(ui).wf(),
        compat(*old(ui), *old(picker)),
        command_allowed(old(ui).mode_spec(), cmd),
    ensures
        final(picker).wf(),
        final(ui).wf(),
        compat(*final(ui), *final(picker)),
        final(picker).lines_view() == old(picker).lines_view(),
        final(picker).opts_spec() == old(picker).opts_spec(),
        final(ui).page_size_spec() == old(ui).page_size_spec(),
        final(ui).opts_spec() == old(ui).opts_spec(),
        (match cmd {
            Command::EnterMode(m) => {
                &&& !exit
                &&& picker_same(*old(picker), *final(picker))
                &&& final(ui).mode_spec() == m
                &&& final(ui).cursor_spec() == old(ui).cursor_spec()
                &&& final(ui).page_spec() == old(ui).page_spec()
                &&& final(ui).pages_views() == old(ui).pages_views()
                &&& (old(ui).mode_spec() is Normal && m is Hint ==> {
                    &&& (old(ui).cur_page_len() >= 1 ==> final(ui).hints_view() == Some(
                        crate::hints::spec_page_hints(
                            old(ui).cur_page_len(),
                            old(ui).opts_spec().hint_alphabet@,
                        ),
                    ))
                    &&& (old(ui).cur_page_len() == 0 ==> final(ui).hints_view() is None)
                    &&& final(ui).buffer_view().len() == 0
                })
                &&& (old(ui).mode_spec() is Hint && m is Normal ==> final(ui).hints_view()
                    is None && final(ui).buffer_view().len() == 0)
                &&& (old(ui).mode_spec() is Normal && m is Filter ==> final(ui).buffer_view()
                    == old(picker).filter_view() && final(ui).hints_view() == old(
                    ui,
                ).hints_view())
            },
            Command::MoveUp => {
                &&& !exit
                &&& picker_same(*old(picker), *final(picker))
                &&& Ui::same_but_cursor(*old(ui), *final(ui))
                &&& final(ui).cursor_spec() == if old(ui).cursor_spec() == 0 {
                    0int
                } else {
                    old(ui).cursor_spec() - 1
                }
            },
            Command::MoveDown => {
                &&& !exit
                &&& picker_same(*old(picker), *final(picker))
                &&& Ui::same_but_cursor(*old(ui), *final(ui))
                &&& final(ui).cursor_spec() == if old(ui).cur_page_len() == 0 {
                    old(ui).cursor_spec()
                } else if old(ui).cursor_spec() + 1 < old(ui).cur_page_len() {
                    old(ui).cursor_spec() + 1
                } else {
                    old(ui).cur_page_len() - 1
                }
            },
            Command::PreviousPage => {
                &&& !exit
                &&& picker_same(*old(picker), *final(picker))
                &&& final(ui).pages_views() == old(ui).pages_views()
                &&& final(ui).mode_spec() == old(ui).mode_spec()
                &&& final(ui).buffer_view() == old(ui).buffer_view()
                &&& final(ui).page_spec() == if old(ui).page_spec() == 0 {
                    0int
                } else {
                    old(ui).page_spec() - 1
                }
            },
            Command::NextPage => {
                &&& !exit
                &&& picker_same(*old(picker), *final(picker))
                &&& final(ui).pages_views() == old(ui).pages_views()
                &&& final(ui).mode_spec() == old(ui).mode_spec()
                &&& final(ui).buffer_view() == old(ui).buffer_view()
                &&& final(ui).page_spec() == if old(ui).pages_views().len() == 0 {
                    0int
                } else if old(ui).page_spec() + 1 < old(ui).pages_views().len() {
                    old(ui).page_spec() + 1
                } else {
                    old(ui).pages_views().len() - 1
                }
            },
            Command::ToggleSelection(sa) => {
                &&& Ui::same_ui(*old(ui), *final(ui))
                &&& final(picker).filter_view() == old(picker).filter_view()
                &&& (if old(ui).cursor_spec() < old(ui).cur_page_len() {
                    ({
                        let g = old(ui).cur_page()[old(ui).cursor_spec()];
                        &&& (forall|j: int|
                            final(picker).is_sel(j) == if j == g {
                                !old(picker).is_sel(j)
                            } else {
                                old(picker).is_sel(j)
                            })
                        &&& final(picker).sel_set() == toggle_spec(old(picker).sel_set(), g)
                        &&& exit == (sa is Exit)
                    })
                } else {
                    picker_same(*old(picker), *final(picker)) && !exit
                })
            },
            Command::ToggleVisible => {
                &&& !exit
                &&& Ui::same_ui(*old(ui), *final(ui))
                &&& final(picker).filter_view() == old(picker).filter_view()
                &&& (forall|j: usize|
                    final(picker).is_sel(j as int) == if old(ui).cur_page().contains(j) {
                        !old(picker).is_sel(j as int)
                    } else {
                        old(picker).is_sel(j as int)
                    })
            },
            Command::ShowSelection => {
                &&& !exit
                &&& picker_same(*old(picker), *final(picker))
                &&& final(ui).mode_spec() == Mode::DisplaySelection
                &&& final(ui).cursor_spec() == old(ui).cursor_spec()
                &&& final(ui).page_spec() == old(ui).page_spec()
                &&& final(ui).pages_views() == old(ui).pages_views()
                &&& final(ui).buffer_view() == old(ui).buffer_view()
                &&& final(ui).hints_view() == old(ui).hints_view()
            },
            Command::FilterPush(c) => ({
                let nb = old(ui).buffer_view().push(c);
                &&& !exit
                &&& picker_same(*old(picker), *final(picker))
                &&& final(ui).mode_spec() == old(ui).mode_spec()
                &&& final(ui).buffer_view() == nb
                &&& final(ui).pages_views() == spec_chunks(
                    old(picker).visible_indices(nb),
                    old(ui).page_size_spec(),
                )
                &&& final(ui).page_spec() == 0
                &&& final(ui).hints_view() is None
            }),
            Command::FilterPop => ({
                let nb = if old(ui).buffer_view().len() == 0 {
                    old(ui).buffer_view()
                } else {
                    old(ui).buffer_view().drop_last()
                };
                &&& !exit
                &&& picker_same(*old(picker), *final(picker))
                &&& final(ui).mode_spec() == old(ui).mode_spec()
                &&& final(ui).buffer_view() == nb
                &&& final(ui).pages_views() == spec_chunks(
                    old(picker).visible_indices(nb),
                    old(ui).page_size_spec(),
                )
                &&& final(ui).page_spec() == 0
                &&& final(ui).hints_view() is None
            }),
            Command::SaveFilter => {
                &&& !exit
                &&& final(picker).lines_view() == old(picker).lines_view()
                &&& final(picker).filter_view() == old(ui).buffer_view()
                &&& (forall|j: int| final(picker).is_sel(j) == old(picker).is_sel(j))
                &&& final(ui).mode_spec() == Mode::Normal
                &&& final(ui).pages_views() == old(ui).pages_views()
                &&& final(ui).page_spec() == old(ui).page_spec()
                &&& final(ui).cursor_spec() == old(ui).cursor_spec()
            },
            Command::DiscardFilter => {
                &&& !exit
                &&& picker_same(*old(picker), *final(picker))
                &&& final(ui).mode_spec() == Mode::Normal
                &&& final(ui).pages_views() == spec_chunks(
                    old(picker).visible_indices(old(picker).filter_view()),
                    old(ui).page_size_spec(),
                )
                &&& final(ui).page_spec() == 0
                &&& final(ui).hints_view() is None
            },
            Command::AddHintChar(c, sa) => {
                &&& final(ui).mode_spec() == old(ui).mode_spec()
                &&& final(ui).pages_views() == old(ui).pages_views()
                &&& final(ui).page_spec() == old(ui).page_spec()
                &&& final(ui).hints_view() == old(ui).hints_view()
                &&& final(picker).filter_view() == old(picker).filter_view()
                &&& hint_commit_post(
                    *old(picker),
                    *final(picker),
                    *old(ui),
                    *final(ui),
                    c,
                    sa,
                    exit,
                )
            },
            Command::RemoveHintChar => {
                &&& !exit
                &&& picker_same(*old(picker), *final(picker))
                &&& Ui::same_but_buffer(*old(ui), *final(ui))
                &&& final(ui).buffer_view() == if old(ui).buffer_view().len() == 0 {
                    old(ui).buffer_view()
                } else {
                    old(ui).buffer_view().drop_last()
                }
            },
            Command::Exit => {
                &&& exit
                &&& picker_same(*old(picker), *final(picker))
                &&& Ui::same_ui(*old(ui), *final(ui))
            },
        }),
{
    match cmd {
        Command::EnterMode(m) => {
            let was_normal = match ui.mode() {
                Mode::Normal => true,
                _ => false,
            };
            let to_filter = match m {
                Mode::Filter => true,
                _ => false,
            };
            ui.change_mode(m);
            if was_normal && to_filter {
                let f = picker.filter_text();
                ui.set_input_buffer(f);
            }
            false
        },
        Command::MoveUp => {
            ui.move_cursor_up();
            false
        },
        Command::MoveDown => {
            ui.move_cursor_down();
            false
        },
        Command::PreviousPage => {
            proof {
                Ui::lemma_wf_facts(*ui);
            }
            ui.previous_page();
            false
        },
        Command::NextPage => {
            proof {
                Ui::lemma_wf_facts(*ui);
            }
            ui.next_page();
            false
        },
        Command::ToggleSelection(sa) => {
            match ui.line_under_cursor() {
                Some(choice) => {
                    proof {
                        Ui::lemma_wf_facts(*ui);
                        lemma_compat_bound(
                            *old(ui),
                            *old(picker),
                            ui.page_spec(),
                            ui.cursor_spec(),
                        );
                    }
                    picker.toggle_selection(choice);
                    sa == SelectAction::Exit
                },
                None => false,
            }
        },
        Command::ToggleVisible => {
            toggle_selection_for_visible(picker, ui);
            false
        },
        Command::ShowSelection => {
            ui.change_mode(Mode::DisplaySelection);
            false
        },
        Command::FilterPush(c) => {
            proof {
                Ui::lemma_wf_facts(*ui);
            }
            ui.push_to_input_buffer(c);
            refilter(picker, ui);
            false
        },
        Command::FilterPop => {
            proof {
                Ui::lemma_wf_facts(*ui);
            }
            ui.pop_from_input_buffer();
            refilter(picker, ui);
            false
        },
        Command::SaveFilter => {
            let f = ui.input_buffer().clone();
            picker.persist_filter(f);
            ui.change_mode(Mode::Normal);
            false
        },
        Command::DiscardFilter => {
            proof {
                Ui::lemma_wf_facts(*ui);
            }
            let prev = picker.filter_text();
            ui.set_input_buffer(prev);
            refilter(picker, ui);
            ui.change_mode(Mode::Normal);
            false
        },
        Command::AddHintChar(c, sa) => commit_hint_char(picker, ui, c, sa),
        Command::RemoveHintChar => {
            ui.pop_from_input_buffer();
            false
        },
        Command::Exit => true,
    }
}

} // verus!
