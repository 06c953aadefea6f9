//! Keys as the terminal layer decodes them, and the commands they are
//! translated to, mode by mode.
use crate::modes::{Mode, SelectAction};
use vstd::prelude::*;

verus! {

/// A decoded key press. The terminal layer reduces every input event to one
/// of these before the engine sees it.
#[derive(Clone, Copy, PartialEq, Eq, Structural, Debug)]
pub enum Key {
    Enter,
    Esc,
    Backspace,
    Up,
    Down,
    Char(char),
}

/// A command the engine executes against the picker and viewport state.
#[derive(Clone, Copy, PartialEq, Eq, Structural, Debug)]
pub enum Command {
    EnterMode(Mode),
    MoveUp,
    MoveDown,
    PreviousPage,
    NextPage,
    ToggleSelection(SelectAction),
    ToggleVisible,
    ShowSelection,
    FilterPush(char),
    FilterPop,
    SaveFilter,
    DiscardFilter,
    AddHintChar(char, SelectAction),
    RemoveHintChar,
    Exit,
}

} // verus!
