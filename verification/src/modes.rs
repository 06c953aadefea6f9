//! Interaction modes of the picker session.
use vstd::prelude::*;

verus! {

/// What a successful selection does next: end the session, or stay in the
/// session so more records can be picked.
#[derive(Clone, Copy, PartialEq, Eq, Structural, Debug)]
pub enum SelectAction {
    Exit,
    Stay,
}

/// The interaction mode. `Hint` carries what a successful hint match should
/// do with the session.
#[derive(Clone, Copy, PartialEq, Eq, Structural, Debug)]
pub enum Mode {
    Normal,
    Filter,
    Hint(SelectAction),
    DisplaySelection,
}

} // verus!
