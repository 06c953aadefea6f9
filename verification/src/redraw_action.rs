//! How much of the frame a renderer has to repaint after a command.
use vstd::prelude::*;

verus! {

/// The smallest region a renderer must repaint: one line, a pair of lines
/// (cursor moved from one to the other), the status bar, or everything.
#[derive(Clone, Copy, PartialEq, Eq, Structural, Debug)]
pub enum RedrawAction {
    SingleLine(usize),
    LinePair(usize, usize),
    Bar,
    All,
}

} // verus!
