//! The modal states of the input editor.

use vstd::prelude::*;

verus! {

/// The editing mode of the input area when modal key bindings are on.
#[derive(Debug, Clone, Copy, PartialEq, Eq, Structural)]
pub enum Mode {
    /// Keys move and operate.
    Normal,
    /// Keys insert text.
    Insert,
    /// Keys extend the selection.
    Visual,
    /// An operator key waits for its motion.
    Operator(char),
}

impl Mode {
    /// The title text for the mode; every operator-pending mode is titled
    /// `Operator`.
    pub fn label(&self) -> (r: &'static str)
        ensures
            r@ == match *self {
                Mode::Normal => "Normal"@,
                Mode::Insert => "Insert"@,
                Mode::Visual => "Visual"@,
                Mode::Operator(_) => "Operator"@,
            },
    {
        match self {
            Mode::Normal => "Normal",
            Mode::Insert => "Insert",
            Mode::Visual => "Visual",
            Mode::Operator(_) => "Operator",
        }
    }
}

} // verus!
