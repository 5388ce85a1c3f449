//! The editor's modes and the prompt symbol of each.
use vstd::prelude::*;

verus! {

#[derive(Debug, Clone, Copy, PartialEq, Eq, Structural)]
pub enum Mode {
    Draft,
    History,
    Ai,
    CommandRunning,
    Passthrough,
    ExternalEditor,
    PasteReviewEditor,
    Picker,
    UnlockPassthrough,
}

impl Mode {
    /// The prompt symbol: `$` for history, `%` for AI, `>` otherwise.
    pub open spec fn spec_symbol(self) -> char {
        match self {
            Mode::History => '$',
            Mode::Ai => '%',
            _ => '>',
        }
    }

    /// The primary modes cycle draft, history, AI; any other mode goes
    /// back to draft.
    pub open spec fn spec_next_primary(self) -> Mode {
        match self {
            Mode::Draft => Mode::History,
            Mode::History => Mode::Ai,
            _ => Mode::Draft,
        }
    }

    pub fn symbol(self) -> (r: char)
        ensures
            r == self.spec_symbol(),
    {
        match self {
            Mode::Draft => '>',
            Mode::History => '$',
            Mode::Ai => '%',
            Mode::CommandRunning | Mode::Passthrough | Mode::ExternalEditor | Mode::PasteReviewEditor
            | Mode::Picker | Mode::UnlockPassthrough => '>',
        }
    }

    pub fn next_primary(self) -> (r: Mode)
        ensures
            r == self.spec_next_primary(),
    {
        match self {
            Mode::Draft => Mode::History,
            Mode::History => Mode::Ai,
            Mode::Ai => Mode::Draft,
            _ => Mode::Draft,
        }
    }
}

/// Three steps of the primary cycle lead back to the mode one started from.
pub proof fn primary_cycle_returns(m: Mode)
    requires
        m == Mode::Draft || m == Mode::History || m == Mode::Ai,
    ensures
        m.spec_next_primary().spec_next_primary().spec_next_primary() == m,
{
}

} // verus!
