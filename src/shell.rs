//! What the shell does after a line.
use vstd::prelude::*;

verus! {

/// What the shell does once a line has run.
#[derive(Debug, Clone, Copy, PartialEq, Eq, Structural)]
pub enum ShellAction {
    /// Read the next line.
    Continue,
    /// Clear the screen, then read the next line.
    ClearScreen,
    /// Leave the shell.
    Eof,
}

/// What came of reading one line at the prompt.
#[derive(Debug, Clone, Copy, PartialEq, Eq, Structural)]
pub enum ReadOutcome {
    /// A line was read and run, asking for this action.
    Ran(ShellAction),
    /// The user interrupted the prompt.
    Interrupted,
    /// The input ended.
    Ended,
    /// Reading failed.
    Failed,
}

/// What the shell does after a read: the action the line asked for; read on
/// after an interrupt; leave when the input ends or reading fails.
pub fn next_action(outcome: ReadOutcome) -> (r: ShellAction)
    ensures
        r == (match outcome {
            ReadOutcome::Ran(action) => action,
            ReadOutcome::Interrupted => ShellAction::Continue,
            ReadOutcome::Ended | ReadOutcome::Failed => ShellAction::Eof,
        }),
{
    match outcome {
        ReadOutcome::Ran(action) => action,
        ReadOutcome::Interrupted => ShellAction::Continue,
        ReadOutcome::Ended | ReadOutcome::Failed => ShellAction::Eof,
    }
}

} // verus!
