//! The errors that commands of a shell report.
use vstd::prelude::*;

use crate::format::{io_error_message, AsFormatted};
use vstd::string::StringExecFns;

verus! {

pub type ShellUiResult<T> = Result<T, ShellUiError>;

/// An error of a shell command: a failure, a warning, or the user's interrupt.
#[derive(Debug)]
pub enum ShellUiError {
    Error(std::io::Error),
    Warning(String),
    Interrupt,
}

/// `Interrupt`
pub open spec fn interrupt_text() -> Seq<char> {
    seq!['I', 'n', 't', 'e', 'r', 'r', 'u', 'p', 't']
}

/// Relies on `std::io::Error::kind`: whether the error's kind is
/// `ErrorKind::Interrupted`. Nothing is claimed, the kind being hidden.
#[verifier::external_body]
fn is_interrupted(error: &std::io::Error) -> bool {
    matches!(error.kind(), std::io::ErrorKind::Interrupted)
}

impl ShellUiError {
    /// The error for a failed I/O operation: the user's interrupt where the
    /// operation was interrupted, the failure itself otherwise.
    pub fn from_io_error(error: std::io::Error) -> (r: Self)
        ensures
            r is Interrupt || r == ShellUiError::Error(error),
    {
        if is_interrupted(&error) {
            ShellUiError::Interrupt
        } else {
            ShellUiError::Error(error)
        }
    }

    /// A warning with the text of `message`.
    pub fn warning<S: AsFormatted>(message: S) -> (r: Self)
        ensures
            r matches ShellUiError::Warning(m) && m@ == message.unformatted(),
    {
        ShellUiError::Warning(message.as_unformatted())
    }

    /// The user's interrupt.
    pub fn interrupt() -> (r: Self)
        ensures
            r is Interrupt,
    {
        ShellUiError::Interrupt
    }

    /// The plain text of the error: the failure's own message, the warning's
    /// text, or `Interrupt`.
    pub fn as_unformatted(&self) -> (r: String)
        ensures
            self matches ShellUiError::Warning(m) ==> r@ == m@,
            self is Interrupt ==> r@ == interrupt_text(),
    {
        match self {
            ShellUiError::Error(error) => io_error_message(error),
            ShellUiError::Warning(message) => message.clone(),
            ShellUiError::Interrupt => {
                proof {
                    reveal_strlit("Interrupt");
                }
                let r = String::from_str("Interrupt");
                assert(r@ =~= interrupt_text());
                r
            },
        }
    }
}

} // verus!
