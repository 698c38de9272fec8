use vstd::prelude::*;

verus! {

/// Whether a failure is a contract rejection or an operational failure.
#[derive(Debug, Clone, Copy, PartialEq, Eq, Structural)]
pub enum ErrorKind {
    Operational,
    Rejected,
}

/// A failure with its kind and its human-readable message.
#[derive(Debug)]
pub struct ActionError {
    pub kind: ErrorKind,
    pub message: String,
}

impl ActionError {
    /// An operational failure (I/O, a failed subprocess).
    pub fn operational(message: String) -> (e: Self)
        ensures
            e.kind == ErrorKind::Operational,
            e.message@ == message@,
    {
        ActionError { kind: ErrorKind::Operational, message }
    }

    /// A contract rejection.
    pub fn rejected(message: String) -> (e: Self)
        ensures
            e.kind == ErrorKind::Rejected,
            e.message@ == message@,
    {
        ActionError { kind: ErrorKind::Rejected, message }
    }

    /// The process exit code: 1 for operational failures, 2 for rejections.
    pub fn exit_code(&self) -> (code: i32)
        ensures
            code == (if self.kind == ErrorKind::Operational { 1i32 } else { 2i32 }),
    {
        match self.kind {
            ErrorKind::Operational => 1,
            ErrorKind::Rejected => 2,
        }
    }

    /// The message, as the error displays it.
    pub fn text(&self) -> (s: &str)
        ensures
            s@ == self.message@,
    {
        self.message.as_str()
    }
}

/// A rejection carrying the given literal message.
pub fn rejection(message: &str) -> (e: ActionError)
    ensures
        e.kind == ErrorKind::Rejected,
        e.message@ == message@,
{
    ActionError::rejected(message.to_owned())
}

/// An operational failure carrying the given literal message.
pub fn operational_failure(message: &str) -> (e: ActionError)
    ensures
        e.kind == ErrorKind::Operational,
        e.message@ == message@,
{
    ActionError::operational(message.to_owned())
}

} // verus!
