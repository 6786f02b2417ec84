//! Error kinds raised by the language core, and the error value carried out
//! of a failed evaluation.

use vstd::prelude::*;

verus! {

/// The complete set of error kinds the core raises.
#[derive(Debug, Clone, Copy, PartialEq, Eq, Structural)]
pub enum ErrorKind {
    /// Malformed source text.
    Parse,
    /// A value of the wrong variant for the operation.
    TypeMismatch,
    /// Wrong number of arguments to a primitive, lambda or special form.
    ArityMismatch,
    /// A name not bound in any visible frame.
    FreeIdentifier,
    /// A well-formed S-expression that is a malformed special form.
    BadSyntax,
    /// A token present where none is expected.
    UnexpectedToken,
    /// `eval`'s argument is not AST-convertible, or a user-declared contract
    /// failed.
    ContractViolation,
    /// Catch-all with a message; also raised when the evaluation budget is
    /// exhausted.
    Generic,
}

/// An error value: its kind, and a human-readable message. Contracts speak
/// of the kind; the message is diagnostic only.
#[derive(Debug, Clone)]
pub struct SteelErr {
    pub kind: ErrorKind,
    pub message: String,
}

impl View for SteelErr {
    type V = ErrorKind;

    open spec fn view(&self) -> ErrorKind {
        self.kind
    }
}

impl SteelErr {
    pub fn new(kind: ErrorKind, message: String) -> (r: SteelErr)
        ensures
            r@ == kind,
    {
        SteelErr { kind, message }
    }

    /// The diagnostic message, for hosts that surface errors.
    pub fn message(&self) -> (r: String)
        ensures
            r@ == self.message@,
    {
        self.message.clone()
    }

    /// The kind of this error.
    pub fn error_kind(&self) -> (r: ErrorKind)
        ensures
            r == self@,
    {
        self.kind
    }
}

} // verus!
