use vstd::prelude::*;

verus! {

/// The failure taxonomy of the library.
///
/// `IoError`: an unreadable or missing file or directory (raised by the
/// unverified shell around the library and mapped in).
/// `FormatError`: malformed identifier text or malformed cache/ledger
/// content.
/// `EmptyPoolError`: no eligible target across all considered pools.
/// `NotFoundError`: a named pool absent from the configuration.
/// `InvariantViolation`: an operation that must not proceed, such as using
/// a partial identifier as an exact hash key.
#[derive(Clone, Copy, Debug, PartialEq, Eq, Structural)]
pub enum PsiError {
    IoError,
    FormatError,
    EmptyPoolError,
    NotFoundError,
    InvariantViolation,
}

impl PsiError {
    /// A short diagnostic label for display by callers.
    pub fn describe(&self) -> (r: &'static str)
        ensures
            *self == PsiError::IoError ==> r@ == "unreadable or missing file or directory"@,
            *self == PsiError::FormatError ==> r@ == "malformed input"@,
            *self == PsiError::EmptyPoolError ==> r@ == "no eligible targets in any pool"@,
            *self == PsiError::NotFoundError ==> r@ == "no such pool"@,
            *self == PsiError::InvariantViolation ==> r@ == "operation violates an invariant"@,
    {
        match self {
            PsiError::IoError => "unreadable or missing file or directory",
            PsiError::FormatError => "malformed input",
            PsiError::EmptyPoolError => "no eligible targets in any pool",
            PsiError::NotFoundError => "no such pool",
            PsiError::InvariantViolation => "operation violates an invariant",
        }
    }
}

} // verus!
