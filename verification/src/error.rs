use vstd::prelude::*;

verus! {

/// Every failure a scheduling operation can surface.
///
/// Operations are fail-fast: the first failing step of a fluent chain or
/// of a folder walk aborts the whole operation and returns its error.
#[derive(Clone, Copy, Debug, PartialEq, Eq, Structural)]
pub enum TaskError {
    /// The service connection or its initialization failed.
    ServiceUnavailable,
    /// A folder or job was absent on lookup or delete.
    NotFound,
    /// The service rejected a trigger, action or settings value.
    InvalidConfiguration,
    /// The service rejected the final registration call.
    RegistrationFailed,
    /// The caller lacks the rights for the operation.
    AccessDenied,
}

} // verus!
