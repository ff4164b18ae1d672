use vstd::prelude::*;

verus! {

/// Failure taxonomy shared by both engines. Every operation either returns a
/// value or aborts the whole call with one of these; an aborted call leaves
/// the state untouched.
#[derive(Clone, Copy, Debug, PartialEq, Eq, Structural)]
pub enum Error {
    /// A loan, stream or profile record with the given key does not exist.
    NotFound,
    /// The caller is not the stakeholder recorded on the record.
    Unauthorized,
    /// A malformed argument: a risk tier outside the table, a non-positive
    /// or negative amount.
    InvalidArgument,
    /// The operation is not valid for the record's current status.
    InvalidState,
    /// A business rule blocks the operation: an outstanding loan exists, or
    /// the requested amount exceeds the available balance.
    BusinessRuleViolation,
}

} // verus!
