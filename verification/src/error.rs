//! Error kinds of the query fabric.

use vstd::prelude::*;

verus! {

/// One error surfaced by the fabric, with a human-readable message.
///
/// - `Plan`: rejected by the planner (missing table, unsupported shape).
/// - `Io`: object-store failure, surfaced per cached range.
/// - `Execution`: raised inside the columnar reader or the merge plan.
/// - `Internal`: a violated invariant (zero partitions, missing scan leaf,
///   duplicate execution of a query id).
/// - `NotImplemented`: a query shape the fabric does not support.
/// - `RemoteFail`: a FAIL control message received from a scanner.
#[derive(Debug)]
pub enum BuzzError {
    Plan(String),
    Io(String),
    Execution(String),
    Internal(String),
    NotImplemented(String),
    RemoteFail(String),
}

impl BuzzError {
    /// The message carried by the error, whatever its kind.
    pub open spec fn message_spec(&self) -> Seq<char> {
        match self {
            BuzzError::Plan(m) => m@,
            BuzzError::Io(m) => m@,
            BuzzError::Execution(m) => m@,
            BuzzError::Internal(m) => m@,
            BuzzError::NotImplemented(m) => m@,
            BuzzError::RemoteFail(m) => m@,
        }
    }

    /// Returns the carried message.
    pub fn message(&self) -> (r: String)
        ensures
            r@ == self.message_spec(),
    {
        match self {
            BuzzError::Plan(m) => m.clone(),
            BuzzError::Io(m) => m.clone(),
            BuzzError::Execution(m) => m.clone(),
            BuzzError::Internal(m) => m.clone(),
            BuzzError::NotImplemented(m) => m.clone(),
            BuzzError::RemoteFail(m) => m.clone(),
        }
    }
}

impl Clone for BuzzError {
    fn clone(&self) -> (r: Self)
        ensures
            r == *self,
    {
        match self {
            BuzzError::Plan(m) => BuzzError::Plan(m.clone()),
            BuzzError::Io(m) => BuzzError::Io(m.clone()),
            BuzzError::Execution(m) => BuzzError::Execution(m.clone()),
            BuzzError::Internal(m) => BuzzError::Internal(m.clone()),
            BuzzError::NotImplemented(m) => BuzzError::NotImplemented(m.clone()),
            BuzzError::RemoteFail(m) => BuzzError::RemoteFail(m.clone()),
        }
    }
}

} // verus!
