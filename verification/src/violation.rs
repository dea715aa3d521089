//! The reasons for which a request is rejected.

use vstd::prelude::*;

verus! {

/// Why a request was rejected. A rejected request changes nothing.
#[derive(Clone, Copy, Debug, PartialEq, Eq, Hash, Structural)]
pub enum Violation {
    /// The request names no origin actor.
    NullOrigin,
    /// The instance that the request was computed against is not the one
    /// in the live snapshot.
    Stale,
    /// The operation was written for another payload type than that of
    /// the node it targets.
    TypeMismatch,
    /// The snapshot has used up its stamps.
    Exhausted,
}

impl Violation {
    /// A short description of the violation.
    pub fn describe(&self) -> (text: &'static str)
        ensures
            text@ == match *self {
                Violation::NullOrigin => "received event without origin"@,
                Violation::Stale => "mutation does not apply to current version of node"@,
                Violation::TypeMismatch => "mutation does not apply to this type of node"@,
                Violation::Exhausted => "snapshot has no stamp left"@,
            },
    {
        match self {
            Violation::NullOrigin => "received event without origin",
            Violation::Stale => "mutation does not apply to current version of node",
            Violation::TypeMismatch => "mutation does not apply to this type of node",
            Violation::Exhausted => "snapshot has no stamp left",
        }
    }
}

} // verus!
