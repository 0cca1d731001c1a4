use vstd::prelude::*;

verus! {

/// Errors reported by the library.
#[derive(Debug, Clone, PartialEq, Eq)]
pub enum WmError {
    /// An expected parent, monitor or ancestor is missing: the tree is malformed.
    TreeInvariantViolation,
    /// A sizing string does not follow its grammar; the offending input is kept.
    Parse(String),
    /// The operation makes no sense for this container (the root has no position).
    UnsupportedOperation,
}

} // verus!
