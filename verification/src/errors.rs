//! The engine's error kinds. Construction-time errors abort the whole
//! construction (there is no partial set); query-time errors are ordinary
//! recoverable results.

use vstd::prelude::*;

verus! {

/// Why a projection or reduction callback's work was rejected: either the
/// callback itself failed, with its own message, or it returned a value that
/// the projection kind's contract refuses.
#[derive(Debug)]
pub enum CallbackFailure {
    /// The external evaluator reported a failure running the callback.
    EvaluationFailed(String),
    /// The callback returned a value of the named shape, which the projection
    /// kind does not accept.
    InvalidShape(String),
}

#[derive(Debug)]
pub enum TransitiveSetError {
    /// The definition has not been exported yet (it carries no identity
    /// token), so no set may be built against it.
    TransitiveSetUsedBeforeAssignment,
    /// A child was built against a different definition.
    TransitiveValueIsOfWrongType { expected: String, got: String },
    /// A supposed child is not a transitive set at all; `got` names the shape
    /// it had instead.
    TransitiveValueIsNotTransitiveSet { got: String },
    /// A projection callback failed; `name` is the projection's name.
    ProjectionError { name: String, cause: CallbackFailure },
    /// A reduction callback failed; `name` is the reduction's name.
    ReductionError { name: String, cause: CallbackFailure },
    /// A reduction name was looked up that the definition does not declare.
    ReductionDoesNotExist { reduction: String, valid_reductions: Vec<String> },
    /// A projection name was looked up that the definition does not declare
    /// under the requested kind.
    ProjectionDoesNotExist { projection: String, valid_projections: Vec<String> },
    /// A projection index was used that the definition does not declare.
    InvalidProjectionId { index: usize },
    /// An ordering name was not one of `preorder`, `postorder`, `topological`
    /// or `bfs`.
    InvalidOrdering { got: String },
    /// A child set's reduction slot was absent: an internal-consistency fault
    /// of a partially built child, not a user error.
    MissingReduction { index: usize },
}

} // verus!
