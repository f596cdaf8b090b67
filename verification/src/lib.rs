//! A transitive-set engine: an immutable, structurally shared DAG used to
//! represent large dependency graphs without materializing them as flat
//! collections. A `Definition` fixes, for every set built against it, which
//! per-node projections and fold-style reductions are available; sets are
//! built bottom-up against a store, frozen into a read-only form, and
//! enumerated by four deterministic traversal orderings that visit every
//! shared node exactly once.

pub mod definition;
pub mod errors;
pub mod evaluator;
pub mod globals;
pub mod methods;
pub mod projection;
pub mod set;
pub mod traversal;
pub mod value;
