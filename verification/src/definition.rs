//! Definitions: the immutable schema objects that fix, for every transitive
//! set built against them, which per-node projections and which fold-style
//! reductions are available. A definition is compared by its identity token,
//! never by shape: two definitions with textually identical specs are still
//! different schemas.

use vstd::prelude::*;

use crate::errors::TransitiveSetError;

verus! {

/// Compares two string slices by content.
pub fn str_eq(a: &str, b: &str) -> (r: bool)
    ensures
        r == (a@ == b@),
{
    let sa = a.to_owned();
    let sb = b.to_owned();
    sa == sb
}

/// The two projection kinds. An `Args` projection must produce a value
/// coercible to a command-line fragment; a `Json` projection must produce a
/// JSON-serializable value.
#[derive(Clone, Copy, Debug, PartialEq, Eq, Structural)]
pub enum TransitiveSetProjectionKind {
    Args,
    Json,
}

/// One named projection: its kind and the handle of the callback that the
/// external evaluator runs to compute it.
#[derive(Debug)]
pub struct ProjectionSpec {
    pub name: String,
    pub kind: TransitiveSetProjectionKind,
    /// Callback handle, interpreted by the external evaluator.
    pub projection: u64,
}

/// One named reduction: the handle of its reduce callback.
#[derive(Debug)]
pub struct ReductionSpec {
    pub name: String,
    /// Callback handle, interpreted by the external evaluator.
    pub reduce: u64,
}

/// An immutable schema for a family of transitive sets: ordered projection
/// specs, ordered reduction specs, and (once exported) a process-unique
/// identity token used for runtime type matching.
#[derive(Debug)]
pub struct TransitiveSetDefinition {
    /// The exported name of the definition, used in diagnostics.
    pub name: String,
    pub projections: Vec<ProjectionSpec>,
    pub reductions: Vec<ReductionSpec>,
    /// The schema identity token. `None` until the definition is exported;
    /// building a set against an unexported definition fails.
    pub set_type_instance_id: Option<u64>,
}

/// Whether `i` is the position of the first reduction spec named `name`.
pub open spec fn first_reduction_match(reductions: Seq<ReductionSpec>, name: Seq<char>, i: int) -> bool {
    0 <= i < reductions.len() && reductions[i].name@ == name && forall|j: int|
        0 <= j < i ==> (#[trigger] reductions[j]).name@ != name
}

/// Whether projection spec `p` matches a lookup for `name` under `kind`.
pub open spec fn projection_spec_matches(
    p: ProjectionSpec,
    kind: TransitiveSetProjectionKind,
    name: Seq<char>,
) -> bool {
    p.name@ == name && p.kind == kind
}

impl TransitiveSetDefinition {
    /// A fresh, not yet exported definition.
    pub fn new(name: String, projections: Vec<ProjectionSpec>, reductions: Vec<ReductionSpec>) -> (r: Self)
        ensures
            r.name == name,
            r.projections == projections,
            r.reductions == reductions,
            r.set_type_instance_id is None,
    {
        TransitiveSetDefinition { name, projections, reductions, set_type_instance_id: None }
    }

    /// Exports the definition, assigning it the identity token that makes it
    /// usable for construction. The token must be process-unique; its
    /// uniqueness is the caller's charge.
    pub fn export(self, token: u64) -> (r: Self)
        ensures
            r.name == self.name,
            r.projections == self.projections,
            r.reductions == self.reductions,
            r.set_type_instance_id == Some(token),
    {
        TransitiveSetDefinition {
            name: self.name,
            projections: self.projections,
            reductions: self.reductions,
            set_type_instance_id: Some(token),
        }
    }

    /// Whether the definition has been exported (carries an identity token).
    pub fn has_id(&self) -> (r: bool)
        ensures
            r == (self.set_type_instance_id is Some),
    {
        self.set_type_instance_id.is_some()
    }

    /// The index of the projection named `name` under `kind`, or an error
    /// naming the invalid name and listing the names valid under that kind.
    pub fn get_index_of_projection(&self, kind: TransitiveSetProjectionKind, name: &str) -> (r: Result<usize, TransitiveSetError>)
        ensures
            match r {
                Ok(i) => 0 <= i < self.projections@.len()
                    && projection_spec_matches(self.projections@[i as int], kind, name@)
                    && forall|j: int| 0 <= j < i ==> !projection_spec_matches(
                        self.projections@[j], kind, name@),
                Err(e) => (forall|j: int| 0 <= j < self.projections@.len()
                        ==> !projection_spec_matches(#[trigger] self.projections@[j], kind, name@))
                    && (e matches TransitiveSetError::ProjectionDoesNotExist {
                            projection, valid_projections }
                        && projection@ == name@
                        && valid_projections@.len() <= self.projections@.len()),
            },
    {
        let mut i: usize = 0;
        while i < self.projections.len()
            invariant
                i <= self.projections@.len(),
                forall|j: int| 0 <= j < i ==> !projection_spec_matches(
                    #[trigger] self.projections@[j], kind, name@),
            decreases self.projections@.len() - i,
        {
            let p = &self.projections[i];
            if p.kind == kind && str_eq(p.name.as_str(), name) {
                return Ok(i);
            }
            i = i + 1;
        }
        let mut valid: Vec<String> = Vec::new();
        let mut k: usize = 0;
        while k < self.projections.len()
            invariant
                valid@.len() <= k,
                k <= self.projections@.len(),
            decreases self.projections@.len() - k,
        {
            let p = &self.projections[k];
            if p.kind == kind {
                valid.push(p.name.clone());
            }
            k = k + 1;
        }
        Err(TransitiveSetError::ProjectionDoesNotExist {
            projection: name.to_owned(),
            valid_projections: valid,
        })
    }

    /// The index of the reduction named `name`, or an error naming the
    /// invalid name and listing the valid names.
    pub fn reduction_index(&self, name: &str) -> (r: Result<usize, TransitiveSetError>)
        ensures
            match r {
                Ok(i) => 0 <= i < self.reductions@.len() && self.reductions@[i as int].name@
                    == name@ && forall|j: int| 0 <= j < i
                    ==> (#[trigger] self.reductions@[j]).name@ != name@,
                Err(e) => (forall|j: int| 0 <= j < self.reductions@.len()
                        ==> (#[trigger] self.reductions@[j]).name@ != name@)
                    && (e matches TransitiveSetError::ReductionDoesNotExist {
                            reduction, valid_reductions }
                        && reduction@ == name@
                        && valid_reductions@.len() == self.reductions@.len()
                        && forall|j: int| 0 <= j < self.reductions@.len()
                            ==> (#[trigger] valid_reductions@[j])@
                                == self.reductions@[j].name@),
            },
    {
        let mut i: usize = 0;
        while i < self.reductions.len()
            invariant
                i <= self.reductions@.len(),
                forall|j: int| 0 <= j < i ==> (#[trigger] self.reductions@[j]).name@ != name@,
            decreases self.reductions@.len() - i,
        {
            let p = &self.reductions[i];
            if str_eq(p.name.as_str(), name) {
                return Ok(i);
            }
            i = i + 1;
        }
        let mut valid: Vec<String> = Vec::new();
        let mut k: usize = 0;
        while k < self.reductions.len()
            invariant
                valid@.len() == k,
                k <= self.reductions@.len(),
                forall|j: int| 0 <= j < k ==> (#[trigger] valid@[j])@ == self.reductions@[j].name@,
            decreases self.reductions@.len() - k,
        {
            valid.push(self.reductions[k].name.clone());
            k = k + 1;
        }
        Err(TransitiveSetError::ReductionDoesNotExist {
            reduction: name.to_owned(),
            valid_reductions: valid,
        })
    }
}

} // verus!
