//! Transitive sets and the store that owns them. Sets are built bottom-up:
//! every child is inserted into the store before any parent that references
//! it, so a child's slot index is always smaller than its parent's. That
//! ordering is the store's well-formedness invariant and is what makes the
//! structure a DAG: children are shared by slot index, never copied.

use vstd::prelude::*;

use crate::definition::first_reduction_match;
use crate::definition::TransitiveSetDefinition;
use crate::definition::TransitiveSetProjectionKind;
use crate::errors::CallbackFailure;
use crate::errors::TransitiveSetError;
use crate::evaluator::TransitiveSetEvaluator;
use crate::value::spec_artifact_refs;
use crate::value::spec_is_args_like;
use crate::value::spec_is_json_like;
use crate::value::collect_artifact_refs;
use crate::value::is_args_like;
use crate::value::is_json_like;
use crate::value::Value;

verus! {

/// The payload of a set that carries a value: the value itself and the
/// precomputed projection results, index-aligned with the definition's
/// projection specs.
#[derive(Debug)]
pub struct NodeGen {
    pub value: Value,
    pub projections: Vec<Value>,
}

/// A key naming one projection of one set: what the action graph resolves
/// (and caches) independently per `(set, projection)` pair.
#[derive(Clone, Copy, Debug, PartialEq, Eq, Hash, Structural)]
pub struct TransitiveSetProjectionKey {
    pub key: u64,
    pub projection: usize,
}

/// A concrete input needed to realize a projection: either a direct artifact
/// reference harvested from this set's own node, or a deferred reference to a
/// child's projection, resolved later by the action graph.
#[derive(Clone, Copy, Debug, PartialEq, Eq, Structural)]
pub enum ArtifactGroup {
    Artifact(u64),
    TransitiveSetProjection(TransitiveSetProjectionKey),
}

/// One transitive set: an identity key for the action graph, the definition
/// it was built against, an optional node, the precomputed reductions
/// (index-aligned with the definition's reduction specs), and the slots of
/// its children in the owning store.
#[derive(Debug)]
pub struct TransitiveSetGen {
    /// An opaque key that maps back to this set; the action graph uses it to
    /// recompute the set's concrete inputs. The engine never interprets it.
    pub key: u64,
    /// The definition this set was built against.
    pub definition: TransitiveSetDefinition,
    /// The immediate value of this node. If `None`, the set yields nothing
    /// when iterated over, but its children are still traversed.
    pub node: Option<NodeGen>,
    /// Precomputed reductions: arbitrary evaluator values, one per reduction
    /// spec of the definition.
    pub reductions: Vec<Value>,
    /// Slots of further transitive sets in the owning store.
    pub children: Vec<usize>,
}

/// Whether a set may sit at slot `bound` of `sets`: its shape agrees with its
/// definition, and every child lives at a strictly smaller slot and was built
/// against the same schema (by identity token).
pub open spec fn set_valid_in(s: TransitiveSetGen, sets: Seq<TransitiveSetGen>, bound: int) -> bool {
    &&& s.definition.set_type_instance_id is Some
    &&& s.reductions@.len() == s.definition.reductions@.len()
    &&& (s.node matches Some(n) ==> n.projections@.len() == s.definition.projections@.len())
    &&& forall|k: int| 0 <= k < s.children@.len() ==> #[trigger] s.children@[k] < bound
        && sets[s.children@[k] as int].definition.set_type_instance_id
            == s.definition.set_type_instance_id
}

/// Well-formedness of a whole store: every set is valid at its own slot.
pub open spec fn store_wf(sets: Seq<TransitiveSetGen>) -> bool {
    forall|i: int| 0 <= i < sets.len() ==> set_valid_in(#[trigger] sets[i], sets, i)
}

/// The mutable, building-phase store: the working heap of one evaluation
/// session. Sets are appended children-first and referenced by slot index.
#[derive(Debug)]
pub struct TransitiveSetStore {
    sets: Vec<TransitiveSetGen>,
}

/// The immutable, shared-phase store: the one-way result of freezing a
/// building store. It offers no mutation.
#[derive(Debug)]
pub struct FrozenTransitiveSetStore {
    store: TransitiveSetStore,
}

impl View for TransitiveSetStore {
    type V = Seq<TransitiveSetGen>;

    closed spec fn view(&self) -> Seq<TransitiveSetGen> {
        self.sets@
    }
}

impl View for FrozenTransitiveSetStore {
    type V = Seq<TransitiveSetGen>;

    closed spec fn view(&self) -> Seq<TransitiveSetGen> {
        self.store@
    }
}

/// Whether `v` is an acceptable child for a set built against `def`: a
/// reference to a set of the store, built against the same schema.
pub open spec fn child_ok(
    v: Value,
    sets: Seq<TransitiveSetGen>,
    def: TransitiveSetDefinition,
) -> bool {
    v matches Value::SetRef(id) && id < sets.len()
        && sets[id as int].definition.set_type_instance_id == def.set_type_instance_id
}

/// Whether the first `upto` proposed children are all acceptable.
pub open spec fn children_ok_upto(
    children: Seq<Value>,
    sets: Seq<TransitiveSetGen>,
    def: TransitiveSetDefinition,
    upto: int,
) -> bool {
    forall|j: int| 0 <= j < upto ==> child_ok(#[trigger] children[j], sets, def)
}

/// What the projection kind's contract demands of a projection result.
pub open spec fn projection_kind_ok(kind: TransitiveSetProjectionKind, v: Value) -> bool {
    match kind {
        TransitiveSetProjectionKind::Args => spec_is_args_like(v),
        TransitiveSetProjectionKind::Json => spec_is_json_like(v),
    }
}

impl TransitiveSetStore {
    /// An empty building store.
    pub fn new() -> (r: Self)
        ensures
            r@.len() == 0,
            store_wf(r@),
    {
        TransitiveSetStore { sets: Vec::new() }
    }

    pub fn len(&self) -> (r: usize)
        ensures
            r == self@.len(),
    {
        self.sets.len()
    }

    /// Read access to the set at slot `id`.
    pub fn get(&self, id: usize) -> (r: &TransitiveSetGen)
        requires
            id < self@.len(),
        ensures
            *r == self@[id as int],
    {
        &self.sets[id]
    }

    /// Appends a freshly built set, handing back its slot. The set must have
    /// been built against this store (its children point below the end), so
    /// the children-first invariant is preserved.
    pub fn insert(&mut self, set: TransitiveSetGen) -> (id: usize)
        requires
            store_wf(old(self)@),
            set_valid_in(set, old(self)@, old(self)@.len() as int),
        ensures
            final(self)@ == old(self)@.push(set),
            id == old(self)@.len(),
            store_wf(final(self)@),
    {
        let id = self.sets.len();
        self.sets.push(set);
        proof {
            assert forall|i: int| 0 <= i < self.sets@.len() implies set_valid_in(
                #[trigger] self.sets@[i],
                self.sets@,
                i,
            ) by {
                if i < old(self)@.len() {
                    assert(set_valid_in(old(self)@[i], old(self)@, i));
                }
            }
        }
        id
    }

    /// The set that `v` references, when `v` is a reference to a set of this
    /// store.
    pub fn from_value(&self, v: &Value) -> (r: Option<&TransitiveSetGen>)
        ensures
            match r {
                Some(s) => *v matches Value::SetRef(id) && id < self@.len() && *s == self@[
                    id as int],
                None => !(*v matches Value::SetRef(id) && id < self@.len()),
            },
    {
        match v {
            Value::SetRef(id) => {
                if *id < self.len() {
                    Some(self.get(*id))
                } else {
                    None
                }
            },
            _ => None,
        }
    }

    /// Freezes the store: the one-way transition from the building phase to
    /// the immutable shared phase. Contents are preserved exactly, so every
    /// query on the frozen store answers as it did before freezing.
    pub fn freeze(self) -> (r: FrozenTransitiveSetStore)
        ensures
            r@ == self@,
    {
        FrozenTransitiveSetStore { store: self }
    }
}

impl FrozenTransitiveSetStore {
    pub fn len(&self) -> (r: usize)
        ensures
            r == self@.len(),
    {
        self.store.len()
    }

    /// Read access to the set at slot `id`.
    pub fn get(&self, id: usize) -> (r: &TransitiveSetGen)
        requires
            id < self@.len(),
        ensures
            *r == self@[id as int],
    {
        self.store.get(id)
    }

    /// Read access to the whole store, for queries and traversals. Only
    /// shared access is offered: the frozen phase admits no mutation.
    pub fn as_store(&self) -> (r: &TransitiveSetStore)
        ensures
            r@ == self@,
    {
        &self.store
    }

    /// The concrete artifact inputs needed to realize projection `projection`
    /// for the set at `id` specifically: the artifact references harvested
    /// from this set's own projection value (if it carries a node), followed
    /// by one deferred `(child key, same projection)` reference per direct
    /// child — children's own direct artifacts are never inlined, so the
    /// action graph can resolve and cache them per key independently.
    pub fn get_projection_sub_inputs(&self, id: usize, projection: usize) -> (r: Result<
        Vec<ArtifactGroup>,
        TransitiveSetError,
    >)
        requires
            store_wf(self@),
            id < self@.len(),
        ensures
            match r {
                Ok(groups) => {
                    let s = self@[id as int];
                    let direct = (match s.node {
                        Some(n) => spec_artifact_refs(n.projections@[projection as int]),
                        None => Seq::empty(),
                    });
                    &&& (s.node matches Some(n) ==> projection < n.projections@.len())
                    &&& groups@ == direct.map_values(|a: u64| ArtifactGroup::Artifact(a))
                        + Seq::new(s.children@.len(), |k: int| ArtifactGroup::TransitiveSetProjection(
                            (TransitiveSetProjectionKey {
                                key: self@[s.children@[k] as int].key,
                                projection,
                            })))
                },
                Err(e) => {
                    &&& self@[id as int].node matches Some(n) && projection >= n.projections@.len()
                    &&& e matches TransitiveSetError::InvalidProjectionId { index } && index
                        == projection
                },
            },
    {
        let s = self.store.get(id);
        let mut out: Vec<ArtifactGroup> = Vec::new();
        match &s.node {
            None => {},
            Some(node) => {
                if projection >= node.projections.len() {
                    return Err(TransitiveSetError::InvalidProjectionId { index: projection });
                }
                let refs = collect_artifact_refs(&node.projections[projection]);
                let mut i: usize = 0;
                while i < refs.len()
                    invariant
                        i <= refs@.len(),
                        out@ =~= refs@.subrange(0, i as int).map_values(
                            |a: u64| ArtifactGroup::Artifact(a)),
                    decreases refs@.len() - i,
                {
                    out.push(ArtifactGroup::Artifact(refs[i]));
                    proof {
                        assert(refs@.subrange(0, i + 1 as int) =~= refs@.subrange(0, i as int).push(
                            refs@[i as int]));
                    }
                    i = i + 1;
                }
                assert(refs@.subrange(0, refs@.len() as int) =~= refs@);
            },
        }
        let ghost direct = out@;
        let mut k: usize = 0;
        while k < s.children.len()
            invariant
                store_wf(self@),
                id < self@.len(),
                *s == self@[id as int],
                k <= s.children@.len(),
                out@ =~= direct + Seq::new(
                    k as nat,
                    |j: int| ArtifactGroup::TransitiveSetProjection(
                        (TransitiveSetProjectionKey {
                            key: self@[s.children@[j] as int].key,
                            projection,
                        })),
                ),
            decreases s.children@.len() - k,
        {
            let c = s.children[k];
            assert(c < self@.len());
            out.push(ArtifactGroup::TransitiveSetProjection(TransitiveSetProjectionKey {
                key: self.store.get(c).key,
                projection,
            }));
            k = k + 1;
        }
        Ok(out)
    }
}

impl TransitiveSetGen {
    /// Read access to the definition this set was built against.
    pub fn definition(&self) -> (r: &TransitiveSetDefinition)
        ensures
            *r == self.definition,
    {
        &self.definition
    }

    /// The identity key by which the action graph resolves this set.
    pub fn key(&self) -> (r: u64)
        ensures
            r == self.key,
    {
        self.key
    }

    /// Whether this set was built against `definition`, decided by schema
    /// identity token, never by shape.
    pub fn matches_definition(&self, definition: &TransitiveSetDefinition) -> (r: bool)
        ensures
            r == (self.definition.set_type_instance_id is Some
                && self.definition.set_type_instance_id == definition.set_type_instance_id),
    {
        match (&self.definition.set_type_instance_id, &definition.set_type_instance_id) {
            (Some(a), Some(b)) => *a == *b,
            _ => false,
        }
    }

    /// The name of projection `projection` in this set's definition.
    pub fn projection_name(&self, projection: usize) -> (r: Result<&str, TransitiveSetError>)
        ensures
            match r {
                Ok(name) => projection < self.definition.projections@.len() && name@
                    == self.definition.projections@[projection as int].name@,
                Err(e) => projection >= self.definition.projections@.len() && (e matches
                    TransitiveSetError::InvalidProjectionId { index } && index == projection),
            },
    {
        if projection < self.definition.projections.len() {
            Ok(self.definition.projections[projection].name.as_str())
        } else {
            Err(TransitiveSetError::InvalidProjectionId { index: projection })
        }
    }

    /// The precomputed value of projection `projection` at this node, or
    /// `None` for a set that carries no node.
    pub fn get_projection_value(&self, projection: usize) -> (r: Result<
        Option<&Value>,
        TransitiveSetError,
    >)
        ensures
            match r {
                Ok(v) => match self.node {
                    None => v is None,
                    Some(n) => projection < n.projections@.len() && (v matches Some(pv) && *pv
                        == n.projections@[projection as int]),
                },
                Err(e) => (self.node matches Some(n) && projection >= n.projections@.len())
                    && (e matches TransitiveSetError::InvalidProjectionId { index } && index
                    == projection),
            },
    {
        match &self.node {
            None => Ok(None),
            Some(node) => {
                if projection < node.projections.len() {
                    Ok(Some(&node.projections[projection]))
                } else {
                    Err(TransitiveSetError::InvalidProjectionId { index: projection })
                }
            },
        }
    }

    /// The key under which the action graph caches projection `projection`
    /// of this set.
    pub fn get_projection_key(&self, projection: usize) -> (r: TransitiveSetProjectionKey)
        ensures
            r == (TransitiveSetProjectionKey { key: self.key, projection }),
    {
        TransitiveSetProjectionKey { key: self.key, projection }
    }

    /// The precomputed value of the reduction named `reduction`: the value
    /// at the named reduction's index. On a set whose reduction slots cover
    /// its definition — every set construction builds — a declared name is
    /// always answered; a missing slot (possible only on an inconsistent,
    /// partially built set) is an internal-consistency fault.
    pub fn reduce(&self, reduction: &str) -> (r: Result<&Value, TransitiveSetError>)
        ensures
            match r {
                Ok(v) => exists|i: int| #[trigger] first_reduction_match(
                    self.definition.reductions@, reduction@, i) && i < self.reductions@.len()
                    && *v == self.reductions@[i],
                Err(e) => match e {
                    TransitiveSetError::ReductionDoesNotExist { reduction: n, valid_reductions } =>
                        (forall|i: int| 0 <= i < self.definition.reductions@.len()
                            ==> (#[trigger] self.definition.reductions@[i]).name@ != reduction@)
                        && n@ == reduction@
                        && valid_reductions@.len() == self.definition.reductions@.len()
                        && (forall|i: int| 0 <= i < valid_reductions@.len()
                            ==> (#[trigger] valid_reductions@[i])@
                                == self.definition.reductions@[i].name@),
                    TransitiveSetError::MissingReduction { index } => first_reduction_match(
                        self.definition.reductions@, reduction@, index as int) && index
                        >= self.reductions@.len(),
                    _ => false,
                },
            },
            (exists|i: int| #[trigger] first_reduction_match(self.definition.reductions@,
                reduction@, i) && i < self.reductions@.len()) ==> r is Ok,
    {
        let index = match self.definition.reduction_index(reduction) {
            Ok(i) => i,
            Err(e) => {
                return Err(e);
            },
        };
        proof {
            assert(first_reduction_match(self.definition.reductions@, reduction@, index as int));
        }
        if index < self.reductions.len() {
            Ok(&self.reductions[index])
        } else {
            Err(TransitiveSetError::MissingReduction { index })
        }
    }
}

/// Whether `ids` are exactly the slots that the proposed `children` values
/// reference, all below `bound`.
pub open spec fn ids_match_children(ids: Seq<usize>, children: Seq<Value>, bound: int) -> bool {
    ids.len() == children.len() && forall|j: int| 0 <= j < ids.len()
        ==> #[trigger] ids[j] < bound && children[j] == Value::SetRef(ids[j])
}

/// What construction promises of a successfully built set, relative to the
/// store it was built against and the arguments it was given.
pub open spec fn construction_ok(
    s: TransitiveSetGen,
    sets: Seq<TransitiveSetGen>,
    key: u64,
    definition: TransitiveSetDefinition,
    value: Option<Value>,
    children: Seq<Value>,
) -> bool {
    &&& s.key == key
    &&& s.definition == definition
    &&& ids_match_children(s.children@, children, sets.len() as int)
    &&& (value is Some <==> s.node is Some)
    &&& (value matches Some(v) ==> (s.node matches Some(n) && n.value == v
        && n.projections@.len() == definition.projections@.len()
        && forall|i: int| 0 <= i < n.projections@.len()
            ==> projection_kind_ok(definition.projections@[i].kind, #[trigger] n.projections@[i])))
    &&& s.reductions@.len() == definition.reductions@.len()
    &&& (forall|k: int| 0 <= k < s.children@.len() ==> sets[(#[trigger] s.children@[
        k]) as int].reductions@.len() >= definition.reductions@.len())
    &&& set_valid_in(s, sets, sets.len() as int)
}


/// Everything construction promises, of every outcome: the iff for an
/// unexported definition, the exact error for the first unacceptable child,
/// the classification of every error kind, success owed whenever the
/// evaluator is never consulted, and the full shape of a successfully built
/// set. `new_from_values` promises the same of the child list it derives.
pub open spec fn construction_contract(
    r: Result<TransitiveSetGen, TransitiveSetError>,
    sets: Seq<TransitiveSetGen>,
    key: u64,
    definition: TransitiveSetDefinition,
    value: Option<Value>,
    children: Seq<Value>,
) -> bool {
    &&& (definition.set_type_instance_id is None <==> r matches Err(
        TransitiveSetError::TransitiveSetUsedBeforeAssignment))
    &&& (forall|b: int|
        (definition.set_type_instance_id is Some && 0 <= b < children.len()
            && !child_ok(#[trigger] children[b], sets, definition)
            && children_ok_upto(children, sets, definition, b)) ==> ({
            ||| ((children[b] matches Value::SetRef(id) && id < sets.len())
                && (r matches Err(TransitiveSetError::TransitiveValueIsOfWrongType {
                    expected, got }) && expected@ == definition.name@
                    && got@ == sets[children[b]->SetRef_0 as int].definition.name@))
            ||| (!(children[b] matches Value::SetRef(id) && id < sets.len())
                && (r matches Err(TransitiveSetError::TransitiveValueIsNotTransitiveSet {
                    got }) && got@ == children[b].spec_kind_name()))
        }))
    &&& (match r {
        Ok(s) => definition.set_type_instance_id is Some
            && children_ok_upto(children, sets, definition, children.len() as int)
            && construction_ok(s, sets, key, definition, value, children),
        Err(e) => match e {
            TransitiveSetError::TransitiveSetUsedBeforeAssignment => true,
            TransitiveSetError::TransitiveValueIsOfWrongType { .. } => true,
            TransitiveSetError::TransitiveValueIsNotTransitiveSet { .. } => true,
            TransitiveSetError::ProjectionError { name, .. } => value is Some
                && exists|i: int| 0 <= i < definition.projections@.len()
                    && (#[trigger] definition.projections@[i]).name@ == name@,
            TransitiveSetError::ReductionError { name, .. } => exists|i: int|
                0 <= i < definition.reductions@.len()
                    && (#[trigger] definition.reductions@[i]).name@ == name@,
            TransitiveSetError::MissingReduction { index } => index
                < definition.reductions@.len() && exists|j: int|
                0 <= j < children.len() && ((#[trigger] children[j]) matches
                    Value::SetRef(id) && id < sets.len()
                    && sets[id as int].reductions@.len() <= index),
            _ => false,
        },
    })
    &&& ((definition.set_type_instance_id is Some && children_ok_upto(
        children, sets, definition, children.len() as int)) ==> !(r matches Err(
        TransitiveSetError::TransitiveValueIsOfWrongType { .. })) && !(r matches Err(
        TransitiveSetError::TransitiveValueIsNotTransitiveSet { .. })))
    &&& ((definition.set_type_instance_id is Some && children_ok_upto(
        children, sets, definition, children.len() as int) && (value is None
        || definition.projections@.len() == 0) && definition.reductions@.len() == 0)
        ==> r is Ok)
}

/// The children's already-computed reduction values at one index, in child
/// order: exactly what a reduce callback is handed. A child whose reduction
/// slots fall short of the index is an internal-consistency fault.
#[verifier::loop_isolation(false)]
fn gather_child_reductions<'a>(
    store: &'a TransitiveSetStore,
    child_ids: &Vec<usize>,
    index: usize,
) -> (r: Result<Vec<&'a Value>, TransitiveSetError>)
    requires
        forall|k: int| 0 <= k < child_ids@.len() ==> (#[trigger] child_ids@[k]) < store@.len(),
    ensures
        match r {
            Ok(vals) => vals@.len() == child_ids@.len() && (forall|j: int|
                0 <= j < child_ids@.len() ==> index < store@[(#[trigger] child_ids@[
                    j]) as int].reductions@.len()) && (forall|j: int| 0 <= j < vals@.len()
                ==> *(#[trigger] vals@[j]) == store@[child_ids@[j] as int].reductions@[
                    index as int]),
            Err(e) => (e matches TransitiveSetError::MissingReduction { index: i } && i == index)
                && exists|j: int| 0 <= j < child_ids@.len()
                    && store@[(#[trigger] child_ids@[j]) as int].reductions@.len() <= index,
        },
{
    let mut vals: Vec<&Value> = Vec::new();
    let mut cj: usize = 0;
    while cj < child_ids.len()
        invariant
            forall|k: int| 0 <= k < child_ids@.len() ==> (#[trigger] child_ids@[k]) < store@.len(),
            cj <= child_ids@.len(),
            vals@.len() == cj,
            forall|j: int| 0 <= j < cj ==> index < store@[(#[trigger] child_ids@[
                j]) as int].reductions@.len(),
            forall|j: int| 0 <= j < cj ==> *(#[trigger] vals@[j]) == store@[child_ids@[
                j] as int].reductions@[index as int],
        decreases child_ids@.len() - cj,
    {
        let c = store.get(child_ids[cj]);
        if index < c.reductions.len() {
            vals.push(&c.reductions[index]);
            proof {
                assert(index < store@[child_ids@[cj as int] as int].reductions@.len());
                assert(*vals@[cj as int] == store@[child_ids@[cj as int] as int].reductions@[
                    index as int]);
            }
        } else {
            return Err(TransitiveSetError::MissingReduction { index });
        }
        cj = cj + 1;
    }
    Ok(vals)
}

impl TransitiveSetGen {
    /// Builds a new set against `store`: validates that the definition is
    /// exported and that every proposed child is a set of the same schema,
    /// computes the projections of `value` (validating each against its
    /// kind's contract), then computes the reductions by folding the
    /// children's already-computed reduction values through the evaluator.
    /// Construction either completes with a valid set or fails outright;
    /// there is no partial result.
    #[verifier::loop_isolation(false)]
    pub fn new<E: TransitiveSetEvaluator>(
        store: &TransitiveSetStore,
        key: u64,
        definition: TransitiveSetDefinition,
        value: Option<Value>,
        children: Vec<Value>,
        eval: &mut E,
    ) -> (r: Result<TransitiveSetGen, TransitiveSetError>)
        requires
            store_wf(store@),
        ensures
            construction_contract(r, store@, key, definition, value, children@),
    {
        let ghost value_in = value;
        if !definition.has_id() {
            return Err(TransitiveSetError::TransitiveSetUsedBeforeAssignment);
        }

        let mut child_ids: Vec<usize> = Vec::new();
        let mut ci: usize = 0;
        while ci < children.len()
            invariant
                store_wf(store@),
                definition.set_type_instance_id is Some,
                ci <= children@.len(),
                child_ids@.len() == ci,
                children_ok_upto(children@, store@, definition, ci as int),
                ids_match_children(child_ids@, children@.subrange(0, ci as int),
                    store@.len() as int),
            decreases children@.len() - ci,
        {
            match &children[ci] {
                Value::SetRef(id) => {
                    if *id < store.len() {
                        let child = store.get(*id);
                        if child.matches_definition(&definition) {
                            child_ids.push(*id);
                            proof {
                                assert(children@.subrange(0, ci + 1 as int) =~= children@.subrange(
                                    0, ci as int).push(children@[ci as int]));
                            }
                        } else {
                            return Err(TransitiveSetError::TransitiveValueIsOfWrongType {
                                expected: definition.name.clone(),
                                got: child.definition.name.clone(),
                            });
                        }
                    } else {
                        return Err(TransitiveSetError::TransitiveValueIsNotTransitiveSet {
                            got: children[ci].kind_name().to_owned(),
                        });
                    }
                },
                _ => {
                    return Err(TransitiveSetError::TransitiveValueIsNotTransitiveSet {
                        got: children[ci].kind_name().to_owned(),
                    });
                },
            }
            ci = ci + 1;
        }
        proof {
            assert(children@.subrange(0, children@.len() as int) =~= children@);
        }

        let node = match value {
            None => None,
            Some(v) => {
                let mut projections: Vec<Value> = Vec::new();
                let mut pi: usize = 0;
                while pi < definition.projections.len()
                    invariant
                        store_wf(store@),
                        definition.set_type_instance_id is Some,
                        children_ok_upto(children@, store@, definition, children@.len() as int),
                        value_in == Some(v),
                        pi <= definition.projections@.len(),
                        projections@.len() == pi,
                        forall|j: int| 0 <= j < pi ==> projection_kind_ok(
                            definition.projections@[j].kind, #[trigger] projections@[j]),
                    decreases definition.projections@.len() - pi,
                {
                    let pspec = &definition.projections[pi];
                    let projected = match eval.eval_projection(pspec.projection, &v) {
                        Ok(p) => p,
                        Err(msg) => {
                            return Err(TransitiveSetError::ProjectionError {
                                name: pspec.name.clone(),
                                cause: CallbackFailure::EvaluationFailed(msg),
                            });
                        },
                    };
                    let shape_ok = match pspec.kind {
                        TransitiveSetProjectionKind::Args => is_args_like(&projected),
                        TransitiveSetProjectionKind::Json => is_json_like(&projected),
                    };
                    if !shape_ok {
                        return Err(TransitiveSetError::ProjectionError {
                            name: pspec.name.clone(),
                            cause: CallbackFailure::InvalidShape(
                                projected.kind_name().to_owned()),
                        });
                    }
                    projections.push(projected);
                    pi = pi + 1;
                }
                Some(NodeGen { value: v, projections })
            },
        };

        let mut reductions: Vec<Value> = Vec::new();
        let mut ri: usize = 0;
        while ri < definition.reductions.len()
            invariant
                store_wf(store@),
                definition.set_type_instance_id is Some,
                children_ok_upto(children@, store@, definition, children@.len() as int),
                ids_match_children(child_ids@, children@, store@.len() as int),
                (value_in is Some <==> node is Some),
                (value_in matches Some(v) ==> (node matches Some(n) && n.value == v
                    && n.projections@.len() == definition.projections@.len()
                    && forall|i: int| 0 <= i < n.projections@.len() ==> projection_kind_ok(
                        definition.projections@[i].kind, #[trigger] n.projections@[i]))),
                ri <= definition.reductions@.len(),
                reductions@.len() == ri,
                forall|k: int| 0 <= k < child_ids@.len() ==> store@[(#[trigger] child_ids@[
                    k]) as int].reductions@.len() >= ri,
            decreases definition.reductions@.len() - ri,
        {
            let rspec = &definition.reductions[ri];
            let child_vals = match gather_child_reductions(store, &child_ids, ri) {
                Ok(vals) => vals,
                Err(e) => {
                    proof {
                        let j = choose|j: int| 0 <= j < child_ids@.len()
                            && store@[(#[trigger] child_ids@[j]) as int].reductions@.len() <= ri;
                        assert(children@[j] == Value::SetRef(child_ids@[j]));
                    }
                    return Err(e);
                },
            };
            proof {
                assert forall|k: int| 0 <= k < child_ids@.len() implies store@[(
                #[trigger] child_ids@[k]) as int].reductions@.len() >= ri + 1 by {
                    assert(*child_vals@[k] == store@[child_ids@[k] as int].reductions@[ri as int]);
                }
            }
            let value_ref: Option<&Value> = match &node {
                Some(n) => Some(&n.value),
                None => None,
            };
            let reduced = match eval.eval_reduction(rspec.reduce, &child_vals, value_ref) {
                Ok(rv) => rv,
                Err(msg) => {
                    return Err(TransitiveSetError::ReductionError {
                        name: rspec.name.clone(),
                        cause: CallbackFailure::EvaluationFailed(msg),
                    });
                },
            };
            reductions.push(reduced);
            ri = ri + 1;
        }

        Ok(TransitiveSetGen { key, definition, node, reductions, children: child_ids })
    }

    /// Builds a new set from a value-level child list: `children` must be
    /// absent or a list value whose elements are sets of the same schema.
    pub fn new_from_values<E: TransitiveSetEvaluator>(
        store: &TransitiveSetStore,
        key: u64,
        definition: TransitiveSetDefinition,
        value: Option<Value>,
        children: Option<Value>,
        eval: &mut E,
    ) -> (r: Result<TransitiveSetGen, TransitiveSetError>)
        requires
            store_wf(store@),
        ensures
            (match children {
                Some(c) => !(c is List) ==> (r matches Err(
                    TransitiveSetError::TransitiveValueIsNotTransitiveSet { got })
                    && got@ == c.spec_kind_name()),
                None => true,
            }),
            !(children matches Some(c) && !(c is List)) ==> construction_contract(
                r, store@, key, definition, value, (match children {
                    Some(Value::List(items)) => items@,
                    _ => Seq::empty(),
                })),
    {
        let child_list: Vec<Value> = match children {
            None => Vec::new(),
            Some(Value::List(items)) => items,
            Some(other) => {
                return Err(TransitiveSetError::TransitiveValueIsNotTransitiveSet {
                    got: other.kind_name().to_owned(),
                });
            },
        };
        proof {
            assert(child_list@ =~= (match children {
                Some(Value::List(items)) => items@,
                _ => Seq::<Value>::empty(),
            }));
        }
        Self::new(store, key, definition, value, child_list, eval)
    }
}

/// Whether `v` is a transitive set of the store built against the definition
/// whose identity token is `token`.
pub open spec fn matcher_matches(sets: Seq<TransitiveSetGen>, token: u64, v: Value) -> bool {
    v matches Value::SetRef(id) && id < sets.len()
        && sets[id as int].definition.set_type_instance_id == Some(token)
}

/// Schema-identity law: matching goes by identity token alone, never by
/// shape. A set built against a definition with token `t1` always matches
/// `t1`'s matcher and never matches a matcher for a different token, even if
/// the two definitions carry textually identical projection and reduction
/// specs.
pub proof fn lemma_matcher_schema_identity(
    sets: Seq<TransitiveSetGen>,
    id: usize,
    t1: u64,
    t2: u64,
)
    requires
        id < sets.len(),
        sets[id as int].definition.set_type_instance_id == Some(t1),
        t1 != t2,
    ensures
        matcher_matches(sets, t1, Value::SetRef(id)),
        !matcher_matches(sets, t2, Value::SetRef(id)),
{
}

/// A schema matcher for one definition family: decides in constant time, by
/// identity token, whether a value is a transitive set built against that
/// definition. Two definitions with textually identical specs still have
/// different tokens, so a set of one never matches the other's matcher.
#[derive(Clone, Copy, Debug)]
pub struct TransitiveSetMatcher {
    pub type_instance_id: u64,
}

impl TransitiveSetMatcher {
    /// Whether `value` is a transitive set of `store` built against the
    /// definition this matcher was made for.
    pub fn matches(&self, store: &TransitiveSetStore, value: &Value) -> (r: bool)
        ensures
            r == matcher_matches(store@, self.type_instance_id, *value),
    {
        match value {
            Value::SetRef(id) => {
                if *id < store.len() {
                    let tset = store.get(*id);
                    match &tset.definition.set_type_instance_id {
                        Some(token) => *token == self.type_instance_id,
                        None => false,
                    }
                } else {
                    false
                }
            },
            _ => false,
        }
    }
}

} // verus!
