//! Projection and traversal handles: the values handed back to the
//! build-description language when it asks for a projection of a set in a
//! chosen ordering, plus the registration of the transitive-set methods in
//! the method registry.

use vstd::prelude::*;

use crate::definition::projection_spec_matches;
use crate::definition::TransitiveSetProjectionKind;
use crate::errors::TransitiveSetError;
use crate::methods::MethodsBuilder;
use crate::methods::UnboundValue;
use crate::set::TransitiveSetStore;
use crate::traversal::TransitiveSetOrdering;

verus! {

/// A lazily evaluated args-kind projection of a set: the set's slot, the
/// projection's index, and the ordering to enumerate it in.
#[derive(Clone, Copy, Debug, PartialEq, Eq, Structural)]
pub struct TransitiveSetArgsProjection {
    pub transitive_set: usize,
    pub projection: usize,
    pub ordering: TransitiveSetOrdering,
}

/// A lazily evaluated json-kind projection of a set.
#[derive(Clone, Copy, Debug, PartialEq, Eq, Structural)]
pub struct TransitiveSetJsonProjection {
    pub transitive_set: usize,
    pub projection: usize,
    pub ordering: TransitiveSetOrdering,
}

/// A lazily evaluated traversal of a set.
#[derive(Clone, Copy, Debug, PartialEq, Eq, Structural)]
pub struct TransitiveSetTraversal {
    pub inner: usize,
    pub ordering: TransitiveSetOrdering,
}

impl TransitiveSetStore {
    /// A handle for the json-kind projection named `projection` of the set
    /// at `id`, to be enumerated in `ordering` order.
    pub fn project_as_json(&self, id: usize, projection: &str, ordering: &str) -> (r: Result<
        TransitiveSetJsonProjection,
        TransitiveSetError,
    >)
        requires
            id < self@.len(),
        ensures
            match r {
                Ok(p) => {
                    let defn = self@[id as int].definition;
                    &&& p.transitive_set == id
                    &&& 0 <= p.projection < defn.projections@.len()
                    &&& projection_spec_matches(defn.projections@[p.projection as int],
                        TransitiveSetProjectionKind::Json, projection@)
                    &&& traversal_ordering_named(p.ordering, ordering@)
                },
                Err(_) => !(exists|j: int| 0 <= j < self@[id as int].definition.projections@.len()
                    && projection_spec_matches(
                    #[trigger] self@[id as int].definition.projections@[j],
                    TransitiveSetProjectionKind::Json, projection@)) || !(ordering@ == "preorder"@
                    || ordering@ == "postorder"@ || ordering@ == "topological"@ || ordering@
                    == "bfs"@),
            },
    {
        let index = match self.get(id).definition.get_index_of_projection(
            TransitiveSetProjectionKind::Json,
            projection,
        ) {
            Ok(i) => i,
            Err(e) => {
                return Err(e);
            },
        };
        let ord = match TransitiveSetOrdering::parse(ordering) {
            Ok(o) => o,
            Err(e) => {
                return Err(e);
            },
        };
        Ok(TransitiveSetJsonProjection { transitive_set: id, projection: index, ordering: ord })
    }

    /// A handle for the args-kind projection named `projection` of the set
    /// at `id`, to be enumerated in `ordering` order.
    pub fn project_as_args(&self, id: usize, projection: &str, ordering: &str) -> (r: Result<
        TransitiveSetArgsProjection,
        TransitiveSetError,
    >)
        requires
            id < self@.len(),
        ensures
            match r {
                Ok(p) => {
                    let defn = self@[id as int].definition;
                    &&& p.transitive_set == id
                    &&& 0 <= p.projection < defn.projections@.len()
                    &&& projection_spec_matches(defn.projections@[p.projection as int],
                        TransitiveSetProjectionKind::Args, projection@)
                    &&& traversal_ordering_named(p.ordering, ordering@)
                },
                Err(_) => !(exists|j: int| 0 <= j < self@[id as int].definition.projections@.len()
                    && projection_spec_matches(
                    #[trigger] self@[id as int].definition.projections@[j],
                    TransitiveSetProjectionKind::Args, projection@)) || !(ordering@ == "preorder"@
                    || ordering@ == "postorder"@ || ordering@ == "topological"@ || ordering@
                    == "bfs"@),
            },
    {
        let index = match self.get(id).definition.get_index_of_projection(
            TransitiveSetProjectionKind::Args,
            projection,
        ) {
            Ok(i) => i,
            Err(e) => {
                return Err(e);
            },
        };
        let ord = match TransitiveSetOrdering::parse(ordering) {
            Ok(o) => o,
            Err(e) => {
                return Err(e);
            },
        };
        Ok(TransitiveSetArgsProjection { transitive_set: id, projection: index, ordering: ord })
    }

    /// A handle for a traversal of the set at `id` in `ordering` order.
    pub fn traverse(&self, id: usize, ordering: &str) -> (r: Result<
        TransitiveSetTraversal,
        TransitiveSetError,
    >)
        requires
            id < self@.len(),
        ensures
            match r {
                Ok(t) => t.inner == id && traversal_ordering_named(t.ordering, ordering@),
                Err(e) => !(ordering@ == "preorder"@ || ordering@ == "postorder"@ || ordering@
                    == "topological"@ || ordering@ == "bfs"@) && (e matches
                    TransitiveSetError::InvalidOrdering { got } && got@ == ordering@),
            },
    {
        let ord = match TransitiveSetOrdering::parse(ordering) {
            Ok(o) => o,
            Err(e) => {
                return Err(e);
            },
        };
        Ok(TransitiveSetTraversal { inner: id, ordering: ord })
    }
}

/// Whether `o` is the ordering that the name `name` denotes.
pub open spec fn traversal_ordering_named(o: TransitiveSetOrdering, name: Seq<char>) -> bool {
    match o {
        TransitiveSetOrdering::Preorder => name == "preorder"@,
        TransitiveSetOrdering::Postorder => name == "postorder"@,
        TransitiveSetOrdering::Topological => name == "topological"@,
        TransitiveSetOrdering::Bfs => name == "bfs"@,
    }
}

/// Callback handle under which the host runtime exposes `project_as_json`.
pub const PROJECT_AS_JSON_FN: u64 = 101;

/// Callback handle under which the host runtime exposes `project_as_args`.
pub const PROJECT_AS_ARGS_FN: u64 = 102;

/// Callback handle under which the host runtime exposes `reduce`.
pub const REDUCE_FN: u64 = 103;

/// Callback handle under which the host runtime exposes `traverse`.
pub const TRAVERSE_FN: u64 = 104;

/// Callback handle of the attribute handing back a set's definition.
pub const DEFINITION_ATTR_FN: u64 = 105;

/// Callback handle of the attribute handing back a set's own value.
pub const VALUE_ATTR_FN: u64 = 106;

/// Callback handle of the attribute handing back a set's children.
pub const CHILDREN_ATTR_FN: u64 = 107;

/// Registers the transitive-set methods and attributes in a fresh method
/// registry: the four methods `project_as_json`, `project_as_args`, `reduce`
/// and `traverse`, and the three attributes `definition`, `value` and
/// `children`.
pub fn transitive_set_methods(builder: &mut MethodsBuilder)
    requires
        old(builder).wf(),
        old(builder).members@.len() == 0,
    ensures
        final(builder).wf(),
        final(builder).docstring == old(builder).docstring,
        final(builder).members@.len() == 7,
        member_is_method(final(builder).members@[0], "project_as_json"@, PROJECT_AS_JSON_FN),
        member_is_method(final(builder).members@[1], "project_as_args"@, PROJECT_AS_ARGS_FN),
        member_is_method(final(builder).members@[2], "reduce"@, REDUCE_FN),
        member_is_method(final(builder).members@[3], "traverse"@, TRAVERSE_FN),
        member_is_attribute(final(builder).members@[4], "definition"@, DEFINITION_ATTR_FN),
        member_is_attribute(final(builder).members@[5], "value"@, VALUE_ATTR_FN),
        member_is_attribute(final(builder).members@[6], "children"@, CHILDREN_ATTR_FN),
{
    proof {
        reveal_strlit("project_as_json");
        reveal_strlit("project_as_args");
        reveal_strlit("reduce");
        reveal_strlit("traverse");
        reveal_strlit("definition");
        reveal_strlit("value");
        reveal_strlit("children");
        assert(("project_as_json"@)[11] == 'j');
        assert(("project_as_args"@)[11] == 'a');
        assert(("project_as_json"@) != ("project_as_args"@));
        assert(("traverse"@)[0] == 't');
        assert(("children"@)[0] == 'c');
        assert(("traverse"@) != ("children"@));
        assert(("project_as_json"@).len() == 15);
        assert(("project_as_args"@).len() == 15);
        assert(("reduce"@).len() == 6);
        assert(("traverse"@).len() == 8);
        assert(("definition"@).len() == 10);
        assert(("value"@).len() == 5);
        assert(("children"@).len() == 8);
    }
    builder.set_method(
        "project_as_json",
        true,
        "project_as_json(projection, *, ordering = \"preorder\")".to_owned(),
        PROJECT_AS_JSON_FN,
    );
    proof {
        assert(builder.members@.len() == 1);
        assert(builder.members@[0].0@ == "project_as_json"@);
    }
    builder.set_method(
        "project_as_args",
        true,
        "project_as_args(projection, *, ordering = \"preorder\")".to_owned(),
        PROJECT_AS_ARGS_FN,
    );
    proof {
        assert(builder.members@.len() == 2);
        assert(builder.members@[1].0@ == "project_as_args"@);
    }
    builder.set_method("reduce", true, "reduce(reduction)".to_owned(), REDUCE_FN);
    proof {
        assert(builder.members@.len() == 3);
        assert(builder.members@[2].0@ == "reduce"@);
    }
    builder.set_method(
        "traverse",
        true,
        "traverse(*, ordering = \"preorder\")".to_owned(),
        TRAVERSE_FN,
    );
    proof {
        assert(builder.members@.len() == 4);
        assert(builder.members@[3].0@ == "traverse"@);
    }
    builder.set_attribute_fn("definition", true, None, "TransitiveSetDefinition".to_owned(),
        DEFINITION_ATTR_FN);
    proof {
        assert(builder.members@.len() == 5);
        assert(builder.members@[4].0@ == "definition"@);
    }
    builder.set_attribute_fn("value", true, None, "typing.Any".to_owned(), VALUE_ATTR_FN);
    proof {
        assert(builder.members@.len() == 6);
        assert(builder.members@[5].0@ == "value"@);
    }
    builder.set_attribute_fn("children", true, None, "list[transitive_set]".to_owned(),
        CHILDREN_ATTR_FN);
    proof {
        assert(builder.members@.len() == 7);
        assert(builder.members@[6].0@ == "children"@);
    }
}

/// The method registry of the transitive-set type: what a host object built
/// from a set offers its callers. A fresh registry is built per call; the
/// host runtime is expected to cache it.
pub fn get_methods() -> (r: crate::methods::Methods)
    ensures
        r.wf(),
        r.members@.len() == 7,
        member_is_method(r.members@[0], "project_as_json"@, PROJECT_AS_JSON_FN),
        member_is_method(r.members@[1], "project_as_args"@, PROJECT_AS_ARGS_FN),
        member_is_method(r.members@[2], "reduce"@, REDUCE_FN),
        member_is_method(r.members@[3], "traverse"@, TRAVERSE_FN),
        member_is_attribute(r.members@[4], "definition"@, DEFINITION_ATTR_FN),
        member_is_attribute(r.members@[5], "value"@, VALUE_ATTR_FN),
        member_is_attribute(r.members@[6], "children"@, CHILDREN_ATTR_FN),
{
    let mut builder = MethodsBuilder::new();
    transitive_set_methods(&mut builder);
    builder.build()
}

/// The member is a method of the given name and implementation handle.
pub open spec fn member_is_method(
    m: (String, UnboundValue),
    name: Seq<char>,
    f: u64,
) -> bool {
    m.0@ == name && (m.1 matches UnboundValue::Method(mm) && mm.name@ == name && mm.function == f)
}

/// The member is a computed attribute of the given name and callback handle.
pub open spec fn member_is_attribute(
    m: (String, UnboundValue),
    name: Seq<char>,
    f: u64,
) -> bool {
    m.0@ == name && (m.1 matches UnboundValue::Attr(_, body) && (body matches
        crate::methods::NativeAttrFn::Callback(g) && g == f))
}

} // verus!
