//! Values of the embedding build-description language, as far as this engine
//! needs to look at them: projection and reduction callbacks produce them,
//! projection kinds constrain their shape, and sub-input resolution harvests
//! the artifact references they contain.

use vstd::prelude::*;

verus! {

/// A build-language value. The engine treats most values as opaque payloads;
/// it only distinguishes the shapes that its own rules speak about: artifact
/// references (harvested during sub-input resolution), references to other
/// transitive sets (the only legal children), and the simple shapes that the
/// projection kinds accept.
#[derive(Debug)]
pub enum Value {
    /// The absent value (what a reduction callback receives for a set that
    /// carries no node).
    Nil,
    Bool(bool),
    Int(i64),
    Str(String),
    /// A reference to a concrete build artifact, by its opaque identifier.
    Artifact(u64),
    /// A reference to a transitive set, by its slot in the owning store.
    SetRef(usize),
    List(Vec<Value>),
}

impl Value {
    /// A short name for the shape of this value, used in error reports.
    pub fn kind_name(&self) -> (r: &'static str)
        ensures
            r@ == self.spec_kind_name(),
    {
        match self {
            Value::Nil => "none",
            Value::Bool(_) => "bool",
            Value::Int(_) => "int",
            Value::Str(_) => "string",
            Value::Artifact(_) => "artifact",
            Value::SetRef(_) => "transitive_set",
            Value::List(_) => "list",
        }
    }

    pub open spec fn spec_kind_name(&self) -> Seq<char> {
        match self {
            Value::Nil => "none"@,
            Value::Bool(_) => "bool"@,
            Value::Int(_) => "int"@,
            Value::Str(_) => "string"@,
            Value::Artifact(_) => "artifact"@,
            Value::SetRef(_) => "transitive_set"@,
            Value::List(_) => "list"@,
        }
    }
}

/// The artifact references embedded in a value, in left-to-right discovery
/// order.
pub open spec fn spec_artifact_refs(v: Value) -> Seq<u64>
    decreases v, 1nat, 0nat,
    via spec_artifact_refs_dec
{
    match v {
        Value::Artifact(a) => seq![a],
        Value::List(items) => spec_artifact_refs_upto(items@, items@.len() as int),
        _ => Seq::empty(),
    }
}

/// The artifact references of the first `i` elements of `items`, concatenated.
pub open spec fn spec_artifact_refs_upto(items: Seq<Value>, i: int) -> Seq<u64>
    decreases items, 0nat, i,
{
    if i <= 0 || i > items.len() {
        Seq::empty()
    } else {
        spec_artifact_refs_upto(items, i - 1) + spec_artifact_refs(items[i - 1])
    }
}

#[via_fn]
proof fn spec_artifact_refs_dec(v: Value) {
    match v {
        Value::List(items) => {
            assert(decreases_to!(v => items));
        },
        _ => {},
    }
}

/// Appends every artifact reference embedded in `v` to `out`, in discovery
/// order.
pub fn push_artifact_refs(v: &Value, out: &mut Vec<u64>)
    ensures
        final(out)@ == old(out)@ + spec_artifact_refs(*v),
    decreases *v, 1nat, 0nat,
{
    match v {
        Value::Artifact(a) => {
            out.push(*a);
            assert(out@ =~= old(out)@ + spec_artifact_refs(*v));
        },
        Value::List(items) => {
            proof {
                assert(decreases_to!(*v => *items));
                assert(decreases_to!(*items => items@));
                assert(decreases_to!(*v => items@));
            }
            let ghost out0 = out@;
            let mut i: usize = 0;
            while i < items.len()
                invariant
                    decreases_to!(*v => items@),
                    i <= items.len(),
                    out@ == out0 + spec_artifact_refs_upto(items@, i as int),
                decreases items.len() - i,
            {
                proof {
                    assert(decreases_to!(items@ => items@[i as int]));
                    assert(decreases_to!(*v => items@[i as int]));
                }
                push_artifact_refs(&items[i], out);
                i = i + 1;
            }
            assert(out@ =~= out0 + spec_artifact_refs(*v));
        },
        _ => {
            assert(out@ =~= old(out)@ + spec_artifact_refs(*v));
        },
    }
}

/// The artifact references embedded in `v`, in discovery order.
pub fn collect_artifact_refs(v: &Value) -> (r: Vec<u64>)
    ensures
        r@ == spec_artifact_refs(*v),
{
    let mut out: Vec<u64> = Vec::new();
    push_artifact_refs(v, &mut out);
    assert(out@ =~= spec_artifact_refs(*v));
    out
}

/// Whether a value is coercible to a command-line fragment: an integer, a
/// string, an artifact reference, or a list of such values.
pub open spec fn spec_is_args_like(v: Value) -> bool
    decreases v, 1nat, 0nat,
    via spec_is_args_like_dec
{
    match v {
        Value::Int(_) => true,
        Value::Str(_) => true,
        Value::Artifact(_) => true,
        Value::List(items) => spec_is_args_like_upto(items@, items@.len() as int),
        _ => false,
    }
}

pub open spec fn spec_is_args_like_upto(items: Seq<Value>, i: int) -> bool
    decreases items, 0nat, i,
{
    if i <= 0 || i > items.len() {
        true
    } else {
        spec_is_args_like_upto(items, i - 1) && spec_is_args_like(items[i - 1])
    }
}

#[via_fn]
proof fn spec_is_args_like_dec(v: Value) {
    match v {
        Value::List(items) => {
            assert(decreases_to!(v => items));
        },
        _ => {},
    }
}

/// Whether a value is serializable by the JSON projection kind: anything but
/// a reference to another transitive set, recursively.
pub open spec fn spec_is_json_like(v: Value) -> bool
    decreases v, 1nat, 0nat,
    via spec_is_json_like_dec
{
    match v {
        Value::Nil => true,
        Value::Bool(_) => true,
        Value::Int(_) => true,
        Value::Str(_) => true,
        Value::Artifact(_) => true,
        Value::SetRef(_) => false,
        Value::List(items) => spec_is_json_like_upto(items@, items@.len() as int),
    }
}

pub open spec fn spec_is_json_like_upto(items: Seq<Value>, i: int) -> bool
    decreases items, 0nat, i,
{
    if i <= 0 || i > items.len() {
        true
    } else {
        spec_is_json_like_upto(items, i - 1) && spec_is_json_like(items[i - 1])
    }
}

#[via_fn]
proof fn spec_is_json_like_dec(v: Value) {
    match v {
        Value::List(items) => {
            assert(decreases_to!(v => items));
        },
        _ => {},
    }
}

/// Decides whether `v` is coercible to a command-line fragment.
pub fn is_args_like(v: &Value) -> (r: bool)
    ensures
        r == spec_is_args_like(*v),
    decreases *v, 1nat, 0nat,
{
    match v {
        Value::Int(_) => true,
        Value::Str(_) => true,
        Value::Artifact(_) => true,
        Value::List(items) => {
            proof {
                assert(decreases_to!(*v => *items));
                assert(decreases_to!(*items => items@));
                assert(decreases_to!(*v => items@));
            }
            let mut ok = true;
            let mut i: usize = 0;
            while i < items.len()
                invariant
                    decreases_to!(*v => items@),
                    i <= items.len(),
                    ok == spec_is_args_like_upto(items@, i as int),
                decreases items.len() - i,
            {
                proof {
                    assert(decreases_to!(items@ => items@[i as int]));
                    assert(decreases_to!(*v => items@[i as int]));
                }
                let e = is_args_like(&items[i]);
                ok = ok && e;
                i = i + 1;
            }
            ok
        },
        _ => false,
    }
}

/// Decides whether `v` is serializable by the JSON projection kind.
pub fn is_json_like(v: &Value) -> (r: bool)
    ensures
        r == spec_is_json_like(*v),
    decreases *v, 1nat, 0nat,
{
    match v {
        Value::Nil => true,
        Value::Bool(_) => true,
        Value::Int(_) => true,
        Value::Str(_) => true,
        Value::Artifact(_) => true,
        Value::SetRef(_) => false,
        Value::List(items) => {
            proof {
                assert(decreases_to!(*v => *items));
                assert(decreases_to!(*items => items@));
                assert(decreases_to!(*v => items@));
            }
            let mut ok = true;
            let mut i: usize = 0;
            while i < items.len()
                invariant
                    decreases_to!(*v => items@),
                    i <= items.len(),
                    ok == spec_is_json_like_upto(items@, i as int),
                decreases items.len() - i,
            {
                proof {
                    assert(decreases_to!(items@ => items@[i as int]));
                    assert(decreases_to!(*v => items@[i as int]));
                }
                let e = is_json_like(&items[i]);
                ok = ok && e;
                i = i + 1;
            }
            ok
        },
    }
}

} // verus!
