//! A registry of methods for a host-language object: an ordered map of
//! member name to native attribute or native method, built once through
//! [`MethodsBuilder`] and then immutable. The transitive-set type registers
//! its own methods here (see [`crate::projection::transitive_set_methods`]).

use vstd::prelude::*;

use crate::definition::str_eq;
use crate::value::Value;

verus! {

/// The metadata of a native attribute member.
#[derive(Debug)]
pub struct NativeAttribute {
    /// Whether the attribute may be evaluated speculatively.
    pub speculative_exec_safe: bool,
    pub docstring: Option<String>,
    /// The type the attribute evaluates to, as its textual representation.
    pub typ: String,
}

/// How an attribute produces its value.
#[derive(Debug)]
pub enum NativeAttrFn {
    /// Always hands back one stored value.
    Constant(Value),
    /// Runs the callback with this handle in the external evaluator.
    Callback(u64),
}

/// The metadata of a native method member, with the handle of the function
/// that implements it.
#[derive(Debug)]
pub struct NativeMethod {
    pub name: String,
    /// Whether the method may be evaluated speculatively.
    pub speculative_exec_safe: bool,
    /// The raw documentation text for the method.
    pub raw_docs: String,
    /// The method's type, derived from its documentation.
    pub ty: String,
    /// Callback handle of the implementation.
    pub function: u64,
}

/// A member waiting to be bound to a receiver: an attribute or a method.
#[derive(Debug)]
pub enum UnboundValue {
    Attr(NativeAttribute, NativeAttrFn),
    Method(NativeMethod),
}

/// Documentation of an object: its docstring, its member names in
/// registration order, and the object's type.
#[derive(Debug)]
pub struct DocType {
    pub docs: Option<String>,
    pub members: Vec<String>,
    pub ty: String,
}

/// Methods of an object: named members in registration order, with unique
/// names, plus the raw docstring for the object itself.
#[derive(Debug)]
pub struct Methods {
    pub members: Vec<(String, UnboundValue)>,
    pub docstring: Option<String>,
}

/// Used to build a [`Methods`] value.
#[derive(Debug)]
pub struct MethodsBuilder {
    /// Members, either native methods or native attributes.
    pub members: Vec<(String, UnboundValue)>,
    /// The raw docstring for the main object.
    pub docstring: Option<String>,
}

/// Member names are unique.
pub open spec fn members_wf(ms: Seq<(String, UnboundValue)>) -> bool {
    forall|i: int, j: int| 0 <= i < j < ms.len() ==> (#[trigger] ms[i]).0@ != (#[trigger] ms[j]).0@
}

impl Methods {
    /// Create an empty [`Methods`], with no functions in scope.
    pub fn new() -> (r: Self)
        ensures
            r.members@.len() == 0,
            r.docstring is None,
            members_wf(r.members@),
    {
        MethodsBuilder::new().build()
    }

    pub open spec fn wf(&self) -> bool {
        members_wf(self.members@)
    }

    /// The member registered under `name`.
    pub fn get(&self, name: &str) -> (r: Option<&UnboundValue>)
        ensures
            match r {
                Some(m) => exists|j: int| 0 <= j < self.members@.len()
                    && (#[trigger] self.members@[j]).0@ == name@ && *m == self.members@[j].1,
                None => forall|j: int| 0 <= j < self.members@.len()
                    ==> (#[trigger] self.members@[j]).0@ != name@,
            },
    {
        let mut i: usize = 0;
        while i < self.members.len()
            invariant
                i <= self.members@.len(),
                forall|j: int| 0 <= j < i ==> (#[trigger] self.members@[j]).0@ != name@,
            decreases self.members@.len() - i,
        {
            if str_eq(self.members[i].0.as_str(), name) {
                return Some(&self.members[i].1);
            }
            i = i + 1;
        }
        None
    }

    /// The type of the member under `name`: the type an attribute evaluates
    /// to, or a method's callable type.
    pub fn get_ty(&self, name: &str) -> (r: Option<String>)
        ensures
            match r {
                Some(t) => exists|j: int| 0 <= j < self.members@.len()
                    && (#[trigger] self.members@[j]).0@ == name@ && t@ == (match self.members@[
                    j].1 {
                        UnboundValue::Attr(a, _) => a.typ@,
                        UnboundValue::Method(m) => m.ty@,
                    }),
                None => forall|j: int| 0 <= j < self.members@.len()
                    ==> (#[trigger] self.members@[j]).0@ != name@,
            },
    {
        match self.get(name) {
            None => None,
            Some(UnboundValue::Attr(a, _)) => Some(a.typ.clone()),
            Some(UnboundValue::Method(m)) => Some(m.ty.clone()),
        }
    }

    /// The registered member names, in registration order.
    pub fn names(&self) -> (r: Vec<String>)
        ensures
            r@.len() == self.members@.len(),
            forall|j: int| 0 <= j < r@.len() ==> (#[trigger] r@[j])@ == self.members@[j].0@,
    {
        let mut out: Vec<String> = Vec::new();
        let mut i: usize = 0;
        while i < self.members.len()
            invariant
                i <= self.members@.len(),
                out@.len() == i,
                forall|j: int| 0 <= j < i ==> (#[trigger] out@[j])@ == self.members@[j].0@,
            decreases self.members@.len() - i,
        {
            out.push(self.members[i].0.clone());
            i = i + 1;
        }
        out
    }

    /// Read access to the members, in registration order.
    pub fn members(&self) -> (r: &Vec<(String, UnboundValue)>)
        ensures
            *r == self.members,
    {
        &self.members
    }

    /// Fetch the documentation: the object's docstring, its member names and
    /// the given type.
    pub fn documentation(&self, ty: String) -> (r: DocType)
        ensures
            r.docs == self.docstring,
            r.members@.len() == self.members@.len(),
            forall|j: int| 0 <= j < r.members@.len() ==> (#[trigger] r.members@[j])@
                == self.members@[j].0@,
            r.ty == ty,
    {
        let docs = match &self.docstring {
            Some(d) => Some(d.clone()),
            None => None,
        };
        DocType { docs, members: self.names(), ty }
    }
}

impl MethodsBuilder {
    pub open spec fn wf(&self) -> bool {
        members_wf(self.members@)
    }

    /// Create an empty [`MethodsBuilder`], with no functions in scope.
    pub fn new() -> (r: Self)
        ensures
            r.members@.len() == 0,
            r.docstring is None,
            r.wf(),
    {
        MethodsBuilder { members: Vec::new(), docstring: None }
    }

    /// Called at the end to build a [`Methods`].
    pub fn build(self) -> (r: Methods)
        ensures
            r.members == self.members,
            r.docstring == self.docstring,
            self.wf() ==> r.wf(),
    {
        Methods { members: self.members, docstring: self.docstring }
    }

    /// A fluent API for modifying [`MethodsBuilder`] and returning the
    /// result.
    pub fn with<F: FnOnce(Self) -> Self>(self, f: F) -> (r: Self)
        requires
            call_requires(f, (self,)),
        ensures
            call_ensures(f, (self,), r),
    {
        f(self)
    }

    /// Set the raw docstring for this object.
    pub fn set_docstring(&mut self, docstring: &str)
        ensures
            final(self).members == old(self).members,
            final(self).docstring matches Some(d) && d@ == docstring@,
    {
        self.docstring = Some(docstring.to_owned());
    }

    /// Registers `member` under `name`, replacing any member already
    /// registered under that name.
    #[verifier::loop_isolation(false)]
    fn insert(&mut self, name: &str, member: UnboundValue)
        requires
            old(self).wf(),
        ensures
            final(self).wf(),
            final(self).docstring == old(self).docstring,
            (forall|j: int| 0 <= j < old(self).members@.len()
                ==> (#[trigger] old(self).members@[j]).0@ != name@) ==> final(self).members@.len()
                == old(self).members@.len() + 1 && final(self).members@[old(
                self).members@.len() as int].0@ == name@ && final(self).members@[old(
                self).members@.len() as int].1 == member && (forall|j: int|
                0 <= j < old(self).members@.len() ==> final(self).members@[j] == old(
                    self).members@[j]),
            (exists|j: int| 0 <= j < old(self).members@.len()
                && (#[trigger] old(self).members@[j]).0@ == name@) ==> exists|j: int|
                0 <= j < old(self).members@.len() && (#[trigger] old(self).members@[j]).0@ == name@
                    && final(self).members@ == old(self).members@.update(
                    j, (old(self).members@[j].0, member)),
    {
        let mut i: usize = 0;
        while i < self.members.len()
            invariant
                i <= self.members@.len(),
                *self == *old(self),
                forall|j: int| 0 <= j < i ==> (#[trigger] self.members@[j]).0@ != name@,
            decreases self.members@.len() - i,
        {
            if str_eq(self.members[i].0.as_str(), name) {
                let owned = self.members[i].0.clone();
                self.members.set(i, (owned, member));
                proof {
                    assert(self.members@ == old(self).members@.update(
                        i as int, (old(self).members@[i as int].0, member)));
                    assert forall|a: int, b: int| 0 <= a < b < self.members@.len() implies (
                    #[trigger] self.members@[a]).0@ != (#[trigger] self.members@[b]).0@ by {
                        assert(old(self).members@[a].0@ != old(self).members@[b].0@);
                    }
                }
                return;
            }
            i = i + 1;
        }
        self.members.push((name.to_owned(), member));
        proof {
            assert forall|a: int, b: int| 0 <= a < b < self.members@.len() implies (
            #[trigger] self.members@[a]).0@ != (#[trigger] self.members@[b]).0@ by {
                if b < old(self).members@.len() {
                    assert(old(self).members@[a].0@ != old(self).members@[b].0@);
                } else {
                    assert(self.members@[b].0@ == name@);
                }
            }
        }
    }

    /// Set a constant attribute value in the [`MethodsBuilder`]. The
    /// attribute ignores its receiver and performs no further computation.
    pub fn set_attribute(&mut self, name: &str, value: Value, docstring: Option<String>)
        requires
            old(self).wf(),
        ensures
            final(self).wf(),
            final(self).docstring == old(self).docstring,
            exists|j: int| 0 <= j < final(self).members@.len()
                && (#[trigger] final(self).members@[j]).0@ == name@ && (final(self).members@[j].1
                matches UnboundValue::Attr(a, body) && a.speculative_exec_safe && a.docstring
                == docstring && a.typ@ == value.spec_kind_name() && (body matches
                NativeAttrFn::Constant(v) && v == value)),
            (forall|j: int| 0 <= j < old(self).members@.len()
                ==> (#[trigger] old(self).members@[j]).0@ != name@) ==> final(
                self).members@.len() == old(self).members@.len() + 1 && final(self).members@[old(
                self).members@.len() as int].0@ == name@ && (forall|j: int|
                0 <= j < old(self).members@.len() ==> final(self).members@[j] == old(
                    self).members@[j]),
    {
        let typ = value.kind_name().to_owned();
        let ghost vsnap = value;
        let member = UnboundValue::Attr(
            NativeAttribute { speculative_exec_safe: true, docstring, typ },
            NativeAttrFn::Constant(value),
        );
        self.insert(name, member);
        proof {
            if exists|j: int| 0 <= j < old(self).members@.len()
                && (#[trigger] old(self).members@[j]).0@ == name@ {
                let j = choose|j: int| 0 <= j < old(self).members@.len()
                    && (#[trigger] old(self).members@[j]).0@ == name@
                    && final(self).members@ == old(self).members@.update(
                    j, (old(self).members@[j].0, member));
                assert(final(self).members@[j].1 == member);
            } else {
                assert(final(self).members@[old(self).members@.len() as int].1 == member);
            }
        }
    }

    /// Set a computed attribute. This is usually called from generated
    /// binding code and rarely needs to be called manually.
    pub fn set_attribute_fn(
        &mut self,
        name: &str,
        speculative_exec_safe: bool,
        docstring: Option<String>,
        typ: String,
        f: u64,
    )
        requires
            old(self).wf(),
        ensures
            final(self).wf(),
            final(self).docstring == old(self).docstring,
            exists|j: int| 0 <= j < final(self).members@.len()
                && (#[trigger] final(self).members@[j]).0@ == name@ && (final(self).members@[j].1
                matches UnboundValue::Attr(a, body) && a.speculative_exec_safe
                == speculative_exec_safe && a.docstring == docstring && a.typ == typ && (body
                matches NativeAttrFn::Callback(g) && g == f)),
            (forall|j: int| 0 <= j < old(self).members@.len()
                ==> (#[trigger] old(self).members@[j]).0@ != name@) ==> final(
                self).members@.len() == old(self).members@.len() + 1 && final(self).members@[old(
                self).members@.len() as int].0@ == name@ && (forall|j: int|
                0 <= j < old(self).members@.len() ==> final(self).members@[j] == old(
                    self).members@[j]),
    {
        let member = UnboundValue::Attr(
            NativeAttribute { speculative_exec_safe, docstring, typ },
            NativeAttrFn::Callback(f),
        );
        self.insert(name, member);
        proof {
            if exists|j: int| 0 <= j < old(self).members@.len()
                && (#[trigger] old(self).members@[j]).0@ == name@ {
                let j = choose|j: int| 0 <= j < old(self).members@.len()
                    && (#[trigger] old(self).members@[j]).0@ == name@
                    && final(self).members@ == old(self).members@.update(
                    j, (old(self).members@[j].0, member));
                assert(final(self).members@[j].1 == member);
            } else {
                assert(final(self).members@[old(self).members@.len() as int].1 == member);
            }
        }
    }

    /// Set a method. This is usually called from generated binding code and
    /// rarely needs to be called manually. The method's type is derived from
    /// its documentation.
    pub fn set_method(&mut self, name: &str, speculative_exec_safe: bool, raw_docs: String, f: u64)
        requires
            old(self).wf(),
        ensures
            final(self).wf(),
            final(self).docstring == old(self).docstring,
            exists|j: int| 0 <= j < final(self).members@.len()
                && (#[trigger] final(self).members@[j]).0@ == name@ && (final(self).members@[j].1
                matches UnboundValue::Method(m) && m.name@ == name@ && m.speculative_exec_safe
                == speculative_exec_safe && m.raw_docs == raw_docs && m.ty@ == raw_docs@
                && m.function == f),
            (forall|j: int| 0 <= j < old(self).members@.len()
                ==> (#[trigger] old(self).members@[j]).0@ != name@) ==> final(
                self).members@.len() == old(self).members@.len() + 1 && final(self).members@[old(
                self).members@.len() as int].0@ == name@ && (forall|j: int|
                0 <= j < old(self).members@.len() ==> final(self).members@[j] == old(
                    self).members@[j]),
    {
        let ty = raw_docs.clone();
        let member = UnboundValue::Method(NativeMethod {
            name: name.to_owned(),
            speculative_exec_safe,
            raw_docs,
            ty,
            function: f,
        });
        self.insert(name, member);
        proof {
            if exists|j: int| 0 <= j < old(self).members@.len()
                && (#[trigger] old(self).members@[j]).0@ == name@ {
                let j = choose|j: int| 0 <= j < old(self).members@.len()
                    && (#[trigger] old(self).members@[j]).0@ == name@
                    && final(self).members@ == old(self).members@.update(
                    j, (old(self).members@[j].0, member));
                assert(final(self).members@[j].1 == member);
            } else {
                assert(final(self).members@[old(self).members@.len() as int].1 == member);
            }
        }
    }

    /// The builder's allocation entry point: every value a member needs is
    /// owned by the member itself here, so allocating on the builder hands
    /// the value through unchanged.
    pub fn alloc_value(&self, value: Value) -> (r: Value)
        ensures
            r == value,
    {
        value
    }
}

} // verus!
