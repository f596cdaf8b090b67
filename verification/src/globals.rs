//! The global environment offered to build descriptions: a registry of named
//! globals, the library extensions the host language is configured with, and
//! the registration functions for the path-related and internal builtins.
//! The builtins themselves run in the host interpreter; here they are named
//! entries carrying opaque callback handles.

use vstd::prelude::*;

verus! {

/// The optional host-language library extensions enabled for build files.
#[derive(Clone, Copy, Debug, PartialEq, Eq, Structural)]
pub enum LibraryExtension {
    Breakpoint,
    Debug,
    EnumType,
    Filter,
    Json,
    MapFunction,
    Partial,
    Pprint,
    Pstr,
    Prepr,
    Print,
    RecordType,
    StructType,
    Typing,
    Internal,
    CallStack,
}

/// The name under which an extension registers its contribution.
pub open spec fn spec_extension_name(e: LibraryExtension) -> Seq<char> {
    match e {
        LibraryExtension::Breakpoint => "breakpoint"@,
        LibraryExtension::Debug => "debug"@,
        LibraryExtension::EnumType => "enum"@,
        LibraryExtension::Filter => "filter"@,
        LibraryExtension::Json => "json"@,
        LibraryExtension::MapFunction => "map"@,
        LibraryExtension::Partial => "partial"@,
        LibraryExtension::Pprint => "pprint"@,
        LibraryExtension::Pstr => "pstr"@,
        LibraryExtension::Prepr => "prepr"@,
        LibraryExtension::Print => "print"@,
        LibraryExtension::RecordType => "record"@,
        LibraryExtension::StructType => "struct"@,
        LibraryExtension::Typing => "typing"@,
        LibraryExtension::Internal => "internal"@,
        LibraryExtension::CallStack => "call_stack"@,
    }
}

/// The name under which an extension registers its contribution.
pub fn extension_name(e: LibraryExtension) -> (r: &'static str)
    ensures
        r@ == spec_extension_name(e),
{
    match e {
        LibraryExtension::Breakpoint => "breakpoint",
        LibraryExtension::Debug => "debug",
        LibraryExtension::EnumType => "enum",
        LibraryExtension::Filter => "filter",
        LibraryExtension::Json => "json",
        LibraryExtension::MapFunction => "map",
        LibraryExtension::Partial => "partial",
        LibraryExtension::Pprint => "pprint",
        LibraryExtension::Pstr => "pstr",
        LibraryExtension::Prepr => "prepr",
        LibraryExtension::Print => "print",
        LibraryExtension::RecordType => "record",
        LibraryExtension::StructType => "struct",
        LibraryExtension::Typing => "typing",
        LibraryExtension::Internal => "internal",
        LibraryExtension::CallStack => "call_stack",
    }
}

/// The library extensions that build files are configured with.
pub fn starlark_library_extensions_for_buck2() -> (r: Vec<LibraryExtension>)
    ensures
        r@ == expected_library_extensions(),
{
    let mut out: Vec<LibraryExtension> = Vec::new();
    out.push(LibraryExtension::Breakpoint);
    out.push(LibraryExtension::Debug);
    out.push(LibraryExtension::EnumType);
    out.push(LibraryExtension::Filter);
    out.push(LibraryExtension::Json);
    out.push(LibraryExtension::MapFunction);
    out.push(LibraryExtension::Partial);
    out.push(LibraryExtension::Pprint);
    out.push(LibraryExtension::Pstr);
    out.push(LibraryExtension::Prepr);
    out.push(LibraryExtension::Print);
    out.push(LibraryExtension::RecordType);
    out.push(LibraryExtension::StructType);
    out.push(LibraryExtension::Typing);
    out.push(LibraryExtension::Internal);
    out.push(LibraryExtension::CallStack);
    proof {
        assert(out@ =~= expected_library_extensions());
    }
    out
}

/// The extension list in its configured order.
pub open spec fn expected_library_extensions() -> Seq<LibraryExtension> {
    seq![
        LibraryExtension::Breakpoint,
        LibraryExtension::Debug,
        LibraryExtension::EnumType,
        LibraryExtension::Filter,
        LibraryExtension::Json,
        LibraryExtension::MapFunction,
        LibraryExtension::Partial,
        LibraryExtension::Pprint,
        LibraryExtension::Pstr,
        LibraryExtension::Prepr,
        LibraryExtension::Print,
        LibraryExtension::RecordType,
        LibraryExtension::StructType,
        LibraryExtension::Typing,
        LibraryExtension::Internal,
        LibraryExtension::CallStack,
    ]
}

/// One named global: a native function (by callback handle), a library
/// extension's contribution, or a namespace of further entries.
#[derive(Debug)]
pub enum GlobalEntry {
    Function(u64),
    Extension(LibraryExtension),
    Namespace(Vec<(String, GlobalEntry)>),
}

/// A registry of globals under construction, in registration order.
#[derive(Debug)]
pub struct GlobalsBuilder {
    pub entries: Vec<(String, GlobalEntry)>,
}

impl GlobalsBuilder {
    /// An empty registry.
    pub fn new() -> (r: Self)
        ensures
            r.entries@.len() == 0,
    {
        GlobalsBuilder { entries: Vec::new() }
    }

    /// Registers `entry` under `name`.
    pub fn set(&mut self, name: &str, entry: GlobalEntry)
        ensures
            final(self).entries@.len() == old(self).entries@.len() + 1,
            final(self).entries@[old(self).entries@.len() as int].0@ == name@,
            final(self).entries@[old(self).entries@.len() as int].1 == entry,
            forall|j: int| 0 <= j < old(self).entries@.len() ==> final(self).entries@[j] == old(
                self).entries@[j],
    {
        self.entries.push((name.to_owned(), entry));
    }

    /// A registry pre-populated with the given library extensions' entries.
    pub fn extended_by(extensions: &Vec<LibraryExtension>) -> (r: Self)
        ensures
            r.entries@.len() == extensions@.len(),
            forall|j: int| 0 <= j < extensions@.len() ==> (#[trigger] r.entries@[j]).0@
                == spec_extension_name(extensions@[j]) && r.entries@[j].1
                == GlobalEntry::Extension(extensions@[j]),
    {
        let mut out = GlobalsBuilder::new();
        let mut i: usize = 0;
        while i < extensions.len()
            invariant
                i <= extensions@.len(),
                out.entries@.len() == i,
                forall|j: int| 0 <= j < i ==> (#[trigger] out.entries@[j]).0@
                    == spec_extension_name(extensions@[j]) && out.entries@[j].1
                    == GlobalEntry::Extension(extensions@[j]),
            decreases extensions@.len() - i,
        {
            out.set(extension_name(extensions[i]), GlobalEntry::Extension(extensions[i]));
            i = i + 1;
        }
        out
    }

    /// A fluent API for modifying the registry and returning the result.
    pub fn with<F: FnOnce(Self) -> Self>(self, f: F) -> (r: Self)
        requires
            call_requires(f, (self,)),
        ensures
            call_ensures(f, (self,), r),
    {
        f(self)
    }

    /// Registers a namespace under `name`, built by `f` from an empty
    /// registry.
    pub fn namespace(&mut self, name: &str, inner: GlobalsBuilder)
        ensures
            final(self).entries@.len() == old(self).entries@.len() + 1,
            final(self).entries@[old(self).entries@.len() as int].0@ == name@,
            final(self).entries@[old(self).entries@.len() as int].1
                == GlobalEntry::Namespace(inner.entries),
            forall|j: int| 0 <= j < old(self).entries@.len() ==> final(self).entries@[j] == old(
                self).entries@[j],
    {
        self.set(name, GlobalEntry::Namespace(inner.entries));
    }
}

/// Callback handle of the `glob` builtin.
pub const GLOB_FN: u64 = 201;

/// Callback handle of the `package_name` builtin.
pub const PACKAGE_NAME_FN: u64 = 202;

/// Callback handle of the `get_base_path` builtin.
pub const GET_BASE_PATH_FN: u64 = 203;

/// Callback handle of the `repository_name` builtin.
pub const REPOSITORY_NAME_FN: u64 = 204;

/// Callback handle of the `get_cell_name` builtin.
pub const GET_CELL_NAME_FN: u64 = 205;

/// Callback handle of the `internal_buck2_fail` builtin.
pub const INTERNAL_BUCK2_FAIL_FN: u64 = 206;

/// Callback handle of the `internal_sub_packages` builtin.
pub const INTERNAL_SUB_PACKAGES_FN: u64 = 207;

/// Registers the path-related builtins: `glob`, `package_name`,
/// `get_base_path`, `repository_name` and `get_cell_name`. Their bodies run
/// in the host interpreter against the current build file's context.
pub fn register_path(builder: &mut GlobalsBuilder)
    ensures
        final(builder).entries@.len() == old(builder).entries@.len() + 5,
        forall|j: int| 0 <= j < old(builder).entries@.len() ==> final(builder).entries@[j] == old(
            builder).entries@[j],
        entry_is_function(final(builder).entries@[old(builder).entries@.len() as int],
            "glob"@, GLOB_FN),
        entry_is_function(final(builder).entries@[old(builder).entries@.len() as int + 1],
            "package_name"@, PACKAGE_NAME_FN),
        entry_is_function(final(builder).entries@[old(builder).entries@.len() as int + 2],
            "get_base_path"@, GET_BASE_PATH_FN),
        entry_is_function(final(builder).entries@[old(builder).entries@.len() as int + 3],
            "repository_name"@, REPOSITORY_NAME_FN),
        entry_is_function(final(builder).entries@[old(builder).entries@.len() as int + 4],
            "get_cell_name"@, GET_CELL_NAME_FN),
{
    builder.set("glob", GlobalEntry::Function(GLOB_FN));
    builder.set("package_name", GlobalEntry::Function(PACKAGE_NAME_FN));
    builder.set("get_base_path", GlobalEntry::Function(GET_BASE_PATH_FN));
    builder.set("repository_name", GlobalEntry::Function(REPOSITORY_NAME_FN));
    builder.set("get_cell_name", GlobalEntry::Function(GET_CELL_NAME_FN));
}

/// Registers `internal_buck2_fail`, a failing builtin implemented with the
/// build system's own error type, for testing purposes.
pub fn register_buck2_fail(builder: &mut GlobalsBuilder)
    ensures
        final(builder).entries@.len() == old(builder).entries@.len() + 1,
        forall|j: int| 0 <= j < old(builder).entries@.len() ==> final(builder).entries@[j] == old(
            builder).entries@[j],
        entry_is_function(final(builder).entries@[old(builder).entries@.len() as int],
            "internal_buck2_fail"@, INTERNAL_BUCK2_FAIL_FN),
{
    builder.set("internal_buck2_fail", GlobalEntry::Function(INTERNAL_BUCK2_FAIL_FN));
}

/// Registers `internal_sub_packages`, which lists the direct subpackage
/// relative paths of the current package.
pub fn register_sub_packages(builder: &mut GlobalsBuilder)
    ensures
        final(builder).entries@.len() == old(builder).entries@.len() + 1,
        forall|j: int| 0 <= j < old(builder).entries@.len() ==> final(builder).entries@[j] == old(
            builder).entries@[j],
        entry_is_function(final(builder).entries@[old(builder).entries@.len() as int],
            "internal_sub_packages"@, INTERNAL_SUB_PACKAGES_FN),
{
    builder.set("internal_sub_packages", GlobalEntry::Function(INTERNAL_SUB_PACKAGES_FN));
}

/// The entry is a native function of the given name and callback handle.
pub open spec fn entry_is_function(e: (String, GlobalEntry), name: Seq<char>, f: u64) -> bool {
    e.0@ == name && e.1 == GlobalEntry::Function(f)
}

/// Configure globals for every environment the build system evaluates: the
/// base environment holds the configured library extensions and the caller's
/// globals, and an `__internal__` namespace holds the testing builtins, the
/// extensions again, and the caller's globals again.
pub fn configure_base_globals<F: Fn(GlobalsBuilder) -> GlobalsBuilder>(configure_globals: F) -> (r:
    GlobalsBuilder)
    requires
        forall|g: GlobalsBuilder| #[trigger] call_requires(configure_globals, (g,)),
    ensures
        exists|base: GlobalsBuilder, mid: GlobalsBuilder, pre: GlobalsBuilder,
            post: GlobalsBuilder|
            {
                &&& base.entries@.len() == expected_library_extensions().len()
                &&& (forall|j: int| 0 <= j < base.entries@.len() ==> (#[trigger] base.entries@[
                    j]).1 == GlobalEntry::Extension(expected_library_extensions()[j]))
                &&& #[trigger] call_ensures(configure_globals, (base,), mid)
                &&& pre.entries@.len() == 2 + expected_library_extensions().len()
                &&& entry_is_function(pre.entries@[0], "internal_buck2_fail"@,
                    INTERNAL_BUCK2_FAIL_FN)
                &&& entry_is_function(pre.entries@[1], "internal_sub_packages"@,
                    INTERNAL_SUB_PACKAGES_FN)
                &&& (forall|j: int| 0 <= j < expected_library_extensions().len()
                    ==> (#[trigger] pre.entries@[2 + j]).1 == GlobalEntry::Extension(
                    expected_library_extensions()[j]))
                &&& #[trigger] call_ensures(configure_globals, (pre,), post)
                &&& r.entries@.len() == mid.entries@.len() + 1
                &&& (forall|j: int| 0 <= j < mid.entries@.len() ==> r.entries@[j]
                    == mid.entries@[j])
                &&& r.entries@[mid.entries@.len() as int].0@ == "__internal__"@
                &&& (r.entries@[mid.entries@.len() as int].1 matches GlobalEntry::Namespace(ns)
                    && ns == post.entries)
            },
{
    let starlark_extensions = starlark_library_extensions_for_buck2();
    let base = GlobalsBuilder::extended_by(&starlark_extensions);
    let ghost base_snap = base;
    let mut global_env = configure_globals(base);
    let ghost mid_snap = global_env;

    let mut inner = GlobalsBuilder::new();
    register_buck2_fail(&mut inner);
    register_sub_packages(&mut inner);
    let mut i: usize = 0;
    while i < starlark_extensions.len()
        invariant
            i <= starlark_extensions@.len(),
            starlark_extensions@ == expected_library_extensions(),
            inner.entries@.len() == 2 + i,
            entry_is_function(inner.entries@[0], "internal_buck2_fail"@, INTERNAL_BUCK2_FAIL_FN),
            entry_is_function(inner.entries@[1], "internal_sub_packages"@,
                INTERNAL_SUB_PACKAGES_FN),
            forall|j: int| 0 <= j < i ==> (#[trigger] inner.entries@[2 + j]).1
                == GlobalEntry::Extension(expected_library_extensions()[j]),
        decreases starlark_extensions@.len() - i,
    {
        inner.set(
            extension_name(starlark_extensions[i]),
            GlobalEntry::Extension(starlark_extensions[i]),
        );
        i = i + 1;
    }
    let ghost pre_snap = inner;
    let inner = configure_globals(inner);
    let ghost post_snap = inner;
    global_env.namespace("__internal__", inner);
    proof {
        assert({
            &&& base_snap.entries@.len() == expected_library_extensions().len()
            &&& (forall|j: int| 0 <= j < base_snap.entries@.len() ==> (
            #[trigger] base_snap.entries@[j]).1 == GlobalEntry::Extension(
                expected_library_extensions()[j]))
            &&& call_ensures(configure_globals, (base_snap,), mid_snap)
            &&& pre_snap.entries@.len() == 2 + expected_library_extensions().len()
            &&& call_ensures(configure_globals, (pre_snap,), post_snap)
        });
    }
    global_env
}

} // verus!
