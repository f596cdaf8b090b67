use transitive_set::globals::configure_base_globals;
use transitive_set::globals::register_buck2_fail;
use transitive_set::globals::register_path;
use transitive_set::globals::register_sub_packages;
use transitive_set::globals::starlark_library_extensions_for_buck2;
use transitive_set::globals::GlobalEntry;
use transitive_set::globals::GlobalsBuilder;
use transitive_set::globals::LibraryExtension;
use transitive_set::globals::GLOB_FN;

#[test]
fn test_starlark_library_extensions_for_buck2() {
    let exts = starlark_library_extensions_for_buck2();
    assert_eq!(exts.len(), 16);
    assert_eq!(exts[0], LibraryExtension::Breakpoint);
    assert_eq!(exts[4], LibraryExtension::Json);
    assert_eq!(exts[15], LibraryExtension::CallStack);
}

#[test]
fn test_register_path() {
    let mut builder = GlobalsBuilder::new();
    register_path(&mut builder);
    let names: Vec<&str> = builder.entries.iter().map(|(n, _)| n.as_str()).collect();
    assert_eq!(
        names,
        vec!["glob", "package_name", "get_base_path", "repository_name", "get_cell_name"]
    );
    assert!(matches!(builder.entries[0].1, GlobalEntry::Function(f) if f == GLOB_FN));
}

#[test]
fn test_register_internal_builtins() {
    let mut builder = GlobalsBuilder::new();
    register_buck2_fail(&mut builder);
    register_sub_packages(&mut builder);
    let names: Vec<&str> = builder.entries.iter().map(|(n, _)| n.as_str()).collect();
    assert_eq!(names, vec!["internal_buck2_fail", "internal_sub_packages"]);
}

#[test]
fn test_configure_base_globals() {
    let env = configure_base_globals(|mut g: GlobalsBuilder| {
        g.set("my_global", GlobalEntry::Function(900));
        g
    });
    // 16 extensions, the configured global, and the internal namespace.
    assert_eq!(env.entries.len(), 18);
    assert_eq!(env.entries[16].0, "my_global");
    let (name, last) = &env.entries[17];
    assert_eq!(name, "__internal__");
    match last {
        GlobalEntry::Namespace(inner) => {
            // the testing builtins, the extensions again, and the configured
            // global again
            assert_eq!(inner.len(), 2 + 16 + 1);
            assert_eq!(inner[0].0, "internal_buck2_fail");
            assert_eq!(inner[1].0, "internal_sub_packages");
            assert_eq!(inner[18].0, "my_global");
        }
        other => panic!("expected the internal namespace, got {:?}", other),
    }
}
