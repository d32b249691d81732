use binscope::libdeps::LibraryDescriptor;
use binscope::symmatch::{
    group_supplies, resolve_symbol, resolve_symbols, unmatched_names, SymbolResolution,
};

fn s(x: &str) -> String {
    x.to_string()
}

fn lib(soname: &str, exports: &[&str]) -> LibraryDescriptor {
    LibraryDescriptor {
        soname: s(soname),
        resolved_path: Some(format!("/lib/{}", soname)),
        exported_symbols: exports.iter().map(|e| s(e)).collect(),
    }
}

fn order_ab() -> Vec<LibraryDescriptor> {
    vec![lib("libA", &["foo"]), lib("libB", &["foo", "bar"])]
}

#[test]
fn earliest_exporter_in_load_order_wins() {
    let order = order_ab();
    assert_eq!(resolve_symbol(&order, &s("foo")), Some(0));
    assert_eq!(resolve_symbol(&order, &s("bar")), Some(1));
    assert_eq!(resolve_symbol(&order, &s("baz")), None);
}

#[test]
fn resolve_symbols_maps_each_name_in_order() {
    let order = order_ab();
    let undefined = vec![s("foo"), s("bar"), s("baz")];
    let resolved = resolve_symbols(&undefined, &order);
    assert_eq!(resolved.len(), 3);
    assert_eq!(resolved[0].name, "foo");
    match &resolved[0].resolution {
        SymbolResolution::ResolvedIn(so) => assert_eq!(so, "libA"),
        SymbolResolution::Unresolved => panic!("foo should resolve"),
    }
    match &resolved[1].resolution {
        SymbolResolution::ResolvedIn(so) => assert_eq!(so, "libB"),
        SymbolResolution::Unresolved => panic!("bar should resolve"),
    }
    match &resolved[2].resolution {
        SymbolResolution::ResolvedIn(_) => panic!("baz should not resolve"),
        SymbolResolution::Unresolved => {}
    }
}

#[test]
fn grouping_assigns_names_to_their_supplier() {
    let order = order_ab();
    let undefined = vec![s("bar"), s("foo"), s("baz")];
    let groups = group_supplies(&undefined, &order);
    assert_eq!(groups.len(), 2);
    assert_eq!(groups[0], vec![s("foo")]);
    assert_eq!(groups[1], vec![s("bar")]);
    let missing = unmatched_names(&undefined, &order);
    assert_eq!(missing, vec![s("baz")]);
}

#[test]
fn unresolved_library_descriptor_supplies_nothing() {
    let order = vec![
        LibraryDescriptor {
            soname: s("ghost"),
            resolved_path: None,
            exported_symbols: vec![],
        },
        lib("real", &["f"]),
    ];
    assert_eq!(resolve_symbol(&order, &s("f")), Some(1));
}

#[test]
fn empty_load_order_leaves_everything_unresolved() {
    let order: Vec<LibraryDescriptor> = vec![];
    let undefined = vec![s("x"), s("y")];
    let missing = unmatched_names(&undefined, &order);
    assert_eq!(missing, vec![s("x"), s("y")]);
}
