use binscope::libdeps::DependencyResolver;

fn s(x: &str) -> String {
    x.to_string()
}

#[test]
fn empty_declared_list_yields_empty_order_and_no_warnings() {
    let mut r = DependencyResolver::new(vec![]);
    assert_eq!(r.next_pending(), None);
    assert!(r.order.is_empty());
    assert!(r.warnings.is_empty());
}

#[test]
fn closure_preserves_first_discovery_order_without_duplicates() {
    // declared [L1, L2]; L1 depends on [L2, L3]; L2 is also declared directly
    let mut r = DependencyResolver::new(vec![s("L1"), s("L2")]);

    assert_eq!(r.next_pending(), Some(s("L1")));
    r.record_resolved(s("/lib/L1"), vec![], vec![s("L2"), s("L3")]);

    assert_eq!(r.next_pending(), Some(s("L2")));
    r.record_resolved(s("/lib/L2"), vec![], vec![]);

    assert_eq!(r.next_pending(), Some(s("L3")));
    r.record_resolved(s("/lib/L3"), vec![], vec![]);

    assert_eq!(r.next_pending(), None);

    let sonames: Vec<&str> = r.order.iter().map(|d| d.soname.as_str()).collect();
    assert_eq!(sonames, vec!["L1", "L2", "L3"]);
    assert!(r.warnings.is_empty());
}

#[test]
fn missing_library_keeps_slot_and_records_one_warning() {
    let mut r = DependencyResolver::new(vec![s("gone"), s("here")]);

    assert_eq!(r.next_pending(), Some(s("gone")));
    r.record_missing();

    assert_eq!(r.next_pending(), Some(s("here")));
    r.record_resolved(s("/lib/here"), vec![s("f")], vec![s("gone")]);

    // "gone" is already seen: the closure never queries it again
    assert_eq!(r.next_pending(), None);

    let sonames: Vec<&str> = r.order.iter().map(|d| d.soname.as_str()).collect();
    assert_eq!(sonames, vec!["gone", "here"]);
    assert!(r.order[0].resolved_path.is_none());
    assert_eq!(r.order[1].resolved_path.as_deref(), Some("/lib/here"));
    assert_eq!(r.warnings, vec![s("gone")]);
}

#[test]
fn duplicate_declared_sonames_are_visited_once() {
    let mut r = DependencyResolver::new(vec![s("A"), s("A"), s("B")]);
    assert_eq!(r.next_pending(), Some(s("A")));
    r.record_resolved(s("/A"), vec![], vec![]);
    assert_eq!(r.next_pending(), Some(s("B")));
    r.record_resolved(s("/B"), vec![], vec![]);
    assert_eq!(r.next_pending(), None);
    assert_eq!(r.order.len(), 2);
}

#[test]
fn breadth_first_order_over_two_levels() {
    // declared [A]; A -> [B, C]; B -> [D]; expect A B C D
    let mut r = DependencyResolver::new(vec![s("A")]);
    assert_eq!(r.next_pending(), Some(s("A")));
    r.record_resolved(s("/A"), vec![], vec![s("B"), s("C")]);
    assert_eq!(r.next_pending(), Some(s("B")));
    r.record_resolved(s("/B"), vec![], vec![s("D")]);
    assert_eq!(r.next_pending(), Some(s("C")));
    r.record_resolved(s("/C"), vec![], vec![]);
    assert_eq!(r.next_pending(), Some(s("D")));
    r.record_resolved(s("/D"), vec![], vec![]);
    assert_eq!(r.next_pending(), None);
    let sonames: Vec<&str> = r.order.iter().map(|d| d.soname.as_str()).collect();
    assert_eq!(sonames, vec!["A", "B", "C", "D"]);
}
