use binscope::boundaries::AddressOwnerIndex;
use binscope::callgraph::{CallEdge, CallGraph, CallGraphNode, CallResolution};
use binscope::calltree::{resolve_root, walk_tree, TreeEntryKind};
use binscope::image::{BinaryImage, Section, SectionClass, SymbolClass, SymbolEntry};
use binscope::render::render_tree;
use binscope::AnalysisError;

fn edge(caller: u64, callee: u64) -> CallEdge {
    CallEdge { caller, callee, resolution: CallResolution::Direct }
}

fn graph_of(nodes: Vec<(u64, Vec<CallEdge>)>) -> CallGraph {
    CallGraph {
        nodes: nodes
            .into_iter()
            .map(|(caller, edges)| CallGraphNode { caller, edges })
            .collect(),
    }
}

#[test]
fn cycle_emits_exactly_one_marker_and_terminates() {
    // A calls B, B calls A
    let graph = graph_of(vec![
        (0x1000, vec![edge(0x1000, 0x2000)]),
        (0x2000, vec![edge(0x2000, 0x1000)]),
    ]);
    let entries = walk_tree(&graph, 0x1000);
    let cycles = entries
        .iter()
        .filter(|e| e.kind == TreeEntryKind::CycleDetected)
        .count();
    assert_eq!(cycles, 1);
    let kinds: Vec<(usize, u64, TreeEntryKind)> =
        entries.iter().map(|e| (e.depth, e.addr, e.kind)).collect();
    assert_eq!(
        kinds,
        vec![
            (0, 0x1000, TreeEntryKind::Visit),
            (1, 0x2000, TreeEntryKind::Visit),
            (2, 0x1000, TreeEntryKind::Visit),
            (3, 0x1000, TreeEntryKind::CycleDetected),
        ]
    );
}

#[test]
fn self_recursive_function_emits_one_marker() {
    let graph = graph_of(vec![(0x1000, vec![edge(0x1000, 0x1000)])]);
    let entries = walk_tree(&graph, 0x1000);
    let cycles = entries
        .iter()
        .filter(|e| e.kind == TreeEntryKind::CycleDetected)
        .count();
    assert_eq!(cycles, 1);
}

#[test]
fn sibling_branches_may_revisit_without_cycle_marker() {
    // root calls A and B; both call C; C is clean on each branch
    let graph = graph_of(vec![
        (0x1000, vec![edge(0x1000, 0x2000), edge(0x1000, 0x3000)]),
        (0x2000, vec![edge(0x2000, 0x4000)]),
        (0x3000, vec![edge(0x3000, 0x4000)]),
        (0x4000, vec![]),
    ]);
    let entries = walk_tree(&graph, 0x1000);
    let cycles = entries
        .iter()
        .filter(|e| e.kind == TreeEntryKind::CycleDetected)
        .count();
    assert_eq!(cycles, 0);
    let visits_of_c = entries
        .iter()
        .filter(|e| e.kind == TreeEntryKind::Visit && e.addr == 0x4000)
        .count();
    assert_eq!(visits_of_c, 2);
}

#[test]
fn unresolved_call_prints_marker_line_instead_of_descending() {
    let graph = graph_of(vec![(
        0x1000,
        vec![CallEdge {
            caller: 0x1000,
            callee: 0x1002,
            resolution: CallResolution::IndirectUnresolved,
        }],
    )]);
    let entries = walk_tree(&graph, 0x1000);
    assert_eq!(entries.len(), 2);
    assert_eq!(entries[1].kind, TreeEntryKind::UnresolvedCall);
    assert_eq!(entries[1].addr, 0x1002);
    assert_eq!(entries[1].depth, 1);
}

fn sym(name: &str, addr: u64) -> SymbolEntry {
    SymbolEntry {
        address: addr,
        name: name.to_string(),
        size: 0,
        class: SymbolClass::Function,
    }
}

#[test]
fn tree_lines_name_symbols_and_addresses() {
    // main at 0x1000 calls 0x2000 (no symbol there)
    let graph = graph_of(vec![(0x1000, vec![edge(0x1000, 0x2000)])]);
    let entries = walk_tree(&graph, 0x1000);
    let symbols = vec![sym("main", 0x1000)];
    let idx = AddressOwnerIndex::new(vec![binscope::boundaries::FunctionRange {
        start: 0x1000,
        end: 0x1010,
    }]);
    let lines = render_tree(&entries, &symbols, &idx);
    assert_eq!(lines[0], "main (0x1000)");
    assert_eq!(lines[1], "    0x2000 (0x2000)");
}

#[test]
fn body_addresses_render_as_owner_plus_offset() {
    let graph = graph_of(vec![(0x1000, vec![edge(0x1000, 0x1004)])]);
    let entries = walk_tree(&graph, 0x1000);
    let symbols = vec![sym("main", 0x1000)];
    let idx = AddressOwnerIndex::new(vec![binscope::boundaries::FunctionRange {
        start: 0x1000,
        end: 0x1010,
    }]);
    let lines = render_tree(&entries, &symbols, &idx);
    assert_eq!(lines[1], "    main+0x4 (0x1004)");
}

fn image_for_root(symbols: Vec<SymbolEntry>, entry: u64) -> BinaryImage {
    BinaryImage {
        sections: vec![Section {
            addr: 0x1000,
            vsize: 0x100,
            data: vec![0x90; 0x100],
            class: SectionClass::Code,
        }],
        symbols,
        entry,
    }
}

#[test]
fn root_prefers_requested_symbol_name() {
    let image = image_for_root(vec![sym("main", 0x1000), sym("start", 0x1080)], 0x1040);
    assert_eq!(resolve_root(&image, Some("start")), Ok(0x1080));
}

#[test]
fn root_falls_back_to_entry_inside_code() {
    let image = image_for_root(vec![sym("main", 0x1000)], 0x1040);
    assert_eq!(resolve_root(&image, Some("absent")), Ok(0x1040));
    assert_eq!(resolve_root(&image, None), Ok(0x1040));
}

#[test]
fn root_falls_back_to_main_symbol() {
    let mut image = image_for_root(vec![sym("main", 0x1000)], 0x9000);
    image.sections[0].class = SectionClass::Data;
    assert_eq!(resolve_root(&image, None), Ok(0x1000));
}

#[test]
fn scenario_symbol_table_with_one_call_yields_named_tree() {
    // main at 0x1000 with declared size zero, the next symbol at 0x1010:
    // the inferred range is [0x1000, 0x1010).  main's bytes hold a single
    // direct call to 0x2000, so the call graph for 0x1000 is [0x2000] and
    // the tree from root "main" names main and one indented child.
    let mut code = vec![0u8; 0x20];
    // call rel32 at 0x1000 to 0x2000: e8 fb 0f 00 00
    code[0] = 0xe8;
    code[1..5].copy_from_slice(&0x0ffbu32.to_le_bytes());
    code[5] = 0xc3; // ret
    code[0x10] = 0xc3; // the next function's body
    let image = BinaryImage {
        sections: vec![Section {
            addr: 0x1000,
            vsize: 0x20,
            data: code,
            class: SectionClass::Code,
        }],
        symbols: vec![sym("main", 0x1000), sym("helper", 0x1010)],
        entry: 0x1000,
    };
    let idx = binscope::boundaries::resolve_function_ranges(&image).unwrap();
    assert_eq!(idx.ranges[0].start, 0x1000);
    assert_eq!(idx.ranges[0].end, 0x1010);

    let cs = binscope::decoder::build_engine().expect("engine");
    let graph = binscope::callgraph::build_call_graph(&cs, &image, &idx.ranges);
    let callees: Vec<u64> = graph.nodes[0].edges.iter().map(|e| e.callee).collect();
    assert_eq!(callees, vec![0x2000]);

    let root = resolve_root(&image, Some("main")).unwrap();
    assert_eq!(root, 0x1000);
    let entries = walk_tree(&graph, root);
    let lines = render_tree(&entries, &image.symbols, &idx);
    assert_eq!(lines[0], "main (0x1000)");
    assert_eq!(lines[1], "    0x2000 (0x2000)");
}

#[test]
fn root_not_found_when_no_rule_applies() {
    let mut image = image_for_root(vec![sym("helper", 0x1000)], 0x9000);
    image.sections[0].class = SectionClass::Data;
    assert_eq!(resolve_root(&image, Some("absent")), Err(AnalysisError::RootNotFound));
}
