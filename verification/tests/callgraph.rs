use binscope::boundaries::FunctionRange;
use binscope::callgraph::{build_call_graph, CallResolution};
use binscope::decoder::build_engine;
use binscope::image::{BinaryImage, Section, SectionClass, SymbolEntry, SymbolClass};

fn image_with_code(addr: u64, code: Vec<u8>) -> BinaryImage {
    let vsize = code.len() as u64;
    BinaryImage {
        sections: vec![Section { addr, vsize, data: code, class: SectionClass::Code }],
        symbols: vec![],
        entry: addr,
    }
}

// call rel32: e8 <rel32 little endian>, target = next insn address + rel
fn call_rel32(at: u64, target: u64) -> Vec<u8> {
    let rel = (target as i64 - (at as i64 + 5)) as i32;
    let mut v = vec![0xe8];
    v.extend_from_slice(&rel.to_le_bytes());
    v
}

#[test]
fn direct_call_edge_is_extracted() {
    // main at 0x1000: one call to 0x2000, then ret
    let mut code = call_rel32(0x1000, 0x2000);
    code.push(0xc3);
    let image = image_with_code(0x1000, code);
    let cs = build_engine().expect("engine");
    let ranges = vec![FunctionRange { start: 0x1000, end: 0x1006 }];
    let graph = build_call_graph(&cs, &image, &ranges);
    assert_eq!(graph.nodes.len(), 1);
    assert_eq!(graph.nodes[0].caller, 0x1000);
    let edges = &graph.nodes[0].edges;
    assert_eq!(edges.len(), 1);
    assert_eq!(edges[0].callee, 0x2000);
    assert_eq!(edges[0].resolution, CallResolution::Direct);
}

#[test]
fn edges_are_deduplicated_and_sorted_by_callee() {
    // three calls: 0x3000, 0x2000, 0x3000 again
    let mut code = call_rel32(0x1000, 0x3000);
    code.extend(call_rel32(0x1005, 0x2000));
    code.extend(call_rel32(0x100a, 0x3000));
    code.push(0xc3);
    let image = image_with_code(0x1000, code);
    let cs = build_engine().expect("engine");
    let ranges = vec![FunctionRange { start: 0x1000, end: 0x1010 }];
    let graph = build_call_graph(&cs, &image, &ranges);
    let edges = &graph.nodes[0].edges;
    let callees: Vec<u64> = edges.iter().map(|e| e.callee).collect();
    assert_eq!(callees, vec![0x2000, 0x3000]);
}

#[test]
fn one_callee_reached_directly_and_through_got_keeps_one_edge() {
    // at 0x1000: call 0x4000 (direct); at 0x1005: call [rip+disp] whose
    // pointer slot at 0x2000 also holds 0x4000; then ret
    let mut code = call_rel32(0x1000, 0x4000);
    let disp: i32 = (0x2000 - 0x100b) as i32;
    code.extend_from_slice(&[0xff, 0x15]);
    code.extend_from_slice(&disp.to_le_bytes());
    code.push(0xc3);
    let mut data = vec![0u8; 8];
    data.copy_from_slice(&0x4000u64.to_le_bytes());
    let image = BinaryImage {
        sections: vec![
            Section { addr: 0x1000, vsize: 0xc, data: code, class: SectionClass::Code },
            Section { addr: 0x2000, vsize: 8, data, class: SectionClass::Data },
        ],
        symbols: vec![],
        entry: 0x1000,
    };
    let cs = build_engine().expect("engine");
    let ranges = vec![FunctionRange { start: 0x1000, end: 0x100c }];
    let graph = build_call_graph(&cs, &image, &ranges);
    let edges = &graph.nodes[0].edges;
    assert_eq!(edges.len(), 1, "one edge per callee address");
    assert_eq!(edges[0].callee, 0x4000);
    assert_eq!(edges[0].resolution, CallResolution::Direct);
}

#[test]
fn rerunning_builder_on_identical_bytes_is_deterministic() {
    let mut code = call_rel32(0x1000, 0x3000);
    code.extend(call_rel32(0x1005, 0x2000));
    code.push(0xc3);
    let image = image_with_code(0x1000, code);
    let cs = build_engine().expect("engine");
    let ranges = vec![FunctionRange { start: 0x1000, end: 0x100b }];
    let g1 = build_call_graph(&cs, &image, &ranges);
    let g2 = build_call_graph(&cs, &image, &ranges);
    assert_eq!(g1.nodes.len(), g2.nodes.len());
    for (n1, n2) in g1.nodes.iter().zip(g2.nodes.iter()) {
        assert_eq!(n1.caller, n2.caller);
        let e1: Vec<(u64, CallResolution)> =
            n1.edges.iter().map(|e| (e.callee, e.resolution)).collect();
        let e2: Vec<(u64, CallResolution)> =
            n2.edges.iter().map(|e| (e.callee, e.resolution)).collect();
        assert_eq!(e1, e2);
    }
}

#[test]
fn rip_relative_call_resolves_through_mapped_pointer() {
    // at 0x1000: ff 15 <disp32> = call [rip + disp]; next insn at 0x1006
    // pointer slot at 0x2000 holds 0x4000
    let disp: i32 = (0x2000 - 0x1006) as i32;
    let mut code = vec![0xff, 0x15];
    code.extend_from_slice(&disp.to_le_bytes());
    code.push(0xc3);
    let mut data = vec![0u8; 8];
    data.copy_from_slice(&0x4000u64.to_le_bytes());
    let image = BinaryImage {
        sections: vec![
            Section { addr: 0x1000, vsize: 7, data: code, class: SectionClass::Code },
            Section { addr: 0x2000, vsize: 8, data, class: SectionClass::Data },
        ],
        symbols: vec![],
        entry: 0x1000,
    };
    let cs = build_engine().expect("engine");
    let ranges = vec![FunctionRange { start: 0x1000, end: 0x1007 }];
    let graph = build_call_graph(&cs, &image, &ranges);
    let edges = &graph.nodes[0].edges;
    assert_eq!(edges.len(), 1);
    assert_eq!(edges[0].callee, 0x4000);
    assert_eq!(edges[0].resolution, CallResolution::IndirectResolved);
}

#[test]
fn rip_relative_call_with_unmapped_pointer_is_unresolved() {
    let disp: i32 = 0x0fff_0000;
    let mut code = vec![0xff, 0x15];
    code.extend_from_slice(&disp.to_le_bytes());
    code.push(0xc3);
    let image = image_with_code(0x1000, code);
    let cs = build_engine().expect("engine");
    let ranges = vec![FunctionRange { start: 0x1000, end: 0x1007 }];
    let graph = build_call_graph(&cs, &image, &ranges);
    let edges = &graph.nodes[0].edges;
    assert_eq!(edges.len(), 1);
    assert_eq!(edges[0].resolution, CallResolution::IndirectUnresolved);
}

#[test]
fn register_indirect_call_is_unresolved() {
    // call rax = ff d0
    let image = image_with_code(0x1000, vec![0xff, 0xd0, 0xc3]);
    let cs = build_engine().expect("engine");
    let ranges = vec![FunctionRange { start: 0x1000, end: 0x1003 }];
    let graph = build_call_graph(&cs, &image, &ranges);
    let edges = &graph.nodes[0].edges;
    assert_eq!(edges.len(), 1);
    assert_eq!(edges[0].resolution, CallResolution::IndirectUnresolved);
}

#[test]
fn function_without_calls_yields_empty_edge_set() {
    let image = image_with_code(0x1000, vec![0x90, 0x90, 0xc3]);
    let cs = build_engine().expect("engine");
    let ranges = vec![FunctionRange { start: 0x1000, end: 0x1003 }];
    let graph = build_call_graph(&cs, &image, &ranges);
    assert!(graph.nodes[0].edges.is_empty());
}

#[test]
fn unmapped_function_range_yields_empty_edge_set() {
    let image = image_with_code(0x1000, vec![0xc3]);
    let cs = build_engine().expect("engine");
    let ranges = vec![FunctionRange { start: 0x9000, end: 0x9010 }];
    let graph = build_call_graph(&cs, &image, &ranges);
    assert_eq!(graph.nodes.len(), 1);
    assert!(graph.nodes[0].edges.is_empty());
}

#[test]
fn symbols_do_not_disturb_edge_extraction() {
    let mut code = call_rel32(0x1000, 0x2000);
    code.push(0xc3);
    let mut image = image_with_code(0x1000, code);
    image.symbols.push(SymbolEntry {
        address: 0x1000,
        name: "main".to_string(),
        size: 0,
        class: SymbolClass::Function,
    });
    let cs = build_engine().expect("engine");
    let ranges = vec![FunctionRange { start: 0x1000, end: 0x1006 }];
    let graph = build_call_graph(&cs, &image, &ranges);
    assert_eq!(graph.nodes[0].edges[0].callee, 0x2000);
}
