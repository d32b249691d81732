use binscope::boundaries::{build_ranges, function_syms, AddressOwnerIndex, FuncSym};
use binscope::image::{BinaryImage, Section, SectionClass, SymbolClass, SymbolEntry};
use binscope::AnalysisError;

fn sym(name: &str, addr: u64, size: u64, func: bool) -> SymbolEntry {
    SymbolEntry {
        address: addr,
        name: name.to_string(),
        size,
        class: if func { SymbolClass::Function } else { SymbolClass::Other },
    }
}

fn code_section(addr: u64, data: Vec<u8>) -> Section {
    let vsize = data.len() as u64;
    Section { addr, vsize, data, class: SectionClass::Code }
}

fn assert_ranges_wf(ranges: &[binscope::boundaries::FunctionRange]) {
    for i in 0..ranges.len() {
        assert!(ranges[i].start <= ranges[i].end);
        for j in i + 1..ranges.len() {
            assert!(ranges[i].end <= ranges[j].start, "ranges overlap");
            assert!(ranges[i].start < ranges[j].start, "ranges out of order");
        }
    }
}

#[test]
fn ranges_sorted_nonoverlapping_from_shuffled_table() {
    let symbols = vec![
        sym("c", 0x3000, 0, true),
        sym("a", 0x1000, 8, true),
        sym("data", 0x5000, 4, false),
        sym("b", 0x2000, 0x9000, true),
        sym("a_alias", 0x1000, 99, true),
    ];
    let fs = function_syms(&symbols);
    assert_eq!(
        fs,
        vec![
            FuncSym { start: 0x1000, size: 8 },
            FuncSym { start: 0x2000, size: 0x9000 },
            FuncSym { start: 0x3000, size: 0 },
        ]
    );
    let ranges = build_ranges(&fs, 0x4000);
    assert_ranges_wf(&ranges);
    // declared size wins, clipped to the next start where it would overlap
    assert_eq!(ranges[0].end, 0x1008);
    assert_eq!(ranges[1].end, 0x3000);
    // last range with zero size falls back to the section end
    assert_eq!(ranges[2].end, 0x4000);
}

#[test]
fn range_end_uses_next_start_when_size_is_zero() {
    let symbols = vec![sym("main", 0x1000, 0, true), sym("next", 0x1010, 0, true)];
    let fs = function_syms(&symbols);
    let ranges = build_ranges(&fs, 0x2000);
    assert_eq!(ranges[0].start, 0x1000);
    assert_eq!(ranges[0].end, 0x1010);
}

#[test]
fn owner_lookup_inside_and_outside() {
    let fs = vec![
        FuncSym { start: 0x1000, size: 0x10 },
        FuncSym { start: 0x1010, size: 0x10 },
        FuncSym { start: 0x2000, size: 4 },
    ];
    let ranges = build_ranges(&fs, 0);
    let idx = AddressOwnerIndex::new(ranges);
    assert_eq!(idx.owner_of(0x1000), Some(0x1000));
    assert_eq!(idx.owner_of(0x100f), Some(0x1000));
    assert_eq!(idx.owner_of(0x1010), Some(0x1010));
    assert_eq!(idx.owner_of(0x101f), Some(0x1010));
    assert_eq!(idx.owner_of(0x2003), Some(0x2000));
    assert_eq!(idx.owner_of(0x0fff), None);
    assert_eq!(idx.owner_of(0x1020), None);
    assert_eq!(idx.owner_of(0x2004), None);
    assert_eq!(idx.owner_of(u64::MAX), None);
}

#[test]
fn empty_symbol_table_synthesizes_whole_code_section() {
    let image = BinaryImage {
        sections: vec![code_section(0x4000, vec![0xc3, 0xc3, 0xc3, 0xc3])],
        symbols: vec![sym("d", 0x4000, 1, false)],
        entry: 0x4000,
    };
    let idx = binscope::boundaries::resolve_function_ranges(&image).unwrap();
    assert_eq!(idx.ranges.len(), 1);
    assert_eq!(idx.ranges[0].start, 0x4000);
    assert_eq!(idx.ranges[0].end, 0x4004);
}

#[test]
fn no_symbols_and_no_code_section_is_section_missing() {
    let image = BinaryImage {
        sections: vec![Section { addr: 0, vsize: 4, data: vec![0; 4], class: SectionClass::Data }],
        symbols: vec![],
        entry: 0,
    };
    match binscope::boundaries::resolve_function_ranges(&image) {
        Err(AnalysisError::SectionMissing) => {}
        other => panic!("expected SectionMissing, got {:?}", other.is_ok()),
    }
}

#[test]
fn resolve_ranges_uses_containing_section_end_for_last_symbol() {
    let image = BinaryImage {
        sections: vec![code_section(0x1000, vec![0x90; 0x100])],
        symbols: vec![sym("f", 0x1080, 0, true)],
        entry: 0x1000,
    };
    let idx = binscope::boundaries::resolve_function_ranges(&image).unwrap();
    assert_eq!(idx.ranges.len(), 1);
    assert_eq!(idx.ranges[0].start, 0x1080);
    assert_eq!(idx.ranges[0].end, 0x1100);
}

#[test]
fn declared_size_near_the_address_space_end_saturates() {
    let fs = vec![FuncSym { start: 0xffff_ffff_ffff_fff0, size: 0x100 }];
    let ranges = build_ranges(&fs, 0);
    assert_eq!(ranges[0].start, 0xffff_ffff_ffff_fff0);
    assert_eq!(ranges[0].end, u64::MAX);
}

#[test]
fn empty_index_owns_nothing() {
    let idx = AddressOwnerIndex::new(vec![]);
    assert_eq!(idx.owner_of(0), None);
    assert_eq!(idx.owner_of(0x1000), None);
}

#[test]
fn function_syms_keeps_first_alias_size() {
    let symbols = vec![
        sym("first", 0x1000, 7, true),
        sym("second", 0x1000, 9, true),
    ];
    let fs = function_syms(&symbols);
    assert_eq!(fs, vec![FuncSym { start: 0x1000, size: 7 }]);
}

#[test]
fn function_syms_ignores_address_zero_and_data_symbols() {
    let symbols = vec![
        sym("und", 0, 4, true),
        sym("obj", 0x2000, 4, false),
        sym("f", 0x1000, 4, true),
    ];
    let fs = function_syms(&symbols);
    assert_eq!(fs, vec![FuncSym { start: 0x1000, size: 4 }]);
}
